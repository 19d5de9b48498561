//! The protocol between the daemon and the launcher window.

use vstd::prelude::*;

use crate::frames;
use crate::frames::{FrameError, Versions};
use crate::ipc;
use crate::ipc::PROTOCOL_VERSION;
use crate::text;

verus! {

/// What the daemon asks of the launcher window.
#[derive(Clone, Copy, Debug, PartialEq, Eq, Structural)]
pub enum GuiCommand {
    /// Show the window, unless it is visible.
    Show,
    /// Hide the window, unless it is hidden.
    Hide,
    /// Hide a visible window, show a hidden one.
    Toggle,
    /// Close the window and leave.
    Quit,
    /// Say whether the window is visible.
    Ping,
    /// Drop the remembered session; the visibility stays.
    ClearSession,
}

/// The launcher's answer.
#[derive(Clone, Debug, PartialEq, Eq)]
pub enum GuiResponse {
    /// The command was carried out; `visible` is how the window is now.
    Done { visible: bool },
    Error(String),
}

/// The version that the channel understands.
pub open spec fn versions() -> Versions {
    Versions { min: PROTOCOL_VERSION, max: PROTOCOL_VERSION }
}

/// Where the launcher's socket is.
pub fn gui_socket_path(runtime_dir: Option<&str>, uid: u32) -> (r: String)
    ensures
        r@ == ipc::socket_place(ipc::opt_text(runtime_dir), uid, "lixun-gui"@),
{
    ipc::socket_in(runtime_dir, uid, "lixun-gui")
}

/// The frame of a serialised message.
pub fn write_frame_sync(payload: &[u8]) -> (r: Result<Vec<u8>, FrameError>)
    ensures
        match r {
            Ok(f) => 2 + payload@.len() <= u32::MAX && f@ == frames::frame(
                PROTOCOL_VERSION,
                payload@,
            ),
            Err(e) => 2 + payload@.len() > u32::MAX && e == FrameError::TooLarge,
        },
{
    frames::encode_frame(PROTOCOL_VERSION, payload)
}

/// The payload of the frame that the bytes begin with; a fault where they
/// end inside it.
pub fn read_frame_sync(bytes: &[u8]) -> (r: Result<Vec<u8>, FrameError>)
    ensures
        frames::frame_view(r) == frames::whole_frame(bytes@, versions()),
{
    frames::read_frame(bytes, Versions { min: PROTOCOL_VERSION, max: PROTOCOL_VERSION })
}

/// The message of a fault.
pub open spec fn error_message(e: FrameError) -> Seq<char> {
    match e {
        FrameError::TooShort => "frame too short for version"@,
        FrameError::Version(v) => "version mismatch: expected "@ + text::decimal(
            PROTOCOL_VERSION as nat,
        ) + ", got "@ + text::decimal(v as nat),
        FrameError::TooLarge => "frame too large"@,
        FrameError::Truncated => "failed to fill whole buffer"@,
    }
}

/// The message of a fault.
pub fn error_text(e: FrameError) -> (r: String)
    ensures
        r@ == error_message(e),
{
    match e {
        FrameError::TooShort => "frame too short for version".to_string(),
        FrameError::Version(v) => {
            let mut s = "version mismatch: expected ".to_string();
            s.push_str(text::decimal_u64(PROTOCOL_VERSION as u64).as_str());
            s.push_str(", got ");
            s.push_str(text::decimal_u64(v as u64).as_str());
            s
        },
        FrameError::TooLarge => "frame too large".to_string(),
        FrameError::Truncated => "failed to fill whole buffer".to_string(),
    }
}

/// Law: what the launcher is sent it reads back, whatever follows, and
/// nothing of what follows is used up; cut short anywhere, it is refused,
/// and so is a frame of another version.
pub proof fn law_round_trip(payload: Seq<u8>, rest: Seq<u8>, cut: int, other: u16)
    requires
        2 + payload.len() <= u32::MAX,
        0 <= cut < frames::frame(PROTOCOL_VERSION, payload).len(),
        other != PROTOCOL_VERSION,
    ensures
        frames::scan(
            frames::DecodeState::Header,
            frames::frame(PROTOCOL_VERSION, payload) + rest,
            versions(),
        ).rest == rest,
        frames::whole_frame(frames::frame(PROTOCOL_VERSION, payload) + rest, versions()) == Ok::<
            Seq<u8>,
            FrameError,
        >(payload),
        frames::whole_frame(frames::frame(PROTOCOL_VERSION, payload).take(cut), versions())
            == Err::<Seq<u8>, FrameError>(FrameError::Truncated),
        frames::whole_frame(frames::frame(other, payload) + rest, versions()) == Err::<
            Seq<u8>,
            FrameError,
        >(FrameError::Version(other)),
{
    frames::law_round_trip(PROTOCOL_VERSION, payload, rest, versions());
    frames::law_whole_frame(PROTOCOL_VERSION, payload, rest, cut, versions());
    frames::law_version_is_checked(other, payload, rest, versions());
}

/// Law: the message about another version ends in that version.
pub proof fn law_another_version_is_named(v: u16)
    ensures
        text::decimal(v as nat).is_suffix_of(error_message(FrameError::Version(v))),
{
    let s = error_message(FrameError::Version(v));
    let tail = text::decimal(v as nat);
    assert(s.subrange(s.len() - tail.len(), s.len() as int) =~= tail);
}

} // verus!
