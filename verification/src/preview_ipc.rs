//! The protocol between the daemon and the preview process.

use std::marker::PhantomData;

use bytes::BytesMut;
use vstd::prelude::*;

use crate::frames;
use crate::frames::{DecodeState, FrameError, Versions};
use crate::ipc;
use crate::model::Hit;
use crate::paths;
use crate::text;

verus! {

/// The version that is written.
pub const PROTOCOL_VERSION: u16 = 1;

/// The oldest version that is understood.
pub const MIN_PROTOCOL_VERSION: u16 = 1;

/// What the daemon asks of the preview process. The epochs grow.
#[derive(Clone, Debug, PartialEq, Eq)]
pub enum PreviewCommand {
    /// Show the hit, on the named monitor.
    ShowOrUpdate { epoch: u64, hit: Hit, monitor: Option<String> },
    /// Hide the window and stay alive.
    Close { epoch: u64 },
    /// Hide the window at the user's wish and stay alive.
    Hide { epoch: u64 },
    /// Are you there?
    Ping,
    /// Make the exported surface the parent of the window.
    SetParent { handle: String },
    /// Let go of the parent.
    ClearParent,
}

/// What the preview process tells the daemon.
#[derive(Clone, Debug, PartialEq, Eq)]
pub enum PreviewEvent {
    /// The process is up.
    Ready { pid: u32 },
    /// The window is hidden.
    Closed { epoch: u64 },
    /// A hit could not be shown.
    Error { epoch: u64, msg: String },
    /// The parent surface is gone.
    ParentLost,
}

/// The versions that the channel supports.
pub open spec fn versions() -> Versions {
    Versions { min: MIN_PROTOCOL_VERSION, max: PROTOCOL_VERSION }
}

/// Frames the messages of the channel: reads `I`, writes `O`.
pub struct FrameCodec<I, O> {
    pub state: DecodeState,
    pub messages: PhantomData<(I, O)>,
}

/// The daemon's side of the channel.
pub type DaemonPreviewCodec = FrameCodec<PreviewEvent, PreviewCommand>;

/// The preview process's side of the channel.
pub type PreviewBinCodec = FrameCodec<PreviewCommand, PreviewEvent>;

impl<I, O> Default for FrameCodec<I, O> {
    fn default() -> (r: Self)
        ensures
            r.state == DecodeState::Header,
    {
        FrameCodec { state: DecodeState::Header, messages: PhantomData }
    }
}

impl<I, O> FrameCodec<I, O> {
    /// A codec that waits for a frame.
    pub fn new() -> (r: Self)
        ensures
            r.state == DecodeState::Header,
    {
        FrameCodec { state: DecodeState::Header, messages: PhantomData }
    }

    /// Appends the frame of a serialised message, unless its length does
    /// not fit in four bytes.
    pub fn encode(&mut self, payload: &[u8], dst: &mut BytesMut) -> (r: Result<(), FrameError>)
        requires
            frames::buffered(*old(dst)).len() + 6 + payload@.len() <= isize::MAX,
        ensures
            final(self).state == old(self).state,
            match r {
                Ok(_) => 2 + payload@.len() <= u32::MAX && frames::buffered(*final(dst))
                    == frames::buffered(*old(dst)) + frames::frame(PROTOCOL_VERSION, payload@),
                Err(e) => 2 + payload@.len() > u32::MAX && e == FrameError::TooLarge
                    && frames::buffered(*final(dst)) == frames::buffered(*old(dst)),
            },
    {
        if payload.len() > 4294967293 {
            return Err(FrameError::TooLarge);
        }
        frames::append_frame(dst, PROTOCOL_VERSION, payload);
        Ok(())
    }

    /// Takes the next payload off the front of the buffer; nothing where
    /// bytes are missing. [`FrameCodec::accept`] follows once the payload
    /// has been understood.
    pub fn decode(&mut self, src: &mut BytesMut) -> (r: Result<Option<Vec<u8>>, FrameError>)
        requires
            frames::sound(old(self).state),
        ensures
            frames::sound(final(self).state),
            ({
                let s = frames::scan(
                    old(self).state,
                    frames::buffered(*old(src)),
                    versions(),
                );
                &&& final(self).state == s.state
                &&& frames::buffered(*final(src)) == s.rest
                &&& frames::result_view(r) == s.result
            }),
    {
        let mut state = self.state;
        let r = frames::decode(
            &mut state,
            src,
            Versions { min: MIN_PROTOCOL_VERSION, max: PROTOCOL_VERSION },
        );
        self.state = state;
        r
    }

    /// Turns to the next frame.
    pub fn accept(&mut self)
        ensures
            final(self).state == DecodeState::Header,
    {
        self.state = DecodeState::Header;
    }
}

/// The message of a fault that a codec finds.
pub open spec fn error_message(e: FrameError) -> Seq<char> {
    match e {
        FrameError::TooShort => "preview frame too short for version"@,
        FrameError::Version(v) => "preview version "@ + text::decimal(v as nat)
            + " outside supported "@ + ipc::range_text(MIN_PROTOCOL_VERSION, PROTOCOL_VERSION),
        FrameError::TooLarge => "preview frame too large"@,
        FrameError::Truncated => "failed to fill whole buffer"@,
    }
}

/// The message of a fault that a codec finds.
pub fn error_text(e: FrameError) -> (r: String)
    ensures
        r@ == error_message(e),
{
    match e {
        FrameError::TooShort => "preview frame too short for version".to_string(),
        FrameError::Version(v) => {
            let mut s = "preview version ".to_string();
            s.push_str(text::decimal_u64(v as u64).as_str());
            s.push_str(" outside supported ");
            s.push_str(ipc::supported_range(MIN_PROTOCOL_VERSION, PROTOCOL_VERSION).as_str());
            s
        },
        FrameError::TooLarge => "preview frame too large".to_string(),
        FrameError::Truncated => "failed to fill whole buffer".to_string(),
    }
}

/// The message of a fault that the blocking functions find.
pub open spec fn sync_error_message(e: FrameError) -> Seq<char> {
    match e {
        FrameError::TooShort => "frame too short for version"@,
        FrameError::Version(v) => "preview protocol version mismatch: supported "@
            + ipc::range_text(MIN_PROTOCOL_VERSION, PROTOCOL_VERSION) + ", got "@ + text::decimal(
            v as nat,
        ),
        FrameError::TooLarge => "frame too large"@,
        FrameError::Truncated => "failed to fill whole buffer"@,
    }
}

/// The message of a fault that the blocking functions find.
pub fn sync_error_text(e: FrameError) -> (r: String)
    ensures
        r@ == sync_error_message(e),
{
    match e {
        FrameError::TooShort => "frame too short for version".to_string(),
        FrameError::Version(v) => {
            let mut s = "preview protocol version mismatch: supported ".to_string();
            s.push_str(ipc::supported_range(MIN_PROTOCOL_VERSION, PROTOCOL_VERSION).as_str());
            s.push_str(", got ");
            s.push_str(text::decimal_u64(v as u64).as_str());
            s
        },
        FrameError::TooLarge => "frame too large".to_string(),
        FrameError::Truncated => "failed to fill whole buffer".to_string(),
    }
}

/// The frame of a serialised message.
pub fn write_frame_sync(payload: &[u8]) -> (r: Result<Vec<u8>, FrameError>)
    ensures
        match r {
            Ok(f) => 2 + payload@.len() <= u32::MAX && f@ == frames::frame(
                PROTOCOL_VERSION,
                payload@,
            ),
            Err(e) => 2 + payload@.len() > u32::MAX && e == FrameError::TooLarge,
        },
{
    frames::encode_frame(PROTOCOL_VERSION, payload)
}

/// The payload of the frame that the bytes begin with; a fault where they
/// end inside it.
pub fn read_frame_sync(bytes: &[u8]) -> (r: Result<Vec<u8>, FrameError>)
    ensures
        frames::frame_view(r) == frames::whole_frame(bytes@, versions()),
{
    frames::read_frame(bytes, Versions { min: MIN_PROTOCOL_VERSION, max: PROTOCOL_VERSION })
}

/// Where the socket of a preview process is, below a directory that only
/// the user can read.
pub fn preview_socket_path(runtime_dir: &str, pid: u32) -> (r: String)
    ensures
        r@ == paths::join_of(
            runtime_dir@,
            "lixun-preview-"@ + text::decimal(pid as nat) + ".sock"@,
        ),
{
    let mut file = "lixun-preview-".to_string();
    file.push_str(text::decimal_u64(pid as u64).as_str());
    file.push_str(".sock");
    paths::join(runtime_dir, file.as_str())
}

/// The directory for sockets where there is no runtime directory.
pub fn fallback_runtime_dir(temp_dir: &str, uid: u32) -> (r: String)
    ensures
        r@ == paths::join_of(temp_dir@, "lixun-"@ + text::decimal(uid as nat)),
{
    let mut file = "lixun-".to_string();
    file.push_str(text::decimal_u64(uid as u64).as_str());
    paths::join(temp_dir, file.as_str())
}

/// Law: what one side writes the other reads back, whatever follows, and
/// nothing of what follows is used up; cut short anywhere, it is refused,
/// and so is a frame of another version.
pub proof fn law_round_trip(payload: Seq<u8>, rest: Seq<u8>, cut: int, other: u16)
    requires
        2 + payload.len() <= u32::MAX,
        0 <= cut < frames::frame(PROTOCOL_VERSION, payload).len(),
        other != PROTOCOL_VERSION,
    ensures
        frames::scan(
            DecodeState::Header,
            frames::frame(PROTOCOL_VERSION, payload) + rest,
            versions(),
        ).rest == rest,
        frames::whole_frame(frames::frame(PROTOCOL_VERSION, payload) + rest, versions()) == Ok::<
            Seq<u8>,
            FrameError,
        >(payload),
        frames::whole_frame(frames::frame(PROTOCOL_VERSION, payload).take(cut), versions())
            == Err::<Seq<u8>, FrameError>(FrameError::Truncated),
        frames::whole_frame(frames::frame(other, payload) + rest, versions()) == Err::<
            Seq<u8>,
            FrameError,
        >(FrameError::Version(other)),
{
    frames::law_round_trip(PROTOCOL_VERSION, payload, rest, versions());
    frames::law_whole_frame(PROTOCOL_VERSION, payload, rest, cut, versions());
    frames::law_version_is_checked(other, payload, rest, versions());
}

/// Law: the message about another version ends in that version.
pub proof fn law_another_version_is_named(v: u16)
    ensures
        text::decimal(v as nat).is_suffix_of(sync_error_message(FrameError::Version(v))),
{
    let s = sync_error_message(FrameError::Version(v));
    let tail = text::decimal(v as nat);
    assert(s.subrange(s.len() - tail.len(), s.len() as int) =~= tail);
}

} // verus!
