//! Which hits are audio or video, and how each is shown.

use vstd::prelude::*;

use crate::hits;
use crate::hits::SizingPreference;
use crate::model::Hit;
use crate::paths;
use crate::text;

verus! {

/// Whether a lowercase extension is that of an audio file.
pub open spec fn audio_extension(e: Seq<char>) -> bool {
    e == "mp3"@ || e == "flac"@ || e == "ogg"@ || e == "oga"@ || e == "wav"@ || e == "m4a"@ || e
        == "aac"@ || e == "opus"@ || e == "wma"@
}

/// Whether a lowercase extension is that of a video file.
pub open spec fn video_extension(e: Seq<char>) -> bool {
    e == "mp4"@ || e == "mkv"@ || e == "webm"@ || e == "mov"@ || e == "avi"@ || e == "wmv"@ || e
        == "m4v"@ || e == "flv"@ || e == "mpg"@ || e == "mpeg"@ || e == "3gp"@ || e == "ts"@
}

/// Whether a path has an audio extension, whatever the case of its letters.
pub open spec fn audio_path(path: Seq<char>) -> bool {
    paths::lower_extension_of(path) matches Some(e) && audio_extension(e)
}

/// Whether a path has a video extension, whatever the case of its letters.
pub open spec fn video_path(path: Seq<char>) -> bool {
    paths::lower_extension_of(path) matches Some(e) && video_extension(e)
}

/// Whether a lowercase extension is that of an audio file.
pub fn is_audio_extension(e: &str) -> (r: bool)
    ensures
        r == audio_extension(e@),
{
    text::text_eq(e, "mp3") || text::text_eq(e, "flac") || text::text_eq(e, "ogg")
        || text::text_eq(e, "oga") || text::text_eq(e, "wav") || text::text_eq(e, "m4a")
        || text::text_eq(e, "aac") || text::text_eq(e, "opus") || text::text_eq(e, "wma")
}

/// Whether a lowercase extension is that of a video file.
pub fn is_video_extension(e: &str) -> (r: bool)
    ensures
        r == video_extension(e@),
{
    text::text_eq(e, "mp4") || text::text_eq(e, "mkv") || text::text_eq(e, "webm")
        || text::text_eq(e, "mov") || text::text_eq(e, "avi") || text::text_eq(e, "wmv")
        || text::text_eq(e, "m4v") || text::text_eq(e, "flv") || text::text_eq(e, "mpg")
        || text::text_eq(e, "mpeg") || text::text_eq(e, "3gp") || text::text_eq(e, "ts")
}

/// Whether a path has an audio extension.
pub fn is_audio(path: &str) -> (r: bool)
    ensures
        r == audio_path(path@),
{
    match paths::lower_extension(path) {
        Some(e) => is_audio_extension(e.as_str()),
        None => false,
    }
}

/// Whether a path has a video extension.
pub fn is_video(path: &str) -> (r: bool)
    ensures
        r == video_path(path@),
{
    match paths::lower_extension(path) {
        Some(e) => is_video_extension(e.as_str()),
        None => false,
    }
}

/// Plays audio and video.
pub struct AvPreview;

/// How well audio and video suit a hit: by its extension, or else by its
/// label.
pub open spec fn score(hit: Hit) -> u32 {
    match hits::action_path(hit.action) {
        Some(p) => if audio_path(p) || video_path(p) {
            80
        } else if hits::label_begins(hit, "audio/"@) || hits::label_begins(hit, "video/"@) {
            60
        } else {
            0
        },
        None => 0,
    }
}

impl AvPreview {
    /// The name of the preview.
    pub fn id(&self) -> (r: &'static str)
        ensures
            r@ == "av"@,
    {
        "av"
    }

    /// How well the preview suits a hit.
    pub fn match_score(&self, hit: &Hit) -> (r: u32)
        ensures
            r == score(*hit),
    {
        match hits::file_path(hit) {
            Some(path) => {
                if is_audio(path.as_str()) || is_video(path.as_str()) {
                    80
                } else if hits::label_starts_with(hit, "audio/") || hits::label_starts_with(
                    hit,
                    "video/",
                ) {
                    60
                } else {
                    0
                }
            },
            None => 0,
        }
    }

    /// How the window is sized.
    pub fn sizing(&self) -> (r: SizingPreference)
        ensures
            r == SizingPreference::FixedCap,
    {
        SizingPreference::FixedCap
    }
}

/// What plays a file.
#[derive(Clone, Copy, Debug, PartialEq, Eq, Structural)]
pub enum Player {
    /// A picture and controls; nothing asks for a video stream.
    Audio,
    Video,
}

/// How a file is shown.
#[derive(Clone, Debug, PartialEq, Eq)]
pub struct AvView {
    pub player: Player,
    pub title: String,
    pub kind: String,
}

/// How a file is shown. What is not known to be audio is played as video.
pub fn view(path: &str) -> (r: AvView)
    ensures
        r.player == (if audio_path(path@) {
            Player::Audio
        } else {
            Player::Video
        }),
        r.title@ == hits::name_or(path@, "(unknown)"@),
        r.kind@ == (if audio_path(path@) {
            "audio"@
        } else {
            "video"@
        }),
{
    let audio = is_audio(path);
    AvView {
        player: if audio {
            Player::Audio
        } else {
            Player::Video
        },
        title: hits::file_name_or(path, "(unknown)"),
        kind: if audio {
            "audio".to_string()
        } else {
            "video".to_string()
        },
    }
}

/// Law: no extension is both that of an audio and of a video file.
pub proof fn law_audio_is_not_video(e: Seq<char>)
    ensures
        !(audio_extension(e) && video_extension(e)),
{
    reveal_strlit("mp3");
    reveal_strlit("flac");
    reveal_strlit("ogg");
    reveal_strlit("oga");
    reveal_strlit("wav");
    reveal_strlit("m4a");
    reveal_strlit("aac");
    reveal_strlit("opus");
    reveal_strlit("wma");
    reveal_strlit("mp4");
    reveal_strlit("mkv");
    reveal_strlit("webm");
    reveal_strlit("mov");
    reveal_strlit("avi");
    reveal_strlit("wmv");
    reveal_strlit("m4v");
    reveal_strlit("flv");
    reveal_strlit("mpg");
    reveal_strlit("mpeg");
    reveal_strlit("3gp");
    reveal_strlit("ts");
    assert(e == "mp3"@ ==> e.len() == 3 && e[0] == 'm' && e[1] == 'p' && e[2] == '3');
    assert(e == "flac"@ ==> e.len() == 4 && e[0] == 'f' && e[1] == 'l' && e[2] == 'a' && e[3] == 'c');
    assert(e == "ogg"@ ==> e.len() == 3 && e[0] == 'o' && e[1] == 'g' && e[2] == 'g');
    assert(e == "oga"@ ==> e.len() == 3 && e[0] == 'o' && e[1] == 'g' && e[2] == 'a');
    assert(e == "wav"@ ==> e.len() == 3 && e[0] == 'w' && e[1] == 'a' && e[2] == 'v');
    assert(e == "m4a"@ ==> e.len() == 3 && e[0] == 'm' && e[1] == '4' && e[2] == 'a');
    assert(e == "aac"@ ==> e.len() == 3 && e[0] == 'a' && e[1] == 'a' && e[2] == 'c');
    assert(e == "opus"@ ==> e.len() == 4 && e[0] == 'o' && e[1] == 'p' && e[2] == 'u' && e[3] == 's');
    assert(e == "wma"@ ==> e.len() == 3 && e[0] == 'w' && e[1] == 'm' && e[2] == 'a');
    assert(e == "mp4"@ ==> e.len() == 3 && e[0] == 'm' && e[1] == 'p' && e[2] == '4');
    assert(e == "mkv"@ ==> e.len() == 3 && e[0] == 'm' && e[1] == 'k' && e[2] == 'v');
    assert(e == "webm"@ ==> e.len() == 4 && e[0] == 'w' && e[1] == 'e' && e[2] == 'b' && e[3] == 'm');
    assert(e == "mov"@ ==> e.len() == 3 && e[0] == 'm' && e[1] == 'o' && e[2] == 'v');
    assert(e == "avi"@ ==> e.len() == 3 && e[0] == 'a' && e[1] == 'v' && e[2] == 'i');
    assert(e == "wmv"@ ==> e.len() == 3 && e[0] == 'w' && e[1] == 'm' && e[2] == 'v');
    assert(e == "m4v"@ ==> e.len() == 3 && e[0] == 'm' && e[1] == '4' && e[2] == 'v');
    assert(e == "flv"@ ==> e.len() == 3 && e[0] == 'f' && e[1] == 'l' && e[2] == 'v');
    assert(e == "mpg"@ ==> e.len() == 3 && e[0] == 'm' && e[1] == 'p' && e[2] == 'g');
    assert(e == "mpeg"@ ==> e.len() == 4 && e[0] == 'm' && e[1] == 'p' && e[2] == 'e' && e[3] == 'g');
    assert(e == "3gp"@ ==> e.len() == 3 && e[0] == '3' && e[1] == 'g' && e[2] == 'p');
    assert(e == "ts"@ ==> e.len() == 2 && e[0] == 't' && e[1] == 's');
}

/// Law: a file is played where its name or its label says that it is audio
/// or video, its name counting for more; what opens no file is not played.
pub proof fn law_played_by_name_or_label(hit: Hit)
    ensures
        score(hit) > 0 <==> (hits::action_path(hit.action) matches Some(p) && (audio_path(p)
            || video_path(p) || hits::label_begins(hit, "audio/"@) || hits::label_begins(
            hit,
            "video/"@,
        ))),
        hits::action_path(hit.action) matches Some(p) ==> (audio_path(p) || video_path(p))
            ==> score(hit) == 80,
        score(hit) <= 80,
{
}

/// Law: audio files are told by these extensions and no others.
pub proof fn law_audio_files_are_known(e: Seq<char>)
    ensures
        audio_extension(e) <==> seq![
            "mp3"@, "flac"@, "ogg"@, "oga"@, "wav"@, "m4a"@,
            "aac"@, "opus"@, "wma"@,
        ].contains(e),
{
    let known = seq![
        "mp3"@, "flac"@, "ogg"@, "oga"@, "wav"@, "m4a"@,
        "aac"@, "opus"@, "wma"@,
    ];
    assert(known[0] == "mp3"@ && known[1] == "flac"@ && known[2] == "ogg"@);
    assert(known[3] == "oga"@ && known[4] == "wav"@ && known[5] == "m4a"@);
    assert(known[6] == "aac"@ && known[7] == "opus"@ && known[8] == "wma"@);
    if audio_extension(e) {
        assert(known.contains(e));
    }
    if known.contains(e) {
        let k = choose|k: int| 0 <= k < known.len() && known[k] == e;
        assert(audio_extension(known[k]));
    }
}

/// Law: video files are told by these extensions and no others.
pub proof fn law_video_files_are_known(e: Seq<char>)
    ensures
        video_extension(e) <==> seq![
            "mp4"@, "mkv"@, "webm"@, "mov"@, "avi"@, "wmv"@,
            "m4v"@, "flv"@, "mpg"@, "mpeg"@, "3gp"@, "ts"@,
        ].contains(e),
{
    let known = seq![
        "mp4"@, "mkv"@, "webm"@, "mov"@, "avi"@, "wmv"@,
        "m4v"@, "flv"@, "mpg"@, "mpeg"@, "3gp"@, "ts"@,
    ];
    assert(known[0] == "mp4"@ && known[1] == "mkv"@ && known[2] == "webm"@);
    assert(known[3] == "mov"@ && known[4] == "avi"@ && known[5] == "wmv"@);
    assert(known[6] == "m4v"@ && known[7] == "flv"@ && known[8] == "mpg"@);
    assert(known[9] == "mpeg"@ && known[10] == "3gp"@ && known[11] == "ts"@);
    if video_extension(e) {
        assert(known.contains(e));
    }
    if known.contains(e) {
        let k = choose|k: int| 0 <= k < known.len() && known[k] == e;
        assert(video_extension(known[k]));
    }
}

} // verus!
