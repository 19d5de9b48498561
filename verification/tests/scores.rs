//! Which preview suits which hit.

use lixun::archive::ArchivePreview;
use lixun::av::{is_audio, is_audio_extension, is_video, is_video_extension, view, AvPreview, Player};
use lixun::code::CodePreview;
use lixun::email::EmailPreview;
use lixun::folder::FolderPreview;
use lixun::hits::SizingPreference;
use lixun::image::{route, widget_for, ImagePreview, ImageRoute, ImageWidget};
use lixun::info::InfoPreview;
use lixun::model::{Action, Category, DocId, Hit};
use lixun::office::{is_office_extension, OfficePreview};

fn hit(id: &str, category: Category, title: &str, action: Action) -> Hit {
    Hit {
        id: DocId(id.to_string()),
        category,
        title: title.to_string(),
        subtitle: String::new(),
        icon_name: None,
        kind_label: None,
        action,
        extract_fail: false,
        sender: None,
        recipients: None,
        body: None,
        secondary_action: None,
        source_instance: String::new(),
        mime: None,
    }
}

fn file_hit(path: &str, kind_label: Option<&str>) -> Hit {
    let mut h = hit(
        &format!("fs:{path}"),
        Category::File,
        path.rsplit('/').next().unwrap_or(""),
        Action::OpenFile { path: path.to_string() },
    );
    h.subtitle = path.to_string();
    h.kind_label = kind_label.map(str::to_string);
    h
}

fn firefox() -> Hit {
    hit(
        "app:firefox",
        Category::App,
        "Firefox",
        Action::Launch {
            command: "firefox".to_string(),
            terminal: false,
            desktop_id: None,
            desktop_file: None,
            working_dir: None,
        },
    )
}

// -- archives ---------------------------------------------------------------

#[test]
fn zip_extension_scores_eighty() {
    assert_eq!(ArchivePreview.match_score(&file_hit("/tmp/photos.zip", None)), 80);
}

#[test]
fn double_extension_tarball_scores_eighty() {
    assert_eq!(ArchivePreview.match_score(&file_hit("/tmp/backup.tar.gz", None)), 80);
}

#[test]
fn sevenz_extension_scores_eighty() {
    assert_eq!(ArchivePreview.match_score(&file_hit("/tmp/data.7z", None)), 80);
}

#[test]
fn directory_named_like_archive_is_declined() {
    assert_eq!(ArchivePreview.match_score(&file_hit("/tmp/foo.zip", Some("Folder"))), 0);
}

#[test]
fn non_archive_file_is_declined() {
    assert_eq!(ArchivePreview.match_score(&file_hit("/tmp/notes.txt", None)), 0);
}

#[test]
fn non_path_action_is_declined() {
    let h = hit(
        "calc:1",
        Category::Calculator,
        "42",
        Action::ReplaceQuery { q: "42".to_string() },
    );
    assert_eq!(ArchivePreview.match_score(&h), 0);
}

// -- sound and film ---------------------------------------------------------

#[test]
fn mp3_scores_eighty() {
    assert_eq!(AvPreview.match_score(&file_hit("/tmp/tune.mp3", None)), 80);
}

#[test]
fn mp4_scores_eighty() {
    assert_eq!(AvPreview.match_score(&file_hit("/tmp/clip.mp4", None)), 80);
}

#[test]
fn mkv_uppercase_scores_eighty() {
    assert_eq!(AvPreview.match_score(&file_hit("/tmp/movie.MKV", None)), 80);
}

#[test]
fn audio_mime_scores_sixty() {
    assert_eq!(AvPreview.match_score(&file_hit("/tmp/noext", Some("audio/mpeg"))), 60);
}

#[test]
fn video_mime_scores_sixty() {
    assert_eq!(AvPreview.match_score(&file_hit("/tmp/noext", Some("video/webm"))), 60);
}

#[test]
fn text_mime_scores_zero() {
    assert_eq!(AvPreview.match_score(&file_hit("/tmp/noext", Some("text/plain"))), 0);
}

#[test]
fn txt_extension_scores_zero() {
    assert_eq!(AvPreview.match_score(&file_hit("/tmp/thing.txt", None)), 0);
}

#[test]
fn launch_scores_zero() {
    assert_eq!(AvPreview.match_score(&firefox()), 0);
}

#[test]
fn is_audio_catches_flac() {
    assert!(is_audio("/x/song.flac"));
    assert!(!is_video("/x/song.flac"));
}

#[test]
fn is_video_catches_webm() {
    assert!(is_video("/x/clip.webm"));
    assert!(!is_audio("/x/clip.webm"));
}

#[test]
fn av_beats_code_for_m4v() {
    assert_eq!(AvPreview.match_score(&file_hit("/tmp/mix.m4v", None)), 80);
}

#[test]
fn audio_and_video_dispatch_disjoint() {
    for ext in ["mp3", "flac", "ogg", "oga", "opus", "wav", "m4a", "aac", "wma", "mp4", "mkv",
        "webm", "mov", "avi", "m4v", "mpg", "mpeg", "ogv"]
    {
        assert!(
            !(is_audio_extension(ext) && is_video_extension(ext)),
            "extension {ext} appears in both AUDIO and VIDEO lists"
        );
    }
}

#[test]
fn players_suit_the_file() {
    let song = view("/x/song.FLAC");
    assert_eq!((song.player, song.title.as_str(), song.kind.as_str()), (Player::Audio, "song.FLAC", "audio"));
    let clip = view("/x/clip.webm");
    assert_eq!((clip.player, clip.kind.as_str()), (Player::Video, "video"));
    assert_eq!(view("/").title, "(unknown)");
}

// -- code -------------------------------------------------------------------

#[test]
fn rs_extension_scores_seventy() {
    assert_eq!(CodePreview.match_score(&file_hit("/tmp/x.rs", None)), 70);
}

#[test]
fn py_extension_scores_seventy() {
    assert_eq!(CodePreview.match_score(&file_hit("/tmp/x.py", None)), 70);
}

#[test]
fn unknown_extension_scores_zero() {
    assert_eq!(CodePreview.match_score(&file_hit("/tmp/weird.xyz", None)), 0);
}

#[test]
fn non_file_scores_zero() {
    assert_eq!(CodePreview.match_score(&firefox()), 0);
}

#[test]
fn code_beats_text_for_rs_hits() {
    let code = CodePreview.match_score(&file_hit("/tmp/foo.rs", None));
    let text_score = 50;
    assert!(
        code > text_score,
        "code plugin must beat text plugin on a .rs hit (got code={})",
        code
    );
}

// -- mail -------------------------------------------------------------------

#[test]
fn eml_extension_scores_eightyfive() {
    assert_eq!(EmailPreview.match_score(&file_hit("/tmp/x.eml", None), None), 85);
}

fn mail_hit() -> Hit {
    hit(
        "mail:msg-1",
        Category::Mail,
        "Important",
        Action::OpenMail { message_id: "msg-1".to_string() },
    )
}

#[test]
fn mail_category_without_file_scores_sixty() {
    assert_eq!(EmailPreview.match_score(&mail_hit(), None), 60);
}

#[test]
fn non_email_file_scores_zero() {
    assert_eq!(EmailPreview.match_score(&file_hit("/tmp/x.txt", None), None), 0);
}

#[test]
fn launch_action_scores_zero() {
    assert_eq!(EmailPreview.match_score(&firefox(), None), 0);
}

#[test]
fn maildir_path_with_rfc822_content_scores_seventy() {
    let h = file_hit("/tmp/lixun-mail/cur/12345.msg", None);
    assert!(EmailPreview.needs_first_line(&h));
    let first = "Return-Path: <alice@example.com>";
    assert_eq!(EmailPreview.match_score(&h, Some(first)), 70);
}

#[test]
fn maildir_path_without_rfc822_header_scores_zero() {
    let h = file_hit("/tmp/lixun-notmail/cur/12345.msg", None);
    assert_eq!(EmailPreview.match_score(&h, Some("random content not an email")), 0);
    assert_eq!(EmailPreview.match_score(&h, None), 0);
}

#[test]
fn gloda_hit_openmail_has_no_path_but_still_matches_email_plugin() {
    let mut h = mail_hit();
    h.kind_label = Some("Email".to_string());
    h.sender = Some("alice@example.com".to_string());
    h.recipients = Some("bob@example.com".to_string());
    h.body = Some("gloda-stored body snippet".to_string());
    assert!(
        EmailPreview.match_score(&h, None) >= 60,
        "gloda Mail hit must score >= 60 so email plugin wins"
    );
    assert!(!EmailPreview.needs_first_line(&h));
}

// -- images -----------------------------------------------------------------

#[test]
fn png_scores_eighty() {
    assert_eq!(ImagePreview.match_score(&file_hit("/tmp/x.png", None)), 80);
}

#[test]
fn jpeg_uppercase_scores_eighty() {
    assert_eq!(ImagePreview.match_score(&file_hit("/tmp/photo.JPEG", None)), 80);
}

#[test]
fn svg_scores_eighty() {
    assert_eq!(ImagePreview.match_score(&file_hit("/tmp/logo.svg", None)), 80);
}

#[test]
fn mime_image_scores_fifty_without_extension() {
    assert_eq!(ImagePreview.match_score(&file_hit("/tmp/noext", Some("image/png"))), 50);
}

#[test]
fn text_mime_does_not_match() {
    assert_eq!(ImagePreview.match_score(&file_hit("/tmp/whatever", Some("text/plain"))), 0);
}

#[test]
fn no_file_action_no_score() {
    assert_eq!(ImagePreview.match_score(&firefox()), 0);
}

#[test]
fn image_beats_text_for_png() {
    assert!(
        ImagePreview.match_score(&file_hit("/tmp/shot.png", Some("text/plain"))) > 50,
        "image plugin must win the png extension even if kind_label is wrong"
    );
}

#[test]
fn images_and_folders_are_recognized() {
    assert_eq!(route("/x/a.SVG"), ImageRoute::Vector);
    assert_eq!(route("/x/a.gif"), ImageRoute::Animated);
    assert_eq!(route("/x/a.png"), ImageRoute::Still);
    assert_eq!(widget_for(ImageRoute::Still, true), ImageWidget::Canvas);

    assert_eq!(FolderPreview.match_score(&file_hit("/tmp/dir", Some("Folder"))), 80);
    assert_eq!(FolderPreview.match_score(&file_hit("/tmp/dir", Some("folder"))), 0);
    assert_eq!(FolderPreview.match_score(&file_hit("/tmp/dir", None)), 0);
}

// -- office documents -------------------------------------------------------

#[test]
fn docx_scores_seventyfive() {
    assert_eq!(OfficePreview.match_score(&file_hit("/tmp/x.docx", None)), 75);
}

#[test]
fn xlsx_uppercase_scores_seventyfive() {
    assert_eq!(OfficePreview.match_score(&file_hit("/tmp/data.XLSX", None)), 75);
}

#[test]
fn odt_scores_seventyfive() {
    assert_eq!(OfficePreview.match_score(&file_hit("/tmp/doc.odt", None)), 75);
}

#[test]
fn txt_scores_zero() {
    assert_eq!(OfficePreview.match_score(&file_hit("/tmp/x.txt", None)), 0);
}

#[test]
fn lib_launch_scores_zero() {
    assert_eq!(OfficePreview.match_score(&firefox()), 0);
}

#[test]
fn strong_extensions_includes_all_office_formats() {
    for ext in ["doc", "docx", "odp", "ods", "odt", "ppt", "pptx", "rtf", "xls", "xlsx"] {
        assert!(is_office_extension(ext), "{ext}");
    }
    for ext in ["pdf", "txt", "odg", ""] {
        assert!(!is_office_extension(ext), "{ext}");
    }
}

// -- folders and everything else --------------------------------------------

#[test]
fn scores_one_for_every_hit() {
    assert_eq!(InfoPreview.match_score(&file_hit("/tmp/x.txt", None)), 1);
    assert_eq!(InfoPreview.match_score(&firefox()), 1);
    assert!(InfoPreview.match_score(&firefox()) < 50);
    let calc = hit(
        "calc:2",
        Category::Calculator,
        "4",
        Action::CopyText { text: "4".to_string() },
    );
    assert_eq!(InfoPreview.match_score(&calc), 1);
}

#[test]
fn previews_say_what_they_are() {
    assert_eq!(ArchivePreview.id(), "archive");
    assert_eq!(AvPreview.id(), "av");
    assert_eq!(CodePreview.id(), "code");
    assert_eq!(EmailPreview.id(), "email");
    assert_eq!(FolderPreview.id(), "folder");
    assert_eq!(ImagePreview.id(), "image");
    assert_eq!(InfoPreview.id(), "info");
    assert_eq!(OfficePreview.id(), "office");
    assert_eq!(FolderPreview.sizing(), SizingPreference::OwnsScroll);
}
