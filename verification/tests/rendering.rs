//! What the previews of code, mail, images and office documents show.

use lixun::canvas::{
    crop_pixels, wire_canvas_gestures, Canvas, CanvasAction, CanvasEvent, CanvasKey, Crop,
};
use lixun::code::{
    build as build_code, escape_pango, finish_markup, pick_syntax, push_regions, read_capped,
    render_pango_markup, resolve_theme_name, Bundle, Region, DEFAULT_THEME, DISPLAY_CAP_BYTES,
    PLAIN_TEXT,
};
use lixun::email::{
    build as build_mail, build_attachment_list, build_from_hit_fields, file_looks_like_rfc822,
    format_address, pick_body_text, Addresses, Attachment, Mailbox,
};
use lixun::html::{can_lay_out, lay_out_html, MAX_DESCRIPTION_LISTS, MAX_TAGS};
use lixun::image::format_footer;
use lixun::info::{card, category_icon, category_kind, format_timestamp, hit_card, resolve_icon_name, shown_time};
use lixun::mime::can_parse;
use lixun::model::{Action, Category, DocId, Hit};
use lixun::office::{
    build_soffice_argv, build_step, cache_file_path, compute_cache_key, compute_cache_key_raw,
    failure_text, find_output_in, find_soffice, hex_encode, office_cache_dir, run_soffice_convert,
    work_dir_name, ConvertAction, ConvertEvent, OfficePreview, OfficeStep, Wait,
    CONVERSION_TIMEOUT_SECS,
};

fn app_hit() -> Hit {
    Hit {
        id: DocId("test:x".to_string()),
        category: Category::App,
        title: "X".to_string(),
        subtitle: String::new(),
        icon_name: None,
        kind_label: None,
        action: Action::Launch {
            command: "true".to_string(),
            terminal: false,
            desktop_id: None,
            desktop_file: None,
            working_dir: None,
        },
        extract_fail: false,
        sender: None,
        recipients: None,
        body: None,
        secondary_action: None,
        source_instance: String::new(),
        mime: None,
    }
}

// -- code -------------------------------------------------------------------

#[test]
fn escape_pango_basic() {
    assert_eq!(
        escape_pango("a & <b> \"c\" 'd'"),
        "a &amp; &lt;b&gt; &quot;c&quot; &#39;d&#39;"
    );
}

#[test]
fn render_pango_markup_produces_span_tags() {
    let bundle = Bundle::load();
    let syntax = pick_syntax(&bundle, "/tmp/main.rs", "");
    assert_eq!(syntax, "Rust");
    let out = render_pango_markup(&bundle, "fn main() {}\n", &syntax, DEFAULT_THEME).unwrap();
    assert!(out.contains("<span foreground=\"#"));
    assert!(out.contains("</span>"));
    assert!(out.contains("main"));
}

#[test]
fn resolve_theme_name_valid_override() {
    let requested = Some("Solarized (light)".to_string());
    assert_eq!(resolve_theme_name(&Bundle::load(), requested), "Solarized (light)");
}

#[test]
fn resolve_theme_name_unknown_falls_back() {
    let requested = Some("Notatheme".to_string());
    assert_eq!(resolve_theme_name(&Bundle::load(), requested), DEFAULT_THEME);
}

#[test]
fn resolve_theme_name_no_section_uses_default() {
    assert_eq!(resolve_theme_name(&Bundle::load(), None), DEFAULT_THEME);
}

#[test]
fn syntaxes_are_picked_by_extension_then_by_first_line() {
    let bundle = Bundle::load();
    assert_eq!(pick_syntax(&bundle, "/x/a.py", "#!/bin/bash\n"), "Python");
    assert_eq!(pick_syntax(&bundle, "/x/script", "#!/usr/bin/env python\nx"), "Python");
    assert_eq!(pick_syntax(&bundle, "/x/notes", "hello"), PLAIN_TEXT);

    let set = syntect::parsing::SyntaxSet::load_defaults_newlines();
    let mut names: Vec<&str> = set.syntaxes().iter().map(|s| s.name.as_str()).collect();
    let count = names.len();
    names.sort();
    names.dedup();
    assert_eq!(names.len(), count);
    assert!(set.find_syntax_by_name(PLAIN_TEXT).is_some());
}

#[test]
fn regions_carry_their_colour() {
    let mut out = String::from(">");
    let regions = vec![
        Region { red: 1, green: 171, blue: 255, text: "a<b".to_string() },
        Region { red: 0, green: 0, blue: 0, text: "\n".to_string() },
    ];
    push_regions(&mut out, &regions);
    assert_eq!(
        out,
        "><span foreground=\"#01abff\">a&lt;b</span><span foreground=\"#000000\">\n</span>"
    );

    assert_eq!(finish_markup(Err("no regex".to_string()), "a<b", false), "a&lt;b");
    assert_eq!(finish_markup(Ok("<span>x</span>".to_string()), "x", false), "<span>x</span>");
}

#[test]
fn long_files_are_cut_and_marked() {
    let long = vec![b'a'; DISPLAY_CAP_BYTES + 1];
    let (text, truncated) = read_capped(&long);
    assert!(truncated);
    assert_eq!(text.len(), DISPLAY_CAP_BYTES);
    let (text, truncated) = read_capped(b"caf\xc3\xa9 \xff");
    assert!(!truncated);
    assert_eq!(text, "café \u{fffd}");
    assert!(build_code("/x/long.txt", &long, None).contains("truncated at 50 KiB"));
    let full = vec![b'a'; DISPLAY_CAP_BYTES];
    assert_eq!(read_capped(&full), ("a".repeat(DISPLAY_CAP_BYTES), false));
    assert!(!build_code("/x/full.txt", &full, None).contains("truncated"));
    assert!(!build_code("/x/short.txt", b"short", None).contains("truncated"));
}

// -- mail -------------------------------------------------------------------

const MESSAGE: &str = "From: Alice <alice@example.com>\r\n\
To: Bob <bob@example.com>, carol@example.com\r\n\
Subject: Plans\r\n\
Date: Tue, 1 Jul 2003 10:52:37 +0200\r\n\
MIME-Version: 1.0\r\n\
Content-Type: multipart/mixed; boundary=\"b\"\r\n\
\r\n\
--b\r\n\
Content-Type: text/plain; charset=utf-8\r\n\
\r\n\
See you there.\r\n\
--b\r\n\
Content-Type: application/pdf\r\n\
Content-Disposition: attachment; filename=\"map.pdf\"\r\n\
\r\n\
%PDF\r\n\
--b--\r\n";

#[test]
fn messages_show_their_headers_body_and_attachments() {
    let v = build_mail(MESSAGE.as_bytes()).unwrap();
    assert_eq!(v.from, "Alice <alice@example.com>");
    assert!(v.to.contains("Bob <bob@example.com>"), "{}", v.to);
    assert!(v.to.contains("carol@example.com"), "{}", v.to);
    assert_eq!(v.cc, "(none)");
    assert_eq!(v.subject, "Plans");
    assert!(v.date.contains("2003"), "{}", v.date);
    assert_eq!(v.body.as_deref().map(str::trim), Some("See you there."));
    assert_eq!(v.attachments.len(), 1);
    assert_eq!(v.attachments[0].name, "map.pdf");
    assert!(v.attachments[0].meta.ends_with(" · application/pdf"), "{}", v.attachments[0].meta);

    let bare = Attachment { name: None, main_type: None, sub_type: None, len: 2048 };
    let lines = build_attachment_list(&vec![bare]);
    assert_eq!(lines[0].name, "(unnamed)");
    assert_eq!(lines[0].meta, "2.0 KiB · application/octet-stream");
}

/// A message that breaks off after its part in HTML.
fn cut_off_mail(html: &str) -> String {
    format!(
        "From: a@b.c\r\nMIME-Version: 1.0\r\n\
         Content-Type: multipart/alternative; boundary=b\r\n\r\n\
         --b\r\nContent-Type: text/html; charset=utf-8\r\n\r\n{html}\r\n\
         --b\r\nContent-Type: application/pdf\r\n\r\n%PDF"
    )
}

#[test]
fn html_mail_is_laid_out_in_columns() {
    let html = "<table><tr><td colspan=\"2\">head</td></tr><tr><td>a</td><td>b</td></tr></table>";
    let body = build_mail(cut_off_mail(html).as_bytes()).unwrap().body.unwrap();
    assert!(body.contains("head") && body.contains("a │b"), "{body}");
    assert!(body.lines().all(|l| l.chars().count() <= 80), "{body}");
    let words = "word ".repeat(40);
    let text = lay_out_html(&format!("<p>{words}</p>"), 80).unwrap();
    assert_eq!(text.lines().next().unwrap().chars().count(), 79);

    let html = "From: a@b.c\r\nSubject: h\r\nContent-Type: text/html\r\n\r\n<p>one</p><p>two</p>";
    let body = build_mail(html.as_bytes()).unwrap().body.unwrap();
    assert!(body.contains("one") && body.contains("two"), "{body}");
    assert!(!body.contains("<p>"), "{body}");
}

#[test]
fn html_that_cannot_be_laid_out_has_no_text() {
    let wide = "<table><tr><td colspan=\"18446744073709551615\">a</td><td>b</td></tr></table>";
    assert!(!can_lay_out(wide, 80));
    assert_eq!(build_mail(cut_off_mail(wide).as_bytes()).unwrap().body, None);
    for html in [
        "<td COLSPAN = '123456'>",
        "<td colspan=+&#49;>",
        "<ol start=9223372036854775807>",
        "<ol start='-9223372036854775808'>",
        "<b>heart</b> \u{2764}\u{fe0f}",
        "<b>heart</b> &#x2764;&#x00FE0F;",
        "<b>heart</b> &#10084;&#65039;",
        "<ul><li><pre>\u{200b}\t</pre></li></ul>",
        "<BLOCKQUOTE><pre>&#8203;&#9;</pre></BLOCKQUOTE>",
        "<dl><dd><pre>&#8203;&#x009;</pre></dd></dl>",
        "<h1><pre>&#8203;&Tab;</pre></h1>",
    ] {
        assert!(!can_lay_out(html, 80), "{html}");
        assert_eq!(lay_out_html(html, 80), None, "{html}");
    }
    for html in [
        "",
        "<td colspan=2>",
        "<td colspan=\"99999\">",
        "<ol start=\"-999999999\"><li>x</ol>",
        "start of 12345678901 &amp; more",
        "<img width=12345678901>",
        "<b>fe0f</b> and <i>65039</i>",
        "<b>&#xfe0f0;</b> and <i>&#650390;</i>",
        "<ul><li><pre>\tif x {\n\t\ty\n}</pre></li></ul>",
        "<pre>\u{200b}\t</pre>",
        "<ul><li>\u{200b}\t</li></ul>",
        "<h1><pre>&#91;a&#93; &#x9f;</pre></h1>",
    ] {
        assert!(can_lay_out(html, 80), "{html}");
    }
    assert!(can_lay_out(&"<b>".repeat(MAX_TAGS), 80));
    assert!(!can_lay_out(&"<b>".repeat(MAX_TAGS + 1), 80));
    assert!(can_lay_out(&"<dl>".repeat(MAX_DESCRIPTION_LISTS), 80));
    assert!(!can_lay_out(&"<DL>".repeat(MAX_DESCRIPTION_LISTS + 1), 80));

    let inner = "<ul><li><pre>\u{200b}\t</pre></li></ul>";
    assert_eq!(lay_out_html(inner, 2), None);
    let nested = format!("{}<pre>\u{200b}\t</pre>", "<ul><li>".repeat(40));
    assert_eq!(lay_out_html(&nested, 80), None);
    let code = lay_out_html("<ul><li><pre>\tx</pre></li></ul>", 20).unwrap();
    assert!(code.contains("        x"), "{code}");
}

#[test]
fn a_page_of_short_words_may_select_emoji() {
    assert_eq!(lay_out_html("<p>\u{fe0f}</p>", 80).map(|t| t.contains('\u{fe0f}')), Some(true));
    let page = "<div><p>I \u{2764}\u{fe0f} it</p><br>heart &#x2764;&#xFE0F; &#65039;</div>";
    let text = lay_out_html(page, 80).unwrap();
    assert!(text.contains("I \u{2764}\u{fe0f} it"), "{text}");
    assert!(text.contains("heart \u{2764}\u{fe0f}"), "{text}");
    // A word that may be broken over lines, and a tag that may narrow them.
    let long = format!("<p>{}\u{2764}\u{fe0f}</p>", "x".repeat(40));
    assert!(!can_lay_out(&long, 80));
    assert!(can_lay_out(&long, 160));
    assert!(!can_lay_out("<p class=a>\u{fe0f}</p>", 80));
}

#[test]
fn html_is_laid_out_as_deep_as_it_may_be() {
    let deep = format!("{}x", "<dl><dt>".repeat(MAX_DESCRIPTION_LISTS));
    let text = lay_out_html(&deep, 80).unwrap();
    assert!(text.contains('x'), "{text}");
    // A wide character does not fit in one column.
    let wide = format!("{}\u{6f22}", "<b>".repeat(MAX_TAGS));
    assert_eq!(lay_out_html(&wide, 1), None);
    assert!(can_lay_out(&wide, 1));
}

fn mail_of_parts(parts: &[(&str, &str)]) -> String {
    let mut mail =
        String::from("From: a@b.c\r\nSubject: s\r\nContent-Type: multipart/mixed; boundary=b\r\n\r\n");
    for (fields, body) in parts {
        mail.push_str(&format!("--b\r\n{fields}\r\n\r\n{body}"));
    }
    mail.push_str("--b--\r\n");
    mail
}

#[test]
fn a_message_that_cannot_be_parsed_is_none() {
    let quoted = "Content-Type: text/plain\r\nContent-Transfer-Encoding: quoted-printable";
    for body in ["=\r\n", "x=\r\n", "= \r\n", "=41=\r\n"] {
        assert!(!can_parse(mail_of_parts(&[(quoted, body)]).as_bytes()), "{body:?}");
        assert_eq!(build_mail(mail_of_parts(&[(quoted, body)]).as_bytes()), None, "{body:?}");
    }
    for (fields, body) in [
        ("Content-Type: message/rfc822\r\nContent-Transfer-Encoding: base64", "U3ViamVjdDogYQ==\r\n"),
        ("content-transfer-encoding:\r\n Quoted-Printable\r\ncontent-type: Message / RFC822", "x\r\n"),
        ("Content-Type: message/global\r\nContent-Transfer-Encoding: base64", "YQ==\r\n"),
        ("Content-Type: multipart/digest; boundary=c\r\nContent-Transfer-Encoding: base64", "YQ==\r\n"),
    ] {
        assert_eq!(build_mail(mail_of_parts(&[(fields, body)]).as_bytes()), None, "{fields:?}");
    }

    assert_eq!(build_mail(b""), None);
}

#[test]
fn ordinary_parts_are_parsed() {
    let quoted = "Content-Type: text/plain\r\nContent-Transfer-Encoding: quoted-printable";
    let file = "Content-Type: application/pdf; name=a.pdf\r\nContent-Disposition: attachment; filename=a.pdf\r\nContent-Transfer-Encoding: base64";
    let view = build_mail(
        mail_of_parts(&[(quoted, "caf=C3=A9 =\r\nau lait\r\n"), (file, "aGVsbG8gdGhlcmU=\r\n")]).as_bytes(),
    )
    .unwrap();
    assert!(view.body.as_deref().unwrap().contains("caf\u{e9} au lait"), "{:?}", view.body);
    assert_eq!(view.attachments.len(), 1);
    let attached = "Content-Type: message/rfc822\r\nContent-Transfer-Encoding: 7bit";
    assert!(build_mail(mail_of_parts(&[(attached, "Subject: inner\r\n\r\nhello\r\n")]).as_bytes()).is_some());
}

#[test]
fn addresses_are_joined() {
    let mailbox = |name: Option<&str>, address: Option<&str>| Mailbox {
        name: name.map(str::to_string),
        address: address.map(str::to_string),
    };
    assert_eq!(format_address(&None), "(none)");
    assert_eq!(
        format_address(&Some(Addresses::List(vec![
            mailbox(Some("A"), Some("a@x")),
            mailbox(None, Some("b@x")),
        ]))),
        "A <a@x>, b@x"
    );
    assert_eq!(
        format_address(&Some(Addresses::Groups(vec![Some("Team".to_string()), None]))),
        "Team, (group)"
    );
}

#[test]
fn plain_text_is_preferred_over_html() {
    let text = |s: &str| Some(s.to_string());
    assert_eq!(pick_body_text(text("plain"), Some(text("html"))), text("plain"));
    assert_eq!(pick_body_text(None, Some(text("html"))), text("html"));
    assert_eq!(pick_body_text(text(""), Some(text("html"))), text(""));
    assert_eq!(pick_body_text(None, None), text("(no body)"));
}

#[test]
fn first_lines_of_messages_are_recognized() {
    for line in ["Return-Path: <a>", "Received: from x", "From a@b", "Delivered-To: a"] {
        assert!(file_looks_like_rfc822(Some(line)), "{line}");
    }
    assert!(!file_looks_like_rfc822(Some("From: a@b")));
    assert!(!file_looks_like_rfc822(None));
}

#[test]
fn hits_without_a_file_show_what_the_index_holds() {
    let mut h = app_hit();
    assert!(build_from_hit_fields(&h).body.starts_with("(body not available"));
    h.body = Some("snippet".to_string());
    h.recipients = Some(String::new());
    let m = build_from_hit_fields(&h);
    assert_eq!((m.to, m.body.as_str()), (None, "snippet"));
}

// -- cards ------------------------------------------------------------------

#[test]
fn format_timestamp_renders_and_survives_extremes() {
    let s = format_timestamp(1_726_000_000);
    assert!(s.contains("2024"), "unexpected render: {s}");
    assert_eq!(format_timestamp(i64::MAX), "—");
    assert_eq!(format_timestamp(i64::MIN), "—");
    assert_ne!(format_timestamp(8_210_266_876_799), "—");
    for ts in [0, -1, 1_726_000_000, 8_210_266_876_799, -8_334_601_228_800] {
        let s = format_timestamp(ts);
        let tail: Vec<char> = s.chars().skip(s.chars().count() - 6).collect();
        assert_eq!((tail[0], tail[3]), (' ', ':'), "{s}");
        assert!([1, 2, 4, 5].iter().all(|&i| tail[i].is_ascii_digit()), "{s}");
        let words: Vec<&str> = s.split(' ').collect();
        assert_eq!(words.len(), 4, "{s}");
        assert!((1..=31).contains(&words[0].parse::<u32>().unwrap()), "{s}");
    }
    assert_ne!(format_timestamp(-8_334_601_228_800), "—");
    assert_eq!(shown_time(None), "—");
}

#[test]
fn icon_name_prefers_theme_names_and_rejects_paths() {
    let mut h = app_hit();
    h.icon_name = Some("firefox".to_string());
    assert_eq!(resolve_icon_name(&h), "firefox");
    h.icon_name = Some("/usr/share/icons/x.png".to_string());
    assert_eq!(resolve_icon_name(&h), "application-x-executable");
    h.icon_name = None;
    assert_eq!(resolve_icon_name(&h), "application-x-executable");
}

#[test]
fn cards_list_what_is_known() {
    let mut h = app_hit();
    h.subtitle = "/opt/x".to_string();
    let c = card(&h, Some(1_200), Some("1 Jan 2026 10:00".to_string()));
    let lines: Vec<(&str, &str)> =
        c.details.iter().map(|d| (d.label.as_str(), d.value.as_str())).collect();
    assert_eq!(
        lines,
        vec![("Size", "1.2 KB"), ("Modified", "1 Jan 2026 10:00"), ("Where", "/opt/x")]
    );
    assert_eq!(c.icon, category_icon(Category::App));
    assert_eq!(c.kind, category_kind(Category::App));
    assert!(card(&app_hit(), None, None).details.is_empty());
    let dated = hit_card(&h, Some(1_200), Some(1_726_000_000));
    assert_eq!(dated.details[1].value, format_timestamp(1_726_000_000));
    assert!(dated.details[1].value.contains("2024"));
    assert_eq!(hit_card(&h, None, Some(i64::MAX)).details[0].value, "—");
    assert_eq!(hit_card(&h, Some(1_200), None).details.len(), dated.details.len() - 1);
}

// -- office documents -------------------------------------------------------

#[test]
fn cache_key_depends_on_path_and_mtime() {
    let first = compute_cache_key("/tmp/doc.odt", Some(1));
    let second = compute_cache_key("/tmp/doc.odt", Some(2));
    assert_ne!(
        first, second,
        "cache key must change when mtime advances (got {} twice)",
        first
    );
    assert_ne!(first, compute_cache_key("/tmp/doc2.odt", Some(1)));
}

#[test]
fn cache_key_is_hex_and_long() {
    let k = compute_cache_key("/tmp/x", None);
    assert_eq!(k.len(), 64, "sha-256 hex is 64 chars, got {}", k.len());
    assert!(k.chars().all(|c| c.is_ascii_hexdigit()));
}

#[test]
fn cache_keys_are_hashes() {
    assert_eq!(
        compute_cache_key_raw(b"", 0),
        "0a88111852095cae045340ea1f0b279944b2a756a213d9b50107d7489771e159"
    );
}

#[test]
fn hex_encode_matches_known_vector() {
    assert_eq!(hex_encode(&[0x00, 0xff, 0x1a]), "00ff1a");
}

fn names(v: &[&str]) -> Vec<String> {
    v.iter().map(|s| s.to_string()).collect()
}

#[test]
fn find_pdf_in_scans_directory() {
    let found = find_output_in(&names(&["/o/x.txt", "/o/result.pdf"]), "pdf");
    let found = found.expect("find_output_in must return a path");
    assert!(found.ends_with("result.pdf"));
}

#[test]
fn find_pdf_in_empty_returns_none() {
    assert!(find_output_in(&Vec::new(), "pdf").is_none());
}

#[test]
fn build_soffice_argv_targets_pdf_format() {
    let argv = build_soffice_argv("pdf", "/out", "/src.docx");
    assert!(argv.contains(&"--headless".to_string()));
    let pos = argv.iter().position(|a| a == "--convert-to").unwrap();
    assert_eq!(argv[pos + 1], "pdf");
    let out_pos = argv.iter().position(|a| a == "--outdir").unwrap();
    assert_eq!(argv[out_pos + 1], "/out");
    assert_eq!(argv.last(), Some(&"/src.docx".to_string()));
}

#[test]
fn build_soffice_argv_format_is_pluggable() {
    let argv = build_soffice_argv("png", "/out", "/src.docx");
    let pos = argv.iter().position(|a| a == "--convert-to").unwrap();
    assert_eq!(argv[pos + 1], "png");
}

#[test]
fn cache_file_path_uses_pdf_extension() {
    let s = cache_file_path("/cache/office", "abcdef", "pdf");
    assert!(s.ends_with("/office/abcdef.pdf"), "got {}", s);
    assert!(s.starts_with("/cache/office/"), "got {}", s);
}

#[test]
fn cache_file_path_extension_is_pluggable() {
    assert!(cache_file_path("/cache/office", "abcdef", "png").ends_with("/office/abcdef.png"));
}

#[test]
fn conversion_timeout_is_thirty_seconds() {
    assert_eq!(CONVERSION_TIMEOUT_SECS, 30);
}

#[test]
fn find_output_in_ignores_other_extensions() {
    assert!(find_output_in(&names(&["/o/x.png", "/o/y.txt"]), "pdf").is_none());
}

fn fails_with(event: ConvertEvent, part: &str) {
    match run_soffice_convert(event) {
        ConvertAction::Fail { reason, .. } => assert!(reason.contains(part), "{reason}"),
        other => panic!("expected a failure, got {other:?}"),
    }
}

#[test]
fn a_conversion_runs_step_by_step() {
    let text = |s: &str| s.to_string();
    assert_eq!(
        run_soffice_convert(ConvertEvent::Start { parent: Some(text("/c")) }),
        ConvertAction::MakeDir { dir: text("/c") }
    );
    assert_eq!(
        run_soffice_convert(ConvertEvent::DirMade { failed: None, shown: text("/c") }),
        ConvertAction::MakeWorkDir
    );
    assert_eq!(
        run_soffice_convert(ConvertEvent::WorkDirMade { outdir: Some(text("/w")), why: text("") }),
        ConvertAction::Spawn { outdir: text("/w") }
    );
    assert_eq!(
        run_soffice_convert(ConvertEvent::Spawned { failed: None }),
        ConvertAction::Wait { timeout_secs: 30 }
    );
    assert_eq!(run_soffice_convert(ConvertEvent::Waited(Wait::Success)), ConvertAction::List);
    assert_eq!(
        run_soffice_convert(ConvertEvent::Listed {
            paths: names(&["/w/a.log", "/w/a.pdf"]),
            shown: text("/w"),
        }),
        ConvertAction::Move { from: text("/w/a.pdf") }
    );
    assert_eq!(
        run_soffice_convert(ConvertEvent::Moved {
            failed: None,
            from_shown: text("a"),
            to_shown: text("b"),
        }),
        ConvertAction::Finish
    );
}

#[test]
fn every_step_of_a_conversion_may_fail() {
    let text = |s: &str| s.to_string();
    let no = || Some(text("denied"));
    fails_with(ConvertEvent::Start { parent: None }, "no parent");
    fails_with(ConvertEvent::DirMade { failed: no(), shown: text("/c") }, "create cache dir /c");
    fails_with(ConvertEvent::WorkDirMade { outdir: None, why: text("full") }, "tempdir: full");
    fails_with(ConvertEvent::Spawned { failed: no() }, "spawn soffice: denied");
    fails_with(ConvertEvent::Waited(Wait::Failure { code: text("7") }), "soffice exited 7");
    fails_with(ConvertEvent::Waited(Wait::Error { why: text("lost") }), "wait soffice: lost");
    fails_with(
        ConvertEvent::Listed { paths: names(&["/w/a.txt"]), shown: text("/w") },
        "produced no .pdf in /w",
    );
    fails_with(
        ConvertEvent::Moved { failed: no(), from_shown: text("a"), to_shown: text("b") },
        "moving a -> b: denied",
    );
    match run_soffice_convert(ConvertEvent::Waited(Wait::TimedOut { pid: 42 })) {
        ConvertAction::Fail { reason, kill } => {
            assert_eq!(kill, Some(42));
            assert!(reason.contains("30s timeout"), "{reason}");
        }
        other => panic!("expected a failure, got {other:?}"),
    }
}

#[test]
fn cached_documents_are_shown_at_once() {
    assert_eq!(build_step(false, true), OfficeStep::NotInstalled);
    assert_eq!(build_step(true, true), OfficeStep::ShowCached);
    assert_eq!(build_step(true, false), OfficeStep::Convert);
    assert!(failure_text("soffice exited 1").contains("soffice exited 1"));
    assert_eq!(
        office_cache_dir(Some("/c"), Some("/h")),
        "/c/lixun/preview/office".to_string()
    );
    assert!(find_soffice(&names(&["/bin"]))[0].starts_with("/bin/"));
    assert!(work_dir_name(7, 9).contains('7'));
    let nanos = u64::MAX as u128 + 1;
    assert_eq!(work_dir_name(u32::MAX, nanos), "work-4294967295-18446744073709551616");
    assert!(OfficePreview.capabilities().paginated);
}

// -- images -----------------------------------------------------------------

#[test]
fn format_footer_with_intrinsic() {
    let s = format_footer(Some(10240), Some((1920, 1080)));
    assert!(s.starts_with("1920 × 1080"));
    assert!(s.contains("KiB"));
    assert_eq!(s, "1920 × 1080   ·   10.0 KiB");
    assert_eq!(format_footer(None, None), "0 B");
}

#[test]
fn quarter_turns_map_points_there_and_back() {
    let mut canvas = Canvas::new();
    canvas.set_texture(300, 200);
    for turn in 0..4 {
        let there = canvas.image_point_to_widget();
        let back = canvas.widget_point_to_image();
        for (x, y) in [(0, 0), (299, 0), (10, 150)] {
            let p = (there.xx * x + there.xy * y + there.x0, there.yx * x + there.yy * y + there.y0);
            let q = (back.xx * p.0 + back.xy * p.1 + back.x0, back.yx * p.0 + back.yy * p.1 + back.y0);
            assert_eq!(q, (x, y), "turn {turn}");
        }
        assert_eq!(canvas.rotation_is_quarter(), turn % 2 == 1);
        assert_eq!(canvas.extent(), Some(if turn % 2 == 1 { (200, 300) } else { (300, 200) }));
        canvas.rotate_cw();
    }
    assert_eq!(canvas.turns, 0);
    canvas.rotate_ccw();
    assert_eq!(canvas.turns, 3);
    canvas.reset();
    assert_eq!(canvas.turns, 0);
    assert_eq!(Canvas::new().extent(), None);
}

#[test]
fn selections_are_cut_out_of_the_pixels() {
    let mut canvas = Canvas::new();
    canvas.set_texture(3, 2);
    let crop = canvas.marquee_crop(1, 0, 10, 2).unwrap();
    assert_eq!(crop, Crop { x: 1, y: 0, w: 2, h: 2 });
    let src: Vec<u8> = (0..24).collect();
    assert_eq!(
        crop_pixels(&src, 3, 2, crop),
        vec![4, 5, 6, 7, 8, 9, 10, 11, 16, 17, 18, 19, 20, 21, 22, 23]
    );
    assert_eq!(Canvas::new().marquee_crop(0, 0, 1, 1), None);
}

#[test]
fn keys_and_gestures_steer_the_canvas() {
    let key = |key, ctrl, shift| {
        wire_canvas_gestures(CanvasEvent::Key { key, ctrl, shift, pixels: true })
    };
    assert_eq!(key(CanvasKey::R, true, false), CanvasAction::RotateClockwise);
    assert_eq!(key(CanvasKey::R, true, true), CanvasAction::RotateCounterClockwise);
    assert_eq!(key(CanvasKey::Other, true, false), CanvasAction::Pass);
    assert_eq!(
        wire_canvas_gestures(CanvasEvent::Scroll { ctrl: true, up: true }),
        CanvasAction::ZoomInCentered
    );
    assert_eq!(wire_canvas_gestures(CanvasEvent::Shown), CanvasAction::GrabFocus);
}
