//! Mail messages as they are shown.

use mail_parser::Message;
use mail_parser::MimeHeaders;
use vstd::prelude::*;

use crate::hits;
use crate::hits::SizingPreference;
use crate::html;
use crate::mime;
use crate::model;
use crate::model::{Category, Hit};
use crate::paths;
use crate::sizes;
use crate::text;

verus! {

/// Greatest number of bytes of a message that are read.
pub const MAX_EMAIL_BYTES: usize = 8388608;

/// The number of columns that a body in HTML is laid out in.
pub const HTML_COLUMNS: usize = 80;

// ---------------------------------------------------------------------
// Which hits are mail
// ---------------------------------------------------------------------

/// Whether `part` occurs in `s`.
pub open spec fn occurs(s: Seq<char>, part: Seq<char>) -> bool {
    exists|i: int|
        0 <= i <= s.len() - part.len() && #[trigger] s.subrange(i, i + part.len()) == part
}

fn contains(s: &[char], part: &[char]) -> (r: bool)
    ensures
        r == occurs(s@, part@),
{
    let mut i: usize = 0;
    while i <= s.len() && s.len() - i >= part.len()
        invariant
            i <= s@.len() + 1,
            forall|j: int|
                0 <= j < i && j <= s@.len() - part@.len() ==> #[trigger] s@.subrange(
                    j,
                    j + part@.len(),
                ) != part@,
        decreases s@.len() + 1 - i,
    {
        let piece = text::cut(s, i, i + part.len());
        if text::chars_eq(&piece, part) {
            proof {
                assert(s@.subrange(i as int, i + part@.len()) == part@);
            }
            return true;
        }
        if i == s.len() {
            return false;
        }
        i = i + 1;
    }
    false
}

/// Whether the first line of a file is that of a message.
pub open spec fn message_line(first: Seq<char>) -> bool {
    "Return-Path:"@.is_prefix_of(first) || "Received:"@.is_prefix_of(first)
        || "From "@.is_prefix_of(first) || "Delivered-To:"@.is_prefix_of(first)
}

/// Whether a file begins like a message. `first` is its first line, where
/// it could be read.
pub fn file_looks_like_rfc822(first: Option<&str>) -> (r: bool)
    ensures
        r == (first matches Some(l) && message_line(l@)),
{
    match first {
        Some(l) => text::text_starts_with(l, "Return-Path:") || text::text_starts_with(
            l,
            "Received:",
        ) || text::text_starts_with(l, "From ") || text::text_starts_with(l, "Delivered-To:"),
        None => false,
    }
}

/// Whether a path is that of a message file.
pub open spec fn message_path(path: Seq<char>) -> bool {
    paths::lower_extension_of(path) == Some("eml"@)
}

/// Whether a path lies in a mail directory.
pub open spec fn mail_dir_path(path: Seq<char>) -> bool {
    occurs(path, "/cur/"@) || occurs(path, "/new/"@)
}

/// How well mail suits a hit. `first` is the first line of the hit's file,
/// where it could be read.
pub open spec fn score(hit: Hit, first: Option<Seq<char>>) -> u32 {
    let by_category = if hit.category == Category::Mail {
        60u32
    } else {
        0u32
    };
    match hits::action_path(hit.action) {
        None => by_category,
        Some(p) => if message_path(p) {
            85
        } else if mail_dir_path(p) && (first matches Some(l) && message_line(l)) {
            70
        } else {
            by_category
        },
    }
}

/// Shows mail messages.
pub struct EmailPreview;

impl EmailPreview {
    /// The name of the preview.
    pub fn id(&self) -> (r: &'static str)
        ensures
            r@ == "email"@,
    {
        "email"
    }

    /// Whether the score rests on the first line of the hit's file.
    pub fn needs_first_line(&self, hit: &Hit) -> (r: bool)
        ensures
            r == (hits::action_path(hit.action) matches Some(p) && !message_path(p)
                && mail_dir_path(p)),
            !r ==> forall|a: Option<Seq<char>>, b: Option<Seq<char>>|
                score(*hit, a) == score(*hit, b),
    {
        match hits::file_path(hit) {
            Some(path) => {
                if is_message_path(path.as_str()) {
                    return false;
                }
                in_mail_dir(path.as_str())
            },
            None => false,
        }
    }

    /// How well the preview suits a hit.
    pub fn match_score(&self, hit: &Hit, first: Option<&str>) -> (r: u32)
        ensures
            r == score(
                *hit,
                match first {
                    Some(l) => Some(l@),
                    None => None,
                },
            ),
    {
        let by_category: u32 = match hit.category {
            Category::Mail => 60,
            _ => 0,
        };
        match hits::file_path(hit) {
            None => by_category,
            Some(path) => {
                if is_message_path(path.as_str()) {
                    85
                } else if in_mail_dir(path.as_str()) && file_looks_like_rfc822(first) {
                    70
                } else {
                    by_category
                }
            },
        }
    }

    /// How the window is sized.
    pub fn sizing(&self) -> (r: SizingPreference)
        ensures
            r == SizingPreference::FitToContent,
    {
        SizingPreference::FitToContent
    }
}

fn is_message_path(path: &str) -> (r: bool)
    ensures
        r == message_path(path@),
{
    match paths::lower_extension(path) {
        Some(e) => text::text_eq(e.as_str(), "eml"),
        None => false,
    }
}

fn in_mail_dir(path: &str) -> (r: bool)
    ensures
        r == mail_dir_path(path@),
{
    let chars = text::to_chars(path);
    contains(&chars, &text::to_chars("/cur/")) || contains(&chars, &text::to_chars("/new/"))
}

// ---------------------------------------------------------------------
// What a message holds
// ---------------------------------------------------------------------

/// A parsed message.
#[verifier::external_type_specification]
#[verifier::external_body]
pub struct ExMessage<'x>(mail_parser::Message<'x>);

/// One address.
#[derive(Clone, Debug, PartialEq, Eq)]
pub struct Mailbox {
    pub name: Option<String>,
    pub address: Option<String>,
}

/// What a header holds that gives addresses: the addresses, or the names of
/// groups.
#[derive(Clone, Debug, PartialEq, Eq)]
pub enum Addresses {
    List(Vec<Mailbox>),
    Groups(Vec<Option<String>>),
}

/// Addresses as plain values.
pub enum AddressesView {
    List(Seq<(Option<Seq<char>>, Option<Seq<char>>)>),
    Groups(Seq<Option<Seq<char>>>),
}

impl View for Addresses {
    type V = AddressesView;

    open spec fn view(&self) -> AddressesView {
        match self {
            Addresses::List(v) => AddressesView::List(
                Seq::new(
                    v@.len(),
                    |i: int| (model::opt_view(v@[i].name), model::opt_view(v@[i].address)),
                ),
            ),
            Addresses::Groups(v) => AddressesView::Groups(
                Seq::new(v@.len(), |i: int| model::opt_view(v@[i])),
            ),
        }
    }
}

/// Addresses, where there are any, as plain values.
pub open spec fn addresses_view(a: Option<Addresses>) -> Option<AddressesView> {
    match a {
        Some(a) => Some(a@),
        None => None,
    }
}

/// An attachment. The type is given in its two parts.
#[derive(Clone, Debug, PartialEq, Eq)]
pub struct Attachment {
    pub name: Option<String>,
    pub main_type: Option<String>,
    pub sub_type: Option<String>,
    pub len: usize,
}

/// An attachment as plain values.
pub struct AttachmentView {
    pub name: Option<Seq<char>>,
    pub main_type: Option<Seq<char>>,
    pub sub_type: Option<Seq<char>>,
    pub len: usize,
}

impl View for Attachment {
    type V = AttachmentView;

    open spec fn view(&self) -> AttachmentView {
        AttachmentView {
            name: model::opt_view(self.name),
            main_type: model::opt_view(self.main_type),
            sub_type: model::opt_view(self.sub_type),
            len: self.len,
        }
    }
}

/// Attachments as plain values.
pub open spec fn attachment_views(v: Seq<Attachment>) -> Seq<AttachmentView> {
    Seq::new(v.len(), |i: int| v[i]@)
}

/// The bytes that a message was parsed from.
pub uninterp spec fn source_of(message: Message<'_>) -> Seq<u8>;

/// Whether bytes can be parsed as a message.
pub uninterp spec fn parses(bytes: Seq<u8>) -> bool;

/// The sender that a message names.
pub uninterp spec fn from_of(bytes: Seq<u8>) -> Option<AddressesView>;

/// The recipients that a message names.
pub uninterp spec fn to_of(bytes: Seq<u8>) -> Option<AddressesView>;

/// The recipients of copies that a message names.
pub uninterp spec fn cc_of(bytes: Seq<u8>) -> Option<AddressesView>;

/// The date of a message.
pub uninterp spec fn date_of(bytes: Seq<u8>) -> Option<Seq<char>>;

/// The subject of a message.
pub uninterp spec fn subject_of(bytes: Seq<u8>) -> Option<Seq<char>>;

/// The first body of a message, as plain text.
pub uninterp spec fn plain_body_of(bytes: Seq<u8>) -> Option<Seq<char>>;

/// The first body of a message, as HTML.
pub uninterp spec fn html_body_of(bytes: Seq<u8>) -> Option<Seq<char>>;

/// The attachments of a message.
pub uninterp spec fn attachments_of(bytes: Seq<u8>) -> Seq<AttachmentView>;

/// `mail_parser::MessageParser::parse`: a message, unless no headers are
/// found. A quoted-printable body takes one byte back for a line that goes
/// on ahead of a boundary, also where it holds none yet, and an attached
/// message is decoded and parsed in its turn: such bytes are left out.
#[verifier::external_body]
fn parse<'x>(bytes: &'x [u8]) -> (r: Option<Message<'x>>)
    requires
        mime::parseable(bytes@),
    ensures
        r is Some <==> parses(bytes@),
        r matches Some(m) ==> source_of(m) == bytes@,
{
    mail_parser::MessageParser::default().parse(bytes)
}

/// `mail_parser::Message::from`: the sender that the message names.
#[verifier::external_body]
fn message_from(message: &Message<'_>) -> (r: Option<Addresses>)
    ensures
        addresses_view(r) == from_of(source_of(*message)),
{
    message.from().map(|a| match a {
        mail_parser::Address::List(v) => Addresses::List(v.iter().map(|a| Mailbox {
            name: a.name().map(|s| s.to_string()),
            address: a.address().map(|s| s.to_string()),
        }).collect()),
        mail_parser::Address::Group(v) => Addresses::Groups(
            v.iter().map(|g| g.name.as_deref().map(|s| s.to_string())).collect(),
        ),
    })
}

/// `mail_parser::Message::to`: the recipients that the message names.
#[verifier::external_body]
fn message_to(message: &Message<'_>) -> (r: Option<Addresses>)
    ensures
        addresses_view(r) == to_of(source_of(*message)),
{
    message.to().map(|a| match a {
        mail_parser::Address::List(v) => Addresses::List(v.iter().map(|a| Mailbox {
            name: a.name().map(|s| s.to_string()),
            address: a.address().map(|s| s.to_string()),
        }).collect()),
        mail_parser::Address::Group(v) => Addresses::Groups(
            v.iter().map(|g| g.name.as_deref().map(|s| s.to_string())).collect(),
        ),
    })
}

/// `mail_parser::Message::cc`: the recipients of copies that the message names.
#[verifier::external_body]
fn message_cc(message: &Message<'_>) -> (r: Option<Addresses>)
    ensures
        addresses_view(r) == cc_of(source_of(*message)),
{
    message.cc().map(|a| match a {
        mail_parser::Address::List(v) => Addresses::List(v.iter().map(|a| Mailbox {
            name: a.name().map(|s| s.to_string()),
            address: a.address().map(|s| s.to_string()),
        }).collect()),
        mail_parser::Address::Group(v) => Addresses::Groups(
            v.iter().map(|g| g.name.as_deref().map(|s| s.to_string())).collect(),
        ),
    })
}

/// `mail_parser::Message::date` and `mail_parser::DateTime::to_rfc3339`: the
/// date of the message, as text.
#[verifier::external_body]
fn message_date(message: &Message<'_>) -> (r: Option<String>)
    ensures
        model::opt_view(r) == date_of(source_of(*message)),
{
    message.date().map(|d| d.to_rfc3339())
}

/// `mail_parser::Message::subject`: the subject of the message.
#[verifier::external_body]
fn message_subject(message: &Message<'_>) -> (r: Option<String>)
    ensures
        model::opt_view(r) == subject_of(source_of(*message)),
{
    message.subject().map(|s| s.to_string())
}

/// `mail_parser::Message::body_text`: the first body, as plain text.
#[verifier::external_body]
fn message_plain_body(message: &Message<'_>) -> (r: Option<String>)
    ensures
        model::opt_view(r) == plain_body_of(source_of(*message)),
{
    message.body_text(0).map(|s| s.into_owned())
}

/// `mail_parser::Message::body_html`: the first body, as HTML.
#[verifier::external_body]
fn message_html_body(message: &Message<'_>) -> (r: Option<String>)
    ensures
        model::opt_view(r) == html_body_of(source_of(*message)),
{
    message.body_html(0).map(|s| s.into_owned())
}

/// `mail_parser::Message::attachments`, and of each its
/// `attachment_name`, `content_type` and `contents`.
#[verifier::external_body]
fn message_attachments(message: &Message<'_>) -> (r: Vec<Attachment>)
    ensures
        attachment_views(r@) == attachments_of(source_of(*message)),
{
    message.attachments().map(|a| Attachment {
        name: a.attachment_name().map(|s| s.to_string()),
        main_type: a.content_type().map(|t| t.ctype().to_string()),
        sub_type: a.content_type().and_then(|t| t.subtype()).map(|s| s.to_string()),
        len: a.contents().len(),
    }).collect()
}

// ---------------------------------------------------------------------
// How it is shown
// ---------------------------------------------------------------------

/// An optional text, or nothing.
pub open spec fn or_empty(o: Option<Seq<char>>) -> Seq<char> {
    match o {
        Some(s) => s,
        None => Seq::empty(),
    }
}

/// One address as it is shown: the address, with the name before it where
/// there is one.
pub open spec fn mailbox_text(name: Option<Seq<char>>, address: Option<Seq<char>>) -> Seq<char> {
    if or_empty(name).len() == 0 {
        or_empty(address)
    } else {
        or_empty(name) + " <"@ + or_empty(address) + ">"@
    }
}

/// The texts that addresses are shown as.
pub open spec fn address_texts(a: AddressesView) -> Seq<Seq<char>> {
    match a {
        AddressesView::List(v) => Seq::new(v.len(), |i: int| mailbox_text(v[i].0, v[i].1)),
        AddressesView::Groups(v) => Seq::new(
            v.len(),
            |i: int|
                match v[i] {
                    Some(n) => n,
                    None => "(group)"@,
                },
        ),
    }
}

/// Addresses as they are shown.
pub open spec fn address_text(a: Option<AddressesView>) -> Seq<char> {
    match a {
        None => "(none)"@,
        Some(a) => text::joined(address_texts(a), ", "@),
    }
}

fn mailbox_chars(m: &Mailbox) -> (r: String)
    ensures
        r@ == mailbox_text(model::opt_view(m.name), model::opt_view(m.address)),
{
    let address = match &m.address {
        Some(a) => a.clone(),
        None => String::new(),
    };
    match &m.name {
        Some(n) => {
            if n.as_str().unicode_len() == 0 {
                address
            } else {
                let mut s = n.clone();
                s.push_str(" <");
                s.push_str(address.as_str());
                s.push_str(">");
                s
            }
        },
        None => address,
    }
}

/// Joins texts with a comma and a space.
fn join_comma(parts: &Vec<String>) -> (r: String)
    ensures
        r@ == text::joined(Seq::new(parts@.len(), |i: int| parts@[i]@), ", "@),
{
    let ghost all = Seq::new(parts@.len(), |i: int| parts@[i]@);
    let mut out = String::new();
    let mut i: usize = 0;
    proof {
        assert(out@ =~= text::joined(all.take(0), ", "@));
    }
    while i < parts.len()
        invariant
            i <= parts@.len(),
            all == Seq::new(parts@.len(), |i: int| parts@[i]@),
            out@ == text::joined(all.take(i as int), ", "@),
        decreases parts@.len() - i,
    {
        proof {
            assert(all.take(i + 1).drop_last() =~= all.take(i as int));
            assert(all.take(i + 1).last() == parts@[i as int]@);
        }
        let ghost before = out@;
        if i > 0 {
            out.push_str(", ");
        }
        out.push_str(parts[i].as_str());
        proof {
            if i == 0 {
                assert(before =~= Seq::<char>::empty());
                assert(out@ =~= parts@[0]@);
            } else {
                assert(out@ =~= before + ", "@ + parts@[i as int]@);
            }
        }
        i = i + 1;
    }
    proof {
        assert(all.take(parts@.len() as int) =~= all);
    }
    out
}

/// Addresses as they are shown.
pub fn format_address(a: &Option<Addresses>) -> (r: String)
    ensures
        r@ == address_text(addresses_view(*a)),
        lists_addresses(r@, addresses_view(*a)),
{
    proof {
        lemma_address_text(addresses_view(*a));
    }
    match a {
        None => "(none)".to_string(),
        Some(Addresses::List(v)) => {
            let ghost texts = address_texts(a->0@);
            let mut parts: Vec<String> = Vec::new();
            let mut i: usize = 0;
            while i < v.len()
                invariant
                    i <= v@.len(),
                    texts == address_texts(Addresses::List(*v)@),
                    parts@.len() == i,
                    forall|k: int| 0 <= k < i ==> (#[trigger] parts@[k])@ == texts[k],
                decreases v@.len() - i,
            {
                parts.push(mailbox_chars(&v[i]));
                i = i + 1;
            }
            proof {
                assert(Seq::new(parts@.len(), |i: int| parts@[i]@) =~= texts);
            }
            join_comma(&parts)
        },
        Some(Addresses::Groups(v)) => {
            let ghost texts = address_texts(a->0@);
            let mut parts: Vec<String> = Vec::new();
            let mut i: usize = 0;
            while i < v.len()
                invariant
                    i <= v@.len(),
                    texts == address_texts(Addresses::Groups(*v)@),
                    parts@.len() == i,
                    forall|k: int| 0 <= k < i ==> (#[trigger] parts@[k])@ == texts[k],
                decreases v@.len() - i,
            {
                let name = match &v[i] {
                    Some(n) => n.clone(),
                    None => "(group)".to_string(),
                };
                parts.push(name);
                i = i + 1;
            }
            proof {
                assert(Seq::new(parts@.len(), |i: int| parts@[i]@) =~= texts);
            }
            join_comma(&parts)
        },
    }
}

/// The body as it is shown: the plain one, or else the one in HTML, which
/// may not fit, or else a note.
pub open spec fn body_text(
    plain: Option<Seq<char>>,
    html: Option<Seq<char>>,
    layout: spec_fn(Seq<char>) -> Option<Seq<char>>,
) -> Option<Seq<char>> {
    match (plain, html) {
        (Some(p), _) => Some(p),
        (None, Some(h)) => layout(h),
        (None, None) => Some("(no body)"@),
    }
}

/// The bodies of a message: in plain text, and in HTML laid out, `None`
/// within `Some` where it does not fit.
pub fn pick_body_text(plain: Option<String>, html: Option<Option<String>>) -> (r: Option<String>)
    ensures
        model::opt_view(r) == (match (plain, html) {
            (Some(p), _) => Some(p@),
            (None, Some(h)) => model::opt_view(h),
            (None, None) => Some("(no body)"@),
        }),
{
    match plain {
        Some(p) => Some(p),
        None => match html {
            Some(h) => h,
            None => Some("(no body)".to_string()),
        },
    }
}

/// The line of an attachment as plain values: its name, and its size and
/// type.
pub open spec fn attachment_line(a: AttachmentView) -> (Seq<char>, Seq<char>) {
    let name = match a.name {
        Some(n) => n,
        None => "(unnamed)"@,
    };
    let kind = match (a.main_type, a.sub_type) {
        (None, _) => "application/octet-stream"@,
        (Some(m), None) => m,
        (Some(m), Some(s)) => m + "/"@ + s,
    };
    (name, sizes::binary_size(a.len as nat) + " · "@ + kind)
}

/// The line of an attachment.
#[derive(Clone, Debug, PartialEq, Eq)]
pub struct AttachmentLine {
    pub name: String,
    pub meta: String,
}

/// Lines as plain values.
pub open spec fn line_views(v: Seq<AttachmentLine>) -> Seq<(Seq<char>, Seq<char>)> {
    Seq::new(v.len(), |i: int| (v[i].name@, v[i].meta@))
}

/// The lines of attachments.
pub open spec fn attachment_lines(v: Seq<AttachmentView>) -> Seq<(Seq<char>, Seq<char>)> {
    Seq::new(v.len(), |i: int| attachment_line(v[i]))
}

/// The lines of attachments.
pub fn build_attachment_list(v: &Vec<Attachment>) -> (r: Vec<AttachmentLine>)
    ensures
        line_views(r@) == attachment_lines(attachment_views(v@)),
{
    let mut out: Vec<AttachmentLine> = Vec::new();
    let mut i: usize = 0;
    while i < v.len()
        invariant
            i <= v@.len(),
            out@.len() == i,
            forall|k: int|
                0 <= k < i ==> ((#[trigger] out@[k]).name@, out@[k].meta@) == attachment_line(
                    v@[k]@,
                ),
        decreases v@.len() - i,
    {
        let a = &v[i];
        let name = match &a.name {
            Some(n) => n.clone(),
            None => "(unnamed)".to_string(),
        };
        let mut meta = sizes::human_bytes(a.len as u64);
        meta.push_str(" · ");
        match &a.main_type {
            None => {
                meta.push_str("application/octet-stream");
            },
            Some(m) => {
                meta.push_str(m.as_str());
                match &a.sub_type {
                    Some(s) => {
                        meta.push_str("/");
                        meta.push_str(s.as_str());
                    },
                    None => {},
                }
            },
        }
        proof {
            let (want_name, want_meta) = attachment_line(a@);
            assert(name@ == want_name);
            assert(meta@ =~= want_meta);
        }
        out.push(AttachmentLine { name, meta });
        i = i + 1;
    }
    proof {
        assert(line_views(out@) =~= attachment_lines(attachment_views(v@)));
    }
    out
}

/// A message as it is shown. The body is `None` where it is in HTML that
/// cannot be laid out.
#[derive(Clone, Debug, PartialEq, Eq)]
pub struct MessageView {
    pub from: String,
    pub to: String,
    pub cc: String,
    pub date: String,
    pub subject: String,
    pub body: Option<String>,
    pub attachments: Vec<AttachmentLine>,
}

/// Whether `v` shows the message in `bytes`.
pub open spec fn shows(v: MessageView, bytes: Seq<u8>) -> bool {
    &&& v.from@ == address_text(from_of(bytes))
    &&& v.to@ == address_text(to_of(bytes))
    &&& v.cc@ == address_text(cc_of(bytes))
    &&& v.date@ == (match date_of(bytes) {
        Some(d) => d,
        None => "(no date)"@,
    })
    &&& v.subject@ == (match subject_of(bytes) {
        Some(s) => s,
        None => "(no subject)"@,
    })
    &&& model::opt_view(v.body) == body_text(
        plain_body_of(bytes),
        html_body_of(bytes),
        |h: Seq<char>| html::layout(h, HTML_COLUMNS),
    )
    &&& line_views(v.attachments@) == attachment_lines(attachments_of(bytes))
}

/// The bytes of a message that are read.
pub open spec fn capped(raw: Seq<u8>) -> Seq<u8> {
    if raw.len() > MAX_EMAIL_BYTES {
        raw.take(MAX_EMAIL_BYTES as int)
    } else {
        raw
    }
}

/// A message as it is shown; `None` where the bytes are no message, or none
/// that can be parsed.
pub fn build(raw: &[u8]) -> (r: Option<MessageView>)
    ensures
        match r {
            Some(v) => mime::parseable(capped(raw@)) && parses(capped(raw@)) && shows(
                v,
                capped(raw@),
            ) && lists_addresses(v.from@, from_of(capped(raw@))) && lists_addresses(
                v.to@,
                to_of(capped(raw@)),
            ) && lists_addresses(v.cc@, cc_of(capped(raw@))),
            None => !mime::parseable(capped(raw@)) || !parses(capped(raw@)),
        },
{
    let bytes: &[u8] = if raw.len() > MAX_EMAIL_BYTES {
        vstd::slice::slice_subrange(raw, 0, MAX_EMAIL_BYTES)
    } else {
        raw
    };
    proof {
        assert(bytes@ =~= capped(raw@));
    }
    if !mime::can_parse(bytes) {
        return None;
    }
    let message = match parse(bytes) {
        Some(m) => m,
        None => {
            return None;
        },
    };
    let plain = message_plain_body(&message);
    let html = match &plain {
        Some(_) => None,
        None => match message_html_body(&message) {
            Some(h) => Some(html::lay_out_html(h.as_str(), HTML_COLUMNS)),
            None => None,
        },
    };
    let body = pick_body_text(plain, html);
    proof {
        lemma_address_text(from_of(bytes@));
        lemma_address_text(to_of(bytes@));
        lemma_address_text(cc_of(bytes@));
    }
    Some(
        MessageView {
            from: format_address(&message_from(&message)),
            to: format_address(&message_to(&message)),
            cc: format_address(&message_cc(&message)),
            date: match message_date(&message) {
                Some(d) => d,
                None => "(no date)".to_string(),
            },
            subject: match message_subject(&message) {
                Some(s) => s,
                None => "(no subject)".to_string(),
            },
            body,
            attachments: build_attachment_list(&message_attachments(&message)),
        },
    )
}

/// What is shown where the bytes are no message.
pub const UNPARSEABLE: &'static str = "unparseable: mail-parser rejected the bytes";

/// What is shown where the index holds no body.
pub const NO_BODY: &'static str =
    "(body not available — gloda index stores a snippet only; open the message in Thunderbird for the full body)";

/// A message as its hit describes it.
#[derive(Clone, Debug, PartialEq, Eq)]
pub struct HitMessage {
    /// The recipients, where they are known.
    pub to: Option<String>,
    pub body: String,
}

/// A message as its hit describes it.
pub fn build_from_hit_fields(hit: &Hit) -> (r: HitMessage)
    ensures
        model::opt_view(r.to) == (match hit.recipients {
            Some(s) if s@.len() > 0 => Some(s@),
            _ => None,
        }),
        r.body@ == (match hit.body {
            Some(b) => b@,
            None => NO_BODY@,
        }),
{
    let to = match &hit.recipients {
        Some(s) => {
            if s.as_str().unicode_len() > 0 {
                Some(s.clone())
            } else {
                None
            }
        },
        None => None,
    };
    let body = match &hit.body {
        Some(b) => b.clone(),
        None => NO_BODY.to_string(),
    };
    HitMessage { to, body }
}

/// Whether `shown` is how one mailbox is written: its address, or its name
/// and the address in angle brackets behind it.
pub open spec fn is_mailbox(
    shown: Seq<char>,
    name: Option<Seq<char>>,
    address: Option<Seq<char>>,
) -> bool {
    let at = if address is Some {
        address->0
    } else {
        Seq::empty()
    };
    if name is Some && name->0.len() > 0 {
        shown == name->0 + " <"@ + at + ">"@
    } else {
        shown == at
    }
}

/// Whether a line lists the addresses that a header names: every one of
/// them, in order, with a comma and a space between each two.
pub open spec fn lists_addresses(line: Seq<char>, header: Option<AddressesView>) -> bool {
    match header {
        None => line == "(none)"@,
        Some(AddressesView::List(boxes)) => exists|texts: Seq<Seq<char>>|
            texts.len() == boxes.len() && (forall|i: int|
                0 <= i < boxes.len() ==> is_mailbox(#[trigger] texts[i], boxes[i].0, boxes[i].1))
                && line == #[trigger] text::joined(texts, ", "@),
        Some(AddressesView::Groups(names)) => exists|texts: Seq<Seq<char>>|
            texts.len() == names.len() && (forall|i: int|
                0 <= i < names.len() ==> #[trigger] texts[i] == (if names[i] is Some {
                    names[i]->0
                } else {
                    "(group)"@
                })) && line == #[trigger] text::joined(texts, ", "@),
    }
}

proof fn lemma_address_text(header: Option<AddressesView>)
    ensures
        lists_addresses(address_text(header), header),
{
    if let Some(a) = header {
        let texts = address_texts(a);
        assert(address_text(header) == text::joined(texts, ", "@));
        match a {
            AddressesView::List(boxes) => {
                assert forall|i: int| 0 <= i < boxes.len() implies is_mailbox(
                    #[trigger] texts[i],
                    boxes[i].0,
                    boxes[i].1,
                ) by {}
            },
            AddressesView::Groups(names) => {},
        }
    }
}

/// Law: each header line shows its own header, every mailbox of it in order,
/// and "(none)" where the message has no such header.
pub proof fn law_each_header_line_shows_its_header(v: MessageView, bytes: Seq<u8>)
    requires
        shows(v, bytes),
    ensures
        lists_addresses(v.from@, from_of(bytes)),
        lists_addresses(v.to@, to_of(bytes)),
        lists_addresses(v.cc@, cc_of(bytes)),
        from_of(bytes) is None ==> v.from@ == "(none)"@,
        to_of(bytes) is None ==> v.to@ == "(none)"@,
        cc_of(bytes) is None ==> v.cc@ == "(none)"@,
        date_of(bytes) matches Some(d) ==> v.date@ == d,
        date_of(bytes) is None ==> v.date@ == "(no date)"@,
        subject_of(bytes) matches Some(s) ==> v.subject@ == s,
        subject_of(bytes) is None ==> v.subject@ == "(no subject)"@,
{
    lemma_address_text(from_of(bytes));
    lemma_address_text(to_of(bytes));
    lemma_address_text(cc_of(bytes));
}

/// Law: a header that names one mailbox is shown as that mailbox.
pub proof fn law_one_mailbox_is_shown_as_it_is(
    line: Seq<char>,
    name: Seq<char>,
    address: Seq<char>,
)
    requires
        name.len() > 0,
    ensures
        lists_addresses(line, Some(AddressesView::List(seq![(Some(name), Some(address))])))
            ==> line == name + " <"@ + address + ">"@,
        lists_addresses(line, Some(AddressesView::List(seq![(None, Some(address))]))) ==> line
            == address,
{
    let named: Seq<(Option<Seq<char>>, Option<Seq<char>>)> = seq![(Some(name), Some(address))];
    let bare: Seq<(Option<Seq<char>>, Option<Seq<char>>)> = seq![(None, Some(address))];
    if lists_addresses(line, Some(AddressesView::List(named))) {
        let texts = choose|texts: Seq<Seq<char>>|
            texts.len() == named.len() && (forall|i: int|
                0 <= i < named.len() ==> is_mailbox(#[trigger] texts[i], named[i].0, named[i].1))
                && line == #[trigger] text::joined(texts, ", "@);
        assert(is_mailbox(texts[0], named[0].0, named[0].1));
        assert(texts.last() == texts[0]);
    }
    if lists_addresses(line, Some(AddressesView::List(bare))) {
        let texts = choose|texts: Seq<Seq<char>>|
            texts.len() == bare.len() && (forall|i: int|
                0 <= i < bare.len() ==> is_mailbox(#[trigger] texts[i], bare[i].0, bare[i].1))
                && line == #[trigger] text::joined(texts, ", "@);
        assert(is_mailbox(texts[0], bare[0].0, bare[0].1));
        assert(texts.last() == texts[0]);
    }
}

/// Law: a message shows its plain text; one without shows its HTML laid out
/// in eighty columns, where it can be; one without a body says so.
pub proof fn law_a_message_shows_its_body(v: MessageView, bytes: Seq<u8>)
    requires
        shows(v, bytes),
    ensures
        plain_body_of(bytes) matches Some(p) ==> (v.body matches Some(b) && b@ == p),
        plain_body_of(bytes) is None ==> (html_body_of(bytes) matches Some(h) ==> model::opt_view(
            v.body,
        ) == html::layout(h, 80)),
        plain_body_of(bytes) is None && html_body_of(bytes) is None ==> (v.body matches Some(b)
            && b@ == "(no body)"@),
{
}

/// Law: every attachment has its line, in order: its name, its size in
/// bytes as it is written, and its type.
pub proof fn law_every_attachment_has_its_line(v: MessageView, bytes: Seq<u8>, k: int)
    requires
        shows(v, bytes),
    ensures
        v.attachments@.len() == attachments_of(bytes).len(),
        0 <= k < attachments_of(bytes).len() ==> {
            let a = attachments_of(bytes)[k];
            let line = v.attachments@[k];
            &&& a.name matches Some(n) ==> line.name@ == n
            &&& a.name is None ==> line.name@ == "(unnamed)"@
            &&& sizes::binary_size(a.len as nat).is_prefix_of(line.meta@)
            &&& a.main_type matches Some(m) ==> (a.sub_type matches Some(s) ==> line.meta@
                == sizes::binary_size(a.len as nat) + " · "@ + (m + "/"@ + s))
            &&& a.main_type matches Some(m) ==> a.sub_type is None ==> line.meta@
                == sizes::binary_size(a.len as nat) + " · "@ + m
            &&& a.main_type is None ==> line.meta@ == sizes::binary_size(a.len as nat) + " · "@
                + "application/octet-stream"@
        },
{
    let lines = line_views(v.attachments@);
    assert(lines.len() == v.attachments@.len());
    if 0 <= k < attachments_of(bytes).len() {
        assert(lines[k] == attachment_line(attachments_of(bytes)[k]));
        let size = sizes::binary_size(attachments_of(bytes)[k].len as nat);
        let meta = v.attachments@[k].meta@;
        assert(meta.subrange(0, size.len() as int) =~= size);
    }
}

/// Law: of a message no more than its first eight mebibytes are read.
pub proof fn law_long_messages_are_cut(raw: Seq<u8>)
    ensures
        raw.len() <= 8 * 1024 * 1024 ==> capped(raw) == raw,
        raw.len() > 8 * 1024 * 1024 ==> capped(raw) == raw.take(8388608),
{
}

/// Law: a message file suits the mail preview best, whatever the hit's
/// category; a file in a mail directory that begins like a message comes
/// next, then any hit that is mail; nothing else suits it.
pub proof fn law_mail_is_shown_as_mail(hit: Hit, first: Option<Seq<char>>)
    ensures
        ({
            let path = hits::action_path(hit.action);
            let eml = path matches Some(p) && (paths::lower_extension_of(p) matches Some(e) && e
                == "eml"@);
            let in_dir = path matches Some(p) && (occurs(p, "/cur/"@) || occurs(p, "/new/"@));
            let begins = first matches Some(l) && ("Return-Path:"@.is_prefix_of(l)
                || "Received:"@.is_prefix_of(l) || "From "@.is_prefix_of(l)
                || "Delivered-To:"@.is_prefix_of(l));
            &&& eml ==> score(hit, first) == 85
            &&& !eml && in_dir && begins ==> score(hit, first) == 70
            &&& !eml && !(in_dir && begins) && hit.category == Category::Mail ==> score(hit, first)
                == 60
            &&& !eml && !(in_dir && begins) && hit.category != Category::Mail ==> score(hit, first)
                == 0
        }),
{
}

/// Law: a message that names one recipient of copies shows that one, and
/// likewise for its sender and its recipients.
pub proof fn law_a_named_mailbox_is_shown(v: MessageView, bytes: Seq<u8>, address: Seq<char>)
    requires
        shows(v, bytes),
    ensures
        from_of(bytes) == Some(AddressesView::List(seq![(None, Some(address))])) ==> v.from@
            == address,
        to_of(bytes) == Some(AddressesView::List(seq![(None, Some(address))])) ==> v.to@ == address,
        cc_of(bytes) == Some(AddressesView::List(seq![(None, Some(address))])) ==> v.cc@ == address,
{
    law_each_header_line_shows_its_header(v, bytes);
    law_one_mailbox_is_shown_as_it_is(v.from@, seq!['a'], address);
    law_one_mailbox_is_shown_as_it_is(v.to@, seq!['a'], address);
    law_one_mailbox_is_shown_as_it_is(v.cc@, seq!['a'], address);
}

} // verus!
