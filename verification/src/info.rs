//! The card that is shown for a hit that no other preview suits.

use vstd::prelude::*;

use crate::archive;
use crate::av;
use crate::calendar;
use crate::code;
use crate::email;
use crate::folder;
use crate::hits::SizingPreference;
use crate::image;
use crate::model::{Category, Hit};
use crate::model;
use crate::office;
use crate::sizes;
use crate::text;

verus! {

/// Whether a number of seconds since the epoch falls between the first day
/// of the year -262143 and the last day of the year 262142.
pub open spec fn representable(ts: i64) -> bool {
    -8334601228800 <= ts <= 8210266876799
}

/// Whether a text is a time where clocks are `off` seconds ahead of
/// universal time.
pub open spec fn shown_at(s: Seq<char>, ts: i64, off: int) -> bool {
    s == calendar::civil_text(ts + off)
}

/// Whether a text is a time as clocks somewhere show it: less than a day
/// ahead of universal time or behind it.
pub open spec fn local_time(s: Seq<char>, ts: i64) -> bool {
    exists|off: int| -86400 < off < 86400 && #[trigger] shown_at(s, ts, off)
}

/// `chrono::DateTime::from_timestamp`, whole seconds, then `with_timezone`
/// and `format`: day, month, year, hour and minute in the machine's time
/// zone; `None` on a time that is out of range. How far that zone is from
/// universal time is not said, only that it is less than a day.
#[verifier::external_body]
fn local_text(ts: i64) -> (r: Option<String>)
    ensures
        r is Some <==> representable(ts),
        r matches Some(s) ==> local_time(s@, ts),
{
    chrono::DateTime::from_timestamp(ts, 0).map(
        |t| t.with_timezone(&chrono::Local).format("%-d %b %Y %H:%M").to_string(),
    )
}

/// The date of a hit: the local time, or a dash where there is none.
pub fn shown_time(local: Option<String>) -> (r: String)
    ensures
        r@ == (match local {
            Some(s) => s@,
            None => "—"@,
        }),
{
    match local {
        Some(s) => s,
        None => "—".to_string(),
    }
}

/// Whether a text shows a time: as a local time, or as a dash where it is
/// out of range.
pub open spec fn time_text(s: Seq<char>, ts: i64) -> bool {
    if representable(ts) {
        local_time(s, ts)
    } else {
        s == "—"@
    }
}

/// A time in seconds since the epoch as people read it, or a dash where it
/// is out of range.
pub fn format_timestamp(ts: i64) -> (r: String)
    ensures
        time_text(r@, ts),
{
    shown_time(local_text(ts))
}

/// The icon of a category.
pub open spec fn icon_of(cat: Category) -> Seq<char> {
    match cat {
        Category::App => "application-x-executable"@,
        Category::File => "text-x-generic"@,
        Category::Mail => "mail-message"@,
        Category::Attachment => "mail-attachment"@,
        Category::Calculator => "accessories-calculator"@,
        Category::Shell => "utilities-terminal"@,
    }
}

/// What a category is called.
pub open spec fn kind_of(cat: Category) -> Seq<char> {
    match cat {
        Category::App => "Application"@,
        Category::File => "File"@,
        Category::Mail => "Email"@,
        Category::Attachment => "Attachment"@,
        Category::Calculator => "Calculator"@,
        Category::Shell => "Shell command"@,
    }
}

/// The icon of a category.
pub fn category_icon(cat: Category) -> (r: &'static str)
    ensures
        r@ == icon_of(cat),
{
    match cat {
        Category::App => "application-x-executable",
        Category::File => "text-x-generic",
        Category::Mail => "mail-message",
        Category::Attachment => "mail-attachment",
        Category::Calculator => "accessories-calculator",
        Category::Shell => "utilities-terminal",
    }
}

/// What a category is called.
pub fn category_kind(cat: Category) -> (r: &'static str)
    ensures
        r@ == kind_of(cat),
{
    match cat {
        Category::App => "Application",
        Category::File => "File",
        Category::Mail => "Email",
        Category::Attachment => "Attachment",
        Category::Calculator => "Calculator",
        Category::Shell => "Shell command",
    }
}

/// The icon of a hit: its own, unless that is a path, or else its
/// category's.
pub open spec fn hit_icon(hit: Hit) -> Seq<char> {
    match hit.icon_name {
        Some(n) if !"/"@.is_prefix_of(n@) => n@,
        _ => icon_of(hit.category),
    }
}

/// The icon of a hit.
pub fn resolve_icon_name(hit: &Hit) -> (r: String)
    ensures
        r@ == hit_icon(*hit),
{
    match &hit.icon_name {
        Some(n) => {
            if text::text_starts_with(n.as_str(), "/") {
                category_icon(hit.category).to_string()
            } else {
                n.clone()
            }
        },
        None => category_icon(hit.category).to_string(),
    }
}

/// Shows a card for any hit.
pub struct InfoPreview;

impl InfoPreview {
    /// The name of the preview.
    pub fn id(&self) -> (r: &'static str)
        ensures
            r@ == "info"@,
    {
        "info"
    }

    /// How well the preview suits a hit: any hit, but worse than every
    /// other preview that does.
    pub fn match_score(&self, _hit: &Hit) -> (r: u32)
        ensures
            r == 1,
    {
        1
    }

    /// How the window is sized.
    pub fn sizing(&self) -> (r: SizingPreference)
        ensures
            r == SizingPreference::FitToContent,
    {
        SizingPreference::FitToContent
    }
}

/// A line of the card.
#[derive(Clone, Debug, PartialEq, Eq)]
pub struct Detail {
    pub label: String,
    pub value: String,
}

/// What the card shows.
#[derive(Clone, Debug, PartialEq, Eq)]
pub struct Card {
    pub icon: String,
    pub title: String,
    pub kind: String,
    pub details: Vec<Detail>,
}

/// The lines of a card as plain values: the size, the time and the place,
/// each where it is known. `when` is the time as it is shown.
pub open spec fn detail_views(
    size: Option<u64>,
    when: Option<Seq<char>>,
    subtitle: Seq<char>,
) -> Seq<(Seq<char>, Seq<char>)> {
    let a = match size {
        Some(n) => seq![("Size"@, sizes::decimal_size(n as nat))],
        None => Seq::empty(),
    };
    let b = match when {
        Some(t) => a.push(("Modified"@, t)),
        None => a,
    };
    if subtitle.len() > 0 {
        b.push(("Where"@, subtitle))
    } else {
        b
    }
}

/// Lines as plain values.
pub open spec fn lines_of(details: Seq<Detail>) -> Seq<(Seq<char>, Seq<char>)> {
    Seq::new(details.len(), |i: int| (details[i].label@, details[i].value@))
}

fn add_detail(details: &mut Vec<Detail>, label: &str, value: String)
    ensures
        lines_of(final(details)@) == lines_of(old(details)@).push((label@, value@)),
{
    let ghost before = details@;
    details.push(Detail { label: label.to_string(), value });
    proof {
        assert(lines_of(details@) =~= lines_of(before).push((label@, value@)));
    }
}

/// The card for a hit with this size and time, each where it is known.
pub fn hit_card(hit: &Hit, size: Option<u64>, timestamp: Option<i64>) -> (r: Card)
    ensures
        r.icon@ == hit_icon(*hit),
        r.title@ == hit.title@,
        r.kind@ == (match hit.kind_label {
            Some(k) => k@,
            None => kind_of(hit.category),
        }),
        match timestamp {
            None => lines_of(r.details@) == detail_views(size, None, hit.subtitle@),
            Some(ts) => exists|when: Seq<char>| #[trigger]
                time_text(when, ts) && lines_of(r.details@) == detail_views(
                    size,
                    Some(when),
                    hit.subtitle@,
                ),
        },
{
    match timestamp {
        None => card(hit, size, None),
        Some(ts) => {
            let when = format_timestamp(ts);
            proof {
                assert(time_text(when@, ts));
            }
            card(hit, size, Some(when))
        },
    }
}

/// The card for a hit. `when` is the hit's time as it is shown.
pub fn card(hit: &Hit, size: Option<u64>, when: Option<String>) -> (r: Card)
    ensures
        r.icon@ == hit_icon(*hit),
        r.title@ == hit.title@,
        r.kind@ == (match hit.kind_label {
            Some(k) => k@,
            None => kind_of(hit.category),
        }),
        lines_of(r.details@) == detail_views(size, model::opt_view(when), hit.subtitle@),
{
    let mut details: Vec<Detail> = Vec::new();
    proof {
        assert(lines_of(details@) =~= Seq::<(Seq<char>, Seq<char>)>::empty());
    }
    match size {
        Some(n) => {
            add_detail(&mut details, "Size", sizes::human_bytes_decimal(n));
            proof {
                assert(lines_of(details@) =~= seq![("Size"@, sizes::decimal_size(n as nat))]);
            }
        },
        None => {},
    }
    match when {
        Some(t) => {
            add_detail(&mut details, "Modified", t);
        },
        None => {},
    }
    if hit.subtitle.as_str().unicode_len() > 0 {
        add_detail(&mut details, "Where", hit.subtitle.clone());
    }
    let kind = match &hit.kind_label {
        Some(k) => k.clone(),
        None => category_kind(hit.category).to_string(),
    };
    Card { icon: resolve_icon_name(hit), title: hit.title.clone(), kind, details }
}

/// Law: the card of last resort never wins over a preview that suits the
/// hit. `first` is the first line of the hit's file, where it has one.
pub proof fn law_card_never_shadows_a_preview(hit: Hit, first: Option<Seq<char>>)
    ensures
        archive::score(hit) > 0 ==> archive::score(hit) > 1,
        av::score(hit) > 0 ==> av::score(hit) > 1,
        code::score(hit) > 0 ==> code::score(hit) > 1,
        email::score(hit, first) > 0 ==> email::score(hit, first) > 1,
        folder::score(hit) > 0 ==> folder::score(hit) > 1,
        image::score(hit) > 0 ==> image::score(hit) > 1,
        office::score(hit) > 0 ==> office::score(hit) > 1,
{
}

/// Law: a card shows the size, the time and the place of a hit where they
/// are known, in this order and with nothing else.
pub proof fn law_a_card_shows_what_is_known(
    size: Option<u64>,
    when: Option<Seq<char>>,
    subtitle: Seq<char>,
)
    ensures
        ({
            let d = detail_views(size, when, subtitle);
            let has_size: int = if size is Some {
                1
            } else {
                0
            };
            let has_time: int = if when is Some {
                1
            } else {
                0
            };
            let has_place: int = if subtitle.len() > 0 {
                1
            } else {
                0
            };
            &&& d.len() == has_size + has_time + has_place
            &&& size matches Some(n) ==> d[0] == ("Size"@, sizes::decimal_size(n as nat))
            &&& when matches Some(t) ==> d[has_size] == ("Modified"@, t)
            &&& subtitle.len() > 0 ==> d[has_size + has_time] == ("Where"@, subtitle)
        }),
{
}

/// Law: a hit is shown with its own icon, unless that is the path of a file
/// or it has none: then all hits of its category look the same.
pub proof fn law_a_hit_has_its_own_icon(a: Hit, b: Hit)
    ensures
        a.icon_name matches Some(n) ==> n@.len() > 0 && n@[0] != '/' ==> hit_icon(a) == n@,
        (a.icon_name is None && b.icon_name is None && a.category == b.category) ==> hit_icon(a)
            == hit_icon(b),
        (a.icon_name matches Some(n) && n@.len() > 0 && n@[0] == '/') && b.icon_name is None
            && a.category == b.category ==> hit_icon(a) == hit_icon(b),
{
    reveal_strlit("/");
    if let Some(n) = a.icon_name {
        if "/"@.is_prefix_of(n@) {
            assert("/"@[0] == n@.subrange(0, 1)[0]);
        }
        if n@.len() > 0 && n@[0] == '/' {
            assert("/"@ =~= n@.subrange(0, 1));
        }
    }
}

/// Law: every category has an icon and a name of its own.
pub proof fn law_categories_have_their_icons_and_names(cat: Category)
    ensures
        cat is App ==> icon_of(cat) == "application-x-executable"@ && kind_of(cat) == "Application"@,
        cat is File ==> icon_of(cat) == "text-x-generic"@ && kind_of(cat) == "File"@,
        cat is Mail ==> icon_of(cat) == "mail-message"@ && kind_of(cat) == "Email"@,
        cat is Attachment ==> icon_of(cat) == "mail-attachment"@ && kind_of(cat) == "Attachment"@,
        cat is Calculator ==> icon_of(cat) == "accessories-calculator"@ && kind_of(cat) == "Calculator"@,
        cat is Shell ==> icon_of(cat) == "utilities-terminal"@ && kind_of(cat) == "Shell command"@,
{
}

} // verus!
