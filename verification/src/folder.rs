//! Lists the immediate children of a folder.

use vstd::prelude::*;

use crate::hits;
use crate::hits::{Row, SizingPreference};
use crate::model::Hit;
use crate::order;
use crate::sizes;
use crate::text;

verus! {

/// Greatest number of entries that are shown.
pub const ENTRY_CAP: usize = 5000;

/// What a child of a folder is.
#[derive(Clone, Copy, Debug, PartialEq, Eq, Structural)]
pub enum EntryKind {
    File,
    Dir,
    /// A symbolic link, which is never followed.
    Symlink,
    /// Anything else, and what cannot be read.
    Other,
}

/// A child of a folder. Only files have a size.
#[derive(Clone, Debug, PartialEq, Eq)]
pub struct Entry {
    pub name: String,
    pub kind: EntryKind,
    pub size: Option<u64>,
}

/// The children of a folder.
#[derive(Clone, Debug, PartialEq, Eq)]
pub struct DirListing {
    /// The children that are shown.
    pub entries: Vec<Entry>,
    /// The number of files, shown or not.
    pub files: usize,
    /// The number of folders, shown or not.
    pub dirs: usize,
    /// The size of all files, shown or not.
    pub total_size: u64,
    /// Whether children are left out.
    pub truncated: bool,
}

/// Why a folder could not be listed.
#[derive(Clone, Debug, PartialEq, Eq)]
pub enum DirError {
    Io(String),
}

impl DirError {
    /// The message of the error.
    pub open spec fn message(self) -> Seq<char> {
        match self {
            DirError::Io(why) => "cannot read folder: "@ + why@,
        }
    }

    /// The message of the error.
    pub fn to_text(&self) -> (r: String)
        ensures
            r@ == self.message(),
    {
        match self {
            DirError::Io(why) => {
                let mut s = "cannot read folder: ".to_string();
                s.push_str(why.as_str());
                s
            },
        }
    }
}

/// What the file system says of a child, links not followed.
#[derive(Clone, Copy, Debug, PartialEq, Eq, Structural)]
pub enum Node {
    Symlink,
    Dir,
    File { len: u64 },
    Other,
}

/// A child as it was read. One that could not be read has no name; one
/// that could not be asked what it is has no node.
#[derive(Clone, Debug, PartialEq, Eq)]
pub struct Child {
    pub name: Option<String>,
    pub node: Option<Node>,
}

/// An entry as plain values.
pub struct EntryView {
    pub name: Seq<char>,
    pub kind: EntryKind,
    pub size: Option<u64>,
}

impl View for Entry {
    type V = EntryView;

    open spec fn view(&self) -> EntryView {
        EntryView { name: self.name@, kind: self.kind, size: self.size }
    }
}

/// The entries of a list as plain values.
pub open spec fn entry_views(v: Seq<Entry>) -> Seq<EntryView> {
    Seq::new(v.len(), |i: int| v[i]@)
}

/// The entry that stands for a child.
pub open spec fn entry_of(child: Child) -> EntryView {
    match (child.name, child.node) {
        (None, _) => EntryView { name: "<unreadable entry>"@, kind: EntryKind::Other, size: None },
        (Some(n), None) => EntryView { name: n@, kind: EntryKind::Other, size: None },
        (Some(n), Some(Node::Symlink)) => EntryView {
            name: n@,
            kind: EntryKind::Symlink,
            size: None,
        },
        (Some(n), Some(Node::Dir)) => EntryView { name: n@, kind: EntryKind::Dir, size: None },
        (Some(n), Some(Node::File { len })) => EntryView {
            name: n@,
            kind: EntryKind::File,
            size: Some(len),
        },
        (Some(n), Some(Node::Other)) => EntryView { name: n@, kind: EntryKind::Other, size: None },
    }
}

/// The entries that stand for children, in the order in which they were
/// read.
pub open spec fn entries_of(children: Seq<Child>) -> Seq<EntryView> {
    Seq::new(children.len(), |i: int| entry_of(children[i]))
}

/// The number of entries of a kind.
pub open spec fn count_of(entries: Seq<EntryView>, kind: EntryKind) -> nat
    decreases entries.len(),
{
    if entries.len() == 0 {
        0
    } else {
        count_of(entries.drop_last(), kind) + if entries.last().kind == kind {
            1nat
        } else {
            0nat
        }
    }
}

/// The size of all files, at most what 64 bits hold.
pub open spec fn size_of_all(entries: Seq<EntryView>) -> nat
    decreases entries.len(),
{
    if entries.len() == 0 {
        0
    } else {
        let before = size_of_all(entries.drop_last());
        match entries.last().size {
            Some(n) => if before + n > u64::MAX {
                u64::MAX as nat
            } else {
                before + n as nat
            },
            None => before,
        }
    }
}

/// Folders come first.
pub open spec fn group_of(kind: EntryKind) -> u64 {
    match kind {
        EntryKind::Dir => 0,
        _ => 1,
    }
}

/// What entries are sorted by: the group, then the name in lowercase.
pub open spec fn sort_key(e: EntryView) -> Seq<u64> {
    seq![group_of(e.kind)] + order::text_key(text::lowercased(e.name))
}

/// What the entries of a list are sorted by.
pub open spec fn sort_keys(entries: Seq<EntryView>) -> Seq<Seq<u64>> {
    Seq::new(entries.len(), |i: int| sort_key(entries[i]))
}

/// The entries in the order that `p` gives.
pub open spec fn arranged(entries: Seq<EntryView>, p: Seq<usize>) -> Seq<EntryView> {
    Seq::new(p.len(), |i: int| entries[p[i] as int])
}

/// `shown` is the first `cap` of the entries, sorted; entries that sort
/// alike keep their order.
pub open spec fn shown_of(entries: Seq<EntryView>, shown: Seq<EntryView>, cap: usize) -> bool {
    exists|p: Seq<usize>| #[trigger]
        order::sorts(sort_keys(entries), p) && shown == arranged(entries, p).take(
            if entries.len() > cap {
                cap as int
            } else {
                entries.len() as int
            },
        )
}

/// Whether `l` lists the children.
pub open spec fn lists(children: Seq<Child>, l: DirListing, cap: usize) -> bool {
    let all = entries_of(children);
    &&& shown_of(all, entry_views(l.entries@), cap)
    &&& l.files == count_of(all, EntryKind::File)
    &&& l.dirs == count_of(all, EntryKind::Dir)
    &&& l.total_size == size_of_all(all)
    &&& l.truncated == (all.len() > cap)
}

/// Folders come first.
pub fn group_key(kind: EntryKind) -> (r: u64)
    ensures
        r == group_of(kind),
{
    match kind {
        EntryKind::Dir => 0,
        _ => 1,
    }
}

fn entry_for(child: &Child) -> (e: Entry)
    ensures
        e@ == entry_of(*child),
{
    match &child.name {
        None => Entry {
            name: "<unreadable entry>".to_string(),
            kind: EntryKind::Other,
            size: None,
        },
        Some(n) => {
            let (kind, size): (EntryKind, Option<u64>) = match child.node {
                None => (EntryKind::Other, None),
                Some(Node::Symlink) => (EntryKind::Symlink, None),
                Some(Node::Dir) => (EntryKind::Dir, None),
                Some(Node::File { len }) => (EntryKind::File, Some(len)),
                Some(Node::Other) => (EntryKind::Other, None),
            };
            Entry { name: n.clone(), kind, size }
        },
    }
}

fn key_for(e: &Entry) -> (k: Vec<u64>)
    ensures
        k@ == sort_key(e@),
{
    let mut key: Vec<u64> = Vec::new();
    key.push(group_key(e.kind));
    let lower = e.name.as_str().to_lowercase();
    let mut rest = order::key_of_text(&text::to_chars(lower.as_str()));
    key.append(&mut rest);
    proof {
        assert(key@ =~= sort_key(e@));
    }
    key
}

proof fn lemma_count_bound(entries: Seq<EntryView>, kind: EntryKind)
    ensures
        count_of(entries, kind) <= entries.len(),
    decreases entries.len(),
{
    if entries.len() > 0 {
        lemma_count_bound(entries.drop_last(), kind);
    }
}

/// Lists the children that a folder was found to have, at most `cap` of
/// them.
pub fn list_dir(read: Result<Vec<Child>, String>, cap: usize) -> (r: Result<DirListing, DirError>)
    ensures
        match (read, r) {
            (Ok(children), Ok(l)) => lists(children@, l, cap),
            (Err(why), Err(DirError::Io(s))) => s@ == why@,
            _ => false,
        },
{
    let children = match read {
        Ok(c) => c,
        Err(why) => {
            return Err(DirError::Io(why));
        },
    };
    let ghost all = entries_of(children@);
    let mut raw: Vec<Entry> = Vec::new();
    let mut keys: Vec<Vec<u64>> = Vec::new();
    let mut files: usize = 0;
    let mut dirs: usize = 0;
    let mut total_size: u64 = 0;
    let mut i: usize = 0;
    while i < children.len()
        invariant
            i <= children@.len(),
            all == entries_of(children@),
            raw@.len() == i,
            keys@.len() == i,
            forall|k: int| 0 <= k < i ==> (#[trigger] raw@[k])@ == all[k],
            forall|k: int| 0 <= k < i ==> (#[trigger] keys@[k])@ == sort_key(all[k]),
            files == count_of(all.take(i as int), EntryKind::File),
            dirs == count_of(all.take(i as int), EntryKind::Dir),
            total_size == size_of_all(all.take(i as int)),
        decreases children@.len() - i,
    {
        let e = entry_for(&children[i]);
        proof {
            assert(all[i as int] == e@);
            assert(all.take(i + 1).drop_last() =~= all.take(i as int));
            assert(all.take(i + 1).last() == e@);
            lemma_count_bound(all.take(i as int), EntryKind::File);
            lemma_count_bound(all.take(i as int), EntryKind::Dir);
        }
        match e.kind {
            EntryKind::Dir => {
                dirs = dirs + 1;
            },
            EntryKind::File => {
                files = files + 1;
            },
            _ => {},
        }
        match e.size {
            Some(n) => {
                total_size = match total_size.checked_add(n) {
                    Some(t) => t,
                    None => u64::MAX,
                };
            },
            None => {},
        }
        keys.push(key_for(&e));
        raw.push(e);
        i = i + 1;
    }
    proof {
        assert(all.take(children@.len() as int) =~= all);
    }
    let p = order::stable_order(&keys);
    proof {
        assert(order::key_views(keys@) =~= sort_keys(all));
    }
    let truncated = raw.len() > cap;
    let take: usize = if truncated {
        cap
    } else {
        raw.len()
    };
    let mut entries: Vec<Entry> = Vec::new();
    let mut n: usize = 0;
    while n < take
        invariant
            n <= take,
            take <= raw@.len(),
            p@.len() == raw@.len(),
            raw@.len() == all.len(),
            order::sorts(sort_keys(all), p@),
            forall|k: int| 0 <= k < all.len() ==> (#[trigger] raw@[k])@ == all[k],
            entry_views(entries@) =~= arranged(all, p@).take(n as int),
        decreases take - n,
    {
        let at: usize = p[n];
        let ghost before = entries@;
        let e = Entry { name: raw[at].name.clone(), kind: raw[at].kind, size: raw[at].size };
        entries.push(e);
        proof {
            assert(e@ == raw@[at as int]@);
            assert(arranged(all, p@)[n as int] == all[at as int]);
            assert(entry_views(entries@) =~= entry_views(before).push(e@));
            assert(arranged(all, p@).take(n + 1) =~= arranged(all, p@).take(n as int).push(
                all[at as int],
            ));
        }
        n = n + 1;
    }
    Ok(DirListing { entries, files, dirs, total_size, truncated })
}

/// Law: folders are shown before everything else.
pub proof fn law_folders_come_first(
    entries: Seq<EntryView>,
    shown: Seq<EntryView>,
    cap: usize,
    i: int,
    j: int,
)
    requires
        shown_of(entries, shown, cap),
        0 <= i < j < shown.len(),
        shown[j].kind == EntryKind::Dir,
    ensures
        shown[i].kind == EntryKind::Dir,
{
    let p = choose|p: Seq<usize>| #[trigger]
        order::sorts(sort_keys(entries), p) && shown == arranged(entries, p).take(
            if entries.len() > cap {
                cap as int
            } else {
                entries.len() as int
            },
        );
    let keys = sort_keys(entries);
    assert(order::precedes(keys, p[i] as int, p[j] as int));
    assert(shown[i] == entries[p[i] as int]);
    assert(shown[j] == entries[p[j] as int]);
    assert(keys[p[i] as int] == sort_key(shown[i]));
    assert(keys[p[j] as int] == sort_key(shown[j]));
    if shown[i].kind != EntryKind::Dir {
        assert(sort_key(shown[i])[0] == 1);
        assert(sort_key(shown[j])[0] == 0);
    }
}

/// Law: the counts are of the whole folder, whatever is shown.
pub proof fn law_counts_are_of_all(children: Seq<Child>, a: DirListing, b: DirListing, m: usize, n: usize)
    requires
        lists(children, a, m),
        lists(children, b, n),
    ensures
        a.files == b.files,
        a.dirs == b.dirs,
        a.total_size == b.total_size,
{
}

/// Law: two listings of the same children show the same.
pub proof fn law_listing_is_unique(
    entries: Seq<EntryView>,
    a: Seq<EntryView>,
    b: Seq<EntryView>,
    cap: usize,
)
    requires
        shown_of(entries, a, cap),
        shown_of(entries, b, cap),
    ensures
        a == b,
{
    let n = if entries.len() > cap {
        cap as int
    } else {
        entries.len() as int
    };
    let keys = sort_keys(entries);
    let p = choose|p: Seq<usize>| #[trigger]
        order::sorts(keys, p) && a == arranged(entries, p).take(n);
    let q = choose|q: Seq<usize>| #[trigger]
        order::sorts(keys, q) && b == arranged(entries, q).take(n);
    order::law_stable_order_unique(keys, p, q);
}

// ---------------------------------------------------------------------
// The preview
// ---------------------------------------------------------------------

/// Shows the children of folders.
pub struct FolderPreview;

/// How well folders suit a hit.
pub open spec fn score(hit: Hit) -> u32 {
    if hits::labelled_folder(hit) {
        80
    } else {
        0
    }
}

impl FolderPreview {
    /// The name of the preview.
    pub fn id(&self) -> (r: &'static str)
        ensures
            r@ == "folder"@,
    {
        "folder"
    }

    /// How well the preview suits a hit.
    pub fn match_score(&self, hit: &Hit) -> (r: u32)
        ensures
            r == score(*hit),
    {
        if hits::is_folder(hit) {
            80
        } else {
            0
        }
    }

    /// How the window is sized.
    pub fn sizing(&self) -> (r: SizingPreference)
        ensures
            r == SizingPreference::OwnsScroll,
    {
        SizingPreference::OwnsScroll
    }
}

/// The line below the title.
pub open spec fn summary_of(files: nat, dirs: nat, total_size: nat) -> Seq<char> {
    text::decimal(files) + " files, "@ + text::decimal(dirs) + " folders · "@
        + sizes::binary_size(total_size)
}

/// The line below the title.
pub fn summary_line(result: &DirListing) -> (r: String)
    ensures
        r@ == summary_of(result.files as nat, result.dirs as nat, result.total_size as nat),
{
    let mut s = text::decimal_u64(result.files as u64);
    s.push_str(" files, ");
    s.push_str(text::decimal_u64(result.dirs as u64).as_str());
    s.push_str(" folders · ");
    s.push_str(sizes::human_bytes(result.total_size).as_str());
    s
}

/// The row for an entry.
pub open spec fn entry_row(e: EntryView) -> hits::RowView {
    hits::RowView::Entry {
        icon: match e.kind {
            EntryKind::Dir => "folder"@,
            EntryKind::Symlink => "emblem-symbolic-link"@,
            _ => "text-x-generic"@,
        },
        name: e.name,
        size: match e.size {
            Some(n) => Some(sizes::binary_size(n as nat)),
            None => None,
        },
    }
}

/// The rows for the first `n` entries.
pub open spec fn entry_rows(entries: Seq<EntryView>, n: int) -> Seq<hits::RowView> {
    Seq::new(n as nat, |i: int| entry_row(entries[i]))
}

/// The rows for a listing.
pub open spec fn listing_rows(entries: Seq<EntryView>, truncated: bool) -> Seq<hits::RowView> {
    if entries.len() == 0 {
        seq![hits::RowView::Status("Folder is empty"@)]
    } else if truncated {
        entry_rows(entries, entries.len() as int).push(
            hits::RowView::Status(
                "… and more — listing truncated at "@ + text::decimal(ENTRY_CAP as nat)
                    + " entries"@,
            ),
        )
    } else {
        entry_rows(entries, entries.len() as int)
    }
}

/// What a listing is shown as.
#[derive(Clone, Debug, PartialEq, Eq)]
pub struct Rendered {
    pub subtitle: String,
    pub rows: Vec<Row>,
}

/// What a listing is shown as: the summary and the rows, or the error.
pub fn render(outcome: &Result<DirListing, DirError>) -> (r: Rendered)
    ensures
        match *outcome {
            Ok(l) => {
                &&& r.subtitle@ == summary_of(
                    l.files as nat,
                    l.dirs as nat,
                    l.total_size as nat,
                )
                &&& hits::row_views(r.rows@) == listing_rows(entry_views(l.entries@), l.truncated)
            },
            Err(e) => {
                &&& r.subtitle@ == Seq::<char>::empty()
                &&& hits::row_views(r.rows@) == seq![hits::RowView::Status(e.message())]
            },
        },
{
    let mut rows: Vec<Row> = Vec::new();
    match outcome {
        Err(e) => {
            rows.push(Row::Status(e.to_text()));
            proof {
                assert(hits::row_views(rows@) =~= seq![hits::RowView::Status(e.message())]);
            }
            Rendered { subtitle: String::new(), rows }
        },
        Ok(l) => {
            let subtitle = summary_line(l);
            let ghost all = entry_views(l.entries@);
            if l.entries.len() == 0 {
                rows.push(Row::Status("Folder is empty".to_string()));
                proof {
                    assert(hits::row_views(rows@) =~= seq![
                        hits::RowView::Status("Folder is empty"@),
                    ]);
                }
                return Rendered { subtitle, rows };
            }
            let mut i: usize = 0;
            proof {
                assert(hits::row_views(rows@) =~= entry_rows(all, 0));
            }
            while i < l.entries.len()
                invariant
                    i <= l.entries@.len(),
                    all == entry_views(l.entries@),
                    hits::row_views(rows@) == entry_rows(all, i as int),
                decreases l.entries@.len() - i,
            {
                let e = &l.entries[i];
                let ghost before = rows@;
                let icon = match e.kind {
                    EntryKind::Dir => "folder".to_string(),
                    EntryKind::Symlink => "emblem-symbolic-link".to_string(),
                    _ => "text-x-generic".to_string(),
                };
                let size = match e.size {
                    Some(n) => Some(sizes::human_bytes(n)),
                    None => None,
                };
                let row = Row::Entry { icon, name: e.name.clone(), size };
                rows.push(row);
                proof {
                    assert(all[i as int] == e@);
                    assert(row@ == entry_row(e@));
                    assert(hits::row_views(rows@) =~= hits::row_views(before).push(row@));
                    assert(hits::row_views(rows@) =~= entry_rows(all, i + 1));
                }
                i = i + 1;
            }
            if l.truncated {
                let ghost before = rows@;
                let mut s = "… and more — listing truncated at ".to_string();
                s.push_str(text::decimal_u64(ENTRY_CAP as u64).as_str());
                s.push_str(" entries");
                rows.push(Row::Status(s));
                proof {
                    assert(hits::row_views(rows@) =~= hits::row_views(before).push(
                        hits::RowView::Status(s@),
                    ));
                }
            }
            Rendered { subtitle, rows }
        },
    }
}

/// The listings that a widget has been asked for.
#[derive(Clone, Copy, Debug, PartialEq, Eq, Structural)]
pub struct ListingEpoch {
    pub current: u64,
}

impl ListingEpoch {
    /// Nothing asked for yet.
    pub fn new() -> (r: ListingEpoch)
        ensures
            r.current == 0,
    {
        ListingEpoch { current: 0 }
    }

    /// Marks a new listing, which makes earlier ones stale.
    pub fn begin(&mut self) -> (stamp: u64)
        ensures
            final(self).current == old(self).current.wrapping_add(1),
            stamp == final(self).current,
    {
        self.current = self.current.wrapping_add(1);
        self.current
    }

    /// Whether a listing is the one that was asked for last.
    pub fn is_current(&self, stamp: u64) -> (r: bool)
        ensures
            r == (stamp == self.current),
    {
        stamp == self.current
    }
}

/// Law: every child of a folder is listed: an entry has its name and says
/// what it is. None is made up, and none is left out unless there are more
/// than `cap`, which the listing tells.
pub proof fn law_every_child_is_listed(children: Seq<Child>, l: DirListing, cap: usize)
    requires
        lists(children, l, cap),
        children.len() <= usize::MAX,
    ensures
        l.truncated <==> children.len() > cap,
        l.truncated ==> l.entries@.len() == cap,
        !l.truncated ==> l.entries@.len() == children.len(),
        !l.truncated ==> forall|k: int|
            0 <= k < children.len() ==> entry_views(l.entries@).contains(
                entry_of(#[trigger] children[k]),
            ),
        forall|i: int|
            0 <= i < l.entries@.len() ==> entries_of(children).contains(#[trigger] l.entries@[i]@),
{
    let all = entries_of(children);
    let shown = entry_views(l.entries@);
    let p = choose|p: Seq<usize>| #[trigger]
        order::sorts(sort_keys(all), p) && shown == arranged(all, p).take(
            if all.len() > cap {
                cap as int
            } else {
                all.len() as int
            },
        );
    assert(shown.len() == l.entries@.len());
    if !l.truncated {
        assert forall|k: int| 0 <= k < children.len() implies shown.contains(
            entry_of(#[trigger] children[k]),
        ) by {
            assert(p.contains(k as usize));
            let w = choose|w: int| 0 <= w < p.len() && p[w] == k as usize;
            assert(shown[w] == all[k]);
        }
    }
    assert forall|i: int| 0 <= i < l.entries@.len() implies all.contains(
        #[trigger] l.entries@[i]@,
    ) by {
        assert(shown[i] == l.entries@[i]@);
        assert(shown[i] == all[p[i] as int]);
    }
}

/// Law: an entry says what its child is. It keeps the name; links are not
/// followed; files, and nothing else, have their size.
pub proof fn law_an_entry_says_what_its_child_is(child: Child)
    ensures
        child.name matches Some(n) ==> entry_of(child).name == n@,
        child.name is Some ==> {
            &&& entry_of(child).kind is Dir <==> child.node == Some(Node::Dir)
            &&& entry_of(child).kind is Symlink <==> child.node == Some(Node::Symlink)
            &&& child.node matches Some(Node::File { len }) ==> entry_of(child).kind is File
                && entry_of(child).size == Some(len)
        },
        entry_of(child).size is Some ==> entry_of(child).kind is File,
        child.name is None ==> entry_of(child).kind is Other,
        child.node is None ==> entry_of(child).kind is Other,
{
}

/// Law: the totals grow with each child: a file adds one to the files and
/// its size to the whole, a folder adds one to the folders, and nothing else
/// counts.
pub proof fn law_totals_grow_with_each_child(
    children: Seq<Child>,
    c: Child,
    before: DirListing,
    after: DirListing,
    cap: usize,
)
    requires
        lists(children, before, cap),
        lists(children.push(c), after, cap),
    ensures
        c.node matches Some(Node::File { len }) ==> c.name is Some ==> after.files
            == before.files + 1 && after.dirs == before.dirs && (before.total_size + len
            <= u64::MAX ==> after.total_size == before.total_size + len),
        c.name is Some && c.node == Some(Node::Dir) ==> after.dirs == before.dirs + 1
            && after.files == before.files && after.total_size == before.total_size,
        c.name is None || c.node is None || c.node == Some(Node::Symlink) || c.node == Some(
            Node::Other,
        ) ==> after.files == before.files && after.dirs == before.dirs && after.total_size
            == before.total_size,
        children.len() == 0 ==> before.files == 0 && before.dirs == 0 && before.total_size == 0,
{
    let all = entries_of(children.push(c));
    assert(all.drop_last() =~= entries_of(children));
    assert(all.last() == entry_of(c));
}

/// Law: every entry has its row, with its name, and with its size where it
/// has one; one row more tells that there are others. The line below the
/// title counts the files and the folders and gives the size of all.
pub proof fn law_every_entry_has_its_row(entries: Seq<EntryView>, truncated: bool)
    ensures
        ({
            let rows = listing_rows(entries, truncated);
            &&& entries.len() == 0 ==> rows.len() == 1 && rows[0] is Status
            &&& entries.len() > 0 ==> rows.len() == entries.len() + (if truncated {
                1int
            } else {
                0
            })
            &&& entries.len() > 0 && truncated ==> rows.last() is Status
            &&& forall|i: int|
                0 <= i < entries.len() ==> (#[trigger] rows[i] matches hits::RowView::Entry {
                    icon,
                    name,
                    size,
                } && {
                    &&& name == entries[i].name
                    &&& size is Some <==> entries[i].size is Some
                    &&& entries[i].size matches Some(n) ==> size == Some(
                        sizes::binary_size(n as nat),
                    )
                    &&& entries[i].kind is Dir ==> icon == "folder"@
                    &&& entries[i].kind is Symlink ==> icon == "emblem-symbolic-link"@
                    &&& entries[i].kind is File ==> icon == "text-x-generic"@
                })
        }),
{
}

/// Law: the line below the title begins with the number of files and ends
/// in the size of all.
pub proof fn law_the_summary_counts(files: nat, dirs: nat, total_size: nat)
    ensures
        (text::decimal(files) + " files, "@ + text::decimal(dirs) + " folders"@).is_prefix_of(
            summary_of(files, dirs, total_size),
        ),
        sizes::binary_size(total_size).is_suffix_of(summary_of(files, dirs, total_size)),
{
    reveal_strlit(" folders · ");
    reveal_strlit(" folders");
    let s = summary_of(files, dirs, total_size);
    let head = text::decimal(files) + " files, "@ + text::decimal(dirs) + " folders"@;
    let tail = sizes::binary_size(total_size);
    assert(s.subrange(0, head.len() as int) =~= head);
    assert(s.subrange(s.len() - tail.len(), s.len() as int) =~= tail);
}

/// Law: what is labelled as a folder is shown as one, and nothing else.
pub proof fn law_folders_are_shown(hit: Hit)
    ensures
        score(hit) > 0 <==> (hit.kind_label matches Some(k) && k@ == "Folder"@),
        score(hit) == 0 || score(hit) == 80,
{
}

/// Law: a preview lists five thousand entries at most, and tells where there
/// are more.
pub proof fn law_a_preview_lists_so_many_entries(children: Seq<Child>, l: DirListing)
    requires
        lists(children, l, ENTRY_CAP),
        children.len() <= usize::MAX,
    ensures
        l.entries@.len() <= 5000,
        l.truncated <==> children.len() > 5000,
{
    law_every_child_is_listed(children, l, ENTRY_CAP);
}

} // verus!
