//! The file system watcher's decisions: what an event means, how events of
//! one path are coalesced, and what becomes of a path that is looked at
//! again.

use vstd::prelude::*;

use crate::order;
use crate::paths;
use crate::text;

verus! {

/// Time between two flushes of coalesced events.
pub const COALESCE_FLUSH_INTERVAL_SECS: u64 = 3;

/// Number of workers that look at paths again.
pub const RESOLVER_WORKERS: usize = 2;

/// Capacity of the queue of raw events.
pub const RAW_EVENT_QUEUE_CAP: usize = 8192;

/// Capacity of the queue of paths to look at again.
pub const REFRESH_QUEUE_CAP: usize = 1024;

/// Capacity of the queue of watch requests.
pub const CONTROL_QUEUE_CAP: usize = 256;

/// What a file system event says happened.
#[derive(Clone, Copy, Debug, PartialEq, Eq, Structural)]
pub enum FsEventKind {
    Create,
    Remove,
    /// Something was renamed away from the path.
    RenameFrom,
    /// Something was renamed to the path.
    RenameTo,
    /// A rename, with the old and the new path.
    RenameBoth,
    /// Any other modification.
    Modify,
    /// Anything else, such as an access.
    Other,
}

/// A file system event.
#[derive(Clone, Debug, PartialEq, Eq)]
pub struct FsEvent {
    pub kind: FsEventKind,
    pub paths: Vec<String>,
}

/// What an event means for one path.
#[derive(Clone, Debug, PartialEq, Eq)]
pub enum RawEvent {
    Upsert(String),
    Delete(String),
}

/// What is to be done about a path.
#[derive(Clone, Copy, Debug, PartialEq, Eq, Structural)]
pub enum Intent {
    Refresh,
    Delete,
}

/// A path and what is to be done about it.
#[derive(Clone, Debug, PartialEq, Eq)]
pub struct PendingPath {
    pub path: String,
    pub intent: Intent,
}

/// A path to look at again, or one whose documents are to be purged.
#[derive(Clone, Debug, PartialEq, Eq)]
pub enum RefreshJob {
    Refresh(String),
    /// Purge the path's document and those below it. A vanished path cannot
    /// be asked whether it was a directory.
    DeleteSubtree(String),
}

/// Every path as an upsert.
pub open spec fn all_upserts(paths: Seq<String>) -> Seq<RawEvent> {
    Seq::new(paths.len(), |i: int| RawEvent::Upsert(paths[i]))
}

/// Every path as a deletion.
pub open spec fn all_deletes(paths: Seq<String>) -> Seq<RawEvent> {
    Seq::new(paths.len(), |i: int| RawEvent::Delete(paths[i]))
}

/// What an event means for its paths. A rename is a deletion and an upsert;
/// one without exactly two paths never deletes.
pub open spec fn meaning(event: FsEvent) -> Seq<RawEvent> {
    match event.kind {
        FsEventKind::Remove | FsEventKind::RenameFrom => all_deletes(event.paths@),
        FsEventKind::RenameBoth => if event.paths@.len() == 2 {
            seq![RawEvent::Delete(event.paths@[0]), RawEvent::Upsert(event.paths@[1])]
        } else {
            all_upserts(event.paths@)
        },
        FsEventKind::RenameTo | FsEventKind::Create | FsEventKind::Modify => all_upserts(
            event.paths@,
        ),
        FsEventKind::Other => Seq::empty(),
    }
}

fn upserts(paths: Vec<String>) -> (r: Vec<RawEvent>)
    ensures
        r@ == all_upserts(paths@),
{
    let ghost all = paths@;
    let mut out: Vec<RawEvent> = Vec::new();
    for p in it: paths.into_iter()
        invariant
            it.seq() == all,
            out@ == all_upserts(all.take(it.index() as int)),
    {
        out.push(RawEvent::Upsert(p));
        proof {
            assert(out@ =~= all_upserts(all.take(it.index() + 1)));
        }
    }
    proof {
        assert(all.take(all.len() as int) =~= all);
    }
    out
}

fn deletes(paths: Vec<String>) -> (r: Vec<RawEvent>)
    ensures
        r@ == all_deletes(paths@),
{
    let ghost all = paths@;
    let mut out: Vec<RawEvent> = Vec::new();
    for p in it: paths.into_iter()
        invariant
            it.seq() == all,
            out@ == all_deletes(all.take(it.index() as int)),
    {
        out.push(RawEvent::Delete(p));
        proof {
            assert(out@ =~= all_deletes(all.take(it.index() + 1)));
        }
    }
    proof {
        assert(all.take(all.len() as int) =~= all);
    }
    out
}

/// Reads a file system event.
pub fn dispatch_notify_event(event: FsEvent) -> (r: Vec<RawEvent>)
    ensures
        r@ == meaning(event),
{
    match event.kind {
        FsEventKind::Remove | FsEventKind::RenameFrom => deletes(event.paths),
        FsEventKind::RenameBoth => {
            if event.paths.len() == 2 {
                let mut out: Vec<RawEvent> = Vec::new();
                out.push(RawEvent::Delete(event.paths[0].clone()));
                out.push(RawEvent::Upsert(event.paths[1].clone()));
                proof {
                    assert(out@ =~= meaning(event));
                }
                out
            } else {
                upserts(event.paths)
            }
        },
        FsEventKind::RenameTo | FsEventKind::Create | FsEventKind::Modify => upserts(event.paths),
        FsEventKind::Other => Vec::new(),
    }
}

// ---------------------------------------------------------------------
// Counters
// ---------------------------------------------------------------------

/// How a request to watch a directory ended.
#[derive(Clone, Copy, Debug, PartialEq, Eq, Structural)]
pub enum WatchResult {
    Watched,
    Excluded,
    Failed,
}

/// What the watcher counts. The counts wrap around.
#[derive(Clone, Copy, Debug, PartialEq, Eq, Structural)]
pub struct WatcherCounters {
    pub watched: u64,
    pub excluded: u64,
    pub errors: u64,
    pub overflows: u64,
    /// Events have been lost since the last flush.
    pub overflowed: bool,
}

impl WatcherCounters {
    /// Nothing counted yet.
    pub fn new() -> (r: WatcherCounters)
        ensures
            r == (WatcherCounters {
                watched: 0,
                excluded: 0,
                errors: 0,
                overflows: 0,
                overflowed: false,
            }),
    {
        WatcherCounters { watched: 0, excluded: 0, errors: 0, overflows: 0, overflowed: false }
    }

    /// Counts a request to watch a directory.
    pub fn note_watch(&mut self, result: WatchResult)
        ensures
            *final(self) == (match result {
                WatchResult::Watched => WatcherCounters {
                    watched: old(self).watched.wrapping_add(1),
                    ..*old(self)
                },
                WatchResult::Excluded => WatcherCounters {
                    excluded: old(self).excluded.wrapping_add(1),
                    ..*old(self)
                },
                WatchResult::Failed => WatcherCounters {
                    errors: old(self).errors.wrapping_add(1),
                    ..*old(self)
                },
            }),
    {
        match result {
            WatchResult::Watched => {
                self.watched = self.watched.wrapping_add(1);
            },
            WatchResult::Excluded => {
                self.excluded = self.excluded.wrapping_add(1);
            },
            WatchResult::Failed => {
                self.errors = self.errors.wrapping_add(1);
            },
        }
    }

    /// Counts an event that found the queue full.
    pub fn note_overflow(&mut self)
        ensures
            *final(self) == (WatcherCounters {
                overflows: old(self).overflows.wrapping_add(1),
                overflowed: true,
                ..*old(self)
            }),
    {
        self.overflows = self.overflows.wrapping_add(1);
        self.overflowed = true;
    }

    /// Says whether events have been lost since the last call.
    pub fn take_overflow(&mut self) -> (r: bool)
        ensures
            r == old(self).overflowed,
            *final(self) == (WatcherCounters { overflowed: false, ..*old(self) }),
    {
        let r = self.overflowed;
        self.overflowed = false;
        r
    }
}

/// Directories watched, excluded and failed, and events lost.
pub fn stats(counters: &WatcherCounters) -> (r: (u64, u64, u64, u64))
    ensures
        r == (counters.watched, counters.excluded, counters.errors, counters.overflows),
{
    (counters.watched, counters.excluded, counters.errors, counters.overflows)
}

// ---------------------------------------------------------------------
// Coalescing
// ---------------------------------------------------------------------

/// Whether two texts are the same path.
pub open spec fn same_path(a: Seq<char>, b: Seq<char>) -> bool {
    paths::components(a) == paths::components(b)
}

/// Whether no path occurs twice.
pub open spec fn paths_distinct(pending: Seq<PendingPath>) -> bool {
    forall|i: int, j: int|
        0 <= i < j < pending.len() ==> !same_path(
            (#[trigger] pending[i]).path@,
            (#[trigger] pending[j]).path@,
        )
}

/// Whether `path` is among the pending ones with this intent.
pub open spec fn pends(pending: Seq<PendingPath>, path: Seq<char>, intent: Intent) -> bool {
    exists|i: int|
        0 <= i < pending.len() && same_path((#[trigger] pending[i]).path@, path)
            && pending[i].intent == intent
}

/// The path that a raw event is about.
pub open spec fn event_path(ev: RawEvent) -> Seq<char> {
    match ev {
        RawEvent::Upsert(p) => p@,
        RawEvent::Delete(p) => p@,
    }
}

/// What a raw event asks for.
pub open spec fn event_intent(ev: RawEvent) -> Intent {
    match ev {
        RawEvent::Upsert(_) => Intent::Refresh,
        RawEvent::Delete(_) => Intent::Delete,
    }
}

/// The events of a flush interval, the last of each path.
#[derive(Clone, Debug, PartialEq, Eq)]
pub struct Coalescer {
    pub pending: Vec<PendingPath>,
}

fn is_same_path(a: &str, b: &str) -> (r: bool)
    ensures
        r == same_path(a@, b@),
{
    let x = paths::split_components(&text::to_chars(a));
    let y = paths::split_components(&text::to_chars(b));
    paths::same_texts(&x, &y)
}

impl Coalescer {
    /// Whether no path occurs twice.
    pub open spec fn wf(&self) -> bool {
        paths_distinct(self.pending@)
    }

    /// Nothing pending.
    pub fn new() -> (r: Coalescer)
        ensures
            r.wf(),
            r.pending@.len() == 0,
    {
        Coalescer { pending: Vec::new() }
    }

    /// Takes in an event. The last event of a path counts; an excluded path
    /// is passed over.
    pub fn observe(&mut self, ev: RawEvent, excluded: bool)
        requires
            old(self).wf(),
        ensures
            final(self).wf(),
            excluded ==> final(self).pending@ == old(self).pending@,
            !excluded ==> forall|p: Seq<char>, i: Intent| #[trigger]
                pends(final(self).pending@, p, i) <==> (if same_path(p, event_path(ev)) {
                    i == event_intent(ev)
                } else {
                    pends(old(self).pending@, p, i)
                }),
    {
        if excluded {
            return ;
        }
        let ghost key = event_path(ev);
        let ghost want = event_intent(ev);
        let (path, intent) = match ev {
            RawEvent::Upsert(p) => (p, Intent::Refresh),
            RawEvent::Delete(p) => (p, Intent::Delete),
        };
        let ghost before = self.pending@;
        let mut k: usize = 0;
        while k < self.pending.len()
            invariant
                k <= self.pending@.len(),
                self.pending@ == before,
                paths_distinct(before),
                path@ == key,
                intent == want,
                forall|j: int| 0 <= j < k ==> !same_path((#[trigger] before[j]).path@, key),
                key == event_path(ev),
                want == event_intent(ev),
                before == old(self).pending@,
                !excluded,
            decreases self.pending@.len() - k,
        {
            if is_same_path(self.pending[k].path.as_str(), path.as_str()) {
                let kept = self.pending[k].path.clone();
                self.pending.set(k, PendingPath { path: kept, intent });
                proof {
                    lemma_replaced(before, k as int, self.pending@, key, want);
                }
                return ;
            }
            k = k + 1;
        }
        self.pending.push(PendingPath { path, intent });
        proof {
            assert(self.pending@.drop_last() =~= before);
            lemma_added(before, self.pending@, key, want);
        }
    }

    /// Ends a flush interval. The roots come first, to be looked at again, if
    /// events were lost; what survives of the pending paths comes second.
    pub fn flush(&mut self, overflowed: bool, roots: &Vec<String>) -> (r: (
        Vec<String>,
        Vec<PendingPath>,
    ))
        requires
            old(self).wf(),
        ensures
            final(self).wf(),
            final(self).pending@.len() == 0,
            r.0@ == (if overflowed {
                roots@
            } else {
                Seq::<String>::empty()
            }),
            reduced(old(self).pending@, r.1@),
    {
        let mut first: Vec<String> = Vec::new();
        if overflowed {
            let mut i: usize = 0;
            while i < roots.len()
                invariant
                    i <= roots@.len(),
                    first@ == roots@.take(i as int),
                    self.pending == old(self).pending,
                decreases roots@.len() - i,
            {
                first.push(roots[i].clone());
                proof {
                    assert(roots@.take(i + 1) =~= roots@.take(i as int).push(roots@[i as int]));
                }
                i = i + 1;
            }
            proof {
                assert(roots@.take(roots@.len() as int) =~= roots@);
            }
        }
        let mut pending: Vec<PendingPath> = Vec::new();
        std::mem::swap(&mut pending, &mut self.pending);
        let surviving = drop_descendant_deletes(pending);
        (first, surviving)
    }
}

proof fn lemma_replaced(
    before: Seq<PendingPath>,
    k: int,
    after: Seq<PendingPath>,
    key: Seq<char>,
    want: Intent,
)
    requires
        paths_distinct(before),
        0 <= k < before.len(),
        same_path(before[k].path@, key),
        after == before.update(k, PendingPath { path: before[k].path, intent: want }),
    ensures
        paths_distinct(after),
        forall|p: Seq<char>, i: Intent| #[trigger]
            pends(after, p, i) <==> (if same_path(p, key) {
                i == want
            } else {
                pends(before, p, i)
            }),
{
    assert forall|i: int, j: int| 0 <= i < j < after.len() implies !same_path(
        (#[trigger] after[i]).path@,
        (#[trigger] after[j]).path@,
    ) by {
        assert(!same_path(before[i].path@, before[j].path@));
    }
    assert forall|p: Seq<char>, i: Intent| #[trigger]
        pends(after, p, i) <==> (if same_path(p, key) {
            i == want
        } else {
            pends(before, p, i)
        }) by {
        if same_path(p, key) {
            assert(same_path(after[k].path@, p));
            if pends(after, p, i) {
                let m = choose|m: int|
                    0 <= m < after.len() && same_path((#[trigger] after[m]).path@, p)
                        && after[m].intent == i;
                if m != k {
                    assert(!same_path(
                        before[if m < k {
                            m
                        } else {
                            k
                        }].path@,
                        before[if m < k {
                            k
                        } else {
                            m
                        }].path@,
                    ));
                }
            }
        } else {
            if pends(after, p, i) {
                let m = choose|m: int|
                    0 <= m < after.len() && same_path((#[trigger] after[m]).path@, p)
                        && after[m].intent == i;
                assert(m != k);
                assert(before[m] == after[m]);
            }
            if pends(before, p, i) {
                let m = choose|m: int|
                    0 <= m < before.len() && same_path((#[trigger] before[m]).path@, p)
                        && before[m].intent == i;
                assert(m != k);
                assert(before[m] == after[m]);
            }
        }
    }
}

proof fn lemma_added(
    before: Seq<PendingPath>,
    after: Seq<PendingPath>,
    key: Seq<char>,
    want: Intent,
)
    requires
        paths_distinct(before),
        after.len() == before.len() + 1,
        after.drop_last() == before,
        after.last().path@ == key,
        after.last().intent == want,
        forall|j: int| 0 <= j < before.len() ==> !same_path((#[trigger] before[j]).path@, key),
    ensures
        paths_distinct(after),
        forall|p: Seq<char>, i: Intent| #[trigger]
            pends(after, p, i) <==> (if same_path(p, key) {
                i == want
            } else {
                pends(before, p, i)
            }),
{
    assert forall|j: int| 0 <= j < before.len() implies (#[trigger] after[j]) == before[j] by {
        assert(after.drop_last()[j] == before[j]);
    }
    assert forall|i: int, j: int| 0 <= i < j < after.len() implies !same_path(
        (#[trigger] after[i]).path@,
        (#[trigger] after[j]).path@,
    ) by {
        if j < before.len() {
            assert(!same_path(before[i].path@, before[j].path@));
        } else {
            assert(!same_path(before[i].path@, key));
        }
    }
    assert forall|p: Seq<char>, i: Intent| #[trigger]
        pends(after, p, i) <==> (if same_path(p, key) {
            i == want
        } else {
            pends(before, p, i)
        }) by {
        if same_path(p, key) {
            assert(same_path(after[before.len() as int].path@, p));
            if pends(after, p, i) {
                let m = choose|m: int|
                    0 <= m < after.len() && same_path((#[trigger] after[m]).path@, p)
                        && after[m].intent == i;
                if m < before.len() {
                    assert(!same_path(before[m].path@, key));
                }
            }
        } else {
            if pends(after, p, i) {
                let m = choose|m: int|
                    0 <= m < after.len() && same_path((#[trigger] after[m]).path@, p)
                        && after[m].intent == i;
                assert(m < before.len());
                assert(before[m] == after[m]);
            }
            if pends(before, p, i) {
                let m = choose|m: int|
                    0 <= m < before.len() && same_path((#[trigger] before[m]).path@, p)
                        && before[m].intent == i;
                assert(before[m] == after[m]);
            }
        }
    }
}

// ---------------------------------------------------------------------
// Redundant deletions
// ---------------------------------------------------------------------

/// The length of a path in bytes.
pub open spec fn path_bytes(p: Seq<char>) -> nat {
    vstd::utf8::encode_utf8(p).len()
}

/// The items of `pending` that `keep` marks, in order.
pub open spec fn marked(pending: Seq<PendingPath>, keep: Seq<bool>) -> Seq<PendingPath>
    decreases pending.len(),
{
    if pending.len() == 0 {
        Seq::empty()
    } else if keep.last() {
        marked(pending.drop_last(), keep.drop_last()).push(pending.last())
    } else {
        marked(pending.drop_last(), keep.drop_last())
    }
}

/// `keep` marks what survives of `pending`: every refresh; no deletion
/// below a shorter path whose deletion survives; and every deletion but
/// those below a path, no longer than they are, whose deletion survives.
pub open spec fn survivors(pending: Seq<PendingPath>, keep: Seq<bool>) -> bool {
    &&& keep.len() == pending.len()
    &&& forall|i: int|
        0 <= i < pending.len() && (#[trigger] pending[i]).intent == Intent::Refresh ==> keep[i]
    &&& forall|i: int|
        0 <= i < pending.len() && !(#[trigger] keep[i]) ==> exists|j: int|
            0 <= j < pending.len() && #[trigger] covers(pending, keep, j, i) && path_bytes(
                pending[j].path@,
            ) <= path_bytes(pending[i].path@)
    &&& forall|i: int, j: int|
        0 <= i < pending.len() && 0 <= j < pending.len() && keep[i] && pending[i].intent
            == Intent::Delete && path_bytes(pending[j].path@) < path_bytes(pending[i].path@)
            ==> !#[trigger] covers(pending, keep, j, i)
}

/// Whether the surviving deletion at `j` covers the path at `i`.
pub open spec fn covers(pending: Seq<PendingPath>, keep: Seq<bool>, j: int, i: int) -> bool {
    keep[j] && pending[j].intent == Intent::Delete && paths::below(
        pending[i].path@,
        pending[j].path@,
    )
}

/// `kept` is what survives of `pending`.
pub open spec fn reduced(pending: Seq<PendingPath>, kept: Seq<PendingPath>) -> bool {
    exists|keep: Seq<bool>| #[trigger] survivors(pending, keep) && kept == marked(pending, keep)
}

/// Whether `child` lies strictly below `parent`.
pub fn is_descendant(child: &str, parent: &str) -> (r: bool)
    ensures
        r == paths::below(child@, parent@),
{
    paths::path_below(child, parent)
}

/// Drops deletions that the deletion of a parent directory makes
/// redundant. Refreshes are kept.
pub fn drop_descendant_deletes(pending: Vec<PendingPath>) -> (r: Vec<PendingPath>)
    ensures
        reduced(pending@, r@),
{
    let ghost all = pending@;
    let mut keys: Vec<Vec<u64>> = Vec::new();
    let mut keep: Vec<bool> = Vec::new();
    let mut i: usize = 0;
    while i < pending.len()
        invariant
            i <= pending@.len(),
            all == pending@,
            keys@.len() == i,
            keep@.len() == i,
            forall|k: int|
                0 <= k < i ==> (#[trigger] keys@[k])@ == seq![
                    (path_bytes(all[k].path@) as usize) as u64,
                ],
            forall|k: int|
                0 <= k < i ==> path_bytes((#[trigger] all[k]).path@) <= usize::MAX,
            forall|k: int| 0 <= k < i ==> keep@[k],
        decreases pending@.len() - i,
    {
        let bytes: &[u8] = pending[i].path.as_str().as_bytes();
        let n: usize = bytes.len();
        proof {
            assert(n == path_bytes(all[i as int].path@));
        }
        let mut key: Vec<u64> = Vec::new();
        key.push(n as u64);
        proof {
            assert(key@ =~= seq![(path_bytes(all[i as int].path@) as usize) as u64]);
        }
        keys.push(key);
        keep.push(true);
        i = i + 1;
    }
    let p = order::stable_order(&keys);
    let ghost kv = order::key_views(keys@);
    let mut n: usize = 0;
    while n < p.len()
        invariant
            n <= p@.len(),
            all == pending@,
            p@.len() == all.len(),
            keep@.len() == all.len(),
            order::sorts(kv, p@),
            kv.len() == all.len(),
            forall|k: int|
                0 <= k < all.len() ==> #[trigger] kv[k] == seq![
                    (path_bytes(all[k].path@) as usize) as u64,
                ],
            forall|k: int| 0 <= k < all.len() ==> path_bytes((#[trigger] all[k]).path@)
                <= usize::MAX,
            forall|m: int| n <= m < p@.len() ==> keep@[#[trigger] p@[m] as int],
            forall|k: int|
                0 <= k < all.len() && (#[trigger] all[k]).intent == Intent::Refresh ==> keep@[k],
            forall|k: int|
                0 <= k < all.len() && !(#[trigger] keep@[k]) ==> exists|j: int|
                    0 <= j < all.len() && #[trigger] settled(all, keep@, p@, n as int, j, k),
            forall|a: int, b: int|
                0 <= a < b < n && keep@[p@[b] as int] && all[p@[b] as int].intent
                    == Intent::Delete ==> !#[trigger] covers(
                    all,
                    keep@,
                    p@[a] as int,
                    p@[b] as int,
                ),
        decreases p@.len() - n,
    {
        let at: usize = p[n];
        let ghost old_keep = keep@;
        match pending[at].intent {
            Intent::Refresh => {},
            Intent::Delete => {
                let mut m: usize = 0;
                let mut found = false;
                let ghost mut witness: int = 0;
                while m < n && !found
                    invariant
                        m <= n < p@.len(),
                        all == pending@,
                        p@.len() == all.len(),
                        keep@.len() == all.len(),
                        order::sorts(kv, p@),
                        kv.len() == all.len(),
                        at == p@[n as int],
                        found ==> 0 <= witness < n && covers(
                            all,
                            keep@,
                            p@[witness] as int,
                            at as int,
                        ),
                        !found ==> forall|a: int|
                            0 <= a < m ==> !covers(
                                all,
                                keep@,
                                #[trigger] p@[a] as int,
                                at as int,
                            ),
                    decreases n - m + (if found {
                        0int
                    } else {
                        1int
                    }),
                {
                    let q: usize = p[m];
                    let is_delete = match pending[q].intent {
                        Intent::Delete => true,
                        Intent::Refresh => false,
                    };
                    if keep[q] && is_delete && is_descendant(
                        pending[at].path.as_str(),
                        pending[q].path.as_str(),
                    ) {
                        found = true;
                        proof {
                            witness = m as int;
                        }
                    } else {
                        m = m + 1;
                    }
                }
                if found {
                    keep.set(at, false);
                    proof {
                        lemma_order_distinct(kv, p@);
                        let j = p@[witness] as int;
                        assert(order::precedes(kv, p@[witness] as int, p@[n as int] as int));
                        lemma_shorter(all, kv, j, at as int);
                        assert(j != at) by {
                            order::lemma_lex_irreflexive(kv[j]);
                        }
                        assert(settled(all, keep@, p@, n + 1, j, at as int));
                    }
                }
            },
        }
        proof {
            lemma_order_distinct(kv, p@);
            assert forall|m: int| n + 1 <= m < p@.len() implies keep@[#[trigger] p@[m] as int] by {
                assert(p@[m] != p@[n as int]);
            }
            assert forall|k: int| 0 <= k < all.len() && !(#[trigger] keep@[k]) implies exists|
                j: int,
            |
                0 <= j < all.len() && #[trigger] settled(all, keep@, p@, n + 1, j, k) by {
                if k != at {
                    assert(!old_keep[k]);
                    let j = choose|j: int|
                        0 <= j < all.len() && #[trigger] settled(
                            all,
                            old_keep,
                            p@,
                            n as int,
                            j,
                            k,
                        );
                    let a = choose|a: int| 0 <= a < n && p@[a] == j;
                    assert(p@[a] != p@[n as int]);
                    assert(settled(all, keep@, p@, n + 1, j, k));
                } else if old_keep[k] {
                    // settled above
                } else {
                    assert(old_keep[p@[n as int] as int]);
                }
            }
            assert forall|a: int, b: int|
                0 <= a < b < n + 1 && keep@[p@[b] as int] && all[p@[b] as int].intent
                    == Intent::Delete implies !#[trigger] covers(
                all,
                keep@,
                p@[a] as int,
                p@[b] as int,
            ) by {
                if b < n {
                    assert(!covers(all, old_keep, p@[a] as int, p@[b] as int));
                }
            }
        }
        n = n + 1;
    }
    proof {
        assert(survivors(all, keep@)) by {
            assert forall|i: int| 0 <= i < all.len() && !(#[trigger] keep@[i]) implies exists|
                j: int,
            |
                0 <= j < all.len() && #[trigger] covers(all, keep@, j, i) && path_bytes(
                    all[j].path@,
                ) <= path_bytes(all[i].path@) by {
                let j = choose|j: int|
                    0 <= j < all.len() && #[trigger] settled(
                        all,
                        keep@,
                        p@,
                        p@.len() as int,
                        j,
                        i,
                    );
                assert(covers(all, keep@, j, i));
            }
            assert forall|i: int, j: int|
                0 <= i < all.len() && 0 <= j < all.len() && keep@[i] && all[i].intent
                    == Intent::Delete && path_bytes(all[j].path@) < path_bytes(
                    all[i].path@,
                ) implies !#[trigger] covers(all, keep@, j, i) by {
                assert(p@.contains(i as usize));
                assert(p@.contains(j as usize));
                let b = choose|b: int| 0 <= b < p@.len() && p@[b] == i as usize;
                let a = choose|a: int| 0 <= a < p@.len() && p@[a] == j as usize;
                assert(a != b);
                if b < a {
                    assert(order::precedes(kv, p@[b] as int, p@[a] as int));
                    lemma_shorter(all, kv, i, j);
                    assert(false);
                }
                assert(!covers(all, keep@, p@[a] as int, p@[b] as int));
            }
        }
    }
    let out = select(pending, &keep);
    out
}

/// Whether the deletion at `j`, one of the first `n` in order, covers the
/// path at `k`.
spec fn settled(
    all: Seq<PendingPath>,
    keep: Seq<bool>,
    p: Seq<usize>,
    n: int,
    j: int,
    k: int,
) -> bool {
    &&& covers(all, keep, j, k)
    &&& path_bytes(all[j].path@) <= path_bytes(all[k].path@)
    &&& exists|a: int| 0 <= a < n && #[trigger] p[a] == j
}

proof fn lemma_order_distinct(kv: Seq<Seq<u64>>, p: Seq<usize>)
    requires
        order::sorts(kv, p),
    ensures
        forall|a: int, b: int|
            0 <= a < b < p.len() ==> #[trigger] p[a] != #[trigger] p[b],
{
    assert forall|a: int, b: int| 0 <= a < b < p.len() implies #[trigger] p[a]
        != #[trigger] p[b] by {
        assert(order::precedes(kv, p[a] as int, p[b] as int));
        order::lemma_lex_irreflexive(kv[p[a] as int]);
    }
}

proof fn lemma_shorter(all: Seq<PendingPath>, kv: Seq<Seq<u64>>, j: int, k: int)
    requires
        0 <= j < all.len(),
        0 <= k < all.len(),
        kv.len() == all.len(),
        forall|k: int|
            0 <= k < all.len() ==> #[trigger] kv[k] == seq![
                (path_bytes(all[k].path@) as usize) as u64,
            ],
        forall|k: int| 0 <= k < all.len() ==> path_bytes((#[trigger] all[k]).path@) <= usize::MAX,
        order::precedes(kv, j, k),
    ensures
        path_bytes(all[j].path@) <= path_bytes(all[k].path@),
{
    assert(path_bytes(all[j].path@) <= usize::MAX);
    assert(path_bytes(all[k].path@) <= usize::MAX);
    assert(kv[j][0] == (path_bytes(all[j].path@) as usize) as u64);
    assert(kv[k][0] == (path_bytes(all[k].path@) as usize) as u64);
    if kv[j][0] == kv[k][0] {
        assert(kv[j] =~= kv[k]);
    }
}

fn select(pending: Vec<PendingPath>, keep: &Vec<bool>) -> (r: Vec<PendingPath>)
    requires
        pending@.len() == keep@.len(),
    ensures
        r@ == marked(pending@, keep@),
{
    let ghost all = pending@;
    let n: usize = keep.len();
    let mut out: Vec<PendingPath> = Vec::new();
    let mut i: usize = 0;
    proof {
        assert(n == all.len());
        assert(all.take(0) =~= Seq::<PendingPath>::empty());
    }
    for x in it: pending.into_iter()
        invariant
            it.seq() == all,
            i == it.index(),
            all.len() == keep@.len(),
            all.len() <= usize::MAX,
            out@ == marked(all.take(i as int), keep@.take(i as int)),
    {
        proof {
            assert(all.take(i + 1).drop_last() =~= all.take(i as int));
            assert(keep@.take(i + 1).drop_last() =~= keep@.take(i as int));
            assert(all.take(i + 1).last() == x);
            assert(keep@.take(i + 1).last() == keep@[i as int]);
        }
        if keep[i] {
            out.push(x);
        }
        i = i + 1;
    }
    proof {
        assert(all.take(all.len() as int) =~= all);
        assert(keep@.take(all.len() as int) =~= keep@);
    }
    out
}

/// Law: what is deleted stays deleted: of every pending deletion the path
/// itself survives, or one above it does.
pub proof fn law_every_deletion_is_carried_out(
    pending: Seq<PendingPath>,
    keep: Seq<bool>,
    i: int,
)
    requires
        survivors(pending, keep),
        0 <= i < pending.len(),
        pending[i].intent == Intent::Delete,
    ensures
        exists|j: int|
            0 <= j < pending.len() && keep[j] && (#[trigger] pending[j]).intent == Intent::Delete
                && paths::within(pending[i].path@, pending[j].path@),
{
    if keep[i] {
        paths::law_within_or_same(pending[i].path@, pending[i].path@);
        assert(paths::within(pending[i].path@, pending[i].path@));
    } else {
        let j = choose|j: int|
            0 <= j < pending.len() && #[trigger] covers(pending, keep, j, i) && path_bytes(
                pending[j].path@,
            ) <= path_bytes(pending[i].path@);
        assert(pending[j].intent == Intent::Delete);
    }
}

/// Law: a rename that does not name exactly two paths deletes nothing.
pub proof fn law_malformed_rename_deletes_nothing(event: FsEvent, i: int)
    requires
        event.kind == FsEventKind::RenameBoth,
        event.paths@.len() != 2,
        0 <= i < meaning(event).len(),
    ensures
        meaning(event)[i] is Upsert,
{
}

/// Law: what each kind of event means for each of its paths. What was
/// removed or renamed away is deleted; what was created, modified or renamed
/// to is looked at; a rename with both paths deletes the old and looks at the
/// new one; one that names other than two paths looks at them all. Nothing
/// else is asked for, and an access asks for nothing.
pub proof fn law_events_ask_for_what_happened(event: FsEvent, i: int)
    requires
        0 <= i < event.paths@.len(),
    ensures
        event.kind == FsEventKind::Remove || event.kind == FsEventKind::RenameFrom ==> meaning(
            event,
        ).len() == event.paths@.len() && (meaning(event)[i] matches RawEvent::Delete(p) && p@
            == event.paths@[i]@),
        event.kind == FsEventKind::Create || event.kind == FsEventKind::Modify || event.kind
            == FsEventKind::RenameTo ==> meaning(event).len() == event.paths@.len() && (meaning(
            event,
        )[i] matches RawEvent::Upsert(p) && p@ == event.paths@[i]@),
        event.kind == FsEventKind::RenameBoth && event.paths@.len() == 2 ==> meaning(event).len()
            == 2 && (meaning(event)[0] matches RawEvent::Delete(p) && p@ == event.paths@[0]@) && (
        meaning(event)[1] matches RawEvent::Upsert(p) && p@ == event.paths@[1]@),
        event.kind == FsEventKind::RenameBoth && event.paths@.len() != 2 ==> meaning(event).len()
            == event.paths@.len() && (meaning(event)[i] matches RawEvent::Upsert(p) && p@
            == event.paths@[i]@),
        event.kind == FsEventKind::Other ==> meaning(event).len() == 0,
{
}

/// Law: an upsert asks for a refresh of its path and a deletion for its
/// deletion.
pub proof fn law_raw_events_say_what_to_do(path: String)
    ensures
        event_path(RawEvent::Upsert(path)) == path@,
        event_intent(RawEvent::Upsert(path)) == Intent::Refresh,
        event_path(RawEvent::Delete(path)) == path@,
        event_intent(RawEvent::Delete(path)) == Intent::Delete,
{
}

/// Law: two texts are the same path where they name the same components;
/// so every path is the same as itself, and paths that are the same as one
/// another are the same as the same paths.
pub proof fn law_same_path(a: Seq<char>, b: Seq<char>, c: Seq<char>)
    ensures
        same_path(a, a),
        same_path(a, b) ==> same_path(b, a),
        same_path(a, b) && same_path(b, c) ==> same_path(a, c),
        same_path(a, b) ==> (paths::within(c, a) <==> paths::within(c, b)),
        same_path(a, b) ==> paths::within(a, b) && paths::within(b, a),
{
    paths::law_within_or_same(a, b);
    paths::law_within_or_same(b, a);
}

proof fn lemma_marked_holds(pending: Seq<PendingPath>, keep: Seq<bool>, i: int)
    requires
        keep.len() == pending.len(),
        0 <= i < pending.len(),
        keep[i],
    ensures
        marked(pending, keep).contains(pending[i]),
    decreases pending.len(),
{
    let front = pending.drop_last();
    let kf = keep.drop_last();
    let lead = marked(front, kf);
    if i == pending.len() - 1 {
        assert(marked(pending, keep)[lead.len() as int] == pending[i]);
    } else {
        lemma_marked_holds(front, kf, i);
        let k = choose|k: int| 0 <= k < lead.len() && lead[k] == pending[i];
        assert(marked(pending, keep)[k] == pending[i]);
    }
}

proof fn lemma_marked_from(pending: Seq<PendingPath>, keep: Seq<bool>, k: int)
    requires
        keep.len() == pending.len(),
        0 <= k < marked(pending, keep).len(),
    ensures
        pending.contains(marked(pending, keep)[k]),
    decreases pending.len(),
{
    let front = pending.drop_last();
    let kf = keep.drop_last();
    let lead = marked(front, kf);
    if pending.len() > 0 {
        if k < lead.len() {
            lemma_marked_from(front, kf, k);
            let i = choose|i: int| 0 <= i < front.len() && front[i] == lead[k];
            assert(pending[i] == marked(pending, keep)[k]);
        } else {
            assert(pending[pending.len() - 1] == marked(pending, keep)[k]);
        }
    }
}

/// Law: a flush loses nothing and makes nothing up. Of the pending paths
/// every refresh is handed on; of every deletion it hands on that of the path
/// itself or of a directory that holds it; and all that it hands on was
/// pending.
pub proof fn law_a_flush_carries_out_what_is_pending(
    pending: Seq<PendingPath>,
    kept: Seq<PendingPath>,
    i: int,
)
    requires
        reduced(pending, kept),
    ensures
        0 <= i < pending.len() && pending[i].intent == Intent::Refresh ==> kept.contains(
            pending[i],
        ),
        0 <= i < pending.len() && pending[i].intent == Intent::Delete ==> exists|k: int|
            0 <= k < kept.len() && (#[trigger] kept[k]).intent == Intent::Delete && paths::within(
                pending[i].path@,
                kept[k].path@,
            ),
        0 <= i < kept.len() ==> pending.contains(kept[i]),
{
    let keep = choose|keep: Seq<bool>| #[trigger]
        survivors(pending, keep) && kept == marked(pending, keep);
    if 0 <= i < pending.len() {
        if pending[i].intent == Intent::Refresh {
            lemma_marked_holds(pending, keep, i);
        } else {
            law_every_deletion_is_carried_out(pending, keep, i);
            let j = choose|j: int|
                0 <= j < pending.len() && keep[j] && (#[trigger] pending[j]).intent
                    == Intent::Delete && paths::within(pending[i].path@, pending[j].path@);
            lemma_marked_holds(pending, keep, j);
            let k = choose|k: int| 0 <= k < kept.len() && kept[k] == pending[j];
            assert(kept[k].intent == Intent::Delete);
        }
    }
    if 0 <= i < kept.len() {
        lemma_marked_from(pending, keep, i);
    }
}

/// What is kept was marked.
proof fn lemma_marked_at(pending: Seq<PendingPath>, keep: Seq<bool>, k: int)
    requires
        keep.len() == pending.len(),
        0 <= k < marked(pending, keep).len(),
    ensures
        exists|i: int|
            0 <= i < pending.len() && keep[i] && #[trigger] pending[i] == marked(pending, keep)[k],
    decreases pending.len(),
{
    if pending.len() > 0 {
        let front = pending.drop_last();
        let kf = keep.drop_last();
        let lead = marked(front, kf);
        if k < lead.len() {
            lemma_marked_at(front, kf, k);
            let i = choose|i: int| 0 <= i < front.len() && kf[i] && #[trigger] front[i] == lead[k];
            assert(keep[i] && pending[i] == marked(pending, keep)[k]);
        } else {
            let n = pending.len() - 1;
            assert(keep[n] && pending[n] == marked(pending, keep)[k]);
        }
    }
}

/// Law: a flush does not delete twice: where a directory is deleted, the
/// deletions of what lies below it, under a longer path, are dropped.
pub proof fn law_a_flush_deletes_once(
    pending: Seq<PendingPath>,
    kept: Seq<PendingPath>,
    a: int,
    b: int,
)
    requires
        reduced(pending, kept),
        0 <= a < kept.len(),
        0 <= b < kept.len(),
        kept[a].intent == Intent::Delete,
        kept[b].intent == Intent::Delete,
        vstd::utf8::encode_utf8(kept[b].path@).len() < vstd::utf8::encode_utf8(
            kept[a].path@,
        ).len(),
    ensures
        !paths::below(kept[a].path@, kept[b].path@),
{
    let keep = choose|keep: Seq<bool>| #[trigger]
        survivors(pending, keep) && kept == marked(pending, keep);
    lemma_marked_at(pending, keep, a);
    lemma_marked_at(pending, keep, b);
    let i = choose|i: int| 0 <= i < pending.len() && keep[i] && #[trigger] pending[i] == kept[a];
    let j = choose|j: int| 0 <= j < pending.len() && keep[j] && #[trigger] pending[j] == kept[b];
    assert(!covers(pending, keep, j, i));
}

} // verus!
