//! Routes file system events to the source instances that asked for them.
//!
//! Every instance declares the roots that it wants to hear of. An event
//! goes to the instance whose root is the longest prefix of the path. An
//! instance that was just told of events is left in peace for a while.

use vstd::prelude::*;

use crate::paths;
use crate::text;
use crate::watcher::{FsEvent, FsEventKind};

verus! {

/// How long to wait for further events before a batch is dispatched.
pub const DEBOUNCE_MS: u64 = 2000;

/// How long an instance is left in peace after a dispatch.
pub const PER_INSTANCE_COOLDOWN_MS: u64 = 5000;

/// Capacity of the queue of events.
pub const EVENT_CHANNEL_CAP: usize = 1024;

/// The kind of source that has a watcher of its own.
pub const FS_KIND: &'static str = "fs";

/// A root that a source instance wants watched.
#[derive(Clone, Debug, PartialEq, Eq)]
pub struct WatchSpec {
    pub path: String,
    pub recursive: bool,
}

/// What a source instance declares. `specs` is `None` where it failed to.
#[derive(Clone, Debug, PartialEq, Eq)]
pub struct WatchSource {
    pub kind: String,
    pub specs: Option<Vec<WatchSpec>>,
}

/// A watched root and the instance that asked for it.
#[derive(Clone, Debug, PartialEq, Eq)]
pub struct Route {
    pub root: String,
    pub instance: usize,
    pub recursive: bool,
}

/// What happened to a path.
#[derive(Clone, Debug, PartialEq, Eq)]
pub enum SourceEventKind {
    Created,
    Modified,
    Removed,
    Renamed { from: String },
}

/// A file system event as a source instance is told of it.
#[derive(Clone, Debug, PartialEq, Eq)]
pub struct SourceEvent {
    pub path: String,
    pub kind: SourceEventKind,
}

/// The watched roots.
#[derive(Clone, Debug, PartialEq, Eq)]
pub struct Routes {
    pub entries: Vec<Route>,
}

/// What is declared for a root; the last entry counts.
pub open spec fn declared_for(entries: Seq<Route>, root: Seq<Seq<char>>) -> Option<(usize, bool)>
    decreases entries.len(),
{
    if entries.len() == 0 {
        None
    } else if paths::components(entries.last().root@) == root {
        Some((entries.last().instance, entries.last().recursive))
    } else {
        declared_for(entries.drop_last(), root)
    }
}

/// Whether no root occurs twice.
pub open spec fn roots_distinct(entries: Seq<Route>) -> bool {
    forall|i: int, j: int|
        0 <= i < j < entries.len() ==> paths::components((#[trigger] entries[i]).root@)
            != paths::components((#[trigger] entries[j]).root@)
}

proof fn lemma_redeclared(entries: Seq<Route>, k: int, r: Route, root: Seq<Seq<char>>)
    requires
        roots_distinct(entries),
        0 <= k < entries.len(),
        paths::components(r.root@) == paths::components(entries[k].root@),
    ensures
        declared_for(entries.update(k, r), root) == (if paths::components(r.root@) == root {
            Some((r.instance, r.recursive))
        } else {
            declared_for(entries, root)
        }),
    decreases entries.len(),
{
    let n = entries.len() - 1;
    if k == n {
        assert(entries.update(k, r).drop_last() =~= entries.drop_last());
    } else {
        assert(entries.update(k, r).drop_last() =~= entries.drop_last().update(k, r));
        assert(entries.update(k, r).last() == entries.last());
        assert forall|i: int, j: int|
            0 <= i < j < entries.drop_last().len() implies paths::components(
            (#[trigger] entries.drop_last()[i]).root@,
        ) != paths::components((#[trigger] entries.drop_last()[j]).root@) by {
            assert(paths::components(entries[i].root@) != paths::components(entries[j].root@));
        }
        lemma_redeclared(entries.drop_last(), k, r, root);
        assert(paths::components(entries[k].root@) != paths::components(entries[n].root@));
    }
}

/// What the last of these specs says of a root.
pub open spec fn spec_for(specs: Seq<WatchSpec>, root: Seq<Seq<char>>) -> Option<bool>
    decreases specs.len(),
{
    if specs.len() == 0 {
        None
    } else if paths::components(specs.last().path@) == root {
        Some(specs.last().recursive)
    } else {
        spec_for(specs.drop_last(), root)
    }
}

/// The instance that a root belongs to: the last one that declares it. The
/// built-in file source, and instances that failed to declare their roots,
/// are passed over.
pub open spec fn claimed(sources: Seq<WatchSource>, root: Seq<Seq<char>>) -> Option<(usize, bool)>
    decreases sources.len(),
{
    if sources.len() == 0 {
        None
    } else {
        let rest = claimed(sources.drop_last(), root);
        match sources.last().specs {
            Some(specs) if sources.last().kind@ != FS_KIND@ => match spec_for(specs@, root) {
                Some(recursive) => Some(((sources.len() - 1) as usize, recursive)),
                None => rest,
            },
            _ => rest,
        }
    }
}

/// The deepest of the roots that contain the path is at `k`.
pub open spec fn owns(entries: Seq<Route>, path: Seq<char>, k: int) -> bool {
    &&& 0 <= k < entries.len()
    &&& paths::within(path, entries[k].root@)
    &&& forall|j: int|
        0 <= j < entries.len() && paths::within(path, (#[trigger] entries[j]).root@)
            ==> paths::components(entries[j].root@).len() <= paths::components(
            entries[k].root@,
        ).len()
}

/// The instance whose root is the longest prefix of the path.
pub open spec fn owner(entries: Seq<Route>, path: Seq<char>) -> Option<usize> {
    if exists|k: int| owns(entries, path, k) {
        Some(entries[choose|k: int| owns(entries, path, k)].instance)
    } else {
        None
    }
}

/// Law: of distinct roots that contain a path one alone is the deepest.
pub proof fn law_deepest_root_is_unique(entries: Seq<Route>, path: Seq<char>, a: int, b: int)
    requires
        roots_distinct(entries),
        owns(entries, path, a),
        owns(entries, path, b),
    ensures
        a == b,
        owner(entries, path) == Some(entries[a].instance),
{
    lemma_same_depth(entries, path, a, b);
    let k = choose|k: int| owns(entries, path, k);
    lemma_same_depth(entries, path, a, k);
}

proof fn lemma_same_depth(entries: Seq<Route>, path: Seq<char>, a: int, b: int)
    requires
        roots_distinct(entries),
        owns(entries, path, a),
        owns(entries, path, b),
    ensures
        a == b,
{
    assert(entries[a].root@.len() >= 0 && entries[b].root@.len() >= 0);
    let x = paths::components(entries[a].root@);
    let y = paths::components(entries[b].root@);
    assert(x.len() == y.len());
    assert(x =~= y);
    if a < b {
        assert(paths::components(entries[a].root@) != paths::components(entries[b].root@));
    } else if b < a {
        assert(paths::components(entries[b].root@) != paths::components(entries[a].root@));
    }
}

impl Routes {
    /// Whether no root occurs twice.
    pub open spec fn wf(&self) -> bool {
        roots_distinct(self.entries@)
    }

    /// No roots.
    pub fn new() -> (r: Routes)
        ensures
            r.wf(),
            r.entries@.len() == 0,
    {
        Routes { entries: Vec::new() }
    }

    /// Declares a root for an instance; a later declaration replaces an
    /// earlier one.
    pub fn insert(&mut self, root: String, instance: usize, recursive: bool)
        requires
            old(self).wf(),
        ensures
            final(self).wf(),
            forall|key: Seq<Seq<char>>| #[trigger]
                declared_for(final(self).entries@, key) == (if key == paths::components(root@) {
                    Some((instance, recursive))
                } else {
                    declared_for(old(self).entries@, key)
                }),
            final(self).entries@.len() <= old(self).entries@.len() + 1,
    {
        let ghost before = self.entries@;
        let want = paths::split_components(&text::to_chars(root.as_str()));
        let ghost key = paths::components(root@);
        let mut k: usize = 0;
        while k < self.entries.len()
            invariant
                k <= self.entries@.len(),
                self.entries@ == before,
                before == old(self).entries@,
                roots_distinct(before),
                text::texts(want@) == key,
                key == paths::components(root@),
                forall|j: int|
                    0 <= j < k ==> paths::components((#[trigger] before[j]).root@) != key,
            decreases self.entries@.len() - k,
        {
            let have = paths::split_components(&text::to_chars(self.entries[k].root.as_str()));
            if paths::same_texts(&have, &want) {
                let kept = self.entries[k].root.clone();
                let route = Route { root: kept, instance, recursive };
                self.entries.set(k, route);
                proof {
                    assert(self.entries@ =~= before.update(k as int, route));
                    assert forall|q: Seq<Seq<char>>| #[trigger]
                        declared_for(self.entries@, q) == (if q == key {
                            Some((instance, recursive))
                        } else {
                            declared_for(before, q)
                        }) by {
                        lemma_redeclared(before, k as int, route, q);
                    }
                    assert forall|i: int, j: int|
                        0 <= i < j < self.entries@.len() implies paths::components(
                        (#[trigger] self.entries@[i]).root@,
                    ) != paths::components((#[trigger] self.entries@[j]).root@) by {
                        assert(paths::components(before[i].root@) != paths::components(
                            before[j].root@,
                        ));
                    }
                }
                return ;
            }
            k = k + 1;
        }
        self.entries.push(Route { root, instance, recursive });
        proof {
            assert(self.entries@.drop_last() =~= before);
            assert forall|i: int, j: int|
                0 <= i < j < self.entries@.len() implies paths::components(
                (#[trigger] self.entries@[i]).root@,
            ) != paths::components((#[trigger] self.entries@[j]).root@) by {
                if j < before.len() {
                    assert(paths::components(before[i].root@) != paths::components(
                        before[j].root@,
                    ));
                } else {
                    assert(paths::components(before[i].root@) != key);
                }
            }
        }
    }
}

fn insert_specs(routes: &mut Routes, instance: usize, specs: &Vec<WatchSpec>)
    requires
        old(routes).wf(),
    ensures
        final(routes).wf(),
        forall|key: Seq<Seq<char>>| #[trigger]
            declared_for(final(routes).entries@, key) == (match spec_for(specs@, key) {
                Some(recursive) => Some((instance, recursive)),
                None => declared_for(old(routes).entries@, key),
            }),
{
    let mut i: usize = 0;
    let ghost before = routes.entries@;
    while i < specs.len()
        invariant
            i <= specs@.len(),
            routes.wf(),
            before == old(routes).entries@,
            forall|key: Seq<Seq<char>>| #[trigger]
                declared_for(routes.entries@, key) == (match spec_for(
                    specs@.take(i as int),
                    key,
                ) {
                    Some(recursive) => Some((instance, recursive)),
                    None => declared_for(before, key),
                }),
        decreases specs@.len() - i,
    {
        proof {
            assert(specs@.take(i + 1).drop_last() =~= specs@.take(i as int));
            assert(specs@.take(i + 1).last() == specs@[i as int]);
        }
        routes.insert(specs[i].path.clone(), instance, specs[i].recursive);
        i = i + 1;
    }
    proof {
        assert(specs@.take(specs@.len() as int) =~= specs@);
    }
}

/// The roots that the source instances declare.
pub fn build_routes(sources: &Vec<WatchSource>) -> (r: Routes)
    ensures
        r.wf(),
        forall|key: Seq<Seq<char>>| #[trigger]
            declared_for(r.entries@, key) == claimed(sources@, key),
{
    let mut routes = Routes::new();
    let mut i: usize = 0;
    while i < sources.len()
        invariant
            i <= sources@.len(),
            routes.wf(),
            forall|key: Seq<Seq<char>>| #[trigger]
                declared_for(routes.entries@, key) == claimed(sources@.take(i as int), key),
        decreases sources@.len() - i,
    {
        proof {
            assert(sources@.take(i + 1).drop_last() =~= sources@.take(i as int));
            assert(sources@.take(i + 1).last() == sources@[i as int]);
        }
        let is_fs = text::text_eq(sources[i].kind.as_str(), FS_KIND);
        match &sources[i].specs {
            Some(specs) => {
                if !is_fs {
                    insert_specs(&mut routes, i, specs);
                }
            },
            None => {},
        }
        proof {
            assert forall|key: Seq<Seq<char>>| #[trigger]
                declared_for(routes.entries@, key) == claimed(sources@.take(i + 1), key) by {}
        }
        i = i + 1;
    }
    proof {
        assert(sources@.take(sources@.len() as int) =~= sources@);
    }
    routes
}

/// The instance that an event at `path` goes to.
pub fn longest_prefix_instance(routes: &Routes, path: &str) -> (r: Option<usize>)
    requires
        routes.wf(),
    ensures
        r == owner(routes.entries@, path@),
        r is None <==> forall|k: int|
            0 <= k < routes.entries@.len() ==> !paths::within(
                path@,
                (#[trigger] routes.entries@[k]).root@,
            ),
{
    let ghost entries = routes.entries@;
    let mut best: Option<usize> = None;
    let mut depth: usize = 0;
    let mut k: usize = 0;
    while k < routes.entries.len()
        invariant
            k <= entries.len(),
            entries == routes.entries@,
            match best {
                None => forall|j: int|
                    0 <= j < k ==> !paths::within(path@, (#[trigger] entries[j]).root@),
                Some(b) => b < k && paths::within(path@, entries[b as int].root@)
                    && paths::components(entries[b as int].root@).len() == depth && forall|j: int|
                    0 <= j < k && paths::within(path@, (#[trigger] entries[j]).root@)
                        ==> paths::components(entries[j].root@).len() <= depth,
            },
        decreases entries.len() - k,
    {
        if paths::path_within(path, routes.entries[k].root.as_str()) {
            let n: usize = paths::component_count(routes.entries[k].root.as_str());
            match best {
                None => {
                    best = Some(k);
                    depth = n;
                },
                Some(_) => {
                    if n >= depth {
                        best = Some(k);
                        depth = n;
                    }
                },
            }
        }
        k = k + 1;
    }
    match best {
        None => {
            proof {
                assert forall|k: int| !owns(entries, path@, k) by {
                    if owns(entries, path@, k) {
                        assert(paths::within(path@, entries[k].root@));
                    }
                }
            }
            None
        },
        Some(b) => {
            proof {
                assert(owns(entries, path@, b as int));
                law_deepest_root_is_unique(entries, path@, b as int, b as int);
            }
            Some(routes.entries[b].instance)
        },
    }
}

/// What an event says happened to its paths.
pub open spec fn kind_of(event: FsEvent) -> SourceEventKind {
    match event.kind {
        FsEventKind::Create => SourceEventKind::Created,
        FsEventKind::Remove => SourceEventKind::Removed,
        FsEventKind::RenameBoth => if event.paths@.len() == 2 {
            SourceEventKind::Renamed { from: event.paths@[0] }
        } else {
            SourceEventKind::Modified
        },
        _ => SourceEventKind::Modified,
    }
}

/// What an event says happened to its paths.
pub fn map_notify_kind(event: &FsEvent) -> (r: SourceEventKind)
    ensures
        r == kind_of(*event),
{
    match event.kind {
        FsEventKind::Create => SourceEventKind::Created,
        FsEventKind::Remove => SourceEventKind::Removed,
        FsEventKind::RenameBoth => if event.paths.len() == 2 {
            SourceEventKind::Renamed { from: event.paths[0].clone() }
        } else {
            SourceEventKind::Modified
        },
        _ => SourceEventKind::Modified,
    }
}

/// What instance `k` hears of the event's first `n` paths.
pub open spec fn heard_of_paths(entries: Seq<Route>, event: FsEvent, n: int, k: usize) -> Seq<
    SourceEvent,
>
    decreases n,
{
    if n <= 0 {
        Seq::empty()
    } else if owner(entries, event.paths@[n - 1]@) == Some(k) {
        heard_of_paths(entries, event, n - 1, k).push(
            SourceEvent { path: event.paths@[n - 1], kind: kind_of(event) },
        )
    } else {
        heard_of_paths(entries, event, n - 1, k)
    }
}

/// What instance `k` hears of a batch of events.
pub open spec fn heard(entries: Seq<Route>, batch: Seq<FsEvent>, k: usize) -> Seq<SourceEvent>
    decreases batch.len(),
{
    if batch.len() == 0 {
        Seq::empty()
    } else {
        heard(entries, batch.drop_last(), k) + heard_of_paths(
            entries,
            batch.last(),
            batch.last().paths@.len() as int,
            k,
        )
    }
}

fn heard_in(routes: &Routes, batch: &Vec<FsEvent>, k: usize) -> (r: Vec<SourceEvent>)
    requires
        routes.wf(),
    ensures
        r@ == heard(routes.entries@, batch@, k),
{
    let mut out: Vec<SourceEvent> = Vec::new();
    let mut i: usize = 0;
    while i < batch.len()
        invariant
            i <= batch@.len(),
            routes.wf(),
            out@ == heard(routes.entries@, batch@.take(i as int), k),
        decreases batch@.len() - i,
    {
        let ghost done = out@;
        let ghost event = batch@[i as int];
        proof {
            assert(batch@.take(i + 1).drop_last() =~= batch@.take(i as int));
            assert(batch@.take(i + 1).last() == event);
        }
        let mut j: usize = 0;
        while j < batch[i].paths.len()
            invariant
                i < batch@.len(),
                event == batch@[i as int],
                j <= event.paths@.len(),
                routes.wf(),
                out@ =~= done + heard_of_paths(routes.entries@, event, j as int, k),
            decreases event.paths@.len() - j,
        {
            let goes = match longest_prefix_instance(routes, batch[i].paths[j].as_str()) {
                Some(o) => o == k,
                None => false,
            };
            if goes {
                out.push(
                    SourceEvent {
                        path: batch[i].paths[j].clone(),
                        kind: map_notify_kind(&batch[i]),
                    },
                );
            }
            j = j + 1;
        }
        i = i + 1;
    }
    proof {
        assert(batch@.take(batch@.len() as int) =~= batch@);
    }
    out
}

/// When each instance was last told of events.
#[derive(Clone, Debug, PartialEq, Eq)]
pub struct Dispatcher {
    pub last_ms: Vec<Option<u64>>,
}

/// Events for one instance.
#[derive(Clone, Debug, PartialEq, Eq)]
pub struct Dispatch {
    pub instance: usize,
    pub events: Vec<SourceEvent>,
}

/// Whether an instance that was last told at `last` is left in peace.
pub open spec fn cooling(last: Option<u64>, now_ms: u64) -> bool {
    match last {
        Some(t) => now_ms - t < PER_INSTANCE_COOLDOWN_MS,
        None => false,
    }
}

/// Whether instance `k` is told of the batch.
pub open spec fn told(
    entries: Seq<Route>,
    batch: Seq<FsEvent>,
    last: Seq<Option<u64>>,
    now_ms: u64,
    k: int,
) -> bool {
    heard(entries, batch, k as usize).len() > 0 && !cooling(last[k], now_ms)
}

/// Whether `out` holds, in order of the instances, what each of the first
/// `n` is told.
pub open spec fn dispatched(
    entries: Seq<Route>,
    batch: Seq<FsEvent>,
    last: Seq<Option<u64>>,
    now_ms: u64,
    n: int,
    out: Seq<Dispatch>,
) -> bool
    decreases n,
{
    if n <= 0 {
        out.len() == 0
    } else if told(entries, batch, last, now_ms, n - 1) {
        &&& out.len() > 0
        &&& out.last().instance == n - 1
        &&& out.last().events@ == heard(entries, batch, (n - 1) as usize)
        &&& dispatched(entries, batch, last, now_ms, n - 1, out.drop_last())
    } else {
        dispatched(entries, batch, last, now_ms, n - 1, out)
    }
}

impl Dispatcher {
    /// No instance was told of anything yet.
    pub fn new(instances: usize) -> (r: Dispatcher)
        ensures
            r.last_ms@ == Seq::new(instances as nat, |i: int| None::<u64>),
    {
        let mut last_ms: Vec<Option<u64>> = Vec::new();
        let mut i: usize = 0;
        while i < instances
            invariant
                i <= instances,
                last_ms@ == Seq::new(i as nat, |i: int| None::<u64>),
            decreases instances - i,
        {
            last_ms.push(None);
            i = i + 1;
            proof {
                assert(last_ms@ =~= Seq::new(i as nat, |i: int| None::<u64>));
            }
        }
        Dispatcher { last_ms }
    }

    /// What each instance is told of a batch of events.
    pub fn dispatch(&mut self, routes: &Routes, batch: &Vec<FsEvent>, now_ms: u64) -> (r: Vec<
        Dispatch,
    >)
        requires
            routes.wf(),
        ensures
            dispatched(
                routes.entries@,
                batch@,
                old(self).last_ms@,
                now_ms,
                old(self).last_ms@.len() as int,
                r@,
            ),
            final(self).last_ms@.len() == old(self).last_ms@.len(),
            forall|k: int|
                0 <= k < old(self).last_ms@.len() ==> #[trigger] final(self).last_ms@[k] == (
                if told(routes.entries@, batch@, old(self).last_ms@, now_ms, k) {
                    Some(now_ms)
                } else {
                    old(self).last_ms@[k]
                }),
    {
        let ghost before = self.last_ms@;
        let mut out: Vec<Dispatch> = Vec::new();
        let mut k: usize = 0;
        while k < self.last_ms.len()
            invariant
                k <= self.last_ms@.len(),
                self.last_ms@.len() == before.len(),
                before == old(self).last_ms@,
                routes.wf(),
                dispatched(routes.entries@, batch@, before, now_ms, k as int, out@),
                forall|j: int|
                    0 <= j < before.len() ==> #[trigger] self.last_ms@[j] == (if j < k && told(
                        routes.entries@,
                        batch@,
                        before,
                        now_ms,
                        j,
                    ) {
                        Some(now_ms)
                    } else {
                        before[j]
                    }),
            decreases self.last_ms@.len() - k,
        {
            let events = heard_in(routes, batch, k);
            let rests = match self.last_ms[k] {
                Some(t) => now_ms < t || now_ms - t < PER_INSTANCE_COOLDOWN_MS,
                None => false,
            };
            let ghost prev = out@;
            if events.len() > 0 && !rests {
                self.last_ms.set(k, Some(now_ms));
                out.push(Dispatch { instance: k, events });
                proof {
                    assert(out@.drop_last() =~= prev);
                }
            }
            k = k + 1;
        }
        out
    }
}

/// Law: an instance that was told of events is not told again before its
/// time of peace has passed.
pub proof fn law_cooldown(
    entries: Seq<Route>,
    first: Seq<FsEvent>,
    second: Seq<FsEvent>,
    before: Seq<Option<u64>>,
    after: Seq<Option<u64>>,
    then_ms: u64,
    now_ms: u64,
    k: int,
)
    requires
        told(entries, first, before, then_ms, k),
        after[k] == (if told(entries, first, before, then_ms, k) {
            Some(then_ms)
        } else {
            before[k]
        }),
        now_ms < then_ms + PER_INSTANCE_COOLDOWN_MS,
    ensures
        !told(entries, second, after, now_ms, k),
{
}

/// Law: what an instance is told happened: what was created, removed and
/// renamed is called so, a rename names the path that was left, and anything
/// else counts as a modification.
pub proof fn law_instances_hear_what_happened(event: FsEvent)
    ensures
        event.kind == FsEventKind::Create ==> kind_of(event) is Created,
        event.kind == FsEventKind::Remove ==> kind_of(event) is Removed,
        event.kind == FsEventKind::RenameBoth && event.paths@.len() == 2 ==> (
        kind_of(event) matches SourceEventKind::Renamed { from } && from@ == event.paths@[0]@),
        event.kind == FsEventKind::RenameBoth && event.paths@.len() != 2
            ==> kind_of(event) is Modified,
        event.kind == FsEventKind::Modify || event.kind == FsEventKind::RenameFrom || event.kind
            == FsEventKind::RenameTo || event.kind == FsEventKind::Other
            ==> kind_of(event) is Modified,
{
}

proof fn lemma_heard_of_paths(entries: Seq<Route>, event: FsEvent, n: int, k: usize, j: int)
    requires
        0 <= j < n <= event.paths@.len(),
        owner(entries, event.paths@[j]@) == Some(k),
    ensures
        heard_of_paths(entries, event, n, k).contains(
            (SourceEvent { path: event.paths@[j], kind: kind_of(event) }),
        ),
    decreases n,
{
    let want = SourceEvent { path: event.paths@[j], kind: kind_of(event) };
    let lead = heard_of_paths(entries, event, n - 1, k);
    let all = heard_of_paths(entries, event, n, k);
    if j == n - 1 {
        assert(all[lead.len() as int] == want);
    } else {
        lemma_heard_of_paths(entries, event, n - 1, k, j);
        let i = choose|i: int| 0 <= i < lead.len() && lead[i] == want;
        assert(all[i] == want);
    }
}

proof fn lemma_heard(entries: Seq<Route>, batch: Seq<FsEvent>, k: usize, b: int, j: int)
    requires
        0 <= b < batch.len(),
        0 <= j < batch[b].paths@.len(),
        owner(entries, batch[b].paths@[j]@) == Some(k),
    ensures
        heard(entries, batch, k).contains(
            (SourceEvent { path: batch[b].paths@[j], kind: kind_of(batch[b]) }),
        ),
    decreases batch.len(),
{
    let want = SourceEvent { path: batch[b].paths@[j], kind: kind_of(batch[b]) };
    let lead = heard(entries, batch.drop_last(), k);
    let more = heard_of_paths(entries, batch.last(), batch.last().paths@.len() as int, k);
    if b == batch.len() - 1 {
        lemma_heard_of_paths(entries, batch.last(), batch.last().paths@.len() as int, k, j);
        let i = choose|i: int| 0 <= i < more.len() && more[i] == want;
        assert((lead + more)[lead.len() + i] == want);
    } else {
        lemma_heard(entries, batch.drop_last(), k, b, j);
        let i = choose|i: int| 0 <= i < lead.len() && lead[i] == want;
        assert((lead + more)[i] == want);
    }
}

proof fn lemma_dispatched(
    entries: Seq<Route>,
    batch: Seq<FsEvent>,
    last: Seq<Option<u64>>,
    now_ms: u64,
    n: int,
    out: Seq<Dispatch>,
    k: int,
)
    requires
        dispatched(entries, batch, last, now_ms, n, out),
        0 <= k < n,
        told(entries, batch, last, now_ms, k),
        n <= usize::MAX,
    ensures
        exists|d: int|
            0 <= d < out.len() && (#[trigger] out[d]).instance == k && out[d].events@ == heard(
                entries,
                batch,
                k as usize,
            ),
    decreases n,
{
    if k == n - 1 {
        assert(out[out.len() - 1].instance == k);
    } else if told(entries, batch, last, now_ms, n - 1) {
        lemma_dispatched(entries, batch, last, now_ms, n - 1, out.drop_last(), k);
        let d = choose|d: int|
            0 <= d < out.drop_last().len() && (#[trigger] out.drop_last()[d]).instance == k
                && out.drop_last()[d].events@ == heard(entries, batch, k as usize);
        assert(out[d].instance == k);
    } else {
        lemma_dispatched(entries, batch, last, now_ms, n - 1, out, k);
    }
}

/// Law: an event reaches the instance whose root is the deepest above its
/// path: unless it was told of events less than five seconds ago, it is told
/// of the path, and of what happened there.
pub proof fn law_events_reach_the_deepest_root(
    entries: Seq<Route>,
    batch: Seq<FsEvent>,
    last: Seq<Option<u64>>,
    now_ms: u64,
    out: Seq<Dispatch>,
    b: int,
    j: int,
    r: int,
)
    requires
        roots_distinct(entries),
        dispatched(entries, batch, last, now_ms, last.len() as int, out),
        last.len() <= usize::MAX,
        0 <= b < batch.len(),
        0 <= j < batch[b].paths@.len(),
        0 <= r < entries.len(),
        paths::within(batch[b].paths@[j]@, entries[r].root@),
        forall|i: int|
            0 <= i < entries.len() && paths::within(
                batch[b].paths@[j]@,
                (#[trigger] entries[i]).root@,
            ) ==> paths::components(entries[i].root@).len() <= paths::components(
                entries[r].root@,
            ).len(),
        entries[r].instance < last.len(),
        last[entries[r].instance as int] matches Some(t) ==> now_ms - t >= 5000,
    ensures
        exists|d: int, e: int|
            0 <= d < out.len() && out[d].instance == entries[r].instance && 0 <= e
                < out[d].events@.len() && (#[trigger] out[d].events@[e]).path@
                == batch[b].paths@[j]@ && out[d].events@[e].kind == kind_of(batch[b]),
{
    let path = batch[b].paths@[j]@;
    assert(owns(entries, path, r));
    law_deepest_root_is_unique(entries, path, r, r);
    let k = entries[r].instance;
    lemma_heard(entries, batch, k, b, j);
    lemma_dispatched(entries, batch, last, now_ms, last.len() as int, out, k as int);
    let d = choose|d: int|
        0 <= d < out.len() && (#[trigger] out[d]).instance == k && out[d].events@ == heard(
            entries,
            batch,
            k as int as usize,
        );
    let want = SourceEvent { path: batch[b].paths@[j], kind: kind_of(batch[b]) };
    let e = choose|e: int| 0 <= e < out[d].events@.len() && out[d].events@[e] == want;
    assert(out[d].events@[e].path@ == path);
}

proof fn lemma_spec_for(specs: Seq<WatchSpec>, root: Seq<Seq<char>>, j: int)
    requires
        0 <= j < specs.len(),
        paths::components(specs[j].path@) == root,
        forall|i: int| j < i < specs.len() ==> paths::components((#[trigger] specs[i]).path@) != root,
    ensures
        spec_for(specs, root) == Some(specs[j].recursive),
    decreases specs.len(),
{
    if j < specs.len() - 1 {
        assert(paths::components(specs[specs.len() - 1].path@) != root);
        let front = specs.drop_last();
        assert forall|i: int| j < i < front.len() implies paths::components(
            (#[trigger] front[i]).path@,
        ) != root by {
            assert(paths::components(specs[i].path@) != root);
        }
        lemma_spec_for(front, root, j);
    }
}

/// Law: a root belongs to the source that declares it, with the reach that
/// it declares, unless a source behind it declares the root too; the files
/// have a watcher of their own and claim none.
pub proof fn law_a_root_belongs_to_who_declares_it(
    sources: Seq<WatchSource>,
    root: Seq<Seq<char>>,
    i: int,
    specs: Vec<WatchSpec>,
    j: int,
)
    requires
        0 <= i < sources.len() <= usize::MAX,
        sources[i].specs == Some(specs),
        sources[i].kind@ != "fs"@,
        0 <= j < specs@.len(),
        paths::components(specs@[j].path@) == root,
        forall|x: int|
            j < x < specs@.len() ==> paths::components((#[trigger] specs@[x]).path@) != root,
        forall|y: int|
            i < y < sources.len() ==> (#[trigger] sources[y]).specs is None || sources[y].kind@
                == "fs"@ || spec_for(sources[y].specs->0@, root) is None,
    ensures
        claimed(sources, root) == Some((i as usize, specs@[j].recursive)),
    decreases sources.len(),
{
    if i == sources.len() - 1 {
        lemma_spec_for(specs@, root, j);
    } else {
        let front = sources.drop_last();
        assert(sources[sources.len() - 1].specs is None || sources[sources.len() - 1].kind@
            == "fs"@ || spec_for(sources[sources.len() - 1].specs->0@, root) is None);
        assert forall|y: int| i < y < front.len() implies (#[trigger] front[y]).specs is None
            || front[y].kind@ == "fs"@ || spec_for(front[y].specs->0@, root) is None by {
            assert(front[y] == sources[y]);
        }
        law_a_root_belongs_to_who_declares_it(front, root, i, specs, j);
    }
}

/// Law: of several declarations of a root the latest counts; those of other
/// roots do not matter to it.
pub proof fn law_the_latest_declaration_counts(entries: Seq<Route>, r: Route, root: Seq<Seq<char>>)
    ensures
        declared_for(entries.push(r), paths::components(r.root@)) == Some((r.instance, r.recursive)),
        paths::components(r.root@) != root ==> declared_for(entries.push(r), root) == declared_for(
            entries,
            root,
        ),
        declared_for(Seq::empty(), root) is None,
{
    assert(entries.push(r).drop_last() =~= entries);
}

/// What an instance hears is about its own roots.
proof fn lemma_paths_heard_are_owned(entries: Seq<Route>, event: FsEvent, n: int, k: usize, e: int)
    requires
        0 <= n <= event.paths@.len(),
        0 <= e < heard_of_paths(entries, event, n, k).len(),
    ensures
        heard_of_paths(entries, event, n, k)[e].kind == kind_of(event),
        owner(entries, heard_of_paths(entries, event, n, k)[e].path@) == Some(k),
        event.paths@.contains(heard_of_paths(entries, event, n, k)[e].path),
    decreases n,
{
    if n > 0 {
        let before = heard_of_paths(entries, event, n - 1, k);
        if e < before.len() {
            lemma_paths_heard_are_owned(entries, event, n - 1, k, e);
        } else {
            assert(event.paths@[n - 1] == heard_of_paths(entries, event, n, k)[e].path);
        }
    }
}

proof fn lemma_heard_is_owned(entries: Seq<Route>, batch: Seq<FsEvent>, k: usize, e: int)
    requires
        0 <= e < heard(entries, batch, k).len(),
    ensures
        owner(entries, heard(entries, batch, k)[e].path@) == Some(k),
        exists|b: int|
            0 <= b < batch.len() && (#[trigger] batch[b]).paths@.contains(
                heard(entries, batch, k)[e].path,
            ) && heard(entries, batch, k)[e].kind == kind_of(batch[b]),
    decreases batch.len(),
{
    if batch.len() > 0 {
        let front = batch.drop_last();
        let before = heard(entries, front, k);
        let n = batch.last().paths@.len() as int;
        if e < before.len() {
            lemma_heard_is_owned(entries, front, k, e);
            let b = choose|b: int|
                0 <= b < front.len() && (#[trigger] front[b]).paths@.contains(before[e].path)
                    && before[e].kind == kind_of(front[b]);
            assert(batch[b] == front[b]);
        } else {
            lemma_paths_heard_are_owned(entries, batch.last(), n, k, e - before.len());
            assert(batch[batch.len() - 1] == batch.last());
        }
    }
}

/// What is dispatched goes to instances that are told.
proof fn lemma_dispatched_are_told(
    entries: Seq<Route>,
    batch: Seq<FsEvent>,
    last: Seq<Option<u64>>,
    now_ms: u64,
    n: int,
    out: Seq<Dispatch>,
    d: int,
)
    requires
        dispatched(entries, batch, last, now_ms, n, out),
        0 <= n <= usize::MAX,
        0 <= d < out.len(),
    ensures
        out[d].instance < n,
        told(entries, batch, last, now_ms, out[d].instance as int),
        out[d].events@ == heard(entries, batch, out[d].instance),
    decreases n,
{
    if n > 0 {
        if told(entries, batch, last, now_ms, n - 1) {
            if d < out.len() - 1 {
                lemma_dispatched_are_told(entries, batch, last, now_ms, n - 1, out.drop_last(), d);
            }
        } else {
            lemma_dispatched_are_told(entries, batch, last, now_ms, n - 1, out, d);
        }
    }
}

/// Law: an instance hears of events below its own roots alone, of something
/// in any case, and not again so soon after it was told.
pub proof fn law_instances_hear_of_their_own_roots(
    entries: Seq<Route>,
    batch: Seq<FsEvent>,
    last: Seq<Option<u64>>,
    now_ms: u64,
    out: Seq<Dispatch>,
    d: int,
    e: int,
)
    requires
        dispatched(entries, batch, last, now_ms, last.len() as int, out),
        last.len() <= usize::MAX,
        0 <= d < out.len(),
        0 <= e < out[d].events@.len(),
    ensures
        out[d].events@.len() > 0,
        last[out[d].instance as int] matches Some(t) ==> now_ms - t >= 5000,
        exists|k: int|
            0 <= k < entries.len() && (#[trigger] entries[k]).instance == out[d].instance
                && paths::within(out[d].events@[e].path@, entries[k].root@),
        exists|b: int|
            0 <= b < batch.len() && (#[trigger] batch[b]).paths@.contains(out[d].events@[e].path)
                && out[d].events@[e].kind == kind_of(batch[b]),
{
    lemma_dispatched_are_told(entries, batch, last, now_ms, last.len() as int, out, d);
    lemma_heard_is_owned(entries, batch, out[d].instance, e);
    let path = out[d].events@[e].path@;
    let k = choose|k: int| owns(entries, path, k);
    assert(owns(entries, path, k));
    assert(entries[k].instance == out[d].instance);
}

/// Law: the roots of the built-in file source, and of a source that failed
/// to declare any, are not watched for it.
pub proof fn law_other_sources_claim_nothing(
    sources: Seq<WatchSource>,
    s: WatchSource,
    root: Seq<Seq<char>>,
)
    ensures
        s.kind@ == "fs"@ || s.specs is None ==> claimed(sources.push(s), root) == claimed(
            sources,
            root,
        ),
        claimed(Seq::empty(), root) is None,
{
    assert(sources.push(s).drop_last() =~= sources);
}

} // verus!
