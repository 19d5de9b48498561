//! Periodic maintenance of the extract cache.
//!
//! Three obligations keep the cache bounded: stale temporary files are
//! removed, the least recently written files are evicted until the rest
//! fits under the cap, and queue rows that have exhausted their retries are
//! reaped after a grace window. The walk over the directory, the removals
//! and the queue are the caller's; what goes and in which order is decided
//! here.

use vstd::prelude::*;

use crate::order;
use crate::paths;
use crate::text;

verus! {

/// Tunables for a sweep and for the driver that invokes it periodically.
#[derive(Debug, Clone, PartialEq, Eq)]
pub struct CacheSweepCfg {
    pub cache_root: String,
    /// Cap on the bytes of regular files; 0 disables eviction.
    pub max_bytes: u64,
    pub interval_secs: u64,
    pub tmp_max_age_secs: u64,
    pub zombie_max_attempts: u32,
    pub zombie_max_age_secs: u64,
}

/// The queue's reap query.
pub trait ZombieReaper {
    /// Deletes rows that were tried `max_attempts` times and are older than
    /// `older_than_secs`; says how many there were.
    fn reap(&self, max_attempts: u32, older_than_secs: i64) -> Result<u64, String>;
}

/// Aggregate result of a single sweep.
#[derive(Debug, Clone, Copy, PartialEq, Eq, Structural)]
pub struct SweepOutcome {
    pub evicted_files: u64,
    pub evicted_bytes: u64,
    pub tmp_cleaned: u64,
    pub zombies_reaped: u64,
}

impl Default for SweepOutcome {
    fn default() -> (r: Self)
        ensures
            r == (SweepOutcome {
                evicted_files: 0,
                evicted_bytes: 0,
                tmp_cleaned: 0,
                zombies_reaped: 0,
            }),
    {
        SweepOutcome { evicted_files: 0, evicted_bytes: 0, tmp_cleaned: 0, zombies_reaped: 0 }
    }
}

/// A file found by the walk.
#[derive(Debug, Clone, PartialEq, Eq)]
pub struct CacheFile {
    pub path: String,
    pub mtime_secs: i64,
    pub size: u64,
}

/// How a removal ended.
#[derive(Debug, Clone, Copy, PartialEq, Eq, Structural)]
pub enum Removal {
    Done,
    /// The file was gone already.
    Missing,
    Failed,
}

/// Whether a path names a temporary file of an atomic write.
pub open spec fn temporary(path: Seq<char>) -> bool {
    match paths::file_name_of(path) {
        Some(name) => ".tmp-"@.is_prefix_of(name),
        None => false,
    }
}

/// Whether a sweep at `now_secs` removes the file as a stale temporary.
pub open spec fn stale_tmp(file: CacheFile, now_secs: i64, max_age_secs: u64) -> bool {
    temporary(file.path@) && now_secs - file.mtime_secs >= max_age_secs
}

/// The positions below `n` of the files that a sweep removes as stale
/// temporaries, in order.
pub open spec fn stale_tmps_of(
    files: Seq<CacheFile>,
    now_secs: i64,
    max_age_secs: u64,
    n: nat,
) -> Seq<usize>
    decreases n,
{
    if n == 0 {
        Seq::empty()
    } else {
        let before = stale_tmps_of(files, now_secs, max_age_secs, (n - 1) as nat);
        if stale_tmp(files[n - 1], now_secs, max_age_secs) {
            before.push((n - 1) as usize)
        } else {
            before
        }
    }
}

/// The bytes of the files at `positions`.
pub open spec fn bytes_at(files: Seq<CacheFile>, positions: Seq<usize>) -> nat
    decreases positions.len(),
{
    if positions.len() == 0 {
        0
    } else {
        bytes_at(files, positions.drop_last()) + files[positions.last() as int].size as nat
    }
}

/// The positions below `n` of the regular files, in order.
pub open spec fn regular_of(files: Seq<CacheFile>, n: nat) -> Seq<usize>
    decreases n,
{
    if n == 0 {
        Seq::empty()
    } else {
        let before = regular_of(files, (n - 1) as nat);
        if temporary(files[n - 1].path@) {
            before
        } else {
            before.push((n - 1) as usize)
        }
    }
}

/// The sort key of a modification time.
pub open spec fn mtime_key(mtime: i64) -> Seq<u64> {
    seq![(mtime + 0x8000_0000_0000_0000) as u64]
}

/// The keys by which the files at `positions` are evicted.
pub open spec fn eviction_keys(files: Seq<CacheFile>, positions: Seq<usize>) -> Seq<Seq<u64>> {
    Seq::new(positions.len(), |i: int| mtime_key(files[positions[i] as int].mtime_secs))
}

/// `queue` holds the regular files, the least recently written first, and
/// files of the same time in the order in which they were found.
pub open spec fn eviction_order(files: Seq<CacheFile>, queue: Seq<usize>) -> bool {
    exists|p: Seq<usize>| #[trigger]
        order::sorts(eviction_keys(files, regular_of(files, files.len())), p) && queue == picked(
            regular_of(files, files.len()),
            p,
        )
}

/// The items of `from` at the positions `p`.
pub open spec fn picked(from: Seq<usize>, p: Seq<usize>) -> Seq<usize> {
    Seq::new(p.len(), |i: int| from[p[i] as int])
}

/// Whether the file name of `path` marks it as temporary.
pub fn is_tmp(path: &str) -> (r: bool)
    ensures
        r == temporary(path@),
{
    match paths::file_name(path) {
        Some(name) => text::text_starts_with(name.as_str(), ".tmp-"),
        None => false,
    }
}

/// The temporary files that have outlived `max_age_secs`.
pub fn stale_tmps(files: &Vec<CacheFile>, now_secs: i64, max_age_secs: u64) -> (r: Vec<usize>)
    ensures
        r@ == stale_tmps_of(files@, now_secs, max_age_secs, files@.len()),
{
    let mut out: Vec<usize> = Vec::new();
    let mut i: usize = 0;
    while i < files.len()
        invariant
            i <= files@.len(),
            out@ == stale_tmps_of(files@, now_secs, max_age_secs, i as nat),
        decreases files@.len() - i,
    {
        if is_tmp(files[i].path.as_str()) && now_secs as i128 - files[i].mtime_secs as i128
            >= max_age_secs as i128 {
            out.push(i);
        }
        i = i + 1;
    }
    out
}

/// The time before which a row that is reaped was written: so long ago, or
/// the earliest time there is.
pub open spec fn reaped_before(now_secs: i64, max_age_secs: u64) -> i64 {
    if now_secs - max_age_secs < i64::MIN {
        i64::MIN
    } else {
        (now_secs - max_age_secs) as i64
    }
}

/// The age limit that the queue's reap query is given.
pub fn zombie_cutoff(now_secs: i64, max_age_secs: u64) -> (r: i64)
    ensures
        r == reaped_before(now_secs, max_age_secs),
{
    let cutoff: i128 = now_secs as i128 - max_age_secs as i128;
    if cutoff < i64::MIN as i128 {
        i64::MIN
    } else {
        cutoff as i64
    }
}

/// Whether the periodic driver runs at all.
pub fn sweep_enabled(cfg: &CacheSweepCfg) -> (r: bool)
    ensures
        r == (cfg.max_bytes > 0),
{
    cfg.max_bytes > 0
}

/// Asks the queue to reap, where there is one; a failed query reaps
/// nothing.
pub fn reap_zombies<R: ZombieReaper>(
    reaper: Option<&R>,
    cfg: &CacheSweepCfg,
    now_secs: i64,
) -> (r: u64)
    ensures
        match reaper {
            None => r == 0,
            Some(q) => exists|answer: Result<u64, String>| #[trigger]
                call_ensures(
                    R::reap,
                    (
                        q,
                        cfg.zombie_max_attempts,
                        reaped_before(now_secs, cfg.zombie_max_age_secs),
                    ),
                    answer,
                ) && r == reap_count(answer),
        },
{
    match reaper {
        None => 0,
        Some(q) => reaped(q.reap(cfg.zombie_max_attempts, zombie_cutoff(
            now_secs,
            cfg.zombie_max_age_secs,
        ))),
    }
}

/// What a reap query's answer counts for: a failed one for nothing.
pub open spec fn reap_count(answer: Result<u64, String>) -> u64 {
    match answer {
        Ok(n) => n,
        Err(_) => 0,
    }
}

/// What a reap query's answer counts for.
pub fn reaped(answer: Result<u64, String>) -> (r: u64)
    ensures
        r == reap_count(answer),
{
    match answer {
        Ok(n) => n,
        Err(_) => 0,
    }
}

/// An eviction in progress.
#[derive(Debug, Clone, PartialEq, Eq)]
pub struct Eviction {
    /// The regular files, the least recently written first.
    pub queue: Vec<usize>,
    /// How many of the queue have been dealt with.
    pub next: usize,
    pub max_bytes: u64,
    /// Bytes still taken up.
    pub remaining: u64,
    pub evicted_files: u64,
    pub evicted_bytes: u64,
    /// Bytes of files that were gone already.
    pub missing_bytes: u64,
    /// Removals that failed.
    pub failed: u64,
}

/// The regular files' bytes in all.
pub open spec fn total_bytes(files: Seq<CacheFile>) -> nat {
    bytes_at(files, regular_of(files, files.len()))
}

impl Eviction {
    /// Whether the eviction belongs to `files` and its accounts add up.
    pub open spec fn wf(&self, files: Seq<CacheFile>) -> bool {
        &&& eviction_order(files, self.queue@)
        &&& forall|i: int| 0 <= i < self.queue@.len() ==> (#[trigger] self.queue@[i]) < files.len()
        &&& self.next <= self.queue@.len()
        &&& total_bytes(files) <= u64::MAX
        &&& self.remaining + self.evicted_bytes + self.missing_bytes == total_bytes(files)
        &&& self.evicted_files + self.failed <= self.next
        &&& self.failed == 0 ==> self.remaining == bytes_at(
            files,
            self.queue@.skip(self.next as int),
        )
        &&& bytes_at(files, self.queue@.skip(self.next as int)) <= self.remaining
    }

    /// Whether nothing more is to be evicted.
    pub open spec fn done(&self) -> bool {
        self.max_bytes == 0 || self.remaining <= self.max_bytes || self.next >= self.queue@.len()
    }

    /// Begins an eviction down to `max_bytes`.
    pub fn new(files: &Vec<CacheFile>, max_bytes: u64) -> (r: Eviction)
        requires
            total_bytes(files@) <= u64::MAX,
        ensures
            r.wf(files@),
            r.next == 0,
            r.max_bytes == max_bytes,
            r.remaining == total_bytes(files@),
            r.evicted_files == 0,
            r.evicted_bytes == 0,
            r.missing_bytes == 0,
            r.failed == 0,
    {
        let mut regular: Vec<usize> = Vec::new();
        let mut keys: Vec<Vec<u64>> = Vec::new();
        let mut total: u64 = 0;
        let mut i: usize = 0;
        while i < files.len()
            invariant
                i <= files@.len(),
                total_bytes(files@) <= u64::MAX,
                regular@ == regular_of(files@, i as nat),
                keys@.len() == regular@.len(),
                forall|k: int| 0 <= k < regular@.len() ==> (#[trigger] regular@[k]) < i,
                forall|k: int|
                    0 <= k < keys@.len() ==> (#[trigger] keys@[k])@ == mtime_key(
                        files@[regular@[k] as int].mtime_secs,
                    ),
                total == bytes_at(files@, regular@),
            decreases files@.len() - i,
        {
            if !is_tmp(files[i].path.as_str()) {
                let ghost before = regular@;
                let mut key: Vec<u64> = Vec::new();
                let shifted: u64 = (files[i].mtime_secs as i128 + 0x8000_0000_0000_0000) as u64;
                key.push(shifted);
                proof {
                    assert(key@ =~= mtime_key(files@[i as int].mtime_secs));
                    assert(regular@.push(i).drop_last() =~= before);
                    assert(regular_of(files@, (i + 1) as nat) == before.push(i));
                    lemma_regular_bytes_grow(files@, (i + 1) as nat, files@.len());
                }
                keys.push(key);
                regular.push(i);
                total = total + files[i].size;
            }
            i = i + 1;
        }
        let p = order::stable_order(&keys);
        let count: usize = regular.len();
        let ghost kv = order::key_views(keys@);
        proof {
            assert(regular@.len() == count);
            assert(kv =~= eviction_keys(files@, regular_of(files@, files@.len())));
        }
        let mut queue: Vec<usize> = Vec::new();
        let mut n: usize = 0;
        while n < p.len()
            invariant
                n <= p@.len(),
                kv.len() == regular@.len(),
                order::sorts(kv, p@),
                forall|k: int| 0 <= k < regular@.len() ==> (#[trigger] regular@[k]) < files@.len(),
                queue@.len() == n,
                forall|k: int| 0 <= k < n ==> queue@[k] == regular@[p@[k] as int],
            decreases p@.len() - n,
        {
            queue.push(regular[p[n]]);
            n = n + 1;
        }
        proof {
            assert(queue@ =~= picked(regular@, p@));
            assert(eviction_order(files@, queue@));
            lemma_picked_bytes(files@, kv, regular@, p@);
            assert(queue@.skip(0) =~= queue@);
        }
        Eviction {
            queue,
            next: 0,
            max_bytes,
            remaining: total,
            evicted_files: 0,
            evicted_bytes: 0,
            missing_bytes: 0,
            failed: 0,
        }
    }

    /// The next file to remove, if any.
    pub fn victim(&self) -> (r: Option<usize>)
        ensures
            r == (if self.done() {
                None
            } else {
                Some(self.queue@[self.next as int])
            }),
    {
        if self.max_bytes == 0 || self.remaining <= self.max_bytes || self.next
            >= self.queue.len() {
            None
        } else {
            Some(self.queue[self.next])
        }
    }

    /// Takes note of how the victim's removal ended. A file that is gone,
    /// by this removal or before it, no longer takes up space.
    pub fn removed(&mut self, files: &Vec<CacheFile>, how: Removal)
        requires
            old(self).wf(files@),
            !old(self).done(),
        ensures
            final(self).wf(files@),
            final(self).queue == old(self).queue,
            final(self).max_bytes == old(self).max_bytes,
            final(self).next == old(self).next + 1,
            ({
                let size = files@[old(self).queue@[old(self).next as int] as int].size;
                match how {
                    Removal::Done => {
                        &&& final(self).evicted_files == old(self).evicted_files + 1
                        &&& final(self).evicted_bytes == old(self).evicted_bytes + size
                        &&& final(self).remaining == old(self).remaining - size
                        &&& final(self).missing_bytes == old(self).missing_bytes
                        &&& final(self).failed == old(self).failed
                    },
                    Removal::Missing => {
                        &&& final(self).evicted_files == old(self).evicted_files
                        &&& final(self).evicted_bytes == old(self).evicted_bytes
                        &&& final(self).remaining == old(self).remaining - size
                        &&& final(self).missing_bytes == old(self).missing_bytes + size
                        &&& final(self).failed == old(self).failed
                    },
                    Removal::Failed => {
                        &&& final(self).evicted_files == old(self).evicted_files
                        &&& final(self).evicted_bytes == old(self).evicted_bytes
                        &&& final(self).remaining == old(self).remaining
                        &&& final(self).missing_bytes == old(self).missing_bytes
                        &&& final(self).failed == old(self).failed + 1
                    },
                }
            }),
    {
        let len: usize = self.queue.len();
        proof {
            assert(self.next < len);
        }
        let at: usize = self.queue[self.next];
        let size: u64 = files[at].size;
        proof {
            let rest = self.queue@.skip(self.next as int);
            assert(rest.drop_first() =~= self.queue@.skip(self.next + 1));
            lemma_bytes_front(files@, rest);
        }
        match how {
            Removal::Done => {
                self.evicted_files = self.evicted_files + 1;
                self.evicted_bytes = self.evicted_bytes + size;
                self.remaining = self.remaining - size;
            },
            Removal::Missing => {
                self.missing_bytes = self.missing_bytes + size;
                self.remaining = self.remaining - size;
            },
            Removal::Failed => {
                self.failed = self.failed + 1;
            },
        }
        self.next = self.next + 1;
    }
}

proof fn lemma_bytes_front(files: Seq<CacheFile>, positions: Seq<usize>)
    requires
        positions.len() > 0,
    ensures
        bytes_at(files, positions) == files[positions[0] as int].size as nat + bytes_at(
            files,
            positions.drop_first(),
        ),
    decreases positions.len(),
{
    if positions.len() == 1 {
        assert(positions.drop_last() =~= Seq::<usize>::empty());
        assert(positions.drop_first() =~= Seq::<usize>::empty());
        assert(bytes_at(files, positions.drop_last()) == 0);
    } else {
        lemma_bytes_front(files, positions.drop_last());
        assert(positions.drop_last().drop_first() =~= positions.drop_first().drop_last());
        assert(positions.drop_first().last() == positions.last());
    }
}

proof fn lemma_regular_bytes_grow(files: Seq<CacheFile>, a: nat, b: nat)
    requires
        a <= b,
    ensures
        bytes_at(files, regular_of(files, a)) <= bytes_at(files, regular_of(files, b)),
    decreases b,
{
    if a < b {
        lemma_regular_bytes_grow(files, a, (b - 1) as nat);
        let before = regular_of(files, (b - 1) as nat);
        if !temporary(files[b - 1].path@) {
            assert(before.push((b - 1) as usize).drop_last() =~= before);
        }
    }
}

proof fn lemma_bytes_remove(files: Seq<CacheFile>, positions: Seq<usize>, k: int)
    requires
        0 <= k < positions.len(),
    ensures
        bytes_at(files, positions) == bytes_at(files, positions.remove(k))
            + files[positions[k] as int].size as nat,
    decreases positions.len(),
{
    if k == positions.len() - 1 {
        assert(positions.remove(k) =~= positions.drop_last());
    } else {
        lemma_bytes_remove(files, positions.drop_last(), k);
        assert(positions.remove(k).drop_last() =~= positions.drop_last().remove(k));
        assert(positions.remove(k).last() == positions.last());
    }
}

/// Reordering files does not change their bytes.
proof fn lemma_picked_bytes(
    files: Seq<CacheFile>,
    keys: Seq<Seq<u64>>,
    from: Seq<usize>,
    p: Seq<usize>,
)
    requires
        keys.len() == from.len(),
        from.len() <= usize::MAX,
        order::sorts(keys, p),
    ensures
        bytes_at(files, picked(from, p)) == bytes_at(files, from),
{
    assert forall|i: int, j: int| 0 <= i < j < p.len() implies p[i] != p[j] by {
        assert(order::precedes(keys, p[i] as int, p[j] as int));
        order::lemma_lex_irreflexive(keys[p[i] as int]);
    }
    lemma_permuted_bytes(files, from, p);
}

proof fn lemma_permuted_bytes(files: Seq<CacheFile>, from: Seq<usize>, p: Seq<usize>)
    requires
        p.len() == from.len(),
        from.len() <= usize::MAX,
        forall|i: int| 0 <= i < p.len() ==> (#[trigger] p[i]) < from.len(),
        forall|i: int, j: int| 0 <= i < j < p.len() ==> p[i] != p[j],
        forall|k: usize| k < from.len() ==> #[trigger] p.contains(k),
    ensures
        bytes_at(files, picked(from, p)) == bytes_at(files, from),
    decreases from.len(),
{
    if from.len() > 0 {
        let last = (from.len() - 1) as usize;
        assert(p.contains(last));
        let w = choose|w: int| 0 <= w < p.len() && p[w] == last;
        let q = p.remove(w);
        let front = from.drop_last();
        assert forall|i: int| 0 <= i < q.len() implies (#[trigger] q[i]) < front.len() by {
            let j = if i < w {
                i
            } else {
                i + 1
            };
            assert(q[i] == p[j]);
            assert(p[j] != p[w]);
            assert(p[j] < from.len());
        }
        assert forall|i: int, j: int| 0 <= i < j < q.len() implies q[i] != q[j] by {
            let a = if i < w {
                i
            } else {
                i + 1
            };
            let b = if j < w {
                j
            } else {
                j + 1
            };
            assert(q[i] == p[a] && q[j] == p[b]);
        }
        assert forall|k: usize| k < front.len() implies #[trigger] q.contains(k) by {
            assert(p.contains(k));
            let j = choose|j: int| 0 <= j < p.len() && p[j] == k;
            assert(j != w);
            let i = if j < w {
                j
            } else {
                j - 1
            };
            assert(q[i] == k);
        }
        lemma_permuted_bytes(files, front, q);
        lemma_bytes_remove(files, picked(from, p), w);
        assert(picked(from, p).remove(w) =~= picked(front, q));
        assert(picked(from, p)[w] == from.last());
    } else {
        assert(picked(from, p) =~= from);
    }
}

// ---------------------------------------------------------------------
// Laws
// ---------------------------------------------------------------------

/// Law: where every removal went through, an eviction that is done leaves
/// no more bytes than the cap.
pub proof fn law_done_eviction_fits(files: Seq<CacheFile>, e: Eviction)
    requires
        e.wf(files),
        e.done(),
        e.max_bytes > 0,
        e.failed == 0,
    ensures
        e.remaining <= e.max_bytes,
{
    if e.next >= e.queue@.len() {
        assert(e.queue@.skip(e.next as int) =~= Seq::<usize>::empty());
    }
}

/// Law: an eviction that starts under the cap, or without one, removes
/// nothing.
pub proof fn law_under_cap_evicts_nothing(files: Seq<CacheFile>, e: Eviction)
    requires
        e.wf(files),
        e.next == 0,
        e.max_bytes == 0 || total_bytes(files) <= e.max_bytes,
    ensures
        e.done(),
{
}

/// Law: a temporary file is never evicted.
pub proof fn law_temporaries_are_not_evicted(files: Seq<CacheFile>, e: Eviction, i: int)
    requires
        e.wf(files),
        0 <= i < e.queue@.len(),
        files.len() <= usize::MAX,
    ensures
        !temporary(files[e.queue@[i] as int].path@),
{
    let regular = regular_of(files, files.len());
    let p = choose|p: Seq<usize>| #[trigger]
        order::sorts(eviction_keys(files, regular), p) && e.queue@ == picked(regular, p);
    lemma_regular(files, files.len());
    assert(p[i] < regular.len());
    assert(e.queue@[i] == regular[p[i] as int]);
}

proof fn lemma_regular(files: Seq<CacheFile>, n: nat)
    requires
        n <= usize::MAX,
        n <= files.len(),
    ensures
        forall|i: int|
            0 <= i < regular_of(files, n).len() ==> (#[trigger] regular_of(files, n)[i]) < n
                && !temporary(files[regular_of(files, n)[i] as int].path@),
    decreases n,
{
    if n > 0 {
        lemma_regular(files, (n - 1) as nat);
        let before = regular_of(files, (n - 1) as nat);
        let now = regular_of(files, n);
        assert forall|i: int| 0 <= i < now.len() implies (#[trigger] now[i]) < n && !temporary(
            files[now[i] as int].path@,
        ) by {
            if i < before.len() {
                assert(now[i] == before[i]);
            } else {
                assert(now[i] == (n - 1) as usize);
            }
        }
    }
}

/// Law: a file is evicted only after every file written before it.
pub proof fn law_oldest_first(files: Seq<CacheFile>, e: Eviction, i: int, j: int)
    requires
        e.wf(files),
        0 <= i < j < e.queue@.len(),
    ensures
        files[e.queue@[i] as int].mtime_secs <= files[e.queue@[j] as int].mtime_secs,
{
    let regular = regular_of(files, files.len());
    let keys = eviction_keys(files, regular);
    let p = choose|p: Seq<usize>| #[trigger]
        order::sorts(keys, p) && e.queue@ == picked(regular, p);
    assert(order::precedes(keys, p[i] as int, p[j] as int));
    let a = files[e.queue@[i] as int].mtime_secs;
    let b = files[e.queue@[j] as int].mtime_secs;
    assert(keys[p[i] as int] == mtime_key(a));
    assert(keys[p[j] as int] == mtime_key(b));
    assert(mtime_key(a)[0] == (a + 0x8000_0000_0000_0000) as u64);
    assert(mtime_key(b)[0] == (b + 0x8000_0000_0000_0000) as u64);
    if order::lex_less(mtime_key(a), mtime_key(b)) && mtime_key(a)[0] == mtime_key(b)[0] {
        assert(mtime_key(a) =~= mtime_key(b));
        order::lemma_lex_irreflexive(mtime_key(a));
    }
}

proof fn lemma_stale_tmps(
    files: Seq<CacheFile>,
    now_secs: i64,
    max_age_secs: u64,
    n: nat,
    i: usize,
)
    requires
        n <= files.len() <= usize::MAX,
    ensures
        stale_tmps_of(files, now_secs, max_age_secs, n).contains(i) <==> i < n && temporary(
            files[i as int].path@,
        ) && now_secs - files[i as int].mtime_secs >= max_age_secs,
    decreases n,
{
    if n > 0 {
        lemma_stale_tmps(files, now_secs, max_age_secs, (n - 1) as nat, i);
        let before = stale_tmps_of(files, now_secs, max_age_secs, (n - 1) as nat);
        let all = stale_tmps_of(files, now_secs, max_age_secs, n);
        if stale_tmp(files[n - 1], now_secs, max_age_secs) {
            assert(all[before.len() as int] == n - 1);
            if before.contains(i) {
                let k = choose|k: int| 0 <= k < before.len() && before[k] == i;
                assert(all[k] == i);
            }
            if all.contains(i) && i != n - 1 {
                let k = choose|k: int| 0 <= k < all.len() && all[k] == i;
                assert(before[k] == i);
            }
        }
    }
}

/// Law: a sweep removes a file as a stale temporary exactly where its name
/// begins with `.tmp-` and it was last written at least so long ago.
pub proof fn law_stale_temporaries_are_removed(
    files: Seq<CacheFile>,
    now_secs: i64,
    max_age_secs: u64,
    i: usize,
)
    requires
        files.len() <= usize::MAX,
    ensures
        stale_tmps_of(files, now_secs, max_age_secs, files.len()).contains(i) <==> i < files.len()
            && (paths::file_name_of(files[i as int].path@) matches Some(name)
            && ".tmp-"@.is_prefix_of(name)) && now_secs - files[i as int].mtime_secs
            >= max_age_secs,
{
    lemma_stale_tmps(files, now_secs, max_age_secs, files.len(), i);
}

proof fn lemma_regular_holds(files: Seq<CacheFile>, n: nat, i: usize)
    requires
        n <= files.len() <= usize::MAX,
        i < n,
        !temporary(files[i as int].path@),
    ensures
        regular_of(files, n).contains(i),
    decreases n,
{
    let before = regular_of(files, (n - 1) as nat);
    let all = regular_of(files, n);
    if i == n - 1 {
        assert(all[before.len() as int] == i);
    } else {
        lemma_regular_holds(files, (n - 1) as nat, i);
        let k = choose|k: int| 0 <= k < before.len() && before[k] == i;
        assert(all[k] == i);
    }
}

/// Law: every file that is no temporary can be evicted, so that an eviction
/// can always go on until the rest fits.
pub proof fn law_every_regular_file_can_be_evicted(files: Seq<CacheFile>, e: Eviction, i: usize)
    requires
        e.wf(files),
        i < files.len() <= usize::MAX,
        !(paths::file_name_of(files[i as int].path@) matches Some(name)
            && ".tmp-"@.is_prefix_of(name)),
    ensures
        e.queue@.contains(i),
{
    let regular = regular_of(files, files.len());
    lemma_regular_holds(files, files.len(), i);
    let k = choose|k: int| 0 <= k < regular.len() && regular[k] == i;
    let p = choose|p: Seq<usize>| #[trigger]
        order::sorts(eviction_keys(files, regular), p) && e.queue@ == picked(regular, p);
    lemma_regular_count(files, files.len());
    assert(p.contains(k as usize));
    let w = choose|w: int| 0 <= w < p.len() && p[w] == k as usize;
    assert(e.queue@[w] == i);
}

proof fn lemma_regular_count(files: Seq<CacheFile>, n: nat)
    ensures
        regular_of(files, n).len() <= n,
    decreases n,
{
    if n > 0 {
        lemma_regular_count(files, (n - 1) as nat);
    }
}

/// Law: an eviction goes on while more is taken up than the cap allows and
/// there are files left, and stops otherwise; without a cap it never starts.
pub proof fn law_an_eviction_goes_on_until_the_rest_fits(e: Eviction)
    ensures
        e.done() <==> e.max_bytes == 0 || e.remaining <= e.max_bytes || e.next >= e.queue@.len(),
{
}

/// Law: a row is reaped by its age, counted back from now; ages that reach
/// beyond all times reap from the earliest time on. A query that fails reaps
/// none.
pub proof fn law_rows_are_reaped_by_age(now_secs: i64, max_age_secs: u64, n: u64, err: String)
    ensures
        now_secs - max_age_secs >= i64::MIN ==> reaped_before(now_secs, max_age_secs) == now_secs
            - max_age_secs,
        now_secs - max_age_secs < i64::MIN ==> reaped_before(now_secs, max_age_secs) == i64::MIN,
        reap_count(Ok(n)) == n,
        reap_count(Err(err)) == 0,
{
}

/// The regular files among the first ones do not depend on the others.
proof fn lemma_regular_of_start(files: Seq<CacheFile>, f: CacheFile, n: nat)
    requires
        n <= files.len() <= usize::MAX,
    ensures
        regular_of(files.push(f), n) == regular_of(files, n),
        bytes_at(files.push(f), regular_of(files, n)) == bytes_at(files, regular_of(files, n)),
    decreases n,
{
    if n > 0 {
        lemma_regular_of_start(files, f, (n - 1) as nat);
        assert(files.push(f)[n - 1] == files[n - 1]);
        let before = regular_of(files, (n - 1) as nat);
        if !temporary(files[n - 1].path@) {
            let now = regular_of(files, n);
            assert(now.drop_last() =~= before);
            assert(now.last() == n - 1);
        }
    }
}

/// Law: a cache takes up what its regular files do, each of them counted
/// once; temporary files do not count.
pub proof fn law_every_regular_file_counts(files: Seq<CacheFile>, f: CacheFile)
    requires
        files.len() < usize::MAX,
    ensures
        total_bytes(Seq::empty()) == 0,
        (paths::file_name_of(f.path@) matches Some(name) && ".tmp-"@.is_prefix_of(name))
            ==> total_bytes(files.push(f)) == total_bytes(files),
        !(paths::file_name_of(f.path@) matches Some(name) && ".tmp-"@.is_prefix_of(name))
            ==> total_bytes(files.push(f)) == total_bytes(files) + f.size,
{
    let all = files.push(f);
    let n = files.len();
    lemma_regular_of_start(files, f, n);
    assert(all[n as int] == f);
    assert((n + 1 - 1) as nat == n);
    let before = regular_of(files, n);
    assert(regular_of(all, n) == before);
    if !temporary(f.path@) {
        let now = regular_of(all, n + 1);
        assert(now == before.push(n as usize));
        assert(now.drop_last() =~= before);
    }
}

} // verus!
