//! A bounded cache of search results.
//!
//! The key of a result holds the reload epoch of the index that it was
//! computed on, so that a commit makes every earlier result unreachable.

use vstd::prelude::*;

use crate::text;

verus! {

/// Greatest number of cached results.
pub const RESULT_CACHE_MAX: usize = 64;

/// What a result was computed for.
#[derive(Clone, Debug, PartialEq, Eq)]
pub struct ResultKey {
    pub text: String,
    pub limit: u32,
    pub epoch: u64,
}

/// A key as plain values.
pub type KeyView = (Seq<char>, u32, u64);

impl View for ResultKey {
    type V = KeyView;

    open spec fn view(&self) -> KeyView {
        (self.text@, self.limit, self.epoch)
    }
}

/// The cached results.
pub struct ResultCache<V> {
    entries: Vec<(ResultKey, V)>,
}

spec fn found<V>(entries: Seq<(ResultKey, V)>, key: KeyView) -> Option<V>
    decreases entries.len(),
{
    if entries.len() == 0 {
        None
    } else if entries.last().0@ == key {
        Some(entries.last().1)
    } else {
        found(entries.drop_last(), key)
    }
}

spec fn keys_distinct<V>(entries: Seq<(ResultKey, V)>) -> bool {
    forall|i: int, j: int|
        0 <= i < j < entries.len() ==> (#[trigger] entries[i]).0@ != (#[trigger] entries[j]).0@
}

proof fn lemma_found<V>(entries: Seq<(ResultKey, V)>, k: int)
    requires
        keys_distinct(entries),
        0 <= k < entries.len(),
    ensures
        found(entries, entries[k].0@) == Some(entries[k].1),
    decreases entries.len(),
{
    let n = entries.len() - 1;
    if k < n {
        assert(entries[k].0@ != entries[n].0@);
        assert(keys_distinct(entries.drop_last())) by {
            assert forall|i: int, j: int|
                0 <= i < j < entries.drop_last().len() implies (
            #[trigger] entries.drop_last()[i]).0@ != (#[trigger] entries.drop_last()[j]).0@ by {
                assert(entries[i].0@ != entries[j].0@);
            }
        }
        lemma_found(entries.drop_last(), k);
    }
}

proof fn lemma_not_found<V>(entries: Seq<(ResultKey, V)>, key: KeyView)
    requires
        forall|i: int| 0 <= i < entries.len() ==> (#[trigger] entries[i]).0@ != key,
    ensures
        found(entries, key) is None,
    decreases entries.len(),
{
    if entries.len() > 0 {
        assert(entries[entries.len() - 1].0@ != key);
        assert forall|i: int| 0 <= i < entries.drop_last().len() implies (
        #[trigger] entries.drop_last()[i]).0@ != key by {
            assert(entries[i].0@ != key);
        }
        lemma_not_found(entries.drop_last(), key);
    }
}

proof fn lemma_replaced<V>(entries: Seq<(ResultKey, V)>, k: int, e: (ResultKey, V), key: KeyView)
    requires
        keys_distinct(entries),
        0 <= k < entries.len(),
        e.0@ == entries[k].0@,
    ensures
        found(entries.update(k, e), key) == (if key == e.0@ {
            Some(e.1)
        } else {
            found(entries, key)
        }),
    decreases entries.len(),
{
    let n = entries.len() - 1;
    if k == n {
        assert(entries.update(k, e).drop_last() =~= entries.drop_last());
    } else {
        assert(entries.update(k, e).drop_last() =~= entries.drop_last().update(k, e));
        assert(entries.update(k, e).last() == entries.last());
        assert(entries[k].0@ != entries[n].0@);
        assert(keys_distinct(entries.drop_last())) by {
            assert forall|i: int, j: int|
                0 <= i < j < entries.drop_last().len() implies (
            #[trigger] entries.drop_last()[i]).0@ != (#[trigger] entries.drop_last()[j]).0@ by {
                assert(entries[i].0@ != entries[j].0@);
            }
        }
        lemma_replaced(entries.drop_last(), k, e, key);
    }
}

fn same_key(a: &ResultKey, b: &ResultKey) -> (r: bool)
    ensures
        r == (a@ == b@),
{
    a.limit == b.limit && a.epoch == b.epoch && text::text_eq(a.text.as_str(), b.text.as_str())
}

/// Whether `after` is `before` once the result for a key was put in: a full
/// cache is emptied first.
pub open spec fn puts<V>(
    before: ResultCache<V>,
    after: ResultCache<V>,
    key: KeyView,
    value: V,
) -> bool {
    &&& after.cached(key) == Some(value)
    &&& forall|k: KeyView|
        k != key ==> #[trigger] after.cached(k) == (if before.size() >= RESULT_CACHE_MAX {
            None
        } else {
            before.cached(k)
        })
    &&& after.size() == (if before.size() >= RESULT_CACHE_MAX {
        1
    } else if before.cached(key) is Some {
        before.size()
    } else {
        before.size() + 1
    })
}

/// Whether every result in the cache is of this epoch of the index or an
/// earlier one.
pub open spec fn up_to<V>(cache: ResultCache<V>, epoch: u64) -> bool {
    forall|k: KeyView| (#[trigger] cache.cached(k)) is Some ==> k.2 <= epoch
}

impl<V> ResultCache<V> {
    /// Whether no key occurs twice and the bound is kept.
    pub closed spec fn wf(&self) -> bool {
        keys_distinct(self.entries@) && self.entries@.len() <= RESULT_CACHE_MAX
    }

    /// The number of results.
    pub closed spec fn size(&self) -> nat {
        self.entries@.len()
    }

    /// The result that is cached for a key.
    pub closed spec fn cached(&self, key: KeyView) -> Option<V> {
        found(self.entries@, key)
    }

    /// An empty cache.
    pub fn new() -> (r: ResultCache<V>)
        ensures
            r.wf(),
            r.size() == 0,
            forall|key: KeyView| #[trigger] r.cached(key) is None,
    {
        ResultCache { entries: Vec::new() }
    }

    /// The number of results, which never exceeds the bound.
    pub fn len(&self) -> (r: usize)
        requires
            self.wf(),
        ensures
            r == self.size(),
            r <= RESULT_CACHE_MAX,
    {
        self.entries.len()
    }

    /// The result for a key.
    pub fn get(&self, key: &ResultKey) -> (r: Option<&V>)
        requires
            self.wf(),
        ensures
            match r {
                Some(v) => self.cached(key@) == Some(*v),
                None => self.cached(key@) is None,
            },
    {
        let mut i: usize = 0;
        while i < self.entries.len()
            invariant
                i <= self.entries@.len(),
                self.wf(),
                forall|j: int| 0 <= j < i ==> (#[trigger] self.entries@[j]).0@ != key@,
            decreases self.entries@.len() - i,
        {
            if same_key(&self.entries[i].0, key) {
                proof {
                    lemma_found(self.entries@, i as int);
                }
                return Some(&self.entries[i].1);
            }
            i = i + 1;
        }
        proof {
            lemma_not_found(self.entries@, key@);
        }
        None
    }

    /// Caches a result. A full cache is emptied first.
    pub fn put(&mut self, key: ResultKey, value: V)
        requires
            old(self).wf(),
        ensures
            final(self).wf(),
            puts(*old(self), *final(self), key@, value),
    {
        if self.entries.len() >= RESULT_CACHE_MAX {
            self.entries = Vec::new();
        }
        let ghost before = self.entries@;
        let ghost goal = key@;
        let mut i: usize = 0;
        while i < self.entries.len()
            invariant
                i <= self.entries@.len(),
                self.entries@ == before,
                before == (if old(self).size() >= RESULT_CACHE_MAX {
                    Seq::empty()
                } else {
                    old(self).entries@
                }),
                keys_distinct(before),
                before.len() < RESULT_CACHE_MAX,
                key@ == goal,
                forall|j: int| 0 <= j < i ==> (#[trigger] before[j]).0@ != goal,
            decreases self.entries@.len() - i,
        {
            if same_key(&self.entries[i].0, &key) {
                let ghost entry = (key, value);
                self.entries.set(i, (key, value));
                proof {
                    assert(self.entries@ =~= before.update(i as int, entry));
                    lemma_found(before, i as int);
                    assert forall|k: KeyView| #[trigger]
                        self.cached(k) == (if k == goal {
                            Some(value)
                        } else {
                            found(before, k)
                        }) by {
                        lemma_replaced(before, i as int, entry, k);
                    }
                    assert(keys_distinct(self.entries@)) by {
                        assert forall|a: int, b: int|
                            0 <= a < b < self.entries@.len() implies (
                        #[trigger] self.entries@[a]).0@ != (#[trigger] self.entries@[b]).0@ by {
                            assert(before[a].0@ != before[b].0@);
                        }
                    }
                }
                return ;
            }
            i = i + 1;
        }
        proof {
            lemma_not_found(before, goal);
        }
        self.entries.push((key, value));
        proof {
            assert(self.entries@.drop_last() =~= before);
            assert forall|k: KeyView| k != goal implies #[trigger] self.cached(k) == found(
                before,
                k,
            ) by {}
            assert(keys_distinct(self.entries@)) by {
                assert forall|a: int, b: int|
                    0 <= a < b < self.entries@.len() implies (#[trigger] self.entries@[a]).0@ != (
                #[trigger] self.entries@[b]).0@ by {
                    if b < before.len() {
                        assert(before[a].0@ != before[b].0@);
                    } else {
                        assert(before[a].0@ != goal);
                    }
                }
            }
        }
    }
}

/// Number of searches that may run at once: twice the number of cores, and
/// four at least.
pub fn default_search_concurrency(cores: Option<usize>) -> (r: usize)
    requires
        cores matches Some(n) ==> n * 2 <= usize::MAX,
    ensures
        r == (match cores {
            Some(n) => if n * 2 < 4 {
                4
            } else {
                n * 2
            },
            None => 8,
        }),
{
    let n: usize = match cores {
        Some(n) => n,
        None => 4,
    };
    if n * 2 < 4 {
        4
    } else {
        n * 2
    }
}

/// Number of permits for a wanted number of concurrent searches.
pub fn with_concurrency(concurrency: usize) -> (r: usize)
    ensures
        r == (if concurrency == 0 {
            1
        } else {
            concurrency
        }),
{
    if concurrency == 0 {
        1
    } else {
        concurrency
    }
}

/// Law: a reload invalidates the cache. While results of an epoch are put
/// in, none of a later one is there, so a search after a reload finds none.
pub proof fn law_reload_invalidates<V>(
    before: ResultCache<V>,
    after: ResultCache<V>,
    key: KeyView,
    value: V,
    epoch: u64,
    later: KeyView,
)
    requires
        up_to(before, epoch),
        key.2 <= epoch,
        puts(before, after, key, value),
        later.2 > epoch,
    ensures
        up_to(after, epoch),
        after.cached(later) is None,
{
    assert forall|k: KeyView| (#[trigger] after.cached(k)) is Some implies k.2 <= epoch by {
        if k != key {
            assert(before.cached(k) is Some);
        }
    }
}

/// Law: a result that was put in is found under its own text, limit and
/// epoch, and the others stay as they were unless the cache was full.
pub proof fn law_a_result_is_found_again<V>(
    before: ResultCache<V>,
    after: ResultCache<V>,
    key: KeyView,
    value: V,
    other: KeyView,
)
    requires
        puts(before, after, key, value),
    ensures
        after.cached(key) == Some(value),
        other.0 != key.0 || other.1 != key.1 || other.2 != key.2 ==> {
            &&& before.size() < 64 ==> after.cached(other) == before.cached(other)
            &&& before.size() >= 64 ==> after.cached(other) is None
        },
        before.size() >= 64 ==> after.size() == 1,
        before.size() < 64 && before.cached(key) is Some ==> after.size() == before.size(),
        before.size() < 64 && before.cached(key) is None ==> after.size() == before.size() + 1,
{
}

} // verus!
