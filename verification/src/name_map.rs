//! A map from names to values that is walked in the order of the names.

use vstd::prelude::*;

use crate::order;
use crate::text;

verus! {

/// A map from names to values.
#[derive(Clone, Debug)]
pub struct NameMap<V> {
    names: Vec<String>,
    values: Vec<V>,
}

/// Whether the names ascend strictly, so that none occurs twice.
pub open spec fn ascending<V>(entries: Seq<(Seq<char>, V)>) -> bool {
    forall|i: int, j: int|
        0 <= i < j < entries.len() ==> order::text_before(
            (#[trigger] entries[i]).0,
            (#[trigger] entries[j]).0,
        )
}

/// Whether `name` is among the entries.
pub open spec fn has_name<V>(entries: Seq<(Seq<char>, V)>, name: Seq<char>) -> bool {
    exists|i: int| 0 <= i < entries.len() && (#[trigger] entries[i]).0 == name
}

/// The value that `name` stands for.
pub open spec fn value_of<V>(entries: Seq<(Seq<char>, V)>, name: Seq<char>) -> Option<V> {
    if has_name(entries, name) {
        Some(entries[choose|i: int| 0 <= i < entries.len() && (#[trigger] entries[i]).0 == name].1)
    } else {
        None
    }
}

/// An entry with the name is the one that is found.
pub proof fn lemma_value_at<V>(entries: Seq<(Seq<char>, V)>, i: int)
    requires
        ascending(entries),
        0 <= i < entries.len(),
    ensures
        value_of(entries, entries[i].0) == Some(entries[i].1),
{
    let name = entries[i].0;
    assert(has_name(entries, name));
    let j = choose|j: int| 0 <= j < entries.len() && (#[trigger] entries[j]).0 == name;
    order::lemma_lex_irreflexive(order::text_key(name));
    if j < i {
        assert(order::text_before(entries[j].0, entries[i].0));
    }
    if i < j {
        assert(order::text_before(entries[i].0, entries[j].0));
    }
}

impl<V> View for NameMap<V> {
    type V = Seq<(Seq<char>, V)>;

    closed spec fn view(&self) -> Seq<(Seq<char>, V)> {
        Seq::new(self.names@.len(), |i: int| (self.names@[i]@, self.values@[i]))
    }
}

impl<V> NameMap<V> {
    /// Whether the entries are in order.
    pub closed spec fn wf(&self) -> bool {
        self.names@.len() == self.values@.len() && ascending(self@)
    }

    /// What a well-formed map guarantees.
    pub proof fn lemma_wf(&self)
        requires
            self.wf(),
        ensures
            ascending(self@),
    {
    }

    /// An empty map.
    pub fn new() -> (r: NameMap<V>)
        ensures
            r.wf(),
            r@ == Seq::<(Seq<char>, V)>::empty(),
    {
        let r = NameMap { names: Vec::new(), values: Vec::new() };
        proof {
            assert(r@ =~= Seq::<(Seq<char>, V)>::empty());
        }
        r
    }

    /// The number of entries.
    pub fn len(&self) -> (r: usize)
        requires
            self.wf(),
        ensures
            r == self@.len(),
    {
        self.names.len()
    }

    /// Whether there is no entry.
    pub fn is_empty(&self) -> (r: bool)
        requires
            self.wf(),
        ensures
            r == (self@.len() == 0),
    {
        self.names.len() == 0
    }

    /// The name of the entry at `i`.
    pub fn name_at(&self, i: usize) -> (r: &String)
        requires
            self.wf(),
            i < self@.len(),
        ensures
            r@ == self@[i as int].0,
    {
        &self.names[i]
    }

    /// The value of the entry at `i`.
    pub fn value_at(&self, i: usize) -> (r: &V)
        requires
            self.wf(),
            i < self@.len(),
        ensures
            *r == self@[i as int].1,
    {
        &self.values[i]
    }

    /// The position of `name`, or where it would go.
    fn place(&self, name: &str) -> (r: (usize, bool))
        requires
            self.wf(),
        ensures
            r.0 <= self@.len(),
            r.1 ==> r.0 < self@.len() && self@[r.0 as int].0 == name@,
            r.1 == has_name(self@, name@),
            forall|k: int| 0 <= k < r.0 ==> order::text_before((#[trigger] self@[k]).0, name@),
            !r.1 ==> forall|k: int|
                r.0 <= k < self@.len() ==> order::text_before(name@, (#[trigger] self@[k]).0),
    {
        let key = order::key_of_text(&text::to_chars(name));
        let mut i: usize = 0;
        while i < self.names.len()
            invariant
                i <= self@.len(),
                self.names@.len() == self@.len(),
                self.wf(),
                key@ == order::text_key(name@),
                forall|k: int| 0 <= k < i ==> order::text_before((#[trigger] self@[k]).0, name@),
            decreases self@.len() - i,
        {
            let here = order::key_of_text(&text::to_chars(self.names[i].as_str()));
            proof {
                assert(self@[i as int].0 == self.names@[i as int]@);
            }
            if !order::key_less(&here, &key) {
                let found = !order::key_less(&key, &here);
                proof {
                    order::lemma_lex_total(key@, here@);
                    if found {
                        order::lemma_text_key_injective(self@[i as int].0, name@);
                    } else {
                        assert forall|k: int| i <= k < self@.len() implies order::text_before(
                            name@,
                            (#[trigger] self@[k]).0,
                        ) by {
                            if k > i {
                                order::lemma_lex_transitive(
                                    key@,
                                    here@,
                                    order::text_key(self@[k].0),
                                );
                            }
                        }
                        assert forall|k: int| 0 <= k < self@.len() implies (
                        #[trigger] self@[k]).0 != name@ by {
                            order::lemma_lex_irreflexive(key@);
                        }
                    }
                }
                return (i, found);
            }
            i = i + 1;
        }
        proof {
            order::lemma_lex_irreflexive(key@);
            assert forall|k: int| 0 <= k < self@.len() implies (#[trigger] self@[k]).0
                != name@ by {}
        }
        (i, false)
    }

    /// The value that `name` stands for.
    pub fn get(&self, name: &str) -> (r: Option<&V>)
        requires
            self.wf(),
        ensures
            match r {
                Some(v) => value_of(self@, name@) == Some(*v),
                None => value_of(self@, name@) is None,
            },
    {
        let (at, found) = self.place(name);
        if found {
            proof {
                lemma_value_at(self@, at as int);
            }
            Some(&self.values[at])
        } else {
            None
        }
    }

    /// Lets `name` stand for `value`. Says whether it stood for something
    /// before.
    pub fn insert(&mut self, name: String, value: V) -> (r: bool)
        requires
            old(self).wf(),
        ensures
            final(self).wf(),
            r == has_name(old(self)@, name@),
            value_of(final(self)@, name@) == Some(value),
            forall|other: Seq<char>|
                other != name@ ==> #[trigger] value_of(final(self)@, other) == value_of(
                    old(self)@,
                    other,
                ),
    {
        let (at, found) = self.place(name.as_str());
        let ghost before = self@;
        let ghost key = name@;
        if found {
            self.values.set(at, value);
            proof {
                assert(self@ =~= before.update(at as int, (key, value)));
                lemma_update_entry(before, at as int, key, value);
            }
        } else {
            self.names.insert(at, name);
            self.values.insert(at, value);
            proof {
                assert(self@ =~= before.insert(at as int, (key, value)));
                lemma_insert_entry(before, at as int, key, value);
            }
        }
        found
    }

    /// Lets `name` stand for `value` unless it stands for something.
    pub fn insert_if_absent(&mut self, name: String, value: V)
        requires
            old(self).wf(),
        ensures
            final(self).wf(),
            has_name(old(self)@, name@) ==> final(self)@ == old(self)@,
            !has_name(old(self)@, name@) ==> value_of(final(self)@, name@) == Some(value),
            forall|other: Seq<char>|
                other != name@ ==> #[trigger] value_of(final(self)@, other) == value_of(
                    old(self)@,
                    other,
                ),
    {
        let (_, found) = self.place(name.as_str());
        if !found {
            self.insert(name, value);
        }
    }
}

proof fn lemma_update_entry<V>(
    before: Seq<(Seq<char>, V)>,
    at: int,
    name: Seq<char>,
    value: V,
)
    requires
        ascending(before),
        0 <= at < before.len(),
        before[at].0 == name,
    ensures
        ascending(before.update(at, (name, value))),
        value_of(before.update(at, (name, value)), name) == Some(value),
        forall|other: Seq<char>|
            other != name ==> #[trigger] value_of(before.update(at, (name, value)), other)
                == value_of(before, other),
{
    let after = before.update(at, (name, value));
    assert(ascending(after)) by {
        assert forall|i: int, j: int| 0 <= i < j < after.len() implies order::text_before(
            (#[trigger] after[i]).0,
            (#[trigger] after[j]).0,
        ) by {
            assert(order::text_before(before[i].0, before[j].0));
        }
    }
    lemma_value_at(after, at);
    assert forall|other: Seq<char>| other != name implies #[trigger] value_of(after, other)
        == value_of(before, other) by {
        if has_name(before, other) {
            let k = choose|k: int| 0 <= k < before.len() && (#[trigger] before[k]).0 == other;
            lemma_value_at(before, k);
            assert(after[k].0 == other);
            lemma_value_at(after, k);
        } else if has_name(after, other) {
            let k = choose|k: int| 0 <= k < after.len() && (#[trigger] after[k]).0 == other;
            assert(before[k].0 == other);
        }
    }
}

proof fn lemma_insert_entry<V>(
    before: Seq<(Seq<char>, V)>,
    at: int,
    name: Seq<char>,
    value: V,
)
    requires
        ascending(before),
        0 <= at <= before.len(),
        !has_name(before, name),
        forall|k: int| 0 <= k < at ==> order::text_before((#[trigger] before[k]).0, name),
        forall|k: int| at <= k < before.len() ==> order::text_before(name, (#[trigger] before[k]).0),
    ensures
        ascending(before.insert(at, (name, value))),
        value_of(before.insert(at, (name, value)), name) == Some(value),
        forall|other: Seq<char>|
            other != name ==> #[trigger] value_of(before.insert(at, (name, value)), other)
                == value_of(before, other),
{
    let after = before.insert(at, (name, value));
    assert(ascending(after)) by {
        assert forall|i: int, j: int| 0 <= i < j < after.len() implies order::text_before(
            (#[trigger] after[i]).0,
            (#[trigger] after[j]).0,
        ) by {
            let a = if i < at {
                i
            } else {
                i - 1
            };
            let b = if j < at {
                j
            } else {
                j - 1
            };
            if i == at {
                assert(after[j] == before[b]);
            } else if j == at {
                assert(after[i] == before[a]);
            } else {
                assert(after[i] == before[a] && after[j] == before[b]);
                assert(order::text_before(before[a].0, before[b].0));
            }
        }
    }
    assert(after[at] == (name, value));
    lemma_value_at(after, at);
    assert forall|other: Seq<char>| other != name implies #[trigger] value_of(after, other)
        == value_of(before, other) by {
        if has_name(before, other) {
            let k = choose|k: int| 0 <= k < before.len() && (#[trigger] before[k]).0 == other;
            lemma_value_at(before, k);
            let m = if k < at {
                k
            } else {
                k + 1
            };
            assert(after[m] == before[k]);
            lemma_value_at(after, m);
        } else if has_name(after, other) {
            let m = choose|m: int| 0 <= m < after.len() && (#[trigger] after[m]).0 == other;
            let k = if m < at {
                m
            } else {
                m - 1
            };
            assert(after[m] == before[k]);
        }
    }
}

} // verus!
