//! What a committed batch of index mutations tells its consumers.

use std::sync::Arc;

use vstd::prelude::*;

verus! {

/// One document upserted in a single committed batch: the minimum that a
/// downstream consumer needs to decide whether to embed it anew.
#[derive(Clone, Debug, PartialEq, Eq)]
pub struct UpsertedDoc {
    pub doc_id: String,
    pub source_instance: String,
    pub mtime: i64,
    pub mime: Option<String>,
    pub body: Option<String>,
}

/// All mutations that landed in a single committed generation.
/// `generation` is the counter's value after the commit succeeded.
#[derive(Clone, Debug, PartialEq, Eq)]
pub struct MutationBatch {
    pub upserts: Vec<UpsertedDoc>,
    pub deletes: Vec<String>,
    pub generation: u64,
}

impl Default for MutationBatch {
    fn default() -> (r: Self)
        ensures
            r.upserts@ == Seq::<UpsertedDoc>::empty(),
            r.deletes@ == Seq::<String>::empty(),
            r.generation == 0,
    {
        MutationBatch { upserts: Vec::new(), deletes: Vec::new(), generation: 0 }
    }
}

impl MutationBatch {
    /// Whether the batch carries nothing.
    pub fn is_empty(&self) -> (r: bool)
        ensures
            r == (self.upserts@.len() == 0 && self.deletes@.len() == 0),
    {
        self.upserts.is_empty() && self.deletes.is_empty()
    }
}

/// Implemented by sinks that want to react to committed index mutations.
pub trait MutationBroadcaster: Send + Sync {
    fn broadcast(&self, batch: &MutationBatch);
}

/// Default broadcaster used when no consumer is wired in.
pub struct NoopBroadcaster;

impl MutationBroadcaster for NoopBroadcaster {
    fn broadcast(&self, _batch: &MutationBatch) {
    }
}

fn single<T>(x: T) -> (r: Vec<T>)
    ensures
        r@ == seq![x],
{
    let mut v = Vec::new();
    v.push(x);
    v
}

/// Whether `after` is `before` with `b` behind it.
pub open spec fn follows<T>(b: T, before: Seq<T>, after: Seq<T>) -> bool {
    after == before.push(b)
}

proof fn lemma_follows<T>(added: Seq<T>, before: Seq<T>)
    requires
        added.len() == 1,
    ensures
        follows(added[0], before, before + added),
{
    assert(before + added =~= before.push(added[0]));
}

/// Fan-out broadcaster.
pub struct MultiBroadcaster {
    inner: Vec<Arc<dyn MutationBroadcaster>>,
}

impl MultiBroadcaster {
    /// The broadcasters that a batch goes to, in order.
    pub closed spec fn recipients(&self) -> Seq<Arc<dyn MutationBroadcaster>> {
        self.inner@
    }

    pub fn new(inner: Vec<Arc<dyn MutationBroadcaster>>) -> (r: Self)
        ensures
            r.recipients() == inner@,
    {
        MultiBroadcaster { inner }
    }

    /// Adds a broadcaster, which a batch goes to after all others, once more
    /// where it is among them already.
    pub fn push(&mut self, b: Arc<dyn MutationBroadcaster>)
        ensures
            follows(b, old(self).recipients(), final(self).recipients()),
    {
        let mut one = single(b);
        let ghost added = one@;
        self.inner.append(&mut one);
        proof {
            assert(added.len() == 1);
            assert(self.inner@ =~= old(self).inner@ + added);
            lemma_follows(added, old(self).inner@);
        }
    }

    pub fn is_empty(&self) -> (r: bool)
        ensures
            r == (self.recipients().len() == 0),
    {
        self.inner.is_empty()
    }

    /// The broadcaster to call next in a broadcast that has made so many
    /// calls, however those have ended; `None` once it has called all.
    pub fn next_call(&self, made: usize) -> (r: Option<&Arc<dyn MutationBroadcaster>>)
        ensures
            match r {
                Some(b) => next_of(self.recipients(), made as int) == Some(*b),
                None => next_of(self.recipients(), made as int) is None,
            },
    {
        if made < self.inner.len() {
            Some(&self.inner[made])
        } else {
            None
        }
    }
}

/// The recipient to call next after so many calls.
pub open spec fn next_of<T>(recipients: Seq<T>, made: int) -> Option<T> {
    if 0 <= made < recipients.len() {
        Some(recipients[made])
    } else {
        None
    }
}

/// Whether a broadcast makes these calls: each the next one after those
/// ahead of it, until there is none.
pub open spec fn whole_round<T>(recipients: Seq<T>, calls: Seq<T>) -> bool {
    &&& forall|k: int| 0 <= k < calls.len() ==> next_of(recipients, k) == Some(#[trigger] calls[k])
    &&& next_of(recipients, calls.len() as int) is None
}

/// Law: a broadcast calls every recipient once, in order.
pub proof fn law_round_calls_each_once<T>(recipients: Seq<T>, calls: Seq<T>)
    requires
        whole_round(recipients, calls),
    ensures
        calls == recipients,
{
    assert(calls.len() <= recipients.len()) by {
        if calls.len() > recipients.len() {
            assert(next_of(recipients, recipients.len() as int) == Some(
                calls[recipients.len() as int],
            ));
        }
    }
    assert(calls =~= recipients) by {
        assert forall|k: int| 0 <= k < calls.len() implies calls[k] == recipients[k] by {
            assert(next_of(recipients, k) == Some(calls[k]));
        }
    }
}

/// Law: once `b` has been added to recipients, there are some; a broadcast
/// calls those that were there in their order and then `b`, each once, and
/// `b` once more often than before where it was among them.
pub proof fn law_pushed_is_called_last<T>(b: T, members: Seq<T>, after: Seq<T>, calls: Seq<T>)
    requires
        follows(b, members, after),
        whole_round(after, calls),
    ensures
        after.len() > 0,
        calls == members.push(b),
        calls.to_multiset().count(b) == members.to_multiset().count(b) + 1,
{
    law_round_calls_each_once(after, calls);
    members.to_multiset_ensures();
}

} // verus!
