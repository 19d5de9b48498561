//! The index writer's state machine.
//!
//! One writer task owns the index writer. It hands every mutation that it
//! receives to [`WriterState::plan`], performs the returned operations on
//! the index, reports each outcome to [`WriterState::record`], and commits
//! when [`WriterState::commit_due`] or a plan says so. What is deleted,
//! dropped, acknowledged and broadcast is decided here.

use vstd::prelude::*;

use crate::model;
use crate::model::Document;
use crate::mutation::{MutationBatch, UpsertedDoc};
use crate::order;
use crate::text;

verus! {

/// Least time between two periodic commits.
pub const COMMIT_MIN_INTERVAL_MS: u64 = 3000;

/// How often the writer asks whether a commit is due.
pub const COMMIT_CHECK_INTERVAL_MS: u64 = 500;

/// Writer heap when callers do not pass an explicit budget.
pub const DEFAULT_WRITER_HEAP_BYTES: usize = 100_000_000;

/// A request to the index writer. Callers that wait for an answer are
/// identified by a ticket.
#[derive(Clone, Debug, PartialEq, Eq)]
pub enum Mutation {
    Upsert(Document),
    Delete(String),
    UpsertMany(Vec<Document>),
    DeleteMany(Vec<String>),
    /// Purge every document whose id equals the prefix or starts with the
    /// prefix and a slash.
    DeleteSubtree(String),
    DeleteSourceInstance { instance_id: String },
    /// Overwrite the body of an existing document. `expected_mtime` is the
    /// modification time that the text was read at.
    UpsertBody { doc_id: String, body: String, expected_mtime: Option<i64> },
    /// Answered with the generation once every prior mutation is committed.
    Barrier(u64),
    /// Answered once every prior mutation has been applied.
    Applied(u64),
    Shutdown,
    /// Force a commit now; answered with the resulting generation.
    CommitNow(u64),
}

/// An operation on the index writer.
#[derive(Clone, Debug, PartialEq, Eq)]
pub enum WriterOp {
    /// Replace the document with this id.
    Upsert(Document),
    /// Delete the document with this id.
    Delete(String),
    /// Delete every document of this source instance.
    DeleteSourceInstance(String),
}

/// What a mutation needs to read from the index before it can be planned.
#[derive(Clone, Copy, Debug, PartialEq, Eq, Structural)]
pub enum Fetch {
    Nothing,
    /// The ids of all committed documents.
    AllDocIds,
    /// The committed document that the mutation names.
    CommittedDoc,
}

/// What was read. A read that failed is `None`.
#[derive(Clone, Debug, PartialEq, Eq)]
pub enum Fetched {
    Nothing,
    AllDocIds(Option<Vec<String>>),
    CommittedDoc(Option<Document>),
}

/// An answer to a waiting caller.
#[derive(Clone, Copy, Debug, PartialEq, Eq, Structural)]
pub struct Reply {
    pub ticket: u64,
    /// The generation, where the caller waits for one.
    pub generation: Option<u64>,
}

/// What to do about one mutation.
#[derive(Clone, Debug, PartialEq, Eq)]
pub struct Step {
    pub ops: Vec<WriterOp>,
    pub replies: Vec<Reply>,
    /// Commit once the operations have been applied.
    pub commit: bool,
    /// Leave the main loop.
    pub stop: bool,
}

/// What a successful commit sets free.
#[derive(Clone, Debug, PartialEq, Eq)]
pub struct Committed {
    pub replies: Vec<Reply>,
    /// The batch to broadcast, unless it is empty.
    pub batch: Option<MutationBatch>,
}

/// The writer's state between two events.
#[derive(Clone, Debug, PartialEq, Eq)]
pub struct WriterState {
    /// Something has been applied since the last commit.
    pub dirty: bool,
    /// The channel is being drained ahead of the exit.
    pub draining: bool,
    /// Number of commits so far.
    pub generation: u64,
    pub last_commit_ms: u64,
    pub last_commit_latency_ms: u64,
    /// Callers that wait for the next commit.
    pub barriers: Vec<u64>,
    /// What has been applied since the last commit.
    pub batch: MutationBatch,
    /// Subtrees deleted since the last commit.
    pub tombstones: Vec<String>,
}

// ---------------------------------------------------------------------
// Subtrees
// ---------------------------------------------------------------------

/// Whether `id` is `prefix` or lies below it.
pub open spec fn in_subtree(id: Seq<char>, prefix: Seq<char>) -> bool {
    id == prefix || (prefix.is_prefix_of(id) && id.len() > prefix.len() && id[prefix.len() as int]
        == '/')
}

/// Whether `id` lies in a subtree that was deleted since the last commit.
pub open spec fn tombstoned(id: Seq<char>, tombstones: Seq<String>) -> bool {
    exists|k: int| 0 <= k < tombstones.len() && in_subtree(id, #[trigger] tombstones[k]@)
}

/// Whether `id` is among the texts of `ids`.
pub open spec fn lists(ids: Seq<String>, id: Seq<char>) -> bool {
    exists|k: int| 0 <= k < ids.len() && (#[trigger] ids[k])@ == id
}

/// Whether an upsert of `id` is staged.
pub open spec fn staged(upserts: Seq<UpsertedDoc>, id: Seq<char>) -> bool {
    exists|k: int| 0 <= k < upserts.len() && (#[trigger] upserts[k]).doc_id@ == id
}

/// `ids` lists, in ascending order and each once, the ids of the subtree
/// `prefix` that are committed or staged.
pub open spec fn subtree_listing(
    ids: Seq<String>,
    committed: Seq<String>,
    upserts: Seq<UpsertedDoc>,
    prefix: Seq<char>,
) -> bool {
    &&& forall|i: int, j: int|
        0 <= i < j < ids.len() ==> order::text_before(
            (#[trigger] ids[i])@,
            (#[trigger] ids[j])@,
        )
    &&& forall|id: Seq<char>| #[trigger]
        lists(ids, id) <==> in_subtree(id, prefix) && (lists(committed, id) || staged(upserts, id))
}

/// Whether `id` is `prefix` or lies below it.
pub fn id_in_subtree(id: &str, prefix: &str) -> (r: bool)
    ensures
        r == in_subtree(id@, prefix@),
{
    let a = text::to_chars(id);
    let p = text::to_chars(prefix);
    if text::chars_eq(&a, &p) {
        return true;
    }
    text::chars_start_with(&a, &p) && a.len() > p.len() && a[p.len()] == '/'
}

/// True when `id` falls under any subtree prefix deleted earlier in the
/// current uncommitted batch.
pub fn id_tombstoned(id: &str, tombstones: &Vec<String>) -> (r: bool)
    ensures
        r == tombstoned(id@, tombstones@),
{
    let mut k: usize = 0;
    while k < tombstones.len()
        invariant
            k <= tombstones@.len(),
            forall|j: int| 0 <= j < k ==> !in_subtree(id@, #[trigger] tombstones@[j]@),
        decreases tombstones@.len() - k,
    {
        if id_in_subtree(id, tombstones[k].as_str()) {
            proof {
                assert(in_subtree(id@, tombstones@[k as int]@));
            }
            return true;
        }
        k = k + 1;
    }
    false
}

/// Drops repeated texts from a list and orders it.
fn sort_dedup(found: Vec<String>) -> (out: Vec<String>)
    ensures
        forall|i: int, j: int|
            0 <= i < j < out@.len() ==> order::text_before(
                (#[trigger] out@[i])@,
                (#[trigger] out@[j])@,
            ),
        forall|id: Seq<char>| #[trigger] lists(out@, id) <==> lists(found@, id),
{
    let mut keys: Vec<Vec<u64>> = Vec::new();
    let mut i: usize = 0;
    while i < found.len()
        invariant
            i <= found@.len(),
            keys@.len() == i,
            forall|k: int| 0 <= k < i ==> (#[trigger] keys@[k])@ == order::text_key(found@[k]@),
        decreases found@.len() - i,
    {
        keys.push(order::key_of_text(&text::to_chars(found[i].as_str())));
        i = i + 1;
    }
    let p = order::stable_order(&keys);
    let ghost kv = order::key_views(keys@);
    let mut out: Vec<String> = Vec::new();
    let mut n: usize = 0;
    while n < p.len()
        invariant
            n <= p@.len(),
            p@.len() == found@.len(),
            keys@.len() == found@.len(),
            kv == order::key_views(keys@),
            order::sorts(kv, p@),
            forall|k: int|
                0 <= k < keys@.len() ==> (#[trigger] keys@[k])@ == order::text_key(found@[k]@),
            (n > 0) == (out@.len() > 0),
            n > 0 ==> out@.last()@ == found@[p@[n - 1] as int]@,
            forall|a: int, b: int|
                0 <= a < b < out@.len() ==> order::text_before(
                    (#[trigger] out@[a])@,
                    (#[trigger] out@[b])@,
                ),
            forall|k: int| 0 <= k < out@.len() ==> lists(found@, (#[trigger] out@[k])@),
            forall|k: int| 0 <= k < n ==> lists(out@, found@[#[trigger] p@[k] as int]@),
        decreases p@.len() - n,
    {
        let at: usize = p[n];
        let fresh = n == 0 || !text::text_eq(found[p[n - 1]].as_str(), found[at].as_str());
        let ghost before = out@;
        if fresh {
            proof {
                if n > 0 {
                    let a = p@[n - 1] as int;
                    let b = p@[n as int] as int;
                    assert(order::precedes(kv, a, b));
                    if kv[a] == kv[b] {
                        order::lemma_text_key_injective(found@[a]@, found@[b]@);
                        assert(false);
                    }
                    assert(order::text_before(found@[a]@, found@[b]@));
                    assert forall|k: int| 0 <= k < before.len() implies order::text_before(
                        (#[trigger] before[k])@,
                        found@[b]@,
                    ) by {
                        if k < before.len() - 1 {
                            order::lemma_lex_transitive(
                                order::text_key(before[k]@),
                                order::text_key(found@[a]@),
                                order::text_key(found@[b]@),
                            );
                        }
                    }
                }
            }
            out.push(found[at].clone());
            proof {
                assert(out@.last()@ == found@[at as int]@);
                assert(out@[before.len() as int]@ == found@[at as int]@);
                assert forall|k: int| 0 <= k < n implies lists(
                    out@,
                    found@[#[trigger] p@[k] as int]@,
                ) by {
                    let w = choose|w: int|
                        0 <= w < before.len() && (#[trigger] before[w])@ == found@[p@[k] as int]@;
                    assert(out@[w]@ == found@[p@[k] as int]@);
                }
            }
        } else {
            proof {
                assert(out@[out@.len() - 1]@ == found@[at as int]@);
            }
        }
        n = n + 1;
    }
    proof {
        assert forall|id: Seq<char>| #[trigger] lists(out@, id) <==> lists(found@, id) by {
            if lists(out@, id) {
                let k = choose|k: int| 0 <= k < out@.len() && (#[trigger] out@[k])@ == id;
                assert(lists(found@, out@[k]@));
            }
            if lists(found@, id) {
                let k = choose|k: int| 0 <= k < found@.len() && (#[trigger] found@[k])@ == id;
                assert(p@.contains(k as usize));
                let w = choose|w: int| 0 <= w < p@.len() && p@[w] == k as usize;
                assert(lists(out@, found@[p@[w] as int]@));
            }
        }
    }
    out
}

/// The ids that a subtree deletion purges: those of `committed` and those
/// staged, ascending and each once.
pub fn collect_subtree_ids(
    committed: &Vec<String>,
    upserts: &Vec<UpsertedDoc>,
    prefix: &str,
) -> (out: Vec<String>)
    ensures
        subtree_listing(out@, committed@, upserts@, prefix@),
{
    let mut found: Vec<String> = Vec::new();
    let mut i: usize = 0;
    while i < committed.len()
        invariant
            i <= committed@.len(),
            forall|k: int|
                0 <= k < found@.len() ==> in_subtree((#[trigger] found@[k])@, prefix@) && lists(
                    committed@,
                    found@[k]@,
                ),
            forall|k: int|
                0 <= k < i && in_subtree((#[trigger] committed@[k])@, prefix@) ==> lists(
                    found@,
                    committed@[k]@,
                ),
        decreases committed@.len() - i,
    {
        let ghost before = found@;
        if id_in_subtree(committed[i].as_str(), prefix) {
            found.push(committed[i].clone());
        }
        proof {
            assert forall|k: int|
                0 <= k < i + 1 && in_subtree(
                    (#[trigger] committed@[k])@,
                    prefix@,
                ) implies lists(found@, committed@[k]@) by {
                if k < i {
                    let w = choose|w: int|
                        0 <= w < before.len() && (#[trigger] before[w])@ == committed@[k]@;
                    assert(found@[w]@ == committed@[k]@);
                } else {
                    assert(found@[before.len() as int]@ == committed@[k]@);
                }
            }
        }
        i = i + 1;
    }
    let mut j: usize = 0;
    while j < upserts.len()
        invariant
            j <= upserts@.len(),
            forall|k: int|
                0 <= k < found@.len() ==> in_subtree((#[trigger] found@[k])@, prefix@) && (lists(
                    committed@,
                    found@[k]@,
                ) || staged(upserts@, found@[k]@)),
            forall|k: int|
                0 <= k < committed@.len() && in_subtree(
                    (#[trigger] committed@[k])@,
                    prefix@,
                ) ==> lists(found@, committed@[k]@),
            forall|k: int|
                0 <= k < j && in_subtree((#[trigger] upserts@[k]).doc_id@, prefix@) ==> lists(
                    found@,
                    upserts@[k].doc_id@,
                ),
        decreases upserts@.len() - j,
    {
        let ghost before = found@;
        if id_in_subtree(upserts[j].doc_id.as_str(), prefix) {
            found.push(upserts[j].doc_id.clone());
        }
        proof {
            assert forall|k: int|
                0 <= k < committed@.len() && in_subtree(
                    (#[trigger] committed@[k])@,
                    prefix@,
                ) implies lists(found@, committed@[k]@) by {
                let w = choose|w: int|
                    0 <= w < before.len() && (#[trigger] before[w])@ == committed@[k]@;
                assert(found@[w]@ == committed@[k]@);
            }
            assert forall|k: int|
                0 <= k < j + 1 && in_subtree(
                    (#[trigger] upserts@[k]).doc_id@,
                    prefix@,
                ) implies lists(found@, upserts@[k].doc_id@) by {
                if k < j {
                    let w = choose|w: int|
                        0 <= w < before.len() && (#[trigger] before[w])@ == upserts@[k].doc_id@;
                    assert(found@[w]@ == upserts@[k].doc_id@);
                } else {
                    assert(found@[before.len() as int]@ == upserts@[k].doc_id@);
                }
            }
        }
        j = j + 1;
    }
    proof {
        assert forall|id: Seq<char>| #[trigger]
            lists(found@, id) <==> in_subtree(id, prefix@) && (lists(committed@, id) || staged(
                upserts@,
                id,
            )) by {
            if lists(found@, id) {
                let k = choose|k: int| 0 <= k < found@.len() && (#[trigger] found@[k])@ == id;
            }
            if in_subtree(id, prefix@) && lists(committed@, id) {
                let k = choose|k: int|
                    0 <= k < committed@.len() && (#[trigger] committed@[k])@ == id;
                assert(lists(found@, committed@[k]@));
            }
            if in_subtree(id, prefix@) && staged(upserts@, id) {
                let k = choose|k: int|
                    0 <= k < upserts@.len() && (#[trigger] upserts@[k]).doc_id@ == id;
                assert(lists(found@, upserts@[k].doc_id@));
            }
        }
    }
    let ghost all = found@;
    let out = sort_dedup(found);
    proof {
        assert forall|id: Seq<char>| #[trigger]
            lists(out@, id) <==> in_subtree(id, prefix@) && (lists(committed@, id) || staged(
                upserts@,
                id,
            )) by {
            assert(lists(out@, id) <==> lists(all, id));
        }
    }
    out
}

// ---------------------------------------------------------------------
// The state machine
// ---------------------------------------------------------------------

/// What a broadcast says of an upserted document.
pub open spec fn upserted_of(doc: Document) -> UpsertedDoc {
    UpsertedDoc {
        doc_id: doc.id.0,
        source_instance: doc.source_instance,
        mtime: doc.mtime,
        mime: doc.mime,
        body: doc.body,
    }
}

/// The upserts of `docs`, without those that fall under a tombstone.
pub open spec fn surviving(docs: Seq<Document>, tombstones: Seq<String>) -> Seq<WriterOp>
    decreases docs.len(),
{
    if docs.len() == 0 {
        Seq::empty()
    } else {
        let before = surviving(docs.drop_last(), tombstones);
        if tombstoned(docs.last().id.0@, tombstones) {
            before
        } else {
            before.push(WriterOp::Upsert(docs.last()))
        }
    }
}

/// One deletion per id.
pub open spec fn deletions(ids: Seq<String>) -> Seq<WriterOp> {
    Seq::new(ids.len(), |i: int| WriterOp::Delete(ids[i]))
}

/// The staged upserts outside the subtree `prefix`.
pub open spec fn outside(upserts: Seq<UpsertedDoc>, prefix: Seq<char>) -> Seq<UpsertedDoc>
    decreases upserts.len(),
{
    if upserts.len() == 0 {
        Seq::empty()
    } else {
        let before = outside(upserts.drop_last(), prefix);
        if in_subtree(upserts.last().doc_id@, prefix) {
            before
        } else {
            before.push(upserts.last())
        }
    }
}

/// Whether a text that was read at `expected` may become the body of `doc`:
/// neither the committed copy nor a staged one is newer.
pub open spec fn body_fresh(
    doc: Document,
    upserts: Seq<UpsertedDoc>,
    doc_id: Seq<char>,
    expected: Option<i64>,
) -> bool {
    match expected {
        None => true,
        Some(e) => doc.mtime <= e && forall|k: int|
            0 <= k < upserts.len() && (#[trigger] upserts[k]).doc_id@ == doc_id ==> upserts[k].mtime
                <= e,
    }
}

/// The tombstones after a deletion of the subtree `prefix`.
pub open spec fn with_tombstone(tombstones: Seq<String>, prefix: String) -> Seq<String> {
    if lists(tombstones, prefix@) {
        tombstones
    } else {
        tombstones.push(prefix)
    }
}

/// The answers that a commit with this generation gives to `barriers`.
pub open spec fn acknowledged(barriers: Seq<u64>, generation: u64) -> Seq<Reply> {
    Seq::new(barriers.len(), |i: int| Reply { ticket: barriers[i], generation: Some(generation) })
}

/// A step that does nothing.
pub open spec fn idle_step(step: Step) -> bool {
    step.ops@.len() == 0 && step.replies@.len() == 0 && !step.commit && !step.stop
}

/// A step that only applies `ops`.
pub open spec fn applies(step: Step, ops: Seq<WriterOp>) -> bool {
    step.ops@ == ops && step.replies@.len() == 0 && !step.commit && !step.stop
}

/// A step that only answers `replies`.
pub open spec fn answers(step: Step, replies: Seq<Reply>) -> bool {
    step.ops@.len() == 0 && step.replies@ == replies && !step.commit && !step.stop
}

/// Whether two states agree in all but `dirty`, the barriers, the staged
/// upserts and the tombstones.
pub open spec fn same_rest(a: WriterState, b: WriterState) -> bool {
    a.draining == b.draining && a.generation == b.generation && a.last_commit_ms
        == b.last_commit_ms && a.last_commit_latency_ms == b.last_commit_latency_ms
        && a.batch.deletes == b.batch.deletes && a.batch.generation == b.batch.generation
}

/// Whether two states agree in all but `dirty` and the barriers.
pub open spec fn same_batch(a: WriterState, b: WriterState) -> bool {
    same_rest(a, b) && a.batch.upserts@ == b.batch.upserts@ && a.tombstones@ == b.tombstones@
}

/// What planning `m` does to the state and asks for.
pub open spec fn planned(
    before: WriterState,
    m: Mutation,
    fetched: Fetched,
    after: WriterState,
    step: Step,
) -> bool {
    match m {
        Mutation::Upsert(doc) => {
            &&& applies(step, surviving(seq![doc], before.tombstones@))
            &&& same_batch(before, after)
            &&& after.barriers@ == before.barriers@
            &&& after.dirty == (before.dirty || before.draining)
        },
        Mutation::UpsertMany(docs) => {
            &&& applies(step, surviving(docs@, before.tombstones@))
            &&& same_batch(before, after)
            &&& after.barriers@ == before.barriers@
            &&& after.dirty == (before.dirty || (before.draining && docs@.len() > 0))
        },
        Mutation::Delete(id) => {
            &&& applies(step, seq![WriterOp::Delete(id)])
            &&& same_batch(before, after)
            &&& after.barriers@ == before.barriers@
            &&& after.dirty == before.dirty
        },
        Mutation::DeleteMany(ids) => {
            &&& applies(step, deletions(ids@))
            &&& same_batch(before, after)
            &&& after.barriers@ == before.barriers@
            &&& after.dirty == before.dirty
        },
        Mutation::DeleteSubtree(prefix) => {
            &&& exists|ids: Seq<String>| #[trigger]
                applies(step, deletions(ids)) && subtree_listing(
                    ids,
                    committed_ids(fetched),
                    before.batch.upserts@,
                    prefix@,
                )
            &&& same_rest(before, after)
            &&& after.batch.upserts@ == outside(before.batch.upserts@, prefix@)
            &&& after.tombstones@ == with_tombstone(before.tombstones@, prefix)
            &&& after.barriers@ == before.barriers@
            &&& after.dirty == before.dirty
        },
        Mutation::DeleteSourceInstance { instance_id } => {
            &&& applies(step, seq![WriterOp::DeleteSourceInstance(instance_id)])
            &&& same_batch(before, after)
            &&& after.barriers@ == before.barriers@
            &&& after.dirty == before.dirty
        },
        Mutation::UpsertBody { doc_id, body, expected_mtime } => {
            &&& same_batch(before, after)
            &&& after.barriers@ == before.barriers@
            &&& after.dirty == before.dirty
            &&& match committed_doc(fetched) {
                Some(doc) => if !tombstoned(doc_id@, before.tombstones@) && body_fresh(
                    doc,
                    before.batch.upserts@,
                    doc_id@,
                    expected_mtime,
                ) {
                    applies(step, seq![WriterOp::Upsert(Document { body: Some(body), ..doc })])
                } else {
                    idle_step(step)
                },
                None => idle_step(step),
            }
        },
        Mutation::Barrier(ticket) => {
            &&& same_batch(before, after)
            &&& after.dirty == before.dirty
            &&& if !before.dirty && !before.draining {
                answers(step, seq![Reply { ticket, generation: Some(before.generation) }])
                    && after.barriers@ == before.barriers@
            } else {
                idle_step(step) && after.barriers@ == before.barriers@.push(ticket)
            }
        },
        Mutation::Applied(ticket) => {
            &&& same_batch(before, after)
            &&& after.dirty == before.dirty
            &&& after.barriers@ == before.barriers@
            &&& answers(step, seq![Reply { ticket, generation: None }])
        },
        Mutation::Shutdown => {
            &&& same_batch(before, after)
            &&& after.dirty == before.dirty
            &&& after.barriers@ == before.barriers@
            &&& step.ops@.len() == 0 && step.replies@.len() == 0 && !step.commit
            &&& step.stop == !before.draining
        },
        Mutation::CommitNow(ticket) => {
            &&& same_batch(before, after)
            &&& after.dirty == before.dirty
            &&& after.barriers@ == before.barriers@.push(ticket)
            &&& step.ops@.len() == 0 && step.replies@.len() == 0 && !step.stop
            &&& step.commit == !before.draining
        },
    }
}

/// What taking note of an operation's outcome does to the state.
pub open spec fn recorded(before: WriterState, op: WriterOp, ok: bool, after: WriterState) -> bool {
    &&& after.draining == before.draining
    &&& after.generation == before.generation
    &&& after.last_commit_ms == before.last_commit_ms
    &&& after.last_commit_latency_ms == before.last_commit_latency_ms
    &&& after.barriers == before.barriers
    &&& after.tombstones == before.tombstones
    &&& after.batch.generation == before.batch.generation
    &&& after.batch.upserts@ == (match op {
        WriterOp::Upsert(doc) => if ok {
            before.batch.upserts@.push(upserted_of(doc))
        } else {
            before.batch.upserts@
        },
        _ => before.batch.upserts@,
    })
    &&& after.batch.deletes@ == (match op {
        WriterOp::Delete(id) => if ok {
            before.batch.deletes@.push(id)
        } else {
            before.batch.deletes@
        },
        _ => before.batch.deletes@,
    })
    &&& after.dirty == (before.dirty || ok || (before.draining && !(op is Upsert)))
}

/// Whether `sent` is what goes out of a batch with these upserts and
/// deletions: the batch, stamped with the generation, unless it is empty.
pub open spec fn sends(
    sent: Option<MutationBatch>,
    upserts: Seq<UpsertedDoc>,
    deletes: Seq<String>,
    generation: u64,
) -> bool {
    match sent {
        None => upserts.len() == 0 && deletes.len() == 0,
        Some(b) => {
            &&& upserts.len() > 0 || deletes.len() > 0
            &&& b.upserts@ == upserts
            &&& b.deletes@ == deletes
            &&& b.generation == generation
        },
    }
}

/// Whether nothing is staged.
pub open spec fn nothing_staged(state: WriterState) -> bool {
    state.batch.upserts@.len() == 0 && state.batch.deletes@.len() == 0
}

/// What a successful commit does to the state and sets free.
pub open spec fn commit_noted(
    before: WriterState,
    now_ms: u64,
    latency_ms: u64,
    after: WriterState,
    r: Committed,
) -> bool {
    &&& after.generation == before.generation + 1
    &&& !after.dirty
    &&& after.draining == before.draining
    &&& after.last_commit_ms == now_ms
    &&& after.last_commit_latency_ms == latency_ms
    &&& after.tombstones@.len() == 0
    &&& after.barriers@.len() == 0
    &&& nothing_staged(after)
    &&& r.replies@ == acknowledged(before.barriers@, after.generation)
    &&& sends(r.batch, before.batch.upserts@, before.batch.deletes@, after.generation)
    &&& r.batch is None ==> after.batch == before.batch
}

/// What the start of the drain does to the state.
pub open spec fn drain_begun(before: WriterState, after: WriterState) -> bool {
    &&& after.draining
    &&& after.dirty == before.dirty
    &&& after.generation == before.generation
    &&& after.last_commit_ms == before.last_commit_ms
    &&& after.last_commit_latency_ms == before.last_commit_latency_ms
    &&& after.barriers == before.barriers
    &&& after.batch == before.batch
    &&& after.tombstones == before.tombstones
}

/// What the end of the drain does to the state and sets free.
pub open spec fn finished(
    before: WriterState,
    now_ms: u64,
    latency_ms: u64,
    commit_ok: bool,
    after: WriterState,
    r: Committed,
) -> bool {
    if before.dirty && commit_ok {
        commit_noted(before, now_ms, latency_ms, after, r)
    } else {
        &&& after.generation == before.generation
        &&& after.dirty == before.dirty
        &&& after.draining == before.draining
        &&& after.last_commit_ms == before.last_commit_ms
        &&& after.last_commit_latency_ms == before.last_commit_latency_ms
        &&& after.tombstones == before.tombstones
        &&& after.barriers@.len() == 0
        &&& r.replies@ == acknowledged(before.barriers@, after.generation)
        &&& if before.dirty {
            &&& nothing_staged(after)
            &&& sends(r.batch, before.batch.upserts@, before.batch.deletes@, after.generation)
        } else {
            &&& r.batch is None
            &&& after.batch == before.batch
        }
    }
}

/// The committed ids that were read; none where the read failed.
pub open spec fn committed_ids(fetched: Fetched) -> Seq<String> {
    match fetched {
        Fetched::AllDocIds(Some(ids)) => ids@,
        _ => Seq::empty(),
    }
}

/// The committed document that was read, if any.
pub open spec fn committed_doc(fetched: Fetched) -> Option<Document> {
    match fetched {
        Fetched::CommittedDoc(Some(doc)) => Some(doc),
        _ => None,
    }
}

fn upserted_doc_from(doc: &Document) -> (r: UpsertedDoc)
    ensures
        r == upserted_of(*doc),
{
    UpsertedDoc {
        doc_id: doc.id.0.clone(),
        source_instance: doc.source_instance.clone(),
        mtime: doc.mtime,
        mime: model::clone_opt(&doc.mime),
        body: model::clone_opt(&doc.body),
    }
}

fn no_ops() -> (r: Step)
    ensures
        idle_step(r),
{
    Step { ops: Vec::new(), replies: Vec::new(), commit: false, stop: false }
}

fn one_op(op: WriterOp) -> (r: Step)
    ensures
        applies(r, seq![op]),
{
    let mut ops: Vec<WriterOp> = Vec::new();
    ops.push(op);
    Step { ops, replies: Vec::new(), commit: false, stop: false }
}

fn one_reply(reply: Reply) -> (r: Step)
    ensures
        answers(r, seq![reply]),
{
    let mut replies: Vec<Reply> = Vec::new();
    replies.push(reply);
    Step { ops: Vec::new(), replies, commit: false, stop: false }
}

fn delete_ops(ids: Vec<String>) -> (ops: Vec<WriterOp>)
    ensures
        ops@ == deletions(ids@),
{
    let ghost all = ids@;
    let mut ops: Vec<WriterOp> = Vec::new();
    for id in it: ids.into_iter()
        invariant
            it.seq() == all,
            ops@.len() == it.index(),
            forall|k: int| 0 <= k < ops@.len() ==> ops@[k] == WriterOp::Delete(all[k]),
    {
        ops.push(WriterOp::Delete(id));
    }
    proof {
        assert(ops@ =~= deletions(all));
    }
    ops
}

impl WriterState {
    /// The state of a writer that starts at the time `now_ms`.
    pub fn new(now_ms: u64) -> (r: WriterState)
        ensures
            !r.dirty,
            !r.draining,
            r.generation == 0,
            r.last_commit_ms == now_ms,
            r.last_commit_latency_ms == 0,
            r.barriers@.len() == 0,
            r.batch.upserts@.len() == 0,
            r.batch.deletes@.len() == 0,
            r.batch.generation == 0,
            r.tombstones@.len() == 0,
    {
        WriterState {
            dirty: false,
            draining: false,
            generation: 0,
            last_commit_ms: now_ms,
            last_commit_latency_ms: 0,
            barriers: Vec::new(),
            batch: MutationBatch::default(),
            tombstones: Vec::new(),
        }
    }

    /// What has to be read from the index ahead of planning `m`.
    pub fn fetch(&self, m: &Mutation) -> (r: Fetch)
        ensures
            r == match *m {
                Mutation::DeleteSubtree(_) => Fetch::AllDocIds,
                Mutation::UpsertBody { doc_id, .. } => if tombstoned(doc_id@, self.tombstones@) {
                    Fetch::Nothing
                } else {
                    Fetch::CommittedDoc
                },
                _ => Fetch::Nothing,
            },
    {
        match m {
            Mutation::DeleteSubtree(_) => Fetch::AllDocIds,
            Mutation::UpsertBody { doc_id, .. } => {
                if id_tombstoned(doc_id.as_str(), &self.tombstones) {
                    Fetch::Nothing
                } else {
                    Fetch::CommittedDoc
                }
            },
            _ => Fetch::Nothing,
        }
    }

    fn upsert_ops(&self, docs: Vec<Document>) -> (ops: Vec<WriterOp>)
        ensures
            ops@ == surviving(docs@, self.tombstones@),
    {
        let ghost all = docs@;
        let mut ops: Vec<WriterOp> = Vec::new();
        for doc in it: docs.into_iter()
            invariant
                it.seq() == all,
                ops@ == surviving(all.take(it.index() as int), self.tombstones@),
        {
            proof {
                let next = all.take(it.index() + 1);
                assert(next.drop_last() =~= all.take(it.index() as int));
                assert(next.last() == doc);
            }
            if !id_tombstoned(doc.id.0.as_str(), &self.tombstones) {
                ops.push(WriterOp::Upsert(doc));
            }
        }
        proof {
            assert(all.take(all.len() as int) =~= all);
        }
        ops
    }

    /// Drops the staged upserts of a subtree.
    fn unstage(&mut self, prefix: &str)
        ensures
            same_rest(*old(self), *final(self)),
            final(self).dirty == old(self).dirty,
            final(self).barriers == old(self).barriers,
            final(self).tombstones == old(self).tombstones,
            final(self).batch.upserts@ == outside(old(self).batch.upserts@, prefix@),
    {
        let mut upserts: Vec<UpsertedDoc> = Vec::new();
        std::mem::swap(&mut upserts, &mut self.batch.upserts);
        let ghost all = upserts@;
        let mut kept: Vec<UpsertedDoc> = Vec::new();
        for u in it: upserts.into_iter()
            invariant
                it.seq() == all,
                kept@ == outside(all.take(it.index() as int), prefix@),
        {
            proof {
                let next = all.take(it.index() + 1);
                assert(next.drop_last() =~= all.take(it.index() as int));
                assert(next.last() == u);
            }
            if !id_in_subtree(u.doc_id.as_str(), prefix) {
                kept.push(u);
            }
        }
        proof {
            assert(all.take(all.len() as int) =~= all);
        }
        self.batch.upserts = kept;
    }

    /// Whether no copy of the document is newer than the snapshot that the
    /// text was read from.
    fn fresh(&self, doc: &Document, doc_id: &str, expected: Option<i64>) -> (r: bool)
        ensures
            r == body_fresh(*doc, self.batch.upserts@, doc_id@, expected),
    {
        match expected {
            None => true,
            Some(e) => {
                if doc.mtime > e {
                    return false;
                }
                let mut k: usize = 0;
                while k < self.batch.upserts.len()
                    invariant
                        k <= self.batch.upserts@.len(),
                        expected == Some(e),
                        doc.mtime <= e,
                        forall|j: int|
                            0 <= j < k && (#[trigger] self.batch.upserts@[j]).doc_id@ == doc_id@
                                ==> self.batch.upserts@[j].mtime <= e,
                    decreases self.batch.upserts@.len() - k,
                {
                    if text::text_eq(self.batch.upserts[k].doc_id.as_str(), doc_id)
                        && self.batch.upserts[k].mtime > e {
                        proof {
                            assert(self.batch.upserts@[k as int].doc_id@ == doc_id@);
                        }
                        return false;
                    }
                    k = k + 1;
                }
                true
            },
        }
    }

    fn entomb(&mut self, prefix: String)
        ensures
            same_rest(*old(self), *final(self)),
            final(self).dirty == old(self).dirty,
            final(self).barriers == old(self).barriers,
            final(self).batch == old(self).batch,
            final(self).tombstones@ == with_tombstone(old(self).tombstones@, prefix),
    {
        let mut k: usize = 0;
        while k < self.tombstones.len()
            invariant
                k <= self.tombstones@.len(),
                *self == *old(self),
                forall|j: int| 0 <= j < k ==> (#[trigger] self.tombstones@[j])@ != prefix@,
            decreases self.tombstones@.len() - k,
        {
            if text::text_eq(self.tombstones[k].as_str(), prefix.as_str()) {
                proof {
                    assert(self.tombstones@[k as int]@ == prefix@);
                }
                return ;
            }
            k = k + 1;
        }
        self.tombstones.push(prefix);
    }

    /// Decides what a mutation does.
    ///
    /// An upsert under a subtree that was deleted since the last commit is
    /// dropped. A subtree deletion purges committed and staged ids alike. A
    /// body is injected only where no copy of the document is newer than
    /// the snapshot. A barrier is answered at once where nothing is
    /// pending. While draining, every waiting caller waits for the exit.
    pub fn plan(&mut self, m: Mutation, fetched: Fetched) -> (step: Step)
        ensures
            planned(*old(self), m, fetched, *final(self), step),
    {
        match m {
            Mutation::Upsert(doc) => {
                let ghost d = doc;
                let mut docs: Vec<Document> = Vec::new();
                docs.push(doc);
                proof {
                    assert(docs@ =~= seq![d]);
                }
                let ops = self.upsert_ops(docs);
                if self.draining {
                    self.dirty = true;
                }
                Step { ops, replies: Vec::new(), commit: false, stop: false }
            },
            Mutation::UpsertMany(docs) => {
                let some = docs.len() > 0;
                let ops = self.upsert_ops(docs);
                if self.draining && some {
                    self.dirty = true;
                }
                Step { ops, replies: Vec::new(), commit: false, stop: false }
            },
            Mutation::Delete(id) => one_op(WriterOp::Delete(id)),
            Mutation::DeleteMany(ids) => Step {
                ops: delete_ops(ids),
                replies: Vec::new(),
                commit: false,
                stop: false,
            },
            Mutation::DeleteSubtree(prefix) => {
                let committed: Vec<String> = match fetched {
                    Fetched::AllDocIds(Some(ids)) => ids,
                    _ => Vec::new(),
                };
                proof {
                    assert(committed@ =~= committed_ids(fetched));
                }
                let ids = collect_subtree_ids(&committed, &self.batch.upserts, prefix.as_str());
                let ghost listed = ids@;
                self.unstage(prefix.as_str());
                self.entomb(prefix);
                let step = Step {
                    ops: delete_ops(ids),
                    replies: Vec::new(),
                    commit: false,
                    stop: false,
                };
                proof {
                    assert(applies(step, deletions(listed)));
                }
                step
            },
            Mutation::DeleteSourceInstance { instance_id } => one_op(
                WriterOp::DeleteSourceInstance(instance_id),
            ),
            Mutation::UpsertBody { doc_id, body, expected_mtime } => {
                match fetched {
                    Fetched::CommittedDoc(Some(doc)) => {
                        if !id_tombstoned(doc_id.as_str(), &self.tombstones) && self.fresh(
                            &doc,
                            doc_id.as_str(),
                            expected_mtime,
                        ) {
                            one_op(WriterOp::Upsert(Document { body: Some(body), ..doc }))
                        } else {
                            no_ops()
                        }
                    },
                    _ => no_ops(),
                }
            },
            Mutation::Barrier(ticket) => {
                if !self.dirty && !self.draining {
                    one_reply(Reply { ticket, generation: Some(self.generation) })
                } else {
                    self.barriers.push(ticket);
                    no_ops()
                }
            },
            Mutation::Applied(ticket) => one_reply(Reply { ticket, generation: None }),
            Mutation::Shutdown => Step {
                ops: Vec::new(),
                replies: Vec::new(),
                commit: false,
                stop: !self.draining,
            },
            Mutation::CommitNow(ticket) => {
                self.barriers.push(ticket);
                Step {
                    ops: Vec::new(),
                    replies: Vec::new(),
                    commit: !self.draining,
                    stop: false,
                }
            },
        }
    }

    /// Takes note of an operation's outcome. What was applied joins the
    /// batch and makes the state dirty; while draining, a failed deletion
    /// makes it dirty too.
    pub fn record(&mut self, op: WriterOp, ok: bool)
        ensures
            recorded(*old(self), op, ok, *final(self)),
    {
        match op {
            WriterOp::Upsert(doc) => {
                if ok {
                    let u = upserted_doc_from(&doc);
                    self.batch.upserts.push(u);
                    self.dirty = true;
                }
            },
            WriterOp::Delete(id) => {
                if ok {
                    self.batch.deletes.push(id);
                }
                if ok || self.draining {
                    self.dirty = true;
                }
            },
            WriterOp::DeleteSourceInstance(_) => {
                if ok || self.draining {
                    self.dirty = true;
                }
            },
        }
    }

    /// Whether the periodic check at `now_ms` has to commit.
    pub fn commit_due(&self, now_ms: u64) -> (r: bool)
        ensures
            r == (self.dirty && now_ms - self.last_commit_ms >= COMMIT_MIN_INTERVAL_MS),
    {
        self.dirty && now_ms >= self.last_commit_ms && now_ms - self.last_commit_ms
            >= COMMIT_MIN_INTERVAL_MS
    }

    /// Hands out the batch for broadcast, stamped with the generation,
    /// unless it is empty.
    pub fn flush(&mut self) -> (r: Option<MutationBatch>)
        ensures
            final(self).dirty == old(self).dirty,
            final(self).draining == old(self).draining,
            final(self).generation == old(self).generation,
            final(self).last_commit_ms == old(self).last_commit_ms,
            final(self).last_commit_latency_ms == old(self).last_commit_latency_ms,
            final(self).barriers == old(self).barriers,
            final(self).tombstones == old(self).tombstones,
            final(self).batch.upserts@.len() == 0,
            final(self).batch.deletes@.len() == 0,
            match r {
                None => old(self).batch.upserts@.len() == 0 && old(self).batch.deletes@.len() == 0
                    && final(self).batch == old(self).batch,
                Some(b) => {
                    &&& old(self).batch.upserts@.len() > 0 || old(self).batch.deletes@.len() > 0
                    &&& b.upserts == old(self).batch.upserts
                    &&& b.deletes == old(self).batch.deletes
                    &&& b.generation == old(self).generation
                    &&& final(self).batch.generation == 0
                },
            },
    {
        if self.batch.is_empty() {
            return None;
        }
        let mut out = MutationBatch::default();
        std::mem::swap(&mut out, &mut self.batch);
        out.generation = self.generation;
        Some(out)
    }

    /// Answers every caller that waits for a commit with the current
    /// generation.
    pub fn release_barriers(&mut self) -> (r: Vec<Reply>)
        ensures
            r@ == acknowledged(old(self).barriers@, old(self).generation),
            final(self).barriers@.len() == 0,
            final(self).dirty == old(self).dirty,
            final(self).draining == old(self).draining,
            final(self).generation == old(self).generation,
            final(self).last_commit_ms == old(self).last_commit_ms,
            final(self).last_commit_latency_ms == old(self).last_commit_latency_ms,
            final(self).batch == old(self).batch,
            final(self).tombstones == old(self).tombstones,
    {
        let mut barriers: Vec<u64> = Vec::new();
        std::mem::swap(&mut barriers, &mut self.barriers);
        let mut out: Vec<Reply> = Vec::new();
        let mut i: usize = 0;
        while i < barriers.len()
            invariant
                i <= barriers@.len(),
                out@.len() == i,
                forall|k: int|
                    0 <= k < i ==> out@[k] == (Reply {
                        ticket: barriers@[k],
                        generation: Some(self.generation),
                    }),
            decreases barriers@.len() - i,
        {
            out.push(Reply { ticket: barriers[i], generation: Some(self.generation) });
            i = i + 1;
        }
        proof {
            assert(out@ =~= acknowledged(barriers@, self.generation));
        }
        out
    }

    /// Takes note of a commit that succeeded and whose result searches can
    /// see. The tombstones have done their work; every waiting caller is
    /// answered with the new generation; the batch goes out.
    pub fn committed(&mut self, now_ms: u64, latency_ms: u64) -> (r: Committed)
        requires
            old(self).generation < u64::MAX,
        ensures
            commit_noted(*old(self), now_ms, latency_ms, *final(self), r),
    {
        self.generation = self.generation + 1;
        self.dirty = false;
        self.last_commit_ms = now_ms;
        self.last_commit_latency_ms = latency_ms;
        self.tombstones = Vec::new();
        let replies = self.release_barriers();
        let batch = self.flush();
        Committed { replies, batch }
    }

    /// Leaves the main loop: from here on the channel is drained.
    pub fn begin_drain(&mut self)
        ensures
            drain_begun(*old(self), *final(self)),
    {
        self.draining = true;
    }

    /// Ends the drain. `commit_ok` is the outcome of the last commit, which
    /// is due only where the state is dirty. The batch goes out even where
    /// that commit failed, and every waiting caller is answered.
    pub fn finish(&mut self, now_ms: u64, latency_ms: u64, commit_ok: bool) -> (r: Committed)
        requires
            old(self).generation < u64::MAX,
        ensures
            finished(*old(self), now_ms, latency_ms, commit_ok, *final(self), r),
    {
        if self.dirty && commit_ok {
            return self.committed(now_ms, latency_ms);
        }
        let batch = if self.dirty {
            self.flush()
        } else {
            None
        };
        let replies = self.release_barriers();
        Committed { replies, batch }
    }
}

/// Commits so far, the latency of the last one in milliseconds, and the
/// generation.
pub fn stats(state: &WriterState) -> (r: (u64, u64, u64))
    ensures
        r == (state.generation, state.last_commit_latency_ms, state.generation),
{
    (state.generation, state.last_commit_latency_ms, state.generation)
}

/// How post-commit broadcasts have ended.
#[derive(Clone, Copy, Debug, PartialEq, Eq, Structural)]
pub struct BroadcastLog {
    /// Broadcasts whose task did not complete cleanly.
    pub failed: u64,
}

impl BroadcastLog {
    /// A log without entries.
    pub fn new() -> (r: BroadcastLog)
        ensures
            r.failed == 0,
    {
        BroadcastLog { failed: 0 }
    }

    /// Takes note of a broadcast's end. The count wraps around.
    pub fn record(&mut self, clean: bool)
        ensures
            final(self).failed == (if clean {
                old(self).failed
            } else {
                old(self).failed.wrapping_add(1)
            }),
    {
        if !clean {
            self.failed = self.failed.wrapping_add(1);
        }
    }
}

/// Count of post-commit mutation broadcasts whose task did not complete
/// cleanly. Not part of [`stats`], whose shape is a wire type.
pub fn broadcast_failures(log: &BroadcastLog) -> (r: u64)
    ensures
        r == log.failed,
{
    log.failed
}

// ---------------------------------------------------------------------
// Laws
// ---------------------------------------------------------------------

/// The documents of an index by id, after one more operation.
pub open spec fn after_op(docs: Map<Seq<char>, Document>, op: WriterOp) -> Map<
    Seq<char>,
    Document,
> {
    match op {
        WriterOp::Upsert(doc) => docs.insert(doc.id.0@, doc),
        WriterOp::Delete(id) => docs.remove(id@),
        WriterOp::DeleteSourceInstance(instance) => Map::new(
            |id: Seq<char>|
                docs.contains_key(id) && docs[id].source_instance@ != instance@,
            |id: Seq<char>| docs[id],
        ),
    }
}

/// The documents of an index by id, after `ops` in order.
pub open spec fn after_ops(docs: Map<Seq<char>, Document>, ops: Seq<WriterOp>) -> Map<
    Seq<char>,
    Document,
>
    decreases ops.len(),
{
    if ops.len() == 0 {
        docs
    } else {
        after_op(after_ops(docs, ops.drop_last()), ops.last())
    }
}

/// Every document that the next commit will show is committed already or
/// staged in the batch.
pub open spec fn accounted(
    committed: Set<Seq<char>>,
    pending: Map<Seq<char>, Document>,
    upserts: Seq<UpsertedDoc>,
) -> bool {
    forall|id: Seq<char>| #[trigger]
        pending.contains_key(id) ==> committed.contains(id) || staged(upserts, id)
}

/// Law: a subtree deletion purges every document of the subtree, committed
/// or staged, and no other.
pub proof fn law_subtree_delete_purges_exactly(
    committed: Seq<String>,
    upserts: Seq<UpsertedDoc>,
    pending: Map<Seq<char>, Document>,
    prefix: Seq<char>,
    ids: Seq<String>,
)
    requires
        accounted(Set::new(|id: Seq<char>| lists(committed, id)), pending, upserts),
        subtree_listing(ids, committed, upserts, prefix),
    ensures
        forall|id: Seq<char>|
            in_subtree(id, prefix) ==> !#[trigger] after_ops(pending, deletions(ids)).contains_key(
                id,
            ),
        forall|id: Seq<char>|
            !in_subtree(id, prefix) ==> (#[trigger] after_ops(pending, deletions(ids)).contains_key(
                id,
            ) <==> pending.contains_key(id)),
        forall|id: Seq<char>|
            !in_subtree(id, prefix) && pending.contains_key(id) ==> #[trigger] after_ops(
                pending,
                deletions(ids),
            )[id] == pending[id],
{
    lemma_deletions(pending, ids);
    assert forall|id: Seq<char>| in_subtree(id, prefix) implies !#[trigger] after_ops(
        pending,
        deletions(ids),
    ).contains_key(id) by {
        if pending.contains_key(id) {
            assert(Set::new(|id: Seq<char>| lists(committed, id)).contains(id) ==> lists(
                committed,
                id,
            ));
            assert(lists(ids, id));
        }
    }
    assert forall|id: Seq<char>| !in_subtree(id, prefix) implies !lists(ids, id) by {}
}

proof fn lemma_deletions(pending: Map<Seq<char>, Document>, ids: Seq<String>)
    ensures
        forall|id: Seq<char>| #[trigger]
            after_ops(pending, deletions(ids)).contains_key(id) <==> pending.contains_key(id)
                && !lists(ids, id),
        forall|id: Seq<char>|
            pending.contains_key(id) && !lists(ids, id) ==> #[trigger] after_ops(
                pending,
                deletions(ids),
            )[id] == pending[id],
    decreases ids.len(),
{
    if ids.len() > 0 {
        let front = ids.drop_last();
        lemma_deletions(pending, front);
        assert(deletions(ids).drop_last() =~= deletions(front));
        assert(deletions(ids).last() == WriterOp::Delete(ids.last()));
        let rest = after_ops(pending, deletions(front));
        assert(after_ops(pending, deletions(ids)) == rest.remove(ids.last()@));
        assert forall|id: Seq<char>| #[trigger]
            lists(ids, id) <==> lists(front, id) || ids.last()@ == id by {
            if lists(ids, id) {
                let k = choose|k: int| 0 <= k < ids.len() && (#[trigger] ids[k])@ == id;
                if k < front.len() {
                    assert(front[k]@ == id);
                }
            }
            if lists(front, id) {
                let k = choose|k: int| 0 <= k < front.len() && (#[trigger] front[k])@ == id;
                assert(ids[k]@ == id);
            }
            if ids.last()@ == id {
                assert(ids[ids.len() - 1]@ == id);
            }
        }
        assert forall|id: Seq<char>| #[trigger]
            after_ops(pending, deletions(ids)).contains_key(id) <==> pending.contains_key(id)
                && !lists(ids, id) by {
            assert(rest.contains_key(id) <==> pending.contains_key(id) && !lists(front, id));
        }
        assert forall|id: Seq<char>|
            pending.contains_key(id) && !lists(ids, id) implies #[trigger] after_ops(
            pending,
            deletions(ids),
        )[id] == pending[id] by {
            assert(rest[id] == pending[id]);
        }
    } else {
        assert(deletions(ids) =~= Seq::<WriterOp>::empty());
    }
}

/// Law: what is planned under a tombstone never upserts into the deleted
/// subtree.
pub proof fn law_tombstoned_upserts_are_dropped(
    before: WriterState,
    m: Mutation,
    fetched: Fetched,
    after: WriterState,
    step: Step,
    prefix: Seq<char>,
    i: int,
)
    requires
        planned(before, m, fetched, after, step),
        lists(before.tombstones@, prefix),
        0 <= i < step.ops@.len(),
        m matches Mutation::UpsertBody { doc_id, .. } ==> (committed_doc(fetched) matches Some(
            doc,
        ) ==> doc.id.0@ == doc_id@),
    ensures
        step.ops@[i] matches WriterOp::Upsert(doc) ==> !in_subtree(doc.id.0@, prefix),
{
    let t = choose|t: int| 0 <= t < before.tombstones@.len() && (#[trigger] before.tombstones@[t])@
        == prefix;
    match m {
        Mutation::Upsert(doc) => {
            lemma_surviving(seq![doc], before.tombstones@, i);
        },
        Mutation::UpsertMany(docs) => {
            lemma_surviving(docs@, before.tombstones@, i);
        },
        _ => {},
    }
}

proof fn lemma_surviving(docs: Seq<Document>, tombstones: Seq<String>, i: int)
    requires
        0 <= i < surviving(docs, tombstones).len(),
    ensures
        surviving(docs, tombstones)[i] matches WriterOp::Upsert(doc) && !tombstoned(
            doc.id.0@,
            tombstones,
        ),
    decreases docs.len(),
{
    let before = surviving(docs.drop_last(), tombstones);
    if i < before.len() {
        lemma_surviving(docs.drop_last(), tombstones, i);
    }
}

/// Law: a tombstone stands until the next commit, whatever is planned.
pub proof fn law_tombstones_stand_until_commit(
    before: WriterState,
    m: Mutation,
    fetched: Fetched,
    after: WriterState,
    step: Step,
    prefix: Seq<char>,
)
    requires
        planned(before, m, fetched, after, step),
        lists(before.tombstones@, prefix),
    ensures
        lists(after.tombstones@, prefix),
{
    let t = choose|t: int| 0 <= t < before.tombstones@.len() && (#[trigger] before.tombstones@[t])@
        == prefix;
    assert(after.tombstones@[t]@ == prefix);
}

/// Law: a subtree deletion leaves its prefix among the tombstones.
pub proof fn law_subtree_delete_leaves_a_tombstone(
    before: WriterState,
    prefix: String,
    fetched: Fetched,
    after: WriterState,
    step: Step,
)
    requires
        planned(before, Mutation::DeleteSubtree(prefix), fetched, after, step),
    ensures
        lists(after.tombstones@, prefix@),
{
    if !lists(before.tombstones@, prefix@) {
        assert(after.tombstones@[before.tombstones@.len() as int]@ == prefix@);
    }
}

/// Law: a body that was read from a stale snapshot changes nothing.
pub proof fn law_stale_body_changes_nothing(
    before: WriterState,
    doc_id: String,
    body: String,
    expected: i64,
    doc: Document,
    after: WriterState,
    step: Step,
)
    requires
        planned(
            before,
            Mutation::UpsertBody { doc_id, body, expected_mtime: Some(expected) },
            Fetched::CommittedDoc(Some(doc)),
            after,
            step,
        ),
        doc.mtime > expected || exists|k: int|
            0 <= k < before.batch.upserts@.len() && (#[trigger] before.batch.upserts@[k]).doc_id@
                == doc_id@ && before.batch.upserts@[k].mtime > expected,
    ensures
        step.ops@.len() == 0,
        after.dirty == before.dirty,
        after.batch.upserts@ == before.batch.upserts@,
{
}

/// Law: an applied operation keeps every pending document accounted for.
pub proof fn law_record_keeps_accounts(
    committed: Set<Seq<char>>,
    pending: Map<Seq<char>, Document>,
    upserts: Seq<UpsertedDoc>,
    op: WriterOp,
)
    requires
        accounted(committed, pending, upserts),
    ensures
        accounted(
            committed,
            after_op(pending, op),
            match op {
                WriterOp::Upsert(doc) => upserts.push(upserted_of(doc)),
                _ => upserts,
            },
        ),
{
    match op {
        WriterOp::Upsert(doc) => {
            let more = upserts.push(upserted_of(doc));
            assert forall|id: Seq<char>| #[trigger]
                after_op(pending, op).contains_key(id) implies committed.contains(id) || staged(
                more,
                id,
            ) by {
                if id == doc.id.0@ {
                    assert(more[upserts.len() as int].doc_id@ == id);
                } else {
                    assert(pending.contains_key(id));
                    if staged(upserts, id) {
                        let k = choose|k: int|
                            0 <= k < upserts.len() && (#[trigger] upserts[k]).doc_id@ == id;
                        assert(more[k].doc_id@ == id);
                    }
                }
            }
        },
        WriterOp::Delete(_) => {
            assert forall|id: Seq<char>| #[trigger]
                after_op(pending, op).contains_key(id) implies committed.contains(id) || staged(
                upserts,
                id,
            ) by {
                assert(pending.contains_key(id));
            }
        },
        WriterOp::DeleteSourceInstance(_) => {
            assert forall|id: Seq<char>| #[trigger]
                after_op(pending, op).contains_key(id) implies committed.contains(id) || staged(
                upserts,
                id,
            ) by {
                assert(pending.contains_key(id));
            }
        },
    }
}

/// Law: a subtree deletion, too, keeps every pending document accounted for.
pub proof fn law_subtree_delete_keeps_accounts(
    committed: Seq<String>,
    upserts: Seq<UpsertedDoc>,
    pending: Map<Seq<char>, Document>,
    prefix: Seq<char>,
    ids: Seq<String>,
)
    requires
        accounted(Set::new(|id: Seq<char>| lists(committed, id)), pending, upserts),
        subtree_listing(ids, committed, upserts, prefix),
    ensures
        accounted(
            Set::new(|id: Seq<char>| lists(committed, id)),
            after_ops(pending, deletions(ids)),
            outside(upserts, prefix),
        ),
{
    lemma_deletions(pending, ids);
    let shown = Set::new(|id: Seq<char>| lists(committed, id));
    let left = after_ops(pending, deletions(ids));
    assert forall|id: Seq<char>| #[trigger] left.contains_key(id) implies shown.contains(id)
        || staged(outside(upserts, prefix), id) by {
        assert(pending.contains_key(id) && !lists(ids, id));
        if !shown.contains(id) {
            lemma_outside_keeps(upserts, prefix, id);
        }
    }
}

proof fn lemma_outside_keeps(upserts: Seq<UpsertedDoc>, prefix: Seq<char>, id: Seq<char>)
    requires
        staged(upserts, id),
        !in_subtree(id, prefix),
    ensures
        staged(outside(upserts, prefix), id),
    decreases upserts.len(),
{
    let k = choose|k: int| 0 <= k < upserts.len() && (#[trigger] upserts[k]).doc_id@ == id;
    let front = upserts.drop_last();
    let before = outside(front, prefix);
    let all = outside(upserts, prefix);
    if k == upserts.len() - 1 {
        assert(all[before.len() as int].doc_id@ == id);
    } else {
        assert(front[k].doc_id@ == id);
        lemma_outside_keeps(front, prefix, id);
        let j = choose|j: int| 0 <= j < before.len() && (#[trigger] before[j]).doc_id@ == id;
        assert(all[j].doc_id@ == id);
    }
}

/// Law: a barrier is answered: at once where nothing is pending, and
/// otherwise by the commit that makes everything before it durable.
pub proof fn law_barriers_are_answered(
    before: WriterState,
    ticket: u64,
    after: WriterState,
    step: Step,
    generation: u64,
)
    requires
        planned(before, Mutation::Barrier(ticket), Fetched::Nothing, after, step),
    ensures
        !before.dirty && !before.draining ==> step.replies@.contains(
            (Reply { ticket, generation: Some(before.generation) }),
        ),
        before.dirty || before.draining ==> acknowledged(after.barriers@, generation).contains(
            (Reply { ticket, generation: Some(generation) }),
        ),
{
    if !before.dirty && !before.draining {
        assert(step.replies@[0] == (Reply { ticket, generation: Some(before.generation) }));
    } else {
        let k = before.barriers@.len() as int;
        assert(acknowledged(after.barriers@, generation)[k] == (Reply {
            ticket,
            generation: Some(generation),
        }));
    }
}

/// Something that happens to a writer.
pub enum Event {
    /// A request was planned.
    Planned { m: Mutation, fetched: Fetched, step: Step },
    /// An operation was applied, or could not be.
    Applied { op: WriterOp, ok: bool },
    /// A commit succeeded.
    Committed { now_ms: u64, latency_ms: u64, done: Committed },
    /// A commit failed.
    CommitFailed,
    /// The main loop was left.
    Draining,
    /// The drain ended.
    Finished { now_ms: u64, latency_ms: u64, commit_ok: bool, done: Committed },
}

/// Whether an event takes a writer from one state to another.
pub open spec fn happens(before: WriterState, e: Event, after: WriterState) -> bool {
    match e {
        Event::Planned { m, fetched, step } => planned(before, m, fetched, after, step),
        Event::Applied { op, ok } => recorded(before, op, ok, after),
        Event::Committed { now_ms, latency_ms, done } => commit_noted(
            before,
            now_ms,
            latency_ms,
            after,
            done,
        ),
        Event::CommitFailed => after == before,
        Event::Draining => drain_begun(before, after),
        Event::Finished { now_ms, latency_ms, commit_ok, done } => finished(
            before,
            now_ms,
            latency_ms,
            commit_ok,
            after,
            done,
        ),
    }
}

/// Whether the events take a writer through the states, one after another.
pub open spec fn history(states: Seq<WriterState>, events: Seq<Event>) -> bool {
    &&& states.len() == events.len() + 1
    &&& forall|k: int|
        0 <= k < events.len() ==> happens(states[k], #[trigger] events[k], states[k + 1])
}

/// What an event sets free: something where a commit succeeded or the drain
/// ended.
pub open spec fn set_free(e: Event) -> Option<Committed> {
    match e {
        Event::Committed { now_ms, latency_ms, done } => Some(done),
        Event::Finished { now_ms, latency_ms, commit_ok, done } => Some(done),
        _ => None,
    }
}

/// The documents that the events have upserted, in order, without those
/// that a later deletion of their subtree purged.
pub open spec fn applied_upserts(events: Seq<Event>) -> Seq<UpsertedDoc>
    decreases events.len(),
{
    if events.len() == 0 {
        Seq::empty()
    } else {
        let before = applied_upserts(events.drop_last());
        match events.last() {
            Event::Applied { op: WriterOp::Upsert(doc), ok: true } => before.push(upserted_of(doc)),
            Event::Planned { m: Mutation::DeleteSubtree(prefix), fetched, step } => outside(
                before,
                prefix@,
            ),
            _ => before,
        }
    }
}

/// The ids that the events have deleted, in order.
pub open spec fn applied_deletes(events: Seq<Event>) -> Seq<String>
    decreases events.len(),
{
    if events.len() == 0 {
        Seq::empty()
    } else {
        let before = applied_deletes(events.drop_last());
        match events.last() {
            Event::Applied { op: WriterOp::Delete(id), ok: true } => before.push(id),
            _ => before,
        }
    }
}

/// Where the events begin that the next batch is made of: behind the last
/// of the first `k` that set something free.
pub open spec fn batch_start(events: Seq<Event>, k: int) -> int
    decreases k,
{
    if k <= 0 {
        0
    } else if set_free(events[k - 1]) is Some {
        k
    } else {
        batch_start(events, k - 1)
    }
}

/// The events since the last commit among the first `k`.
pub open spec fn since_commit(events: Seq<Event>, k: int) -> Seq<Event> {
    events.subrange(batch_start(events, k), k)
}

proof fn lemma_outside_of_none(upserts: Seq<UpsertedDoc>, prefix: Seq<char>)
    ensures
        outside(upserts, prefix).len() <= upserts.len(),
    decreases upserts.len(),
{
    if upserts.len() > 0 {
        lemma_outside_of_none(upserts.drop_last(), prefix);
    }
}

/// Law: at every point of a history that starts with nothing staged, the
/// batch holds the documents upserted since the last commit, in order,
/// without those that a later deletion of their subtree purged, and the ids
/// deleted; and where it holds anything, a commit is due.
pub proof fn law_batch_is_what_was_applied(states: Seq<WriterState>, events: Seq<Event>, k: int)
    requires
        history(states, events),
        nothing_staged(states[0]),
        0 <= k <= events.len(),
    ensures
        0 <= batch_start(events, k) <= k,
        states[k].batch.upserts@ == applied_upserts(since_commit(events, k)),
        states[k].batch.deletes@ == applied_deletes(since_commit(events, k)),
        !nothing_staged(states[k]) ==> states[k].dirty,
    decreases k,
{
    let now = since_commit(events, k);
    if k == 0 {
        assert(now.len() == 0);
        assert(states[0].batch.upserts@ =~= applied_upserts(now));
        assert(states[0].batch.deletes@ =~= applied_deletes(now));
    } else {
        law_batch_is_what_was_applied(states, events, k - 1);
        let e = events[k - 1];
        let before = states[k - 1];
        let after = states[k];
        assert(happens(before, e, states[(k - 1) + 1]));
        if set_free(e) is Some {
            assert(now.len() == 0);
            assert(nothing_staged(after));
            assert(after.batch.upserts@ =~= applied_upserts(now));
            assert(after.batch.deletes@ =~= applied_deletes(now));
        } else {
            assert(now.drop_last() =~= since_commit(events, k - 1));
            assert(now.last() == e);
            match e {
                Event::Planned { m: Mutation::DeleteSubtree(prefix), fetched, step } => {
                    lemma_outside_of_none(before.batch.upserts@, prefix@);
                },
                _ => {},
            }
        }
    }
}

/// Law: over a whole history that starts with nothing staged, each commit
/// that succeeds, and the end of the drain, sets one batch free, unless it
/// is empty: the documents upserted since the one before it, in order,
/// without those that a later deletion of their subtree purged, the ids
/// deleted, and the generation after it. An upsert that was dropped or that
/// failed, and the deletion of a source instance, add nothing; a commit that
/// fails sets nothing free and keeps the batch.
pub proof fn law_broadcasts_over_a_history(
    states: Seq<WriterState>,
    events: Seq<Event>,
    k: int,
    done: Committed,
)
    requires
        history(states, events),
        nothing_staged(states[0]),
        0 <= k < events.len(),
        set_free(events[k]) == Some(done),
    ensures
        sends(
            done.batch,
            applied_upserts(since_commit(events, k)),
            applied_deletes(since_commit(events, k)),
            states[k + 1].generation,
        ),
        nothing_staged(states[k + 1]),
        events[k] is Committed ==> states[k + 1].generation == states[k].generation + 1,
{
    law_batch_is_what_was_applied(states, events, k);
    law_batch_is_what_was_applied(states, events, k + 1);
    assert(happens(states[k], events[k], states[k + 1]));
    assert(since_commit(events, k + 1).len() == 0);
}

/// Law: a subtree is its root and all below it, and ends at a separator.
pub proof fn law_subtree_is_the_root_and_all_below(prefix: Seq<char>, c: char, rest: Seq<char>)
    ensures
        in_subtree(prefix, prefix),
        in_subtree(prefix.push(c) + rest, prefix) <==> c == '/',
        !in_subtree(prefix, prefix.push(c) + rest),
{
    let id = prefix.push(c) + rest;
    assert(id.subrange(0, prefix.len() as int) =~= prefix);
    assert(id[prefix.len() as int] == c);
}

/// Law: deletions delete. Once the operations planned for a deletion have
/// been applied, the documents that it names are gone and all others are as
/// they were.
pub proof fn law_deletions_delete_exactly(
    before: WriterState,
    m: Mutation,
    fetched: Fetched,
    after: WriterState,
    step: Step,
    pending: Map<Seq<char>, Document>,
    id: Seq<char>,
)
    requires
        planned(before, m, fetched, after, step),
    ensures
        m matches Mutation::Delete(gone) ==> {
            &&& after_ops(pending, step.ops@).contains_key(id) <==> pending.contains_key(id) && id
                != gone@
            &&& pending.contains_key(id) && id != gone@ ==> after_ops(pending, step.ops@)[id]
                == pending[id]
        },
        m matches Mutation::DeleteMany(gone) ==> {
            let named = exists|k: int| 0 <= k < gone@.len() && (#[trigger] gone@[k])@ == id;
            &&& after_ops(pending, step.ops@).contains_key(id) <==> pending.contains_key(id)
                && !named
            &&& pending.contains_key(id) && !named ==> after_ops(pending, step.ops@)[id]
                == pending[id]
        },
        m matches Mutation::DeleteSubtree(prefix) ==> accounted(
            Set::new(|x: Seq<char>| lists(committed_ids(fetched), x)),
            pending,
            before.batch.upserts@,
        ) ==> {
            let below = id == prefix@ || (prefix@.push('/').is_prefix_of(id));
            &&& after_ops(pending, step.ops@).contains_key(id) <==> pending.contains_key(id)
                && !below
            &&& pending.contains_key(id) && !below ==> after_ops(pending, step.ops@)[id]
                == pending[id]
        },
        m matches Mutation::DeleteSourceInstance { instance_id } ==> {
            &&& after_ops(pending, step.ops@).contains_key(id) <==> pending.contains_key(id)
                && pending[id].source_instance@ != instance_id@
            &&& after_ops(pending, step.ops@).contains_key(id) ==> after_ops(
                pending,
                step.ops@,
            )[id] == pending[id]
        },
{
    reveal_with_fuel(after_ops, 2);
    match m {
        Mutation::Delete(gone) => {
            assert(step.ops@.drop_last() =~= Seq::<WriterOp>::empty());
        },
        Mutation::DeleteMany(gone) => {
            lemma_deletions(pending, gone@);
            assert(after_ops(pending, step.ops@).contains_key(id) <==> pending.contains_key(id)
                && !lists(gone@, id));
        },
        Mutation::DeleteSubtree(prefix) => {
            let ids = choose|ids: Seq<String>| #[trigger]
                applies(step, deletions(ids)) && subtree_listing(
                    ids,
                    committed_ids(fetched),
                    before.batch.upserts@,
                    prefix@,
                );
            if accounted(
                Set::new(|x: Seq<char>| lists(committed_ids(fetched), x)),
                pending,
                before.batch.upserts@,
            ) {
                law_subtree_delete_purges_exactly(
                    committed_ids(fetched),
                    before.batch.upserts@,
                    pending,
                    prefix@,
                    ids,
                );
                let below = id == prefix@ || prefix@.push('/').is_prefix_of(id);
                let n = prefix@.len() as int;
                if in_subtree(id, prefix@) && id != prefix@ {
                    assert(id.subrange(0, n + 1) =~= prefix@.push('/'));
                }
                if prefix@.push('/').is_prefix_of(id) {
                    assert(id[n] == id.subrange(0, n + 1)[n]);
                    assert(id.subrange(0, n) =~= id.subrange(0, n + 1).subrange(0, n));
                    assert(id.subrange(0, n) =~= prefix@);
                }
                assert(below == in_subtree(id, prefix@));
            }
        },
        Mutation::DeleteSourceInstance { instance_id } => {
            assert(step.ops@.drop_last() =~= Seq::<WriterOp>::empty());
        },
        _ => {},
    }
}

proof fn lemma_surviving_stores(
    docs: Seq<Document>,
    tombstones: Seq<String>,
    pending: Map<Seq<char>, Document>,
    id: Seq<char>,
)
    ensures
        ({
            let now = after_ops(pending, surviving(docs, tombstones));
            &&& (forall|k: int|
                0 <= k < docs.len() && (#[trigger] docs[k]).id.0@ == id ==> tombstoned(
                    id,
                    tombstones,
                )) ==> now.contains_key(id) == pending.contains_key(id) && now[id] == pending[id]
            &&& forall|k: int|
                0 <= k < docs.len() && (#[trigger] docs[k]).id.0@ == id && !tombstoned(
                    id,
                    tombstones,
                ) && (forall|j: int| k < j < docs.len() ==> (#[trigger] docs[j]).id.0@ != id)
                    ==> now.contains_key(id) && now[id] == docs[k]
        }),
    decreases docs.len(),
{
    if docs.len() > 0 {
        let front = docs.drop_last();
        lemma_surviving_stores(front, tombstones, pending, id);
        let before = surviving(front, tombstones);
        let last = docs.last();
        let now = after_ops(pending, surviving(docs, tombstones));
        if !tombstoned(last.id.0@, tombstones) {
            assert(before.push(WriterOp::Upsert(last)).drop_last() =~= before);
        }
        if forall|k: int|
            0 <= k < docs.len() && (#[trigger] docs[k]).id.0@ == id ==> tombstoned(id, tombstones) {
            assert forall|k: int|
                0 <= k < front.len() && (#[trigger] front[k]).id.0@ == id implies tombstoned(
                id,
                tombstones,
            ) by {
                assert(docs[k].id.0@ == id);
            }
            assert(docs[docs.len() - 1].id.0@ == id ==> tombstoned(id, tombstones));
        }
        assert forall|k: int|
            0 <= k < docs.len() && (#[trigger] docs[k]).id.0@ == id && !tombstoned(id, tombstones)
                && (forall|j: int| k < j < docs.len() ==> (#[trigger] docs[j]).id.0@
                != id) implies now.contains_key(id) && now[id] == docs[k] by {
            if k < docs.len() - 1 {
                assert(docs[docs.len() - 1].id.0@ != id);
                assert(front[k].id.0@ == id);
                assert forall|j: int| k < j < front.len() implies (#[trigger] front[j]).id.0@
                    != id by {
                    assert(docs[j].id.0@ != id);
                }
            }
        }
    }
}

/// Law: upserts upsert. Once the operations planned for an upsert have been
/// applied, every document of it outside the subtrees deleted since the last
/// commit is there under its id, the last one where several have the same;
/// all other documents are as they were.
pub proof fn law_upserts_upsert_exactly(
    before: WriterState,
    m: Mutation,
    fetched: Fetched,
    after: WriterState,
    step: Step,
    pending: Map<Seq<char>, Document>,
    id: Seq<char>,
)
    requires
        planned(before, m, fetched, after, step),
    ensures
        ({
            let dead = exists|k: int|
                0 <= k < before.tombstones@.len() && in_subtree(
                    id,
                    #[trigger] before.tombstones@[k]@,
                );
            let now = after_ops(pending, step.ops@);
            &&& m matches Mutation::Upsert(doc) ==> if doc.id.0@ == id && !dead {
                now.contains_key(id) && now[id] == doc
            } else {
                now.contains_key(id) == pending.contains_key(id) && now[id] == pending[id]
            }
            &&& m matches Mutation::UpsertMany(docs) ==> {
                &&& forall|k: int|
                    0 <= k < docs@.len() && (#[trigger] docs@[k]).id.0@ == id && !dead && (forall|
                        j: int,
                    |
                        k < j < docs@.len() ==> (#[trigger] docs@[j]).id.0@ != id)
                        ==> now.contains_key(id) && now[id] == docs@[k]
                &&& dead || (forall|k: int|
                    0 <= k < docs@.len() ==> (#[trigger] docs@[k]).id.0@ != id)
                    ==> now.contains_key(id) == pending.contains_key(id) && now[id] == pending[id]
            }
        }),
{
    match m {
        Mutation::Upsert(doc) => {
            lemma_surviving_stores(seq![doc], before.tombstones@, pending, id);
            assert(seq![doc][0] == doc);
        },
        Mutation::UpsertMany(docs) => {
            lemma_surviving_stores(docs@, before.tombstones@, pending, id);
        },
        _ => {},
    }
}

/// Law: a body that was read changes the body of its document and nothing
/// else. It is written where the document is committed, its subtree was not
/// deleted since, and no copy of it is newer than the text.
pub proof fn law_a_body_is_written_into_its_document(
    before: WriterState,
    doc_id: String,
    body: String,
    expected_mtime: Option<i64>,
    doc: Document,
    after: WriterState,
    step: Step,
    pending: Map<Seq<char>, Document>,
    id: Seq<char>,
)
    requires
        planned(
            before,
            Mutation::UpsertBody { doc_id, body, expected_mtime },
            Fetched::CommittedDoc(Some(doc)),
            after,
            step,
        ),
        doc.id.0@ == doc_id@,
    ensures
        ({
            let dead = exists|k: int|
                0 <= k < before.tombstones@.len() && in_subtree(
                    doc_id@,
                    #[trigger] before.tombstones@[k]@,
                );
            let stale = expected_mtime matches Some(e) && (doc.mtime > e || exists|k: int|
                0 <= k < before.batch.upserts@.len() && (#[trigger] before.batch.upserts@[k]).doc_id@
                    == doc_id@ && before.batch.upserts@[k].mtime > e);
            let now = after_ops(pending, step.ops@);
            if id == doc_id@ && !dead && !stale {
                &&& now.contains_key(id)
                &&& now[id].body matches Some(b) && b@ == body@
                &&& now[id].id.0@ == doc_id@
                &&& now[id].title == doc.title
                &&& now[id].subtitle == doc.subtitle
                &&& now[id].category == doc.category
                &&& now[id].path == doc.path
                &&& now[id].mtime == doc.mtime
                &&& now[id].size == doc.size
                &&& now[id].action == doc.action
                &&& now[id].secondary_action == doc.secondary_action
                &&& now[id].source_instance == doc.source_instance
                &&& now[id] == Document { body: now[id].body, ..doc }
            } else {
                now.contains_key(id) == pending.contains_key(id) && now[id] == pending[id]
            }
        }),
{
    reveal_with_fuel(after_ops, 2);
    if step.ops@.len() == 1 {
        assert(step.ops@.drop_last() =~= Seq::<WriterOp>::empty());
    }
    if let Some(e) = expected_mtime {
        if body_fresh(doc, before.batch.upserts@, doc_id@, expected_mtime) {
        }
    }
}

/// Law: requests that ask or wait change no document. A caller that waits
/// for what was sent before it is answered at once; one that asks for a
/// commit gets one, and is answered by it; while the channel is drained it
/// waits for the exit; a shutdown leaves the loop.
pub proof fn law_other_requests_change_nothing(
    before: WriterState,
    m: Mutation,
    fetched: Fetched,
    after: WriterState,
    step: Step,
)
    requires
        planned(before, m, fetched, after, step),
    ensures
        m is Barrier || m is Applied || m is Shutdown || m is CommitNow ==> step.ops@.len() == 0
            && after.batch.upserts@ == before.batch.upserts@ && after.batch.deletes
            == before.batch.deletes,
        m matches Mutation::Applied(ticket) ==> step.replies@.len() == 1
            && step.replies@[0].ticket == ticket && step.replies@[0].generation is None,
        m matches Mutation::CommitNow(ticket) ==> after.barriers@.len() == before.barriers@.len()
            + 1 && after.barriers@.last() == ticket && step.replies@.len() == 0,
        m matches Mutation::Barrier(ticket) ==> (step.replies@.len() == 1 <==> !before.dirty
            && !before.draining) && (step.replies@.len() == 0 <==> after.barriers@.contains(ticket)
            && after.barriers@.len() == before.barriers@.len() + 1),
        step.commit <==> m is CommitNow && !before.draining,
        step.stop <==> m is Shutdown && !before.draining,
        after.generation == before.generation,
        before.dirty ==> after.dirty,
{
    if let Mutation::Barrier(ticket) = m {
        if before.dirty || before.draining {
            assert(after.barriers@[before.barriers@.len() as int] == ticket);
        }
    }
}

/// Law: an operation that was applied is told of by the next batch: an
/// upsert by the document's id, source, time, type and body, a deletion by
/// the id. One that failed is not, and neither is the deletion of a source
/// instance; and whatever was applied makes a commit due.
pub proof fn law_the_batch_names_what_was_applied(
    before: WriterState,
    op: WriterOp,
    ok: bool,
    after: WriterState,
)
    requires
        recorded(before, op, ok, after),
    ensures
        ok ==> after.dirty,
        before.dirty ==> after.dirty,
        op matches WriterOp::Upsert(doc) ==> ok ==> {
            let u = after.batch.upserts@.last();
            &&& after.batch.upserts@.len() == before.batch.upserts@.len() + 1
            &&& after.batch.upserts@.drop_last() == before.batch.upserts@
            &&& u.doc_id@ == doc.id.0@
            &&& u.source_instance@ == doc.source_instance@
            &&& u.mtime == doc.mtime
            &&& u.mime == doc.mime
            &&& u.body == doc.body
        },
        op matches WriterOp::Delete(id) ==> ok ==> after.batch.deletes@.len()
            == before.batch.deletes@.len() + 1 && after.batch.deletes@.drop_last()
            == before.batch.deletes@ && after.batch.deletes@.last()@ == id@,
        !ok || !(op is Upsert) ==> after.batch.upserts@ == before.batch.upserts@,
        !ok || !(op is Delete) ==> after.batch.deletes@ == before.batch.deletes@,
{
    if let WriterOp::Upsert(doc) = op {
        if ok {
            assert(after.batch.upserts@.drop_last() =~= before.batch.upserts@);
        }
    }
    if let WriterOp::Delete(id) = op {
        if ok {
            assert(after.batch.deletes@.drop_last() =~= before.batch.deletes@);
        }
    }
}

/// Law: a commit raises the generation by one and answers every caller that
/// waits for it with the new one, each once and in the order in which they
/// came; what it set free is no longer pending.
pub proof fn law_a_commit_answers_all_who_wait(
    before: WriterState,
    now_ms: u64,
    latency_ms: u64,
    after: WriterState,
    r: Committed,
    k: int,
)
    requires
        commit_noted(before, now_ms, latency_ms, after, r),
        0 <= k < before.barriers@.len(),
    ensures
        after.generation == before.generation + 1,
        r.replies@.len() == before.barriers@.len(),
        r.replies@[k].ticket == before.barriers@[k],
        r.replies@[k].generation matches Some(g) && g == before.generation + 1,
        after.barriers@.len() == 0,
        after.tombstones@.len() == 0,
        !after.dirty,
        after.last_commit_ms == now_ms,
        after.last_commit_latency_ms == latency_ms,
        r.batch matches Some(b) ==> b.upserts@ == before.batch.upserts@ && b.deletes@
            == before.batch.deletes@ && b.generation == before.generation + 1,
        before.batch.upserts@.len() > 0 || before.batch.deletes@.len() > 0 ==> r.batch is Some,
        after.batch.upserts@.len() == 0,
        after.batch.deletes@.len() == 0,
{
}

/// Law: at the exit every caller that still waits is answered, and what was
/// applied is told of even where the last commit failed; the generation is
/// raised only by a commit that succeeded.
pub proof fn law_the_exit_answers_all_who_wait(
    before: WriterState,
    now_ms: u64,
    latency_ms: u64,
    commit_ok: bool,
    after: WriterState,
    r: Committed,
    k: int,
)
    requires
        finished(before, now_ms, latency_ms, commit_ok, after, r),
        0 <= k < before.barriers@.len(),
    ensures
        r.replies@.len() == before.barriers@.len(),
        r.replies@[k].ticket == before.barriers@[k],
        r.replies@[k].generation == Some(after.generation),
        before.dirty && commit_ok ==> after.generation == before.generation + 1,
        !before.dirty || !commit_ok ==> after.generation == before.generation,
        before.dirty && (before.batch.upserts@.len() > 0 || before.batch.deletes@.len() > 0)
            ==> r.batch is Some,
        r.batch matches Some(b) ==> b.upserts@ == before.batch.upserts@ && b.deletes@
            == before.batch.deletes@ && b.generation == after.generation,
        after.barriers@.len() == 0,
{
}

/// Law: what lies in a subtree that was deleted since the last commit counts
/// as deleted, and nothing else does.
pub proof fn law_tombstones_cover_their_subtrees(
    tombstones: Seq<String>,
    t: String,
    rest: Seq<char>,
    id: Seq<char>,
)
    ensures
        tombstones.contains(t) ==> tombstoned(t@, tombstones) && tombstoned(
            t@.push('/') + rest,
            tombstones,
        ),
        tombstones.len() == 0 ==> !tombstoned(id, tombstones),
        tombstoned(id, tombstones) ==> exists|k: int|
            0 <= k < tombstones.len() && (#[trigger] tombstones[k])@.is_prefix_of(id),
{
    if tombstones.contains(t) {
        let k = choose|k: int| 0 <= k < tombstones.len() && tombstones[k] == t;
        law_subtree_is_the_root_and_all_below(t@, '/', rest);
        assert(in_subtree(t@, tombstones[k]@));
        assert(in_subtree(t@.push('/') + rest, tombstones[k]@));
    }
    if tombstoned(id, tombstones) {
        let k = choose|k: int| 0 <= k < tombstones.len() && in_subtree(id, #[trigger] tombstones[k]@);
        assert(tombstones[k]@.is_prefix_of(id));
    }
}

/// Law: a writer that begins to drain drops nothing of what it has yet to
/// do.
pub proof fn law_a_draining_writer_drops_nothing(before: WriterState, after: WriterState)
    requires
        drain_begun(before, after),
    ensures
        after == (WriterState { draining: true, ..before }),
{
}

/// The staged upserts outside a subtree are those that were staged and lie
/// outside it.
proof fn lemma_outside_is_exact(upserts: Seq<UpsertedDoc>, prefix: Seq<char>, u: UpsertedDoc)
    ensures
        outside(upserts, prefix).contains(u) <==> upserts.contains(u) && !in_subtree(
            u.doc_id@,
            prefix,
        ),
    decreases upserts.len(),
{
    if upserts.len() > 0 {
        let rest = upserts.drop_last();
        let last = upserts.last();
        let before = outside(rest, prefix);
        let now = outside(upserts, prefix);
        lemma_outside_is_exact(rest, prefix, u);
        assert(upserts.contains(u) <==> rest.contains(u) || last == u) by {
            if upserts.contains(u) {
                let k = choose|k: int| 0 <= k < upserts.len() && upserts[k] == u;
                if k < rest.len() {
                    assert(rest[k] == u);
                }
            }
            if rest.contains(u) {
                let k = choose|k: int| 0 <= k < rest.len() && rest[k] == u;
                assert(upserts[k] == u);
            }
            assert(upserts[upserts.len() - 1] == last);
        }
        if !in_subtree(last.doc_id@, prefix) {
            assert(now == before.push(last));
            assert(now.contains(u) <==> before.contains(u) || last == u) by {
                if now.contains(u) {
                    let k = choose|k: int| 0 <= k < now.len() && now[k] == u;
                    if k < before.len() {
                        assert(before[k] == u);
                    }
                }
                if before.contains(u) {
                    let k = choose|k: int| 0 <= k < before.len() && before[k] == u;
                    assert(now[k] == u);
                }
                assert(now[now.len() - 1] == last);
            }
        }
    }
}

/// Law: planning loses nothing. Whoever waits for a commit goes on waiting;
/// what was staged stays staged, but for what lies in a subtree that is
/// deleted; deleted subtrees are remembered. Only barriers and requests for
/// an answer are answered at once, and only new documents during the drain
/// ask for another commit.
pub proof fn law_planning_loses_nothing(
    before: WriterState,
    m: Mutation,
    fetched: Fetched,
    after: WriterState,
    step: Step,
    u: UpsertedDoc,
)
    requires
        planned(before, m, fetched, after, step),
    ensures
        after.draining == before.draining,
        after.generation == before.generation,
        after.last_commit_ms == before.last_commit_ms,
        after.last_commit_latency_ms == before.last_commit_latency_ms,
        after.batch.deletes@ == before.batch.deletes@,
        before.barriers@.is_prefix_of(after.barriers@),
        !(m is Barrier || m is CommitNow) ==> after.barriers@ == before.barriers@,
        before.tombstones@.is_prefix_of(after.tombstones@),
        !(m is DeleteSubtree) ==> after.tombstones@ == before.tombstones@ && after.batch.upserts@
            == before.batch.upserts@,
        m matches Mutation::DeleteSubtree(prefix) ==> {
            let below = u.doc_id@ == prefix@ || prefix@.push('/').is_prefix_of(u.doc_id@);
            &&& after.batch.upserts@.contains(u) <==> before.batch.upserts@.contains(u) && !below
            &&& exists|k: int|
                0 <= k < after.tombstones@.len() && (#[trigger] after.tombstones@[k])@ == prefix@
            &&& forall|k: int|
                before.tombstones@.len() <= k < after.tombstones@.len() ==> (
                #[trigger] after.tombstones@[k])@ == prefix@
        },
        step.replies@.len() > 0 ==> m is Barrier || m is Applied,
        after.dirty <==> before.dirty || before.draining && (m is Upsert || (
        m matches Mutation::UpsertMany(docs) && docs@.len() > 0)),
{
    if let Mutation::DeleteSubtree(prefix) = m {
        lemma_outside_is_exact(before.batch.upserts@, prefix@, u);
        let id = u.doc_id@;
        let root = prefix@.push('/');
        if root.is_prefix_of(id) {
            assert(id.subrange(0, root.len() as int)[prefix@.len() as int] == '/');
            assert(prefix@ =~= id.subrange(0, prefix@.len() as int)) by {
                assert forall|i: int| 0 <= i < prefix@.len() implies prefix@[i] == id[i] by {
                    assert(id.subrange(0, root.len() as int)[i] == root[i]);
                }
            }
            assert(in_subtree(id, prefix@));
        }
        if in_subtree(id, prefix@) && id != prefix@ {
            assert(root =~= id.subrange(0, root.len() as int)) by {
                assert forall|i: int| 0 <= i < root.len() implies root[i] == id[i] by {
                    if i < prefix@.len() {
                        assert(id.subrange(0, prefix@.len() as int)[i] == prefix@[i]);
                    }
                }
            }
        }
        let t = before.tombstones@;
        if lists(t, prefix@) {
            let k = choose|k: int| 0 <= k < t.len() && (#[trigger] t[k])@ == prefix@;
            assert(after.tombstones@[k]@ == prefix@);
        } else {
            assert(after.tombstones@[t.len() as int]@ == prefix@);
        }
        assert(after.tombstones@.subrange(0, t.len() as int) =~= t);
    } else {
        let t = before.tombstones@;
        assert(after.tombstones@.subrange(0, t.len() as int) =~= t);
    }
    let b = before.barriers@;
    assert(after.barriers@.subrange(0, b.len() as int) =~= b);
}

/// Law: noting what was applied changes the batch and the need for a commit,
/// and nothing else. An operation that failed asks for no commit, except
/// that a failed deletion does during the drain.
pub proof fn law_noting_keeps_the_rest(
    before: WriterState,
    op: WriterOp,
    ok: bool,
    after: WriterState,
)
    requires
        recorded(before, op, ok, after),
    ensures
        after == (WriterState { dirty: after.dirty, batch: after.batch, ..before }),
        after.batch.generation == before.batch.generation,
        after.dirty <==> before.dirty || ok || (before.draining && !(op is Upsert)),
{
}

/// Law: every commit counts, whoever waits for it: the generation grows by
/// one, the time and the latency are noted, and what was staged is sent and
/// staged no more. Nothing is sent where nothing was staged.
pub proof fn law_every_commit_counts(
    before: WriterState,
    now_ms: u64,
    latency_ms: u64,
    after: WriterState,
    r: Committed,
)
    requires
        commit_noted(before, now_ms, latency_ms, after, r),
    ensures
        after.generation == before.generation + 1,
        !after.dirty,
        after.draining == before.draining,
        after.last_commit_ms == now_ms,
        after.last_commit_latency_ms == latency_ms,
        after.tombstones@.len() == 0,
        after.barriers@.len() == 0,
        r.replies@.len() == before.barriers@.len(),
        after.batch.upserts@.len() == 0 && after.batch.deletes@.len() == 0,
        r.batch is Some <==> before.batch.upserts@.len() > 0 || before.batch.deletes@.len() > 0,
        r.batch matches Some(b) ==> b.upserts@ == before.batch.upserts@ && b.deletes@
            == before.batch.deletes@ && b.generation == before.generation + 1,
{
}

/// Law: the exit is a commit where there is something to commit and it
/// succeeds. Where it fails, the generation stays, what was applied is sent
/// all the same, and there is still something to commit; where there was
/// nothing, nothing is sent.
pub proof fn law_the_exit_commits_what_there_is(
    before: WriterState,
    now_ms: u64,
    latency_ms: u64,
    commit_ok: bool,
    after: WriterState,
    r: Committed,
)
    requires
        finished(before, now_ms, latency_ms, commit_ok, after, r),
    ensures
        r.replies@.len() == before.barriers@.len(),
        after.barriers@.len() == 0,
        after.draining == before.draining,
        before.dirty && commit_ok ==> {
            &&& after.generation == before.generation + 1
            &&& !after.dirty
            &&& after.last_commit_ms == now_ms
            &&& after.last_commit_latency_ms == latency_ms
            &&& after.tombstones@.len() == 0
        },
        !(before.dirty && commit_ok) ==> {
            &&& after.generation == before.generation
            &&& after.dirty == before.dirty
            &&& after.last_commit_ms == before.last_commit_ms
            &&& after.last_commit_latency_ms == before.last_commit_latency_ms
            &&& after.tombstones == before.tombstones
        },
        r.batch is Some <==> before.dirty && (before.batch.upserts@.len() > 0
            || before.batch.deletes@.len() > 0),
        r.batch matches Some(b) ==> b.upserts@ == before.batch.upserts@ && b.deletes@
            == before.batch.deletes@ && b.generation == after.generation,
        before.dirty ==> after.batch.upserts@.len() == 0 && after.batch.deletes@.len() == 0,
        !before.dirty ==> after.batch == before.batch,
{
}

} // verus!
