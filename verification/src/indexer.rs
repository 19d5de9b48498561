//! The passes that fill the index: which sources take part, what is sent to
//! the writer, and what is counted.

use vstd::prelude::*;

use crate::index_service::Mutation;
use crate::model::Document;
use crate::text;
use crate::writer_sink::SourceMutation;

verus! {

/// The kind of the built-in file source.
pub const FS_KIND: &'static str = "fs";

/// How many documents a full pass sent.
#[derive(Clone, Copy, Debug, PartialEq, Eq, Structural)]
pub struct ReindexOutcome {
    pub total_docs: usize,
    pub fs_docs: usize,
    pub other_docs: usize,
}

/// What a pass wants to know of a source instance.
#[derive(Clone, Debug, PartialEq, Eq)]
pub struct ReindexSource {
    pub kind: String,
    /// Whether the source is read anew when the index was wiped.
    pub on_schema_wipe: bool,
}

/// Whether a source other than the built-in file source is read anew.
pub open spec fn reindexes(source: ReindexSource) -> bool {
    source.kind@ != FS_KIND@ && source.on_schema_wipe
}

/// The places, below `n`, of the sources that are read anew.
pub open spec fn reindexed(sources: Seq<ReindexSource>, n: int) -> Seq<usize>
    decreases n,
{
    if n <= 0 {
        Seq::empty()
    } else if reindexes(sources[n - 1]) {
        reindexed(sources, n - 1).push((n - 1) as usize)
    } else {
        reindexed(sources, n - 1)
    }
}

/// The places of the sources that a pass over the registry reads anew.
pub fn reindex_non_fs_from_registry(sources: &Vec<ReindexSource>) -> (r: Vec<usize>)
    ensures
        r@ == reindexed(sources@, sources@.len() as int),
{
    let mut out: Vec<usize> = Vec::new();
    let mut i: usize = 0;
    while i < sources.len()
        invariant
            i <= sources@.len(),
            out@ == reindexed(sources@, i as int),
        decreases sources@.len() - i,
    {
        if !text::text_eq(sources[i].kind.as_str(), FS_KIND) && sources[i].on_schema_wipe {
            out.push(i);
        }
        i = i + 1;
    }
    out
}

/// The number of documents that an emission upserts.
pub open spec fn upserts_of(mutation: SourceMutation) -> nat {
    match mutation {
        SourceMutation::Upsert(_) => 1,
        SourceMutation::UpsertMany(docs) => docs@.len(),
        _ => 0,
    }
}

/// Counts the documents that sources upsert.
#[derive(Clone, Copy, Debug, PartialEq, Eq, Structural)]
pub struct CountingSink {
    pub count: usize,
}

impl CountingSink {
    /// Nothing counted yet.
    pub fn new() -> (r: CountingSink)
        ensures
            r.count == 0,
    {
        CountingSink { count: 0 }
    }

    /// Counts an emission.
    pub fn emit(&mut self, mutation: &SourceMutation)
        requires
            old(self).count + upserts_of(*mutation) <= usize::MAX,
        ensures
            final(self).count == old(self).count + upserts_of(*mutation),
    {
        match mutation {
            SourceMutation::Upsert(_) => {
                self.count = self.count + 1;
            },
            SourceMutation::UpsertMany(docs) => {
                self.count = self.count + docs.len();
            },
            _ => {},
        }
    }
}

/// A pass that fills the index: over the file system first, then over the
/// other sources that are due.
#[derive(Clone, Debug, PartialEq, Eq)]
pub struct Pass {
    /// Whether it starts from nothing.
    pub full: bool,
    /// The places of the other sources that it reads anew, in order.
    pub due: Vec<usize>,
    /// How many of them it has read.
    pub next: usize,
    /// Documents of files that were sent.
    pub fs_docs: usize,
    /// Documents that the other sources sent.
    pub other_docs: usize,
}

/// How a pass goes on.
#[derive(Clone, Debug, PartialEq, Eq)]
pub enum PassEvent {
    /// The start. `indexed_ids` are the ids that the index holds, where
    /// they could be listed.
    Begin { indexed_ids: Option<Vec<String>> },
    /// The walk found these.
    Batch(Vec<Document>),
    /// The walk is over; the files of these ids are gone.
    Walked { deleted_ids: Vec<String> },
    /// The source that was asked for has sent this many documents.
    SourceRead { upserts: usize },
}

/// What a pass does next.
#[derive(Clone, Debug, PartialEq, Eq)]
pub enum PassAction {
    /// Forget what earlier walks saw.
    RemoveManifest,
    /// Walk the file system. A document whose id is known is sent again
    /// only where its file has changed.
    Walk { known: Vec<String> },
    Send(Mutation),
    /// Wait until the writer has done all that was sent.
    Barrier,
    /// Remember what the walk saw.
    SaveManifest,
    /// Read the source at this place anew.
    ReadSource(usize),
    CommitNow,
    Finish { fs_docs: usize, other_docs: usize },
}

/// What a pass does once the walk is over and `next` sources are read.
pub open spec fn onward(pass: Pass, next: int, other_docs: usize) -> Seq<PassAction> {
    if next < pass.due@.len() {
        seq![PassAction::ReadSource(pass.due@[next])]
    } else {
        let last = PassAction::Finish { fs_docs: pass.fs_docs, other_docs };
        if pass.full {
            seq![PassAction::CommitNow, last]
        } else {
            seq![PassAction::SaveManifest, last]
        }
    }
}

/// What is done about the documents whose files are gone. A full pass has
/// forgotten what was there, so none is gone to it.
pub open spec fn after_walk(pass: Pass, deleted_ids: Vec<String>) -> Seq<PassAction> {
    if pass.full {
        seq![PassAction::SaveManifest]
    } else if deleted_ids@.len() > 0 {
        seq![PassAction::Send(Mutation::DeleteMany(deleted_ids)), PassAction::Barrier]
    } else {
        Seq::empty()
    }
}

/// Whether a pass walks with these ids as known.
pub open spec fn begins(
    pass: Pass,
    indexed_ids: Option<Vec<String>>,
    actions: Seq<PassAction>,
) -> bool {
    if pass.full {
        &&& actions.len() == 2
        &&& actions[0] is RemoveManifest
        &&& actions[1] matches PassAction::Walk { known } && known@.len() == 0
    } else {
        &&& actions.len() == 1
        &&& actions[0] matches PassAction::Walk { known } && match indexed_ids {
            Some(ids) => known == ids,
            None => known@.len() == 0,
        }
    }
}

/// What a pass does about an event.
pub open spec fn proceeds(pass: Pass, event: PassEvent, actions: Seq<PassAction>) -> bool {
    match event {
        PassEvent::Begin { indexed_ids } => begins(pass, indexed_ids, actions),
        PassEvent::Batch(docs) => actions == seq![
            PassAction::Send(Mutation::UpsertMany(docs)),
            PassAction::Barrier,
        ],
        PassEvent::Walked { deleted_ids } => actions == after_walk(pass, deleted_ids) + onward(
            pass,
            pass.next as int,
            pass.other_docs,
        ),
        PassEvent::SourceRead { upserts } => actions == seq![PassAction::Barrier] + onward(
            pass,
            pass.next + 1,
            (pass.other_docs + upserts) as usize,
        ),
    }
}

/// What an event does to a pass.
pub open spec fn after_event(pass: Pass, event: PassEvent) -> Pass {
    match event {
        PassEvent::Batch(docs) => Pass {
            fs_docs: (pass.fs_docs + docs@.len()) as usize,
            ..pass
        },
        PassEvent::SourceRead { upserts } => Pass {
            next: (pass.next + 1) as usize,
            other_docs: (pass.other_docs + upserts) as usize,
            ..pass
        },
        _ => pass,
    }
}

/// Whether an event can come now, and the counts do not run out.
pub open spec fn admits(pass: Pass, event: PassEvent) -> bool {
    match event {
        PassEvent::Batch(docs) => pass.fs_docs + docs@.len() <= usize::MAX,
        PassEvent::SourceRead { upserts } => pass.next < pass.due@.len() && pass.other_docs
            + upserts <= usize::MAX,
        _ => true,
    }
}

/// A pass that starts from nothing.
pub fn reindex_full(sources: &Vec<ReindexSource>) -> (r: Pass)
    ensures
        r.full,
        r.due@ == reindexed(sources@, sources@.len() as int),
        r.next == 0,
        r.fs_docs == 0,
        r.other_docs == 0,
{
    let due = reindex_non_fs_from_registry(sources);
    Pass { full: true, due, next: 0, fs_docs: 0, other_docs: 0 }
}

/// A pass that catches up. The other sources are read anew where the
/// index was built from scratch; else they catch up by themselves.
pub fn run_incremental(sources: &Vec<ReindexSource>, rebuilt_from_scratch: bool) -> (r: Pass)
    ensures
        !r.full,
        r.due@ == (if rebuilt_from_scratch {
            reindexed(sources@, sources@.len() as int)
        } else {
            Seq::<usize>::empty()
        }),
        r.next == 0,
        r.fs_docs == 0,
        r.other_docs == 0,
{
    let due: Vec<usize> = if rebuilt_from_scratch {
        reindex_non_fs_from_registry(sources)
    } else {
        Vec::new()
    };
    Pass { full: false, due, next: 0, fs_docs: 0, other_docs: 0 }
}

impl Pass {
    fn push_onward(&self, out: &mut Vec<PassAction>)
        ensures
            final(out)@ == old(out)@ + onward(*self, self.next as int, self.other_docs),
    {
        let ghost before = out@;
        if self.next < self.due.len() {
            out.push(PassAction::ReadSource(self.due[self.next]));
        } else {
            if self.full {
                out.push(PassAction::CommitNow);
            } else {
                out.push(PassAction::SaveManifest);
            }
            out.push(
                PassAction::Finish { fs_docs: self.fs_docs, other_docs: self.other_docs },
            );
        }
        proof {
            assert(out@ =~= before + onward(*self, self.next as int, self.other_docs));
        }
    }

    /// What the pass does about an event.
    pub fn step(&mut self, event: PassEvent) -> (r: Vec<PassAction>)
        requires
            admits(*old(self), event),
        ensures
            *final(self) == after_event(*old(self), event),
            proceeds(*old(self), event, r@),
    {
        let ghost was = *self;
        let mut out: Vec<PassAction> = Vec::new();
        match event {
            PassEvent::Begin { indexed_ids } => {
                if self.full {
                    out.push(PassAction::RemoveManifest);
                    out.push(PassAction::Walk { known: Vec::new() });
                } else {
                    let known = match indexed_ids {
                        Some(ids) => ids,
                        None => Vec::new(),
                    };
                    out.push(PassAction::Walk { known });
                }
            },
            PassEvent::Batch(docs) => {
                self.fs_docs = self.fs_docs + docs.len();
                out.push(PassAction::Send(Mutation::UpsertMany(docs)));
                out.push(PassAction::Barrier);
                proof {
                    assert(out@ =~= seq![
                        PassAction::Send(Mutation::UpsertMany(docs)),
                        PassAction::Barrier,
                    ]);
                }
            },
            PassEvent::Walked { deleted_ids } => {
                if self.full {
                    out.push(PassAction::SaveManifest);
                } else if deleted_ids.len() > 0 {
                    out.push(PassAction::Send(Mutation::DeleteMany(deleted_ids)));
                    out.push(PassAction::Barrier);
                }
                proof {
                    assert(out@ =~= after_walk(was, deleted_ids));
                }
                self.push_onward(&mut out);
            },
            PassEvent::SourceRead { upserts } => {
                let total: usize = self.due.len();
                assert(self.next < total);
                self.next = self.next + 1;
                self.other_docs = self.other_docs + upserts;
                out.push(PassAction::Barrier);
                proof {
                    assert(out@ =~= seq![PassAction::Barrier]);
                    assert(onward(*self, self.next as int, self.other_docs) == onward(
                        was,
                        was.next + 1,
                        (was.other_docs + upserts) as usize,
                    ));
                }
                self.push_onward(&mut out);
            },
        }
        out
    }
}

/// The outcome of a full pass.
pub fn outcome(fs_docs: usize, other_docs: usize) -> (r: ReindexOutcome)
    requires
        fs_docs + other_docs <= usize::MAX,
    ensures
        r.fs_docs == fs_docs,
        r.other_docs == other_docs,
        r.total_docs == fs_docs + other_docs,
{
    ReindexOutcome { total_docs: fs_docs + other_docs, fs_docs, other_docs }
}

/// What was found at a path that is to be read anew.
#[derive(Clone, Debug, PartialEq, Eq)]
pub enum Found {
    /// A file; its document, where one could be made.
    File(Option<Document>),
    /// A directory, and what is below it.
    Dir(Vec<Document>),
    /// Neither.
    Nothing,
}

/// The documents that were found at a path.
pub open spec fn documents_at(found: Found) -> Seq<Document> {
    match found {
        Found::File(Some(doc)) => seq![doc],
        Found::File(None) => Seq::empty(),
        Found::Dir(docs) => docs@,
        Found::Nothing => Seq::empty(),
    }
}

/// The documents that were found at the first `n` paths.
pub open spec fn documents_of(found: Seq<Found>, n: int) -> Seq<Document>
    decreases n,
{
    if n <= 0 {
        Seq::empty()
    } else {
        documents_of(found, n - 1) + documents_at(found[n - 1])
    }
}

/// The request for the documents of chosen paths, and their number. A
/// commit follows it.
pub fn reindex_paths(found: Vec<Found>) -> (r: (Mutation, usize))
    ensures
        r.0 matches Mutation::UpsertMany(docs) && docs@ == documents_of(
            found@,
            found@.len() as int,
        ) && r.1 == docs@.len(),
{
    let ghost all = found@;
    let mut docs: Vec<Document> = Vec::new();
    for x in it: found.into_iter()
        invariant
            it.seq() == all,
            docs@ == documents_of(all, it.index() as int),
    {
        let ghost i = it.index() as int;
        let ghost before = docs@;
        match x {
            Found::File(made) => match made {
                Some(doc) => {
                    docs.push(doc);
                },
                None => {},
            },
            Found::Dir(below) => {
                let mut more = below;
                docs.append(&mut more);
            },
            Found::Nothing => {},
        }
        proof {
            assert(all[i] == x);
            assert(docs@ =~= before + documents_at(x));
        }
    }
    let count: usize = docs.len();
    (Mutation::UpsertMany(docs), count)
}

// ---------------------------------------------------------------------
// Laws
// ---------------------------------------------------------------------

/// Law: a pass never runs ahead of the writer. Whatever it sends, it waits
/// for before it does anything else.
pub proof fn law_every_request_is_awaited(
    pass: Pass,
    event: PassEvent,
    actions: Seq<PassAction>,
    k: int,
)
    requires
        proceeds(pass, event, actions),
        0 <= k < actions.len(),
        actions[k] is Send,
    ensures
        k + 1 < actions.len() && actions[k + 1] is Barrier,
{
    match event {
        PassEvent::Walked { deleted_ids } => {
            let first = after_walk(pass, deleted_ids);
            if k >= first.len() {
                assert(actions[k] == onward(pass, pass.next as int, pass.other_docs)[k
                    - first.len()]);
            }
        },
        PassEvent::SourceRead { upserts } => {
            let more = onward(pass, pass.next + 1, (pass.other_docs + upserts) as usize);
            if k >= 1 {
                assert(actions[k] == more[k - 1]);
            }
        },
        _ => {},
    }
}

/// Law: a pass ends when every source that is due was read, and not
/// before; a full one ends with a commit, and one that catches up by
/// remembering the walk, so that one which was cut short walks again.
pub proof fn law_a_pass_ends_in_order(
    pass: Pass,
    event: PassEvent,
    actions: Seq<PassAction>,
    k: int,
)
    requires
        pass.next <= pass.due@.len(),
        admits(pass, event),
        proceeds(pass, event, actions),
        0 <= k < actions.len(),
        actions[k] is Finish,
    ensures
        after_event(pass, event).next == pass.due@.len(),
        k == actions.len() - 1,
        k > 0,
        pass.full ==> actions[k - 1] is CommitNow,
        !pass.full ==> actions[k - 1] is SaveManifest,
        actions[k] == (PassAction::Finish {
            fs_docs: after_event(pass, event).fs_docs,
            other_docs: after_event(pass, event).other_docs,
        }),
{
    assert(pass.due@.len() == pass.due.len());
    match event {
        PassEvent::Walked { deleted_ids } => {
            let first = after_walk(pass, deleted_ids);
            let more = onward(pass, pass.next as int, pass.other_docs);
            if k >= first.len() {
                assert(actions[k] == more[k - first.len()]);
                if k > first.len() {
                    assert(actions[k - 1] == more[k - 1 - first.len()]);
                }
            }
        },
        PassEvent::SourceRead { upserts } => {
            let more = onward(pass, pass.next + 1, (pass.other_docs + upserts) as usize);
            assert(actions[k] == more[k - 1]);
            if k > 1 {
                assert(actions[k - 1] == more[k - 2]);
            }
        },
        _ => {},
    }
}

/// Law: what a walk finds is sent to be indexed, and what it finds gone is
/// sent to be deleted, each followed by a wait for the writer. A pass that
/// starts from nothing deletes nothing, since it has wiped what was there.
pub proof fn law_what_a_walk_finds_is_sent(pass: Pass, event: PassEvent, actions: Seq<PassAction>)
    requires
        proceeds(pass, event, actions),
    ensures
        event matches PassEvent::Batch(docs) ==> actions.len() == 2 && (
        actions[0] matches PassAction::Send(Mutation::UpsertMany(sent)) && sent@ == docs@)
            && actions[1] is Barrier,
        event matches PassEvent::Walked { deleted_ids } ==> !pass.full && deleted_ids@.len() > 0
            ==> (actions[0] matches PassAction::Send(Mutation::DeleteMany(sent)) && sent@
            == deleted_ids@) && actions[1] is Barrier,
        pass.full || !(event is Walked) ==> forall|k: int|
            0 <= k < actions.len() ==> !((#[trigger] actions[k]) matches PassAction::Send(
                Mutation::DeleteMany(_),
            )),
        event matches PassEvent::Begin { indexed_ids } ==> {
            let walk = actions.last();
            &&& walk matches PassAction::Walk { known } && known@ == (if pass.full {
                Seq::<String>::empty()
            } else {
                match indexed_ids {
                    Some(ids) => ids@,
                    None => Seq::<String>::empty(),
                }
            })
            &&& pass.full <==> actions[0] is RemoveManifest
        },
{
    if let PassEvent::Begin { indexed_ids } = event {
        if pass.full {
            assert(actions.last() == actions[1]);
            let known = actions[1]->known;
            assert(known@ =~= Seq::<String>::empty());
        } else {
            assert(actions.last() == actions[0]);
            let known = actions[0]->known;
            if indexed_ids is None {
                assert(known@ =~= Seq::<String>::empty());
            }
        }
    }
}

/// Law: every source that is due is read, in order, one after the other, and
/// the pass ends only once all have been.
pub proof fn law_every_due_source_is_read(pass: Pass, event: PassEvent, actions: Seq<PassAction>)
    requires
        pass.next <= pass.due@.len(),
        admits(pass, event),
        proceeds(pass, event, actions),
        event is Walked || event is SourceRead,
    ensures
        ({
            let now = after_event(pass, event);
            &&& actions.len() > 0
            &&& now.due@ == pass.due@
            &&& event is Walked ==> now.next == pass.next && now.other_docs == pass.other_docs
            &&& event matches PassEvent::SourceRead { upserts } ==> now.next == pass.next + 1
                && now.other_docs == pass.other_docs + upserts
            &&& now.fs_docs == pass.fs_docs
            &&& if now.next < pass.due@.len() {
                actions.last() matches PassAction::ReadSource(i) && i == pass.due@[now.next as int]
            } else {
                actions.last() matches PassAction::Finish { fs_docs, other_docs } && fs_docs
                    == pass.fs_docs && other_docs == now.other_docs
            }
        }),
{
    assert(pass.due.len() == pass.due@.len());
    let now = after_event(pass, event);
    let rest = onward(pass, now.next as int, now.other_docs);
    assert(rest.len() > 0);
    match event {
        PassEvent::Walked { deleted_ids } => {
            let lead = after_walk(pass, deleted_ids);
            assert(actions == lead + rest);
            assert(actions.last() == rest.last());
        },
        PassEvent::SourceRead { upserts } => {
            assert(actions == seq![PassAction::Barrier] + rest);
            assert(actions.last() == rest.last());
        },
        _ => {},
    }
}

/// Law: a pass counts every document that it has sent.
pub proof fn law_a_pass_counts_what_it_sends(pass: Pass, docs: Vec<Document>)
    requires
        admits(pass, PassEvent::Batch(docs)),
    ensures
        after_event(pass, PassEvent::Batch(docs)).fs_docs == pass.fs_docs + docs@.len(),
        after_event(pass, PassEvent::Batch(docs)).other_docs == pass.other_docs,
        after_event(pass, PassEvent::Batch(docs)).next == pass.next,
{
}

proof fn lemma_reindexed(sources: Seq<ReindexSource>, n: int, i: usize)
    requires
        0 <= n <= sources.len(),
        sources.len() <= usize::MAX,
    ensures
        reindexed(sources, n).contains(i) <==> i < n && sources[i as int].kind@ != "fs"@
            && sources[i as int].on_schema_wipe,
        forall|a: int, b: int|
            0 <= a < b < reindexed(sources, n).len() ==> (#[trigger] reindexed(sources, n)[a]) < (
            #[trigger] reindexed(sources, n)[b]),
        forall|a: int|
            0 <= a < reindexed(sources, n).len() ==> (#[trigger] reindexed(sources, n)[a]) < n,
    decreases n,
{
    if n > 0 {
        lemma_reindexed(sources, n - 1, i);
        let before = reindexed(sources, n - 1);
        let now = reindexed(sources, n);
        if reindexes(sources[n - 1]) {
            assert(now[before.len() as int] == n - 1);
            if before.contains(i) {
                let k = choose|k: int| 0 <= k < before.len() && before[k] == i;
                assert(now[k] == i);
            }
            if now.contains(i) && i != n - 1 {
                let k = choose|k: int| 0 <= k < now.len() && now[k] == i;
                assert(before[k] == i);
            }
        }
    }
}

/// Law: exactly the sources other than the files that ask for it are read
/// anew after the index was wiped, each once and in the order in which they
/// are registered.
pub proof fn law_sources_are_read_anew(sources: Seq<ReindexSource>, i: usize)
    requires
        sources.len() <= usize::MAX,
    ensures
        reindexed(sources, sources.len() as int).contains(i) <==> i < sources.len()
            && sources[i as int].kind@ != "fs"@ && sources[i as int].on_schema_wipe,
        forall|a: int, b: int|
            0 <= a < b < reindexed(sources, sources.len() as int).len() ==> (
            #[trigger] reindexed(sources, sources.len() as int)[a]) < (#[trigger] reindexed(
                sources,
                sources.len() as int,
            )[b]),
{
    lemma_reindexed(sources, sources.len() as int, i);
}

proof fn lemma_documents_of(found: Seq<Found>, n: int, i: int, doc: Document)
    requires
        0 <= i < n <= found.len(),
        match found[i] {
            Found::File(made) => made == Some(doc),
            Found::Dir(docs) => docs@.contains(doc),
            Found::Nothing => false,
        },
    ensures
        documents_of(found, n).contains(doc),
    decreases n,
{
    let before = documents_of(found, n - 1);
    let more = documents_at(found[n - 1]);
    if i == n - 1 {
        match found[i] {
            Found::File(made) => {
                assert(more[0] == doc);
            },
            _ => {},
        }
        let k = choose|k: int| 0 <= k < more.len() && more[k] == doc;
        assert((before + more)[before.len() + k] == doc);
    } else {
        lemma_documents_of(found, n - 1, i, doc);
        let k = choose|k: int| 0 <= k < before.len() && before[k] == doc;
        assert((before + more)[k] == doc);
    }
}

/// Law: every document that was found at a chosen path is in the request:
/// the one of a file, and all below a directory.
pub proof fn law_every_found_document_is_requested(found: Seq<Found>, i: int, doc: Document)
    requires
        0 <= i < found.len(),
    ensures
        found[i] == Found::File(Some(doc)) ==> documents_of(found, found.len() as int).contains(
            doc,
        ),
        found[i] matches Found::Dir(docs) ==> docs@.contains(doc) ==> documents_of(
            found,
            found.len() as int,
        ).contains(doc),
{
    if found[i] == Found::File(Some(doc)) || (found[i] matches Found::Dir(docs)
        && docs@.contains(doc)) {
        lemma_documents_of(found, found.len() as int, i, doc);
    }
}

/// Law: a sink counts one for a document and one for each of several, and
/// nothing for anything else.
pub proof fn law_a_sink_counts_documents(mutation: SourceMutation)
    ensures
        mutation is Upsert ==> upserts_of(mutation) == 1,
        mutation matches SourceMutation::UpsertMany(docs) ==> upserts_of(mutation) == docs@.len(),
        !(mutation is Upsert) && !(mutation is UpsertMany) ==> upserts_of(mutation) == 0,
{
}

/// Law: a pass does what it does in order and nothing else: a full one
/// remembers what the walk saw, any other first has the vanished documents
/// deleted; a source that was read is awaited; and then one source is read,
/// or the pass ends.
pub proof fn law_a_pass_takes_its_steps(pass: Pass, event: PassEvent, actions: Seq<PassAction>)
    requires
        pass.next <= pass.due@.len(),
        admits(pass, event),
        proceeds(pass, event, actions),
    ensures
        ({
            let now = after_event(pass, event);
            let last = if now.next < pass.due@.len() {
                1int
            } else {
                2
            };
            &&& event matches PassEvent::Walked { deleted_ids } ==> {
                &&& pass.full ==> actions.len() == 1 + last && actions[0] is SaveManifest
                &&& !pass.full ==> actions.len() == (if deleted_ids@.len() > 0 {
                    2int
                } else {
                    0
                }) + last
            }
            &&& event is SourceRead ==> actions.len() == 1 + last && actions[0] is Barrier
            &&& event is Begin ==> actions.len() == (if pass.full {
                2int
            } else {
                1
            })
            &&& now.full == pass.full
        }),
{
    assert(pass.due.len() == pass.due@.len());
}

/// Law: only documents that were found are requested, path by path.
pub proof fn law_only_found_documents_are_requested(found: Seq<Found>, n: int)
    requires
        0 <= n <= found.len(),
    ensures
        documents_of(found, 0) == Seq::<Document>::empty(),
        n < found.len() ==> documents_of(found, n + 1) == documents_of(found, n) + (
        match found[n] {
            Found::File(Some(doc)) => seq![doc],
            Found::Dir(docs) => docs@,
            _ => Seq::empty(),
        }),
{
}

} // verus!
