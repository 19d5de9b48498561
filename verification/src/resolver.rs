//! What becomes of a path that the watcher looks at again.

use vstd::prelude::*;

use crate::index_service::Mutation;
use crate::model::Document;
use crate::text;
use crate::watcher::RefreshJob;

verus! {

/// What the file system says a path is.
#[derive(Clone, Copy, Debug, PartialEq, Eq, Structural)]
pub enum PathState {
    Missing,
    File,
    Directory,
    Other,
}

/// One entry of a directory tree.
#[derive(Clone, Debug, PartialEq, Eq)]
pub struct WalkEntry {
    pub path: String,
    pub state: PathState,
}

/// What a worker has learnt. Where a file could not be read, `doc` is
/// `None`. `raw_id` is the document id of a path that is gone, `alias` the
/// id that was noted for it.
#[derive(Clone, Debug, PartialEq, Eq)]
pub enum ResolverEvent {
    Job(RefreshJob),
    Looked { path: String, state: PathState, excluded: bool },
    Indexed { path: String, doc: Option<Document> },
    Walked { entries: Vec<WalkEntry> },
    Gone { raw_id: String, alias: Option<String> },
}

/// The id that a path's document has, for the time when the path is gone
/// and its links can no longer be followed.
#[derive(Clone, Debug, PartialEq, Eq)]
pub struct Alias {
    pub observed: String,
    pub doc_id: String,
}

/// What a worker does next.
#[derive(Clone, Debug, PartialEq, Eq)]
pub enum ResolverAction {
    /// Ask the file system about the path.
    Look { path: String },
    /// Index the file.
    Index { path: String },
    /// List the directory tree, excluded parts left out.
    Walk { path: String },
    /// Ask for the alias noted for the path.
    LookUpAlias { path: String },
    /// Note the alias, forget the one of the given id, and send the
    /// mutation.
    Send { mutation: Mutation, note: Option<Alias>, forget: Option<String> },
    /// Watch the directories, and look at the files again.
    Expand { watch: Vec<String>, refresh: Vec<String> },
    Nothing,
}

/// The paths of the entries in this state, in order.
pub open spec fn entries_in(entries: Seq<WalkEntry>, state: PathState) -> Seq<Seq<char>>
    decreases entries.len(),
{
    if entries.len() == 0 {
        Seq::empty()
    } else if entries.last().state == state {
        entries_in(entries.drop_last(), state).push(entries.last().path@)
    } else {
        entries_in(entries.drop_last(), state)
    }
}

/// The texts of a list.
pub open spec fn views(v: Seq<String>) -> Seq<Seq<char>> {
    Seq::new(v.len(), |i: int| v[i]@)
}

/// The document id of a path none of whose links was followed.
pub open spec fn unresolved_id(path: Seq<char>) -> Seq<char> {
    "fs:"@ + path
}

/// What a worker does about an event.
pub open spec fn answers(event: ResolverEvent, action: ResolverAction) -> bool {
    match event {
        ResolverEvent::Job(RefreshJob::DeleteSubtree(id)) => action == ResolverAction::Send {
            mutation: Mutation::DeleteSubtree(id),
            note: None,
            forget: None,
        },
        ResolverEvent::Job(RefreshJob::Refresh(path)) => action == ResolverAction::Look { path },
        ResolverEvent::Looked { path, state, excluded } => action == (match state {
            PathState::Missing => ResolverAction::LookUpAlias { path },
            PathState::File => if excluded {
                ResolverAction::Nothing
            } else {
                ResolverAction::Index { path }
            },
            PathState::Directory => if excluded {
                ResolverAction::Nothing
            } else {
                ResolverAction::Walk { path }
            },
            PathState::Other => ResolverAction::Nothing,
        }),
        ResolverEvent::Indexed { path, doc: None } => action is Nothing,
        ResolverEvent::Indexed { path, doc: Some(doc) } => {
            &&& action matches ResolverAction::Send { mutation, note, forget }
            &&& mutation == Mutation::Upsert(doc)
            &&& forget is None
            &&& if unresolved_id(path@) == doc.id.0@ {
                note is None
            } else {
                note matches Some(a) && a.observed@ == path@ && a.doc_id@ == doc.id.0@
            }
        },
        ResolverEvent::Walked { entries } => {
            &&& action matches ResolverAction::Expand { watch, refresh }
            &&& views(watch@) == entries_in(entries@, PathState::Directory)
            &&& views(refresh@) == entries_in(entries@, PathState::File)
        },
        ResolverEvent::Gone { raw_id, alias: None } => action == ResolverAction::Send {
            mutation: Mutation::DeleteSubtree(raw_id),
            note: None,
            forget: None,
        },
        ResolverEvent::Gone { raw_id, alias: Some(id) } => action == ResolverAction::Send {
            mutation: Mutation::DeleteSubtree(id),
            note: None,
            forget: Some(id),
        },
    }
}

fn paths_in(entries: &Vec<WalkEntry>, state: PathState) -> (r: Vec<String>)
    ensures
        views(r@) == entries_in(entries@, state),
{
    let mut out: Vec<String> = Vec::new();
    let mut i: usize = 0;
    proof {
        assert(views(out@) =~= entries_in(entries@.take(0), state));
    }
    while i < entries.len()
        invariant
            i <= entries@.len(),
            views(out@) == entries_in(entries@.take(i as int), state),
        decreases entries@.len() - i,
    {
        let ghost before = out@;
        proof {
            assert(entries@.take(i + 1).drop_last() =~= entries@.take(i as int));
            assert(entries@.take(i + 1).last() == entries@[i as int]);
        }
        if entries[i].state == state {
            out.push(entries[i].path.clone());
            proof {
                assert(views(out@) =~= views(before).push(entries@[i as int].path@));
            }
        }
        i = i + 1;
    }
    proof {
        assert(entries@.take(entries@.len() as int) =~= entries@);
    }
    out
}

/// Whether a path's document id differs from the one that the bare path
/// gives, so that it has to be noted.
pub fn needs_alias(path: &str, doc_id: &str) -> (r: bool)
    ensures
        r == (unresolved_id(path@) != doc_id@),
{
    let mut id: Vec<char> = text::to_chars("fs:");
    text::append_chars(&mut id, &text::to_chars(path));
    !text::chars_eq(&id, &text::to_chars(doc_id))
}

/// The next action of a worker.
pub fn step(event: ResolverEvent) -> (action: ResolverAction)
    ensures
        answers(event, action),
{
    match event {
        ResolverEvent::Job(RefreshJob::DeleteSubtree(id)) => ResolverAction::Send {
            mutation: Mutation::DeleteSubtree(id),
            note: None,
            forget: None,
        },
        ResolverEvent::Job(RefreshJob::Refresh(path)) => ResolverAction::Look { path },
        ResolverEvent::Looked { path, state, excluded } => match state {
            PathState::Missing => ResolverAction::LookUpAlias { path },
            PathState::File => if excluded {
                ResolverAction::Nothing
            } else {
                ResolverAction::Index { path }
            },
            PathState::Directory => if excluded {
                ResolverAction::Nothing
            } else {
                ResolverAction::Walk { path }
            },
            PathState::Other => ResolverAction::Nothing,
        },
        ResolverEvent::Indexed { path, doc } => match doc {
            None => ResolverAction::Nothing,
            Some(doc) => {
                let note = if needs_alias(path.as_str(), doc.id.0.as_str()) {
                    Some(Alias { observed: path, doc_id: doc.id.0.clone() })
                } else {
                    None
                };
                ResolverAction::Send { mutation: Mutation::Upsert(doc), note, forget: None }
            },
        },
        ResolverEvent::Walked { entries } => {
            let watch = paths_in(&entries, PathState::Directory);
            let refresh = paths_in(&entries, PathState::File);
            ResolverAction::Expand { watch, refresh }
        },
        ResolverEvent::Gone { raw_id, alias } => match alias {
            None => ResolverAction::Send {
                mutation: Mutation::DeleteSubtree(raw_id),
                note: None,
                forget: None,
            },
            Some(id) => {
                let forget = Some(id.clone());
                ResolverAction::Send { mutation: Mutation::DeleteSubtree(id), note: None, forget }
            },
        },
    }
}

/// Law: a path that was indexed under another id than its own, and that
/// then vanishes, has that document purged, by the alias noted for it.
pub proof fn law_alias_leads_back(
    path: String,
    doc: Document,
    indexed: ResolverAction,
    gone: ResolverAction,
    raw_id: String,
)
    requires
        answers((ResolverEvent::Indexed { path, doc: Some(doc) }), indexed),
        indexed matches ResolverAction::Send { note: Some(a), .. } ==> answers(
            (ResolverEvent::Gone { raw_id, alias: Some(a.doc_id) }),
            gone,
        ),
        unresolved_id(path@) != doc.id.0@,
    ensures
        gone matches ResolverAction::Send { mutation: Mutation::DeleteSubtree(id), .. } && id@
            == doc.id.0@,
{
}

/// Law: every step towards the index follows from what was learnt. A path
/// to refresh is looked at; a file that is there and not excluded is indexed
/// and a directory is walked, a path that is gone has its alias looked up;
/// what is excluded, or neither file nor directory, is left alone; what was
/// indexed is upserted; and what is gone is purged with all below it, by the
/// id that was noted for it or else by its own.
pub proof fn law_paths_are_followed_up(event: ResolverEvent, action: ResolverAction)
    requires
        answers(event, action),
    ensures
        event matches ResolverEvent::Job(RefreshJob::Refresh(path)) ==> (
        action matches ResolverAction::Look { path: p } && p@ == path@),
        event matches ResolverEvent::Job(RefreshJob::DeleteSubtree(id)) ==> (
        action matches ResolverAction::Send { mutation: Mutation::DeleteSubtree(gone), .. } && gone@
            == id@),
        event matches ResolverEvent::Looked { path, state, excluded } ==> {
            &&& state == PathState::Missing ==> (action matches ResolverAction::LookUpAlias {
                path: p,
            } && p@ == path@)
            &&& state == PathState::File && !excluded ==> (action matches ResolverAction::Index {
                path: p,
            } && p@ == path@)
            &&& state == PathState::Directory && !excluded ==> (
            action matches ResolverAction::Walk { path: p } && p@ == path@)
            &&& state == PathState::Other || (excluded && state != PathState::Missing)
                ==> action is Nothing
        },
        event matches ResolverEvent::Indexed { path, doc: Some(doc) } ==> (
        action matches ResolverAction::Send { mutation: Mutation::Upsert(sent), forget, .. } && sent
            == doc && forget is None),
        event matches ResolverEvent::Indexed { path, doc: None } ==> action is Nothing,
        event matches ResolverEvent::Gone { raw_id, alias: None } ==> (
        action matches ResolverAction::Send { mutation: Mutation::DeleteSubtree(gone), note, forget }
            && gone@ == raw_id@ && note is None && forget is None),
        event matches ResolverEvent::Gone { raw_id, alias: Some(id) } ==> (
        action matches ResolverAction::Send { mutation: Mutation::DeleteSubtree(gone), note, forget }
            && gone@ == id@ && note is None && (forget matches Some(f) && f@ == id@)),
{
}

proof fn lemma_entries_in(entries: Seq<WalkEntry>, state: PathState, k: int)
    requires
        0 <= k < entries.len(),
        entries[k].state == state,
    ensures
        entries_in(entries, state).contains(entries[k].path@),
    decreases entries.len(),
{
    let lead = entries_in(entries.drop_last(), state);
    let all = entries_in(entries, state);
    if k == entries.len() - 1 {
        assert(all[lead.len() as int] == entries[k].path@);
    } else {
        lemma_entries_in(entries.drop_last(), state, k);
        let j = choose|j: int| 0 <= j < lead.len() && lead[j] == entries[k].path@;
        assert(all[j] == entries[k].path@);
    }
}

proof fn lemma_entries_from(entries: Seq<WalkEntry>, state: PathState, j: int)
    requires
        0 <= j < entries_in(entries, state).len(),
    ensures
        exists|k: int|
            0 <= k < entries.len() && (#[trigger] entries[k]).state == state && entries[k].path@
                == entries_in(entries, state)[j],
    decreases entries.len(),
{
    let lead = entries_in(entries.drop_last(), state);
    if entries.len() > 0 {
        if j < lead.len() {
            lemma_entries_from(entries.drop_last(), state, j);
            let k = choose|k: int|
                0 <= k < entries.drop_last().len() && (#[trigger] entries.drop_last()[k]).state
                    == state && entries.drop_last()[k].path@ == lead[j];
            assert(entries[k].state == state);
        } else {
            assert(entries[entries.len() - 1].state == state);
        }
    }
}

/// Law: of a directory that was walked every directory is watched and every
/// file is looked at again, and nothing else is.
pub proof fn law_a_walk_is_followed_up(
    entries: Vec<WalkEntry>,
    action: ResolverAction,
    path: Seq<char>,
)
    requires
        answers(ResolverEvent::Walked { entries }, action),
    ensures
        action matches ResolverAction::Expand { watch, refresh } && {
            &&& views(watch@).contains(path) <==> exists|k: int|
                0 <= k < entries@.len() && (#[trigger] entries@[k]).state == PathState::Directory
                    && entries@[k].path@ == path
            &&& views(refresh@).contains(path) <==> exists|k: int|
                0 <= k < entries@.len() && (#[trigger] entries@[k]).state == PathState::File
                    && entries@[k].path@ == path
        },
{
    lemma_listed(entries@, PathState::Directory, path);
    lemma_listed(entries@, PathState::File, path);
}

proof fn lemma_listed(entries: Seq<WalkEntry>, state: PathState, path: Seq<char>)
    ensures
        entries_in(entries, state).contains(path) <==> exists|k: int|
            0 <= k < entries.len() && (#[trigger] entries[k]).state == state && entries[k].path@
                == path,
{
    if entries_in(entries, state).contains(path) {
        let j = choose|j: int|
            0 <= j < entries_in(entries, state).len() && entries_in(entries, state)[j] == path;
        lemma_entries_from(entries, state, j);
    }
    if exists|k: int|
        0 <= k < entries.len() && (#[trigger] entries[k]).state == state && entries[k].path@
            == path {
        let k = choose|k: int|
            0 <= k < entries.len() && (#[trigger] entries[k]).state == state && entries[k].path@
                == path;
        lemma_entries_in(entries, state, k);
    }
}

/// Law: an id is noted for a path where it cannot be told from the path
/// itself, and only there.
pub proof fn law_ids_are_noted_where_needed(path: String, doc: Document, action: ResolverAction)
    requires
        answers((ResolverEvent::Indexed { path, doc: Some(doc) }), action),
    ensures
        action matches ResolverAction::Send { note, .. } && match note {
            Some(a) => doc.id.0@ != "fs:"@ + path@ && a.observed@ == path@ && a.doc_id@
                == doc.id.0@,
            None => doc.id.0@ == "fs:"@ + path@,
        },
{
}

} // verus!
