//! The index writer over an index in memory.

use lixun::index_service::{
    broadcast_failures, collect_subtree_ids, id_in_subtree, id_tombstoned, stats, BroadcastLog,
    Fetch, Fetched, Mutation, Reply, WriterOp, WriterState, COMMIT_MIN_INTERVAL_MS,
};
use lixun::indexer::{
    outcome, reindex_full, reindex_non_fs_from_registry, reindex_paths, run_incremental,
    CountingSink, Found, PassAction, PassEvent, ReindexSource,
};
use lixun::model::{Action, Category, DocId, Document};
use lixun::mutation::{
    MultiBroadcaster, MutationBatch, MutationBroadcaster, NoopBroadcaster, UpsertedDoc,
};
use lixun::writer_sink::{emit, upsert_body, SourceMutation};
use std::collections::BTreeMap;
use std::sync::{Arc, Mutex};

fn make_doc(id: &str) -> Document {
    Document {
        id: DocId(id.to_string()),
        category: Category::File,
        title: id.rsplit('/').next().unwrap_or(id).to_string(),
        subtitle: id.to_string(),
        icon_name: None,
        kind_label: None,
        body: None,
        path: id.to_string(),
        mtime: 0,
        size: 0,
        action: Action::OpenFile { path: id.to_string() },
        extract_fail: false,
        sender: None,
        recipients: None,
        mime: None,
        source_instance: "builtin:fs".to_string(),
        secondary_action: None,
        extra: Vec::new(),
    }
}

/// Committed and pending documents, and the writer that decides on them.
struct Service {
    state: WriterState,
    committed: BTreeMap<String, Document>,
    pending: BTreeMap<String, Document>,
    batches: Vec<MutationBatch>,
    replies: Vec<Reply>,
}

impl Service {
    fn new() -> Service {
        Service {
            state: WriterState::new(0),
            committed: BTreeMap::new(),
            pending: BTreeMap::new(),
            batches: Vec::new(),
            replies: Vec::new(),
        }
    }

    fn send(&mut self, m: Mutation) -> bool {
        let fetched = match (self.state.fetch(&m), &m) {
            (Fetch::AllDocIds, _) => {
                Fetched::AllDocIds(Some(self.committed.keys().cloned().collect()))
            }
            (Fetch::CommittedDoc, Mutation::UpsertBody { doc_id, .. }) => {
                Fetched::CommittedDoc(self.committed.get(doc_id).cloned())
            }
            _ => Fetched::Nothing,
        };
        let step = self.state.plan(m, fetched);
        for op in step.ops {
            match &op {
                WriterOp::Upsert(doc) => {
                    self.pending.insert(doc.id.0.clone(), doc.clone());
                }
                WriterOp::Delete(id) => {
                    self.pending.remove(id);
                }
                WriterOp::DeleteSourceInstance(instance) => {
                    self.pending.retain(|_, d| d.source_instance != *instance);
                }
            }
            self.state.record(op, true);
        }
        self.replies.extend(step.replies);
        if step.commit {
            self.commit(10, 1);
        }
        step.stop
    }

    fn commit(&mut self, now_ms: u64, latency_ms: u64) {
        self.committed = self.pending.clone();
        let done = self.state.committed(now_ms, latency_ms);
        self.replies.extend(done.replies);
        self.batches.extend(done.batch);
    }

    fn commit_now(&mut self) {
        self.send(Mutation::CommitNow(1));
    }

    fn has(&self, id: &str) -> bool {
        self.committed.contains_key(id)
    }

    fn body(&self, id: &str) -> Option<String> {
        self.committed.get(id).and_then(|d| d.body.clone())
    }
}

#[test]
fn writer_subtree_delete_purges_matching_ids() {
    let mut service = Service::new();
    service.send(Mutation::UpsertMany(vec![
        make_doc("fs:/d"),
        make_doc("fs:/d/a.txt"),
        make_doc("fs:/d/sub/b.txt"),
        make_doc("fs:/other.txt"),
    ]));
    service.commit_now();
    assert!(service.has("fs:/d"));
    assert!(service.has("fs:/d/a.txt"));
    assert!(service.has("fs:/d/sub/b.txt"));
    assert!(service.has("fs:/other.txt"));

    service.send(Mutation::DeleteSubtree("fs:/d".to_string()));
    service.commit_now();

    assert!(!service.has("fs:/d"), "prefix doc must be purged");
    assert!(!service.has("fs:/d/a.txt"), "direct child must be purged");
    assert!(!service.has("fs:/d/sub/b.txt"), "deep descendant must be purged");
    assert!(service.has("fs:/other.txt"), "unrelated sibling must survive");
}

#[test]
fn writer_subtree_delete_catches_uncommitted_same_subtree_upsert() {
    let mut service = Service::new();
    service.send(Mutation::UpsertMany(vec![make_doc("fs:/keep.txt")]));
    service.commit_now();

    service.send(Mutation::Upsert(make_doc("fs:/d/new.txt")));
    service.send(Mutation::DeleteSubtree("fs:/d".to_string()));
    service.commit_now();

    assert!(
        !service.has("fs:/d/new.txt"),
        "uncommitted upsert in same batch must be caught by DeleteSubtree"
    );
    assert!(service.has("fs:/keep.txt"), "unrelated doc must remain");
}

#[test]
fn writer_subtree_delete_tombstones_later_upserts_in_same_batch() {
    let mut service = Service::new();
    service.send(Mutation::UpsertMany(vec![
        make_doc("fs:/d/old.txt"),
        make_doc("fs:/keep.txt"),
    ]));
    service.commit_now();

    service.send(Mutation::DeleteSubtree("fs:/d".to_string()));
    service.send(Mutation::Upsert(make_doc("fs:/d/orphan.txt")));
    service.send(Mutation::UpsertMany(vec![make_doc("fs:/d/sub/orphan2.txt")]));
    service.commit_now();

    assert!(!service.has("fs:/d/old.txt"), "committed doc under prefix must be purged");
    assert!(
        !service.has("fs:/d/orphan.txt"),
        "upsert processed after DeleteSubtree in the same batch must be dropped"
    );
    assert!(
        !service.has("fs:/d/sub/orphan2.txt"),
        "upsert_many processed after DeleteSubtree in the same batch must be dropped"
    );
    assert!(service.has("fs:/keep.txt"), "unrelated doc must remain");

    service.send(Mutation::Upsert(make_doc("fs:/d/reborn.txt")));
    service.commit_now();
    assert!(
        service.has("fs:/d/reborn.txt"),
        "tombstone must not outlive the commit that made the delete durable"
    );
}

fn body_of_scan(body: &str, expected_mtime: i64) -> Mutation {
    Mutation::UpsertBody {
        doc_id: "fs:/scan.png".to_string(),
        body: body.to_string(),
        expected_mtime: Some(expected_mtime),
    }
}

#[test]
fn writer_upsert_body_skips_when_committed_doc_newer_than_snapshot() {
    let mut service = Service::new();
    let mut doc = make_doc("fs:/scan.png");
    doc.mtime = 100;
    service.send(Mutation::Upsert(doc));
    service.commit_now();

    service.send(body_of_scan("stale ocr", 50));
    service.commit_now();
    assert_eq!(
        service.body("fs:/scan.png"),
        None,
        "write-back with an older snapshot must be skipped"
    );

    service.send(body_of_scan("fresh ocr", 100));
    service.commit_now();
    assert_eq!(service.body("fs:/scan.png").as_deref(), Some("fresh ocr"));
}

#[test]
fn writer_upsert_body_skips_when_newer_upsert_staged_in_same_batch() {
    let mut service = Service::new();
    let mut doc = make_doc("fs:/scan.png");
    doc.mtime = 100;
    service.send(Mutation::Upsert(doc));
    service.commit_now();

    let mut newer = make_doc("fs:/scan.png");
    newer.mtime = 200;
    newer.body = Some("fresh extract".to_string());
    service.send(Mutation::Upsert(newer));
    service.send(body_of_scan("ocr of old bytes", 100));
    service.commit_now();

    assert_eq!(
        service.body("fs:/scan.png").as_deref(),
        Some("fresh extract"),
        "staged newer upsert must win over the stale OCR write-back"
    );
}

#[test]
fn a_barrier_waits_for_the_commit_that_covers_it() {
    let mut service = Service::new();
    service.send(Mutation::Barrier(7));
    assert_eq!(service.replies, vec![Reply { ticket: 7, generation: Some(0) }]);

    service.send(Mutation::Delete("fs:/x".to_string()));
    service.send(Mutation::Barrier(8));
    assert_eq!(service.replies.len(), 1);
    service.send(Mutation::Applied(9));
    assert_eq!(service.replies[1], Reply { ticket: 9, generation: None });
    service.commit(5_000, 12);
    assert_eq!(service.replies[2], Reply { ticket: 8, generation: Some(1) });
    assert_eq!(stats(&service.state), (1, 12, 1));
    assert_eq!(service.batches[0].deletes, vec!["fs:/x".to_string()]);
    assert_eq!(service.batches[0].generation, 1);
}

#[test]
fn commits_are_spaced_out() {
    let mut state = WriterState::new(1_000);
    assert!(!state.commit_due(100_000));
    state.record(WriterOp::Delete("a".to_string()), true);
    assert!(!state.commit_due(1_000 + COMMIT_MIN_INTERVAL_MS - 1));
    assert!(state.commit_due(1_000 + COMMIT_MIN_INTERVAL_MS));
    assert!(!state.commit_due(0));

    let mut state = WriterState::new(0);
    state.record(WriterOp::Delete("a".to_string()), true);
    state.begin_drain();
    state.plan(Mutation::Barrier(3), Fetched::Nothing);
    let done = state.finish(1, 1, false);
    assert_eq!(done.replies, vec![Reply { ticket: 3, generation: Some(0) }]);
}

#[test]
fn a_shutdown_drains_and_commits() {
    let mut service = Service::new();
    assert!(service.send(Mutation::Shutdown));
    service.state.begin_drain();
    assert!(!service.send(Mutation::Shutdown));
    service.send(Mutation::Upsert(make_doc("fs:/late.txt")));
    service.send(Mutation::CommitNow(4));
    assert!(!service.has("fs:/late.txt"));
    let done = service.state.finish(9_000, 3, true);
    assert_eq!(done.replies, vec![Reply { ticket: 4, generation: Some(1) }]);
    assert_eq!(done.batch.unwrap().upserts[0].doc_id, "fs:/late.txt");
}

#[test]
fn each_commit_sends_what_was_applied_since_the_last_one() {
    let ids = |b: &MutationBatch| b.upserts.iter().map(|u| u.doc_id.clone()).collect::<Vec<_>>();
    let mut service = Service::new();
    service.send(Mutation::Upsert(make_doc("fs:/a")));
    service.send(Mutation::UpsertMany(vec![make_doc("fs:/d/x"), make_doc("fs:/b")]));
    service.send(Mutation::DeleteSubtree("fs:/d".to_string()));
    service.send(Mutation::Upsert(make_doc("fs:/d/y")));
    service.send(Mutation::DeleteSourceInstance { instance_id: "other".to_string() });
    service.send(Mutation::Delete("fs:/gone".to_string()));
    service.send(Mutation::CommitNow(1));
    assert_eq!(service.batches.len(), 1);
    assert_eq!(ids(&service.batches[0]), ["fs:/a", "fs:/b"]);
    assert_eq!(service.batches[0].deletes, ["fs:/d/x", "fs:/gone"]);
    assert_eq!(service.batches[0].generation, 1);

    service.send(Mutation::DeleteSourceInstance { instance_id: "other".to_string() });
    service.send(Mutation::CommitNow(2));
    assert_eq!(service.batches.len(), 1);

    service.send(Mutation::Upsert(make_doc("fs:/d/y")));
    service.send(Mutation::CommitNow(3));
    assert_eq!(service.batches.len(), 2);
    assert_eq!(ids(&service.batches[1]), ["fs:/d/y"]);
    assert_eq!(service.batches[1].generation, 3);
}

#[test]
fn failed_operations_are_not_staged() {
    let mut state = WriterState::new(0);
    state.record(WriterOp::Upsert(make_doc("fs:/a")), false);
    assert!(state.batch.is_empty());
    assert!(!state.dirty);
    assert!(state.flush().is_none());
    state.record(WriterOp::Upsert(make_doc("fs:/a")), true);
    assert!(state.flush().is_some());
    assert!(state.batch.is_empty());
}

#[test]
fn subtrees_end_at_a_separator() {
    assert!(id_in_subtree("fs:/d", "fs:/d"));
    assert!(id_in_subtree("fs:/d/x", "fs:/d"));
    assert!(!id_in_subtree("fs:/dx", "fs:/d"));
    assert!(id_tombstoned("fs:/d/x", &vec!["fs:/q".to_string(), "fs:/d".to_string()]));
    assert!(!id_tombstoned("fs:/d/x", &vec![]));

    let staged = UpsertedDoc {
        doc_id: "fs:/d/b".to_string(),
        source_instance: "s".to_string(),
        mtime: 0,
        mime: None,
        body: None,
    };
    let committed = vec!["fs:/d/c".to_string(), "fs:/z".to_string(), "fs:/d/b".to_string()];
    assert_eq!(
        collect_subtree_ids(&committed, &vec![staged], "fs:/d"),
        vec!["fs:/d/b".to_string(), "fs:/d/c".to_string()]
    );
}

#[test]
fn an_unreadable_index_still_purges_staged_documents() {
    let mut state = WriterState::new(0);
    state.record(WriterOp::Upsert(make_doc("fs:/d/a")), true);
    let m = Mutation::DeleteSubtree("fs:/d".to_string());
    let step = state.plan(m, Fetched::AllDocIds(None));
    assert_eq!(step.ops, vec![WriterOp::Delete("fs:/d/a".to_string())]);
    assert!(state.batch.upserts.is_empty());
}

struct Recorder(Mutex<Vec<u64>>);

impl MutationBroadcaster for Recorder {
    fn broadcast(&self, batch: &MutationBatch) {
        self.0.lock().unwrap().push(batch.generation);
    }
}

#[test]
fn every_recipient_hears_a_batch() {
    let first = Arc::new(Recorder(Mutex::new(Vec::new())));
    let second = Arc::new(Recorder(Mutex::new(Vec::new())));
    let mut all = MultiBroadcaster::new(vec![first.clone()]);
    assert!(!all.is_empty());
    all.push(second.clone());
    all.push(Arc::new(NoopBroadcaster));
    all.push(second.clone());
    let batch = MutationBatch { generation: 4, ..MutationBatch::default() };
    assert!(batch.is_empty());
    let mut made = 0;
    while let Some(recipient) = all.next_call(made) {
        recipient.broadcast(&batch);
        made += 1;
    }
    assert_eq!(made, 4);
    assert_eq!(*first.0.lock().unwrap(), vec![4]);
    assert_eq!(*second.0.lock().unwrap(), vec![4, 4]);
    assert!(MultiBroadcaster::new(vec![]).is_empty());

    let mut log = BroadcastLog::new();
    log.record(true);
    assert_eq!(broadcast_failures(&log), 0);
    log.record(false);
    assert_eq!(broadcast_failures(&log), 1);
}

#[test]
fn counting_sink_counts_only_upserts() {
    let mut sink = CountingSink::new();
    sink.emit(&SourceMutation::DeleteSourceInstance { instance_id: "x".to_string() });
    assert_eq!(sink.count, 0);

    sink.emit(&SourceMutation::Upsert(make_doc("x:1")));
    assert_eq!(sink.count, 1);

    sink.emit(&SourceMutation::Delete { doc_id: "x:1".to_string() });
    assert_eq!(sink.count, 1);

    sink.emit(&SourceMutation::UpsertMany(vec![
        make_doc("x:2"),
        make_doc("x:3"),
        make_doc("x:4"),
    ]));
    assert_eq!(sink.count, 4, "UpsertMany must add len to counter");
}

#[test]
fn source_mutations_become_writer_mutations() {
    assert_eq!(
        emit(SourceMutation::Upsert(make_doc("x:1"))),
        Some(Mutation::UpsertMany(vec![make_doc("x:1")]))
    );
    assert_eq!(
        emit(SourceMutation::Delete { doc_id: "x:1".to_string() }),
        Some(Mutation::DeleteMany(vec!["x:1".to_string()]))
    );
    assert_eq!(
        emit(SourceMutation::DeleteSourceInstance { instance_id: "i".to_string() }),
        Some(Mutation::DeleteSourceInstance { instance_id: "i".to_string() })
    );
    assert_eq!(
        emit(SourceMutation::UpsertMany(vec![make_doc("a"), make_doc("b")])),
        Some(Mutation::UpsertMany(vec![make_doc("a"), make_doc("b")]))
    );
    assert_eq!(emit(SourceMutation::UpsertMany(vec![])), None);
    assert_eq!(
        upsert_body("x:1", "text"),
        Mutation::UpsertBody {
            doc_id: "x:1".to_string(),
            body: "text".to_string(),
            expected_mtime: None,
        }
    );
}

#[test]
fn reindexing_walks_files_and_asks_the_other_sources() {
    let sources = vec![
        ReindexSource { kind: "fs".to_string(), on_schema_wipe: true },
        ReindexSource { kind: "maildir".to_string(), on_schema_wipe: true },
        ReindexSource { kind: "apps".to_string(), on_schema_wipe: false },
    ];
    assert_eq!(reindex_non_fs_from_registry(&sources), vec![1]);
    assert_eq!(run_incremental(&sources, true).due, vec![1]);
    assert_eq!(run_incremental(&sources, false).due, Vec::<usize>::new());

    let mut pass = reindex_full(&sources);
    assert_eq!(
        pass.step(PassEvent::Begin { indexed_ids: Some(vec!["fs:/a".to_string()]) }),
        vec![PassAction::RemoveManifest, PassAction::Walk { known: vec![] }]
    );
    let docs = vec![make_doc("fs:/a"), make_doc("fs:/b")];
    assert_eq!(
        pass.step(PassEvent::Batch(docs.clone())),
        vec![PassAction::Send(Mutation::UpsertMany(docs)), PassAction::Barrier]
    );
    assert_eq!(
        pass.step(PassEvent::Walked { deleted_ids: vec!["fs:/c".to_string()] }),
        vec![PassAction::SaveManifest, PassAction::ReadSource(1)]
    );
    assert_eq!(
        pass.step(PassEvent::SourceRead { upserts: 3 }),
        vec![
            PassAction::Barrier,
            PassAction::CommitNow,
            PassAction::Finish { fs_docs: 2, other_docs: 3 },
        ]
    );
    let done = outcome(2, 3);
    assert_eq!((done.total_docs, done.fs_docs, done.other_docs), (5, 2, 3));
}

#[test]
fn catching_up_deletes_what_is_gone_and_saves_the_walk_last() {
    let sources = vec![ReindexSource { kind: "maildir".to_string(), on_schema_wipe: true }];
    let ids = vec!["fs:/a".to_string()];
    let mut pass = run_incremental(&sources, false);
    assert_eq!(
        pass.step(PassEvent::Begin { indexed_ids: Some(ids.clone()) }),
        vec![PassAction::Walk { known: ids.clone() }]
    );
    assert_eq!(
        pass.step(PassEvent::Walked { deleted_ids: ids.clone() }),
        vec![
            PassAction::Send(Mutation::DeleteMany(ids)),
            PassAction::Barrier,
            PassAction::SaveManifest,
            PassAction::Finish { fs_docs: 0, other_docs: 0 },
        ]
    );

    let mut pass = run_incremental(&sources, true);
    assert_eq!(
        pass.step(PassEvent::Begin { indexed_ids: None }),
        vec![PassAction::Walk { known: vec![] }]
    );
    assert_eq!(
        pass.step(PassEvent::Walked { deleted_ids: vec![] }),
        vec![PassAction::ReadSource(0)]
    );
}

#[test]
fn chosen_paths_are_sent_together() {
    let found = vec![
        Found::File(Some(make_doc("fs:/a"))),
        Found::Nothing,
        Found::File(None),
        Found::Dir(vec![make_doc("fs:/d/b"), make_doc("fs:/d/c")]),
    ];
    let docs = vec![make_doc("fs:/a"), make_doc("fs:/d/b"), make_doc("fs:/d/c")];
    assert_eq!(reindex_paths(found), (Mutation::UpsertMany(docs), 3));
}
