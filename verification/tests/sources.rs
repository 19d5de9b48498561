//! Files, watchers, the cache sweep and the text recognition queue.

use lixun::cache_sweep::{
    is_tmp, reap_zombies, reaped, stale_tmps, sweep_enabled, zombie_cutoff, CacheFile,
    CacheSweepCfg, Eviction, Removal, SweepOutcome, ZombieReaper,
};
use lixun::files::{index_file, wants_extraction, Extracted, FileFacts, FileKind};
use lixun::index_service::Mutation;
use lixun::model::Document;
use lixun::ocr_tick::{
    step as tick, IdleGate, OcrRow, Recognized, RowFate, TickEvent, TickOutcome, TickState, TickStep,
};
use lixun::plugin_fs_watcher::{
    build_routes, longest_prefix_instance, map_notify_kind, Dispatcher, Routes, SourceEventKind,
    WatchSource, WatchSpec, PER_INSTANCE_COOLDOWN_MS,
};
use lixun::plugin_schema::{PluginFieldSpec, PluginFieldType};
use lixun::psi_gate::{
    all_idle, read_some_avg10, CompositeIdleGate, CpuPsiGate, PressureReading,
    DEFAULT_PSI_CPU_PATH,
};
use lixun::registry::{
    ann_handle, broadcasters, cli_invoke, cli_manifest, SourceRegistry, VerbError,
};
use lixun::resolver::{needs_alias, step as resolve, PathState, ResolverAction, ResolverEvent, WalkEntry};
use lixun::search_cache::{default_search_concurrency, with_concurrency, ResultCache, ResultKey};
use lixun::watcher::{
    dispatch_notify_event, drop_descendant_deletes, is_descendant, stats, Coalescer, FsEvent,
    FsEventKind, Intent, PendingPath, RawEvent, RefreshJob, WatchResult, WatcherCounters,
};
use std::cell::RefCell;
use std::collections::BTreeMap;
use std::sync::Arc;

// -- files ------------------------------------------------------------------

fn facts(path: &str, is_dir: bool, size: u64) -> FileFacts {
    FileFacts {
        path: path.to_string(),
        doc_id: format!("fs:{path}"),
        is_dir,
        mtime: 7,
        size,
    }
}

fn text_kind() -> FileKind {
    FileKind {
        icon_name: "text-x-generic".to_string(),
        kind_label: "Plain Text".to_string(),
        mime: "text/plain".to_string(),
    }
}

fn indexed(path: &str, extracted: Extracted, held: Option<&str>) -> Document {
    index_file(facts(path, false, 3), 100, extracted, held.map(str::to_string), text_kind())
}

#[test]
fn index_file_preserves_existing_body_when_extract_returns_none() {
    let doc = indexed("/t/empty.txt", Extracted::Nothing, Some("recovered by ocr"));
    assert_eq!(
        doc.body.as_deref(),
        Some("recovered by ocr"),
        "extract=Ok(None) with indexed body must preserve the existing body"
    );
    assert!(!doc.extract_fail);
}

#[test]
fn index_file_writes_none_when_extract_none_and_no_prior_body() {
    let doc = indexed("/t/empty.txt", Extracted::Nothing, None);
    assert!(doc.body.is_none(), "extract=Ok(None) with no indexed body must leave body None");
    assert!(!doc.extract_fail);
}

#[test]
fn index_file_populates_mime_for_files() {
    let doc = indexed("/t/note.txt", Extracted::Text("hello".to_string()), None);
    assert_eq!(doc.mime.as_deref(), Some("text/plain"));

    let dir = index_file(facts("/t", true, 0), 100, Extracted::Nothing, None, text_kind());
    assert!(dir.mime.is_none(), "directories carry no mime");
}

#[test]
fn index_file_overwrites_body_when_extract_returns_some() {
    let doc = indexed("/t/fresh.txt", Extracted::Text("fresh content".to_string()), Some("stale body"));
    assert_eq!(
        doc.body.as_deref(),
        Some("fresh content"),
        "extract=Ok(Some) must overwrite, never preserve stale body"
    );
    assert!(!doc.extract_fail);
    assert_eq!(doc.title, "fresh.txt");
    assert_eq!(doc.source_instance, "builtin:fs");
}

#[test]
fn large_files_and_directories_are_not_extracted() {
    assert!(wants_extraction(&facts("/f", false, 1_048_576), 1));
    assert!(!wants_extraction(&facts("/f", false, 1_048_577), 1));
    assert!(!wants_extraction(&facts("/d", true, 0), 1));

    let doc = indexed("/t/broken.pdf", Extracted::Failed, Some("old"));
    assert!(doc.extract_fail);
}

// -- watcher ----------------------------------------------------------------

fn event(kind: FsEventKind, paths: &[&str]) -> FsEvent {
    FsEvent { kind, paths: paths.iter().map(|p| p.to_string()).collect() }
}

fn pending(path: &str, intent: Intent) -> PendingPath {
    PendingPath { path: path.to_string(), intent }
}

#[test]
fn rename_both_two_paths_maps_delete_then_upsert() {
    let from = "/tmp/old.txt";
    let to = "/tmp/new.txt";
    assert_eq!(
        dispatch_notify_event(event(FsEventKind::RenameBoth, &[from, to])),
        vec![RawEvent::Delete(from.to_string()), RawEvent::Upsert(to.to_string())]
    );
}

#[test]
fn dispatch_remove_directory_event_yields_subtree_delete() {
    let dir = "/tmp/lixun-watcher-test-dir";
    let surviving = drop_descendant_deletes(vec![pending(dir, Intent::Delete)]);
    assert_eq!(surviving.len(), 1);
    assert_eq!(surviving[0].path, dir);
    assert!(matches!(surviving[0].intent, Intent::Delete));
    let job = match surviving[0].intent {
        Intent::Refresh => RefreshJob::Refresh(dir.to_string()),
        Intent::Delete => RefreshJob::DeleteSubtree(format!("fs:{dir}")),
    };
    assert!(matches!(job, RefreshJob::DeleteSubtree(_)));
}

#[test]
fn coalescer_drops_child_prefix_covered_by_parent() {
    let parent = "/tmp/lixun-x/a/b";
    let child_file = "/tmp/lixun-x/a/b/c.txt";
    let child_dir = "/tmp/lixun-x/a/b/sub";
    let unrelated = "/tmp/lixun-x/other.txt";
    let surviving = drop_descendant_deletes(vec![
        pending(parent, Intent::Delete),
        pending(child_file, Intent::Delete),
        pending(child_dir, Intent::Delete),
        pending(unrelated, Intent::Delete),
    ]);
    let has = |p: &str| surviving.iter().any(|s| s.path == p);
    assert!(has(parent), "parent must survive");
    assert!(has(unrelated), "unrelated sibling must survive");
    assert!(!has(child_file), "file under parent must be dropped");
    assert!(!has(child_dir), "subdir under parent must be dropped");
    assert_eq!(surviving.len(), 2);
}

#[test]
fn rename_both_unexpected_path_count_degrades_to_upsert() {
    assert_eq!(
        dispatch_notify_event(event(FsEventKind::RenameBoth, &["/tmp/only.txt"])),
        vec![RawEvent::Upsert("/tmp/only.txt".to_string())]
    );

    let out = dispatch_notify_event(event(
        FsEventKind::RenameBoth,
        &["/tmp/a.txt", "/tmp/b.txt", "/tmp/c.txt"],
    ));
    assert!(out.iter().all(|e| matches!(e, RawEvent::Upsert(_))));
    assert_eq!(out.len(), 3);
}

#[test]
fn later_events_override_earlier_ones() {
    let mut c = Coalescer::new();
    c.observe(RawEvent::Upsert("/r/a".to_string()), false);
    c.observe(RawEvent::Delete("/r/a".to_string()), false);
    c.observe(RawEvent::Upsert("/r/skip".to_string()), true);
    let (expand, jobs) = c.flush(false, &vec!["/r".to_string()]);
    assert!(expand.is_empty());
    assert_eq!(jobs, vec![pending("/r/a", Intent::Delete)]);
    assert!(c.pending.is_empty());

    c.observe(RawEvent::Upsert("/r/b".to_string()), false);
    let (expand, _) = c.flush(true, &vec!["/r".to_string()]);
    assert_eq!(expand, vec!["/r".to_string()]);

    assert!(is_descendant("/a/b/c", "/a/b"));
    assert!(!is_descendant("/a/b", "/a/b"));
    assert!(!is_descendant("/a/bc", "/a/b"));
}

#[test]
fn counters_add_up() {
    let mut c = WatcherCounters::new();
    c.note_watch(WatchResult::Watched);
    c.note_watch(WatchResult::Excluded);
    c.note_watch(WatchResult::Failed);
    c.note_watch(WatchResult::Watched);
    c.note_overflow();
    assert_eq!(stats(&c), (2, 1, 1, 1));
    assert!(c.take_overflow());
    assert!(!c.take_overflow());
}

// -- plugin watcher ---------------------------------------------------------

#[test]
fn longest_prefix_picks_deepest_matching_root() {
    let mut route = Routes::new();
    route.insert("/home/u/Mail".to_string(), 0, true);
    route.insert("/home/u/Mail/INBOX".to_string(), 1, true);
    route.insert("/home/u/Apps".to_string(), 2, true);

    assert_eq!(longest_prefix_instance(&route, "/home/u/Mail/INBOX/new/x"), Some(1));
    assert_eq!(longest_prefix_instance(&route, "/home/u/Mail/Sent/y"), Some(0));
    assert_eq!(longest_prefix_instance(&route, "/home/u/Apps/test.desktop"), Some(2));
    assert_eq!(longest_prefix_instance(&route, "/home/u/Other/z"), None);
}

#[test]
fn map_notify_kind_create_remove_rename_modify() {
    assert!(matches!(
        map_notify_kind(&event(FsEventKind::Create, &["/a"])),
        SourceEventKind::Created
    ));
    assert!(matches!(
        map_notify_kind(&event(FsEventKind::Remove, &["/a"])),
        SourceEventKind::Removed
    ));
    assert!(matches!(
        map_notify_kind(&event(FsEventKind::Modify, &["/a"])),
        SourceEventKind::Modified
    ));
    match map_notify_kind(&event(FsEventKind::RenameBoth, &["/old", "/new"])) {
        SourceEventKind::Renamed { from } => assert_eq!(from, "/old"),
        _ => panic!("expected Renamed"),
    }
}

#[test]
fn longest_prefix_none_when_no_match() {
    let mut route = Routes::new();
    route.insert("/x".to_string(), 0, true);
    assert!(longest_prefix_instance(&route, "/y/z").is_none());
}

#[test]
fn routes_leave_the_file_source_out() {
    let spec = |path: &str| WatchSpec { path: path.to_string(), recursive: true };
    let source = |kind: &str, specs: Option<Vec<WatchSpec>>| WatchSource {
        kind: kind.to_string(),
        specs,
    };
    let routes = build_routes(&vec![
        source("fs", Some(vec![spec("/home")])),
        source("broken", None),
        source("maildir", Some(vec![spec("/home/mail")])),
    ]);
    assert_eq!(longest_prefix_instance(&routes, "/home/mail/x"), Some(2));
    assert_eq!(longest_prefix_instance(&routes, "/home/doc"), None);
}

#[test]
fn an_instance_rests_between_deliveries() {
    let mut routes = Routes::new();
    routes.insert("/m".to_string(), 0, true);
    let mut d = Dispatcher::new(1);
    let batch = vec![event(FsEventKind::Create, &["/m/1"])];
    let first = d.dispatch(&routes, &batch, 10_000);
    assert_eq!(first.len(), 1);
    assert_eq!(first[0].instance, 0);
    assert_eq!(first[0].events[0].path, "/m/1");
    assert!(d.dispatch(&routes, &batch, 10_000 + PER_INSTANCE_COOLDOWN_MS - 1).is_empty());
    assert_eq!(d.dispatch(&routes, &batch, 10_000 + PER_INSTANCE_COOLDOWN_MS).len(), 1);
}

// -- resolver ---------------------------------------------------------------

#[test]
fn vanished_paths_are_deleted_with_their_alias() {
    let looked = ResolverEvent::Looked {
        path: "/link".to_string(),
        state: PathState::Missing,
        excluded: true,
    };
    assert!(matches!(resolve(looked), ResolverAction::LookUpAlias { .. }));
    match resolve(ResolverEvent::Gone {
        raw_id: "fs:/link".to_string(),
        alias: Some("fs:/target".to_string()),
    }) {
        ResolverAction::Send { mutation, forget, .. } => {
            assert_eq!(mutation, Mutation::DeleteSubtree("fs:/target".to_string()));
            assert_eq!(forget, Some("fs:/target".to_string()));
        }
        other => panic!("{other:?}"),
    }
    let gone = ResolverEvent::Job(RefreshJob::DeleteSubtree("fs:/d".to_string()));
    assert!(matches!(resolve(gone), ResolverAction::Send { .. }));

    assert!(!needs_alias("/p", "fs:/p"));
    assert!(needs_alias("/link", "fs:/target"));
}

#[test]
fn directories_are_walked_and_files_indexed() {
    let looked = |state| ResolverEvent::Looked { path: "/p".to_string(), state, excluded: false };
    assert!(matches!(
        resolve(ResolverEvent::Job(RefreshJob::Refresh("/p".to_string()))),
        ResolverAction::Look { .. }
    ));
    assert!(matches!(resolve(looked(PathState::File)), ResolverAction::Index { .. }));
    assert!(matches!(resolve(looked(PathState::Directory)), ResolverAction::Walk { .. }));
    assert!(matches!(resolve(looked(PathState::Other)), ResolverAction::Nothing));
    let walked = ResolverEvent::Walked {
        entries: vec![
            WalkEntry { path: "/p".to_string(), state: PathState::Directory },
            WalkEntry { path: "/p/f".to_string(), state: PathState::File },
        ],
    };
    match resolve(walked) {
        ResolverAction::Expand { watch, refresh } => {
            assert_eq!(watch, vec!["/p".to_string()]);
            assert_eq!(refresh, vec!["/p/f".to_string()]);
        }
        other => panic!("{other:?}"),
    }
}

// -- cache sweep ------------------------------------------------------------

/// A cache directory in memory.
struct Dir(BTreeMap<String, (i64, u64)>);

impl Dir {
    fn files(&self) -> Vec<CacheFile> {
        self.0
            .iter()
            .map(|(name, (mtime, size))| CacheFile {
                path: format!("/cache/{name}"),
                mtime_secs: *mtime,
                size: *size,
            })
            .collect()
    }

    fn remove(&mut self, path: &str) -> bool {
        self.0.remove(path.trim_start_matches("/cache/")).is_some()
    }
}

fn dir(entries: &[(&str, i64, u64)]) -> Dir {
    Dir(entries.iter().map(|(n, m, s)| (n.to_string(), (*m, *s))).collect())
}

fn mk_cfg(max_bytes: u64) -> CacheSweepCfg {
    CacheSweepCfg {
        cache_root: "/cache".to_string(),
        max_bytes,
        interval_secs: 600,
        tmp_max_age_secs: 3600,
        zombie_max_attempts: 3,
        zombie_max_age_secs: 30 * 86_400,
    }
}

struct RecordingReaper {
    calls: RefCell<Vec<(u32, i64)>>,
    returns: u64,
}

impl ZombieReaper for RecordingReaper {
    fn reap(&self, max_attempts: u32, older_than_secs: i64) -> Result<u64, String> {
        self.calls.borrow_mut().push((max_attempts, older_than_secs));
        Ok(self.returns)
    }
}

fn sweep_once(
    d: &mut Dir,
    cfg: &CacheSweepCfg,
    now_secs: i64,
    reaper: Option<&RecordingReaper>,
) -> SweepOutcome {
    let mut out = SweepOutcome::default();
    let files = d.files();
    for i in stale_tmps(&files, now_secs, cfg.tmp_max_age_secs) {
        if d.remove(&files[i].path) {
            out.tmp_cleaned += 1;
        }
    }
    let mut e = Eviction::new(&files, cfg.max_bytes);
    while let Some(i) = e.victim() {
        let how = if d.remove(&files[i].path) { Removal::Done } else { Removal::Missing };
        e.removed(&files, how);
    }
    out.evicted_files = e.evicted_files;
    out.evicted_bytes = e.evicted_bytes;
    out.zombies_reaped = reap_zombies(reaper, cfg, now_secs);
    out
}

#[test]
fn sweep_under_cap_is_noop() {
    let now = 1_700_000_000;
    let mut d = dir(&[
        ("a.txt.zst", now - 300, 33),
        ("b.txt.zst", now - 200, 33),
        ("c.txt.zst", now - 100, 33),
    ]);
    let out = sweep_once(&mut d, &mk_cfg(1000), now, None);

    assert_eq!(out.evicted_files, 0);
    assert_eq!(out.evicted_bytes, 0);
    assert_eq!(d.0.len(), 3);
}

#[test]
fn sweep_over_cap_evicts_oldest_first() {
    let now = 1_700_000_000;
    let mut d = dir(&[
        ("a.txt.zst", now - 3000, 500),
        ("b.txt.zst", now - 2000, 500),
        ("c.txt.zst", now - 1000, 500),
    ]);
    let cfg = mk_cfg(500);
    let out = sweep_once(&mut d, &cfg, now, None);

    assert!(
        out.evicted_files >= 2,
        "expected at least 2 evictions, got {}",
        out.evicted_files
    );
    assert!(!d.0.contains_key("a.txt.zst"), "oldest must go first");
    let remaining: u64 = d.0.values().map(|(_, size)| size).sum();
    assert!(
        remaining <= cfg.max_bytes,
        "remaining {} exceeds cap {}",
        remaining,
        cfg.max_bytes
    );
    assert_eq!(out.evicted_bytes, 1000);
    assert!(d.0.contains_key("c.txt.zst"));
}

#[test]
fn sweep_honors_disabled_zero_cap() {
    let now = 1_700_000_000;
    let mut d = dir(&[("big.txt.zst", now - 100, 10_000)]);
    let out = sweep_once(&mut d, &mk_cfg(0), now, None);

    assert_eq!(out.evicted_files, 0);
    assert!(d.0.contains_key("big.txt.zst"));
    assert!(!sweep_enabled(&mk_cfg(0)));
    assert!(sweep_enabled(&mk_cfg(1)));
}

#[test]
fn sweep_cleans_tmp_files_older_than_limit() {
    let now = 1_700_000_000;
    let mut d = dir(&[(".tmp-abc", now - 10, 7), ("keep.txt.zst", now, 32)]);
    let mut cfg = mk_cfg(1000);
    cfg.tmp_max_age_secs = 0;

    let out = sweep_once(&mut d, &cfg, now, None);

    assert_eq!(out.tmp_cleaned, 1);
    assert!(!d.0.contains_key(".tmp-abc"));
    assert!(d.0.contains_key("keep.txt.zst"));
    cfg.tmp_max_age_secs = u64::MAX;
    let out = sweep_once(&mut dir(&[(".tmp-abc", now - 10, 7)]), &cfg, now, None);
    assert_eq!(out.tmp_cleaned, 0);
    assert!(is_tmp("/cache/.tmp-abc"));
    assert!(!is_tmp("/cache/keep.txt.zst"));
}

#[test]
fn sweep_invokes_reaper_when_present() {
    let now = 1_700_000_000;
    let cfg = mk_cfg(1000);
    let reaper = RecordingReaper { calls: RefCell::new(Vec::new()), returns: 7 };
    let out = sweep_once(&mut dir(&[]), &cfg, now, Some(&reaper));

    assert_eq!(*reaper.calls.borrow(), vec![(3, now - 30 * 86_400)]);
    assert_eq!(out.zombies_reaped, 7);
    assert_eq!(zombie_cutoff(now, 30 * 86_400), now - 30 * 86_400);
    assert_eq!(zombie_cutoff(now, u64::MAX), i64::MIN);
    assert_eq!(reaped(Err("locked".to_string())), 0);
}

#[test]
fn sweep_skips_reaper_when_none() {
    let out = sweep_once(&mut dir(&[]), &mk_cfg(1000), 1_700_000_000, None);
    assert_eq!(out.zombies_reaped, 0);
}

#[test]
fn files_that_cannot_be_removed_do_not_count() {
    let d = dir(&[("a", 1, 600), ("b", 2, 600)]);
    let files = d.files();
    let mut e = Eviction::new(&files, 600);
    assert_eq!(e.victim(), Some(0));
    e.removed(&files, Removal::Failed);
    assert_eq!(e.evicted_files, 0);
    assert_eq!(e.victim(), Some(1));
    e.removed(&files, Removal::Done);
    assert_eq!(e.victim(), None);
    assert_eq!(e.evicted_bytes, 600);
}

// -- text recognition -------------------------------------------------------

fn row(doc_id: &str, size: u64) -> OcrRow {
    OcrRow {
        doc_id: doc_id.to_string(),
        path: "/scan.png".to_string(),
        ext: "png".to_string(),
        mtime: 5,
        size,
    }
}

/// Runs a tick to its end; says what came of it and which bodies were
/// written.
fn tick_once(
    idle: bool,
    queued: Option<OcrRow>,
    recognized: Recognized,
    on_disk: Option<(i64, u64)>,
) -> (TickOutcome, RowFate, Vec<(String, String)>, usize) {
    let mut written = Vec::new();
    let mut recognitions = 0;
    let mut step = TickStep::Next(TickState::Gate);
    loop {
        let (state, event) = match step {
            TickStep::Done { fate, outcome } => return (outcome, fate, written, recognitions),
            TickStep::WriteBody { state, doc_id, body } => {
                written.push((doc_id, body));
                (state, TickEvent::BodyWritten(None))
            }
            TickStep::Next(state) => {
                let event = match &state {
                    TickState::Gate | TickState::GateAgain(..) => TickEvent::Idle(idle),
                    TickState::Queue => TickEvent::Peeked(queued.clone()),
                    TickState::Recognizer(_) => {
                        recognitions += 1;
                        TickEvent::Recognized(recognized.clone())
                    }
                    TickState::Metadata(..) => TickEvent::Statted(on_disk),
                    TickState::Writer(_) => TickEvent::BodyWritten(None),
                };
                (state, event)
            }
        };
        step = tick(state, event);
    }
}

#[test]
fn noop_when_not_idle() {
    let (outcome, fate, written, recognitions) = tick_once(
        false,
        Some(row("fs:/scan", 4)),
        Recognized::Text("should not run".to_string()),
        Some((5, 4)),
    );
    assert_eq!(outcome, TickOutcome::NoIdle);
    assert_eq!(recognitions, 0);
    assert!(written.is_empty());
    assert_eq!(fate, RowFate::Keep);
}

#[test]
fn drain_one_when_idle() {
    let (outcome, fate, written, _) = tick_once(
        true,
        Some(row("fs:/scan", 8)),
        Recognized::Text("MOCK_OCR_TEXT".to_string()),
        Some((5, 8)),
    );
    assert_eq!(outcome, TickOutcome::Drained { doc_id: "fs:/scan".to_string() });
    assert_eq!(fate, RowFate::Remove { doc_id: "fs:/scan".to_string() });
    assert_eq!(written, vec![("fs:/scan".to_string(), "MOCK_OCR_TEXT".to_string())]);
}

#[test]
fn attempts_increment_on_failure() {
    let (outcome, fate, written, _) = tick_once(
        true,
        Some(row("fs:/broken", 3)),
        Recognized::Error("tesseract exploded".to_string()),
        Some((5, 3)),
    );
    match outcome {
        TickOutcome::Failed { doc_id, err } => {
            assert_eq!(doc_id, "fs:/broken");
            assert!(err.contains("tesseract exploded"), "err was {err}");
        }
        other => panic!("expected Failed, got {other:?}"),
    }
    assert_eq!(
        fate,
        RowFate::MarkFailure {
            doc_id: "fs:/broken".to_string(),
            err: "tesseract exploded".to_string(),
        }
    );
    assert!(written.is_empty());
}

#[test]
fn stops_after_max_attempts() {
    let (outcome, fate, written, recognitions) =
        tick_once(true, None, Recognized::Text("x".to_string()), Some((5, 3)));
    assert_eq!(outcome, TickOutcome::Empty);
    assert_eq!(recognitions, 0, "run_ocr must not be called");
    assert!(written.is_empty());
    assert_eq!(fate, RowFate::Keep);
}

#[test]
fn stale_file_dropped() {
    let (outcome, fate, written, _) = tick_once(
        true,
        Some(row("fs:/stale", 8)),
        Recognized::Text("SHOULD_BE_DROPPED".to_string()),
        Some((5, 42)),
    );
    assert_eq!(outcome, TickOutcome::StaleSkipped { doc_id: "fs:/stale".to_string() });
    assert!(written.is_empty());
    assert_eq!(fate, RowFate::Remove { doc_id: "fs:/stale".to_string() });
}

#[test]
fn images_without_text_count_as_failures() {
    let (outcome, fate, written, _) =
        tick_once(true, Some(row("fs:/blank", 1)), Recognized::Nothing, Some((5, 1)));
    assert_eq!(outcome, TickOutcome::PermanentSkip { doc_id: "fs:/blank".to_string() });
    assert_eq!(
        fate,
        RowFate::MarkFailure {
            doc_id: "fs:/blank".to_string(),
            err: "ocr returned empty (e.g. below min_side_px)".to_string(),
        }
    );
    assert!(written.is_empty());
}

// -- idleness ---------------------------------------------------------------

fn at_most(threshold: f32) -> impl Fn(String) -> Option<bool> {
    move |t| t.parse::<f32>().ok().map(|v| v <= threshold)
}

#[test]
fn psi_gate_under_threshold_reports_idle() {
    let report = "some avg10=0.12 avg60=0.00 avg300=0.00 total=1234\n\
                  full avg10=0.00 avg60=0.00 avg300=0.00 total=0\n";
    let mut gate = CpuPsiGate::with_path("/psi".to_string());
    assert_eq!(gate.next_reading(), Some("/psi"));
    assert!(gate.is_idle(Some(report), at_most(10.0)));
    assert!(gate.is_enabled());
}

#[test]
fn psi_gate_over_threshold_reports_not_idle() {
    let report = "some avg10=25.00 avg60=0.00 avg300=0.00 total=1234\n\
                  full avg10=0.00 avg60=0.00 avg300=0.00 total=0\n";
    let mut gate = CpuPsiGate::with_path("/psi".to_string());
    assert!(!gate.is_idle(Some(report), at_most(10.0)));
    assert!(gate.is_enabled());
    assert!(gate.is_idle(Some(report), at_most(25.0)));
}

#[test]
fn psi_gate_missing_file_auto_disables() {
    let mut gate = CpuPsiGate::with_path("/nonexistent/path/proc-pressure-cpu".to_string());
    assert!(gate.is_idle(None, at_most(10.0)));
    assert!(!gate.is_enabled());
    assert_eq!(gate.next_reading(), None);
    assert!(gate.is_idle(Some("some avg10=99.0\n"), at_most(10.0)));
    assert!(gate.observe(PressureReading::AboveThreshold));
    assert!(!gate.is_enabled());
    assert_eq!(CpuPsiGate::new().next_reading(), Some(DEFAULT_PSI_CPU_PATH));
}

#[test]
fn psi_gate_disables_itself_on_reports_it_cannot_read() {
    for report in ["", "full avg10=1.0\n", "some avg60=1.0\n", "some avg10=high\n"] {
        let mut gate = CpuPsiGate::new();
        assert!(gate.is_idle(Some(report), at_most(10.0)), "{report}");
        assert!(!gate.is_enabled(), "{report}");
    }
    let mut off = CpuPsiGate::disabled();
    assert!(!off.is_enabled());
    assert_eq!(off.next_reading(), None);
    assert!(off.is_idle(Some("some avg10=99.0\n"), at_most(10.0)));

    assert_eq!(read_some_avg10("full avg10=3.00\n"), None);
    assert_eq!(read_some_avg10("some avg60=3.00\n"), None);
    assert_eq!(read_some_avg10("full avg10=1.00\nsome avg10=2.50 x=1\n"), Some("2.50".to_string()));
}

struct FixedIdle(bool);

impl IdleGate for FixedIdle {
    fn is_idle(&self) -> bool {
        self.0
    }
}

#[test]
fn composite_all_idle_is_idle() {
    let a: Arc<dyn IdleGate> = Arc::new(FixedIdle(true));
    let b: Arc<dyn IdleGate> = Arc::new(FixedIdle(true));
    let composite = CompositeIdleGate { gates: vec![a, b] };
    assert!(composite.is_idle());
    assert!(all_idle(&vec![true, true]));
}

#[test]
fn composite_any_busy_is_not_idle() {
    let a: Arc<dyn IdleGate> = Arc::new(FixedIdle(true));
    let b: Arc<dyn IdleGate> = Arc::new(FixedIdle(false));
    let composite = CompositeIdleGate { gates: vec![a, b] };
    assert!(!composite.is_idle());
    assert!(!all_idle(&vec![true, false]));
}

// -- registry ---------------------------------------------------------------

#[test]
fn sources_are_found_by_instance() {
    let field = PluginFieldSpec {
        schema_name: "f".to_string(),
        query_alias: None,
        ty: PluginFieldType::Keyword,
        stored: true,
        default_search: false,
        boost: "0".to_string(),
    };
    let mut registry = SourceRegistry::new();
    registry.register("maildir:1".to_string(), "/state", "maildir".to_string(), vec![field]);
    registry.register("apps".to_string(), "/state", "apps".to_string(), vec![]);
    assert_eq!(registry.row_menu_for("apps"), Some(1));
    assert_eq!(registry.row_menu_for("none"), None);
    assert_eq!(registry.instances[0].kind, "maildir");
    assert_eq!(registry.plugin_fields_by_kind.get("maildir").unwrap().len(), 1);

    assert_eq!(broadcasters(vec![Some(1u8), None, Some(3)]), vec![1, 3]);
    assert_eq!(ann_handle(vec![None, Some(2u8), Some(3)]), Some(2));
    assert_eq!(ann_handle::<u8>(vec![None]), None);
    assert_eq!(cli_manifest(vec![Some(vec![1u8, 2]), None, Some(vec![3])]), vec![1, 2, 3]);
}

#[test]
fn verbs_are_routed_to_the_source_that_declares_them() {
    let manifests = vec![None, Some(vec!["maildir".to_string()]), Some(vec!["ocr".to_string()])];
    let path = |words: &[&str]| words.iter().map(|w| w.to_string()).collect::<Vec<_>>();
    assert_eq!(cli_invoke(&path(&["ocr", "run"]), &manifests), Ok(2));
    assert_eq!(cli_invoke(&path(&[]), &manifests), Err(VerbError::EmptyPath));
    let unknown = cli_invoke(&path(&["nope"]), &manifests).unwrap_err();
    assert_eq!(unknown, VerbError::Unknown { verb: "nope".to_string() });
    assert!(unknown.to_text().contains("nope"));
}

// -- result cache -----------------------------------------------------------

#[test]
fn results_are_kept_by_query_limit_and_epoch() {
    let key = |text: &str, epoch: u64| ResultKey { text: text.to_string(), limit: 10, epoch };
    let mut cache = ResultCache::new();
    assert_eq!(cache.len(), 0);
    cache.put(key("a", 1), "first");
    assert_eq!(cache.get(&key("a", 1)), Some(&"first"));
    assert_eq!(cache.get(&key("a", 2)), None);
    for i in 0..200u64 {
        cache.put(key("q", i), "more");
        assert!(cache.len() <= 64);
    }
    assert_eq!(cache.get(&key("q", 199)), Some(&"more"));

    assert_eq!(with_concurrency(0), 1);
    assert_eq!(with_concurrency(9), 9);
    assert_eq!(default_search_concurrency(Some(4)), 8);
}

