//! Idle-gated worker tick of the text recognition queue.
//!
//! One tick takes at most one job from the queue, and only while the system
//! is idle. The tick alternates decisions with outside work (the queue, the
//! recognizer, the file system, the index writer): [`step`] takes what the
//! outside work returned and says what comes next.

use vstd::prelude::*;

use crate::text;

verus! {

/// Composable "is the daemon idle right now?" probe.
pub trait IdleGate: Send + Sync {
    /// Whether the probe may give this answer. A probe that promises
    /// nothing may give either.
    open spec fn may_answer(&self, idle: bool) -> bool {
        true
    }

    fn is_idle(&self) -> (r: bool)
        ensures
            self.may_answer(r),
    ;
}

/// Tunables of the worker.
#[derive(Debug, Clone, PartialEq, Eq)]
pub struct OcrWorkerCfg {
    pub interval_secs: u64,
    pub langs: Vec<String>,
    pub min_image_side_px: u32,
    pub max_pages_per_pdf: Option<usize>,
    pub max_attempts: u32,
    /// Nice level and whether to use the idle I/O class, where the worker
    /// is throttled.
    pub throttle: Option<(i32, bool)>,
}

/// Outcome of a single tick.
#[derive(Debug, Clone, PartialEq, Eq)]
pub enum TickOutcome {
    NoIdle,
    Empty,
    Drained { doc_id: String },
    StaleSkipped { doc_id: String },
    Failed { doc_id: String, err: String },
    PermanentSkip { doc_id: String },
}

/// A job of the queue.
#[derive(Debug, Clone, PartialEq, Eq)]
pub struct OcrRow {
    pub doc_id: String,
    pub path: String,
    pub ext: String,
    /// The file's modification time and size when the job was enqueued.
    pub mtime: i64,
    pub size: u64,
}

/// What the recognizer returned.
#[derive(Debug, Clone, PartialEq, Eq)]
pub enum Recognized {
    Text(String),
    /// Nothing to recognize, such as an image below the minimum size.
    Nothing,
    Error(String),
}

/// What the outside work returned.
#[derive(Debug, Clone, PartialEq, Eq)]
pub enum TickEvent {
    /// Whether the machine is idle.
    Idle(bool),
    /// The queue's next row; `None` also where the query failed.
    Peeked(Option<OcrRow>),
    Recognized(Recognized),
    /// The file's modification time and size; `None` where it is gone.
    Statted(Option<(i64, u64)>),
    /// The index writer's answer to the new body: what went wrong, if
    /// anything.
    BodyWritten(Option<String>),
}

/// Where a tick stands between two pieces of outside work.
#[derive(Debug, Clone, PartialEq, Eq)]
pub enum TickState {
    /// Waiting to hear whether the machine is idle.
    Gate,
    /// Waiting for the queue.
    Queue,
    /// Waiting for the recognizer.
    Recognizer(OcrRow),
    /// Waiting to hear that again, with a text in hand.
    GateAgain(OcrRow, String),
    /// Waiting for the file's metadata, with a text in hand.
    Metadata(OcrRow, String),
    /// Waiting for the index writer.
    Writer(OcrRow),
}

/// What becomes of the queue's row.
#[derive(Debug, Clone, PartialEq, Eq)]
pub enum RowFate {
    Keep,
    Remove { doc_id: String },
    MarkFailure { doc_id: String, err: String },
}

/// The next piece of outside work, or the end.
#[derive(Debug, Clone, PartialEq, Eq)]
pub enum TickStep {
    /// Ask the idle probe, the queue or the recognizer, as the state says.
    Next(TickState),
    /// Hand the text to the index writer.
    WriteBody { state: TickState, doc_id: String, body: String },
    Done { fate: RowFate, outcome: TickOutcome },
}

/// Whether `event` is the answer that `state` waits for.
pub open spec fn expects(state: TickState, event: TickEvent) -> bool {
    match state {
        TickState::Gate => event is Idle,
        TickState::Queue => event is Peeked,
        TickState::Recognizer(_) => event is Recognized,
        TickState::GateAgain(_, _) => event is Idle,
        TickState::Metadata(_, _) => event is Statted,
        TickState::Writer(_) => event is BodyWritten,
    }
}

/// A step that ends the tick without touching the queue.
pub open spec fn ends_untouched(step: TickStep, outcome: TickOutcome) -> bool {
    step == TickStep::Done { fate: RowFate::Keep, outcome }
}

/// What follows `event` in `state`.
pub open spec fn follows(state: TickState, event: TickEvent, step: TickStep) -> bool {
    match (state, event) {
        (TickState::Gate, TickEvent::Idle(idle)) => if idle {
            step == TickStep::Next(TickState::Queue)
        } else {
            ends_untouched(step, TickOutcome::NoIdle)
        },
        (TickState::Queue, TickEvent::Peeked(row)) => match row {
            Some(r) => step == TickStep::Next(TickState::Recognizer(r)),
            None => ends_untouched(step, TickOutcome::Empty),
        },
        (TickState::Recognizer(row), TickEvent::Recognized(result)) => match result {
            Recognized::Text(t) => step == TickStep::Next(TickState::GateAgain(row, t)),
            Recognized::Nothing => step matches TickStep::Done {
                fate: RowFate::MarkFailure { doc_id, err },
                outcome: TickOutcome::PermanentSkip { doc_id: id },
            } && doc_id == row.doc_id && id == row.doc_id && err@
                == "ocr returned empty (e.g. below min_side_px)"@,
            Recognized::Error(e) => step matches TickStep::Done {
                fate: RowFate::MarkFailure { doc_id, err },
                outcome: TickOutcome::Failed { doc_id: id, err: shown },
            } && doc_id == row.doc_id && id == row.doc_id && err == e && shown == e,
        },
        (TickState::GateAgain(row, t), TickEvent::Idle(idle)) => if idle {
            step == TickStep::Next(TickState::Metadata(row, t))
        } else {
            ends_untouched(step, TickOutcome::NoIdle)
        },
        (TickState::Metadata(row, t), TickEvent::Statted(now)) => if now == Some(
            (row.mtime, row.size),
        ) {
            step == (TickStep::WriteBody {
                state: TickState::Writer(row),
                doc_id: row.doc_id,
                body: t,
            })
        } else {
            step == (TickStep::Done {
                fate: RowFate::Remove { doc_id: row.doc_id },
                outcome: TickOutcome::StaleSkipped { doc_id: row.doc_id },
            })
        },
        (TickState::Writer(row), TickEvent::BodyWritten(result)) => match result {
            None => step == (TickStep::Done {
                fate: RowFate::Remove { doc_id: row.doc_id },
                outcome: TickOutcome::Drained { doc_id: row.doc_id },
            }),
            Some(e) => step matches TickStep::Done {
                fate: RowFate::Keep,
                outcome: TickOutcome::Failed { doc_id, err },
            } && doc_id == row.doc_id && err@ == "upsert_body: "@ + e@,
        },
        _ => true,
    }
}

/// Decides what comes next in a tick.
///
/// A busy machine ends the tick and keeps the row, before the job and again
/// once its text is there. A text is written only where the file is still
/// the one that was enqueued; otherwise it is dropped, and so is the row. A
/// job without a text, and one that failed, is marked in the queue.
pub fn step(state: TickState, event: TickEvent) -> (r: TickStep)
    requires
        expects(state, event),
    ensures
        follows(state, event, r),
{
    match (state, event) {
        (TickState::Gate, TickEvent::Idle(idle)) => if idle {
            TickStep::Next(TickState::Queue)
        } else {
            TickStep::Done { fate: RowFate::Keep, outcome: TickOutcome::NoIdle }
        },
        (TickState::Queue, TickEvent::Peeked(row)) => match row {
            Some(r) => TickStep::Next(TickState::Recognizer(r)),
            None => TickStep::Done { fate: RowFate::Keep, outcome: TickOutcome::Empty },
        },
        (TickState::Recognizer(row), TickEvent::Recognized(result)) => match result {
            Recognized::Text(t) => TickStep::Next(TickState::GateAgain(row, t)),
            Recognized::Nothing => TickStep::Done {
                fate: RowFate::MarkFailure {
                    doc_id: row.doc_id.clone(),
                    err: text::from_chars(
                        &text::to_chars("ocr returned empty (e.g. below min_side_px)"),
                    ),
                },
                outcome: TickOutcome::PermanentSkip { doc_id: row.doc_id },
            },
            Recognized::Error(e) => TickStep::Done {
                fate: RowFate::MarkFailure { doc_id: row.doc_id.clone(), err: e.clone() },
                outcome: TickOutcome::Failed { doc_id: row.doc_id, err: e },
            },
        },
        (TickState::GateAgain(row, t), TickEvent::Idle(idle)) => if idle {
            TickStep::Next(TickState::Metadata(row, t))
        } else {
            TickStep::Done { fate: RowFate::Keep, outcome: TickOutcome::NoIdle }
        },
        (TickState::Metadata(row, t), TickEvent::Statted(now)) => {
            let unchanged = match now {
                Some((mtime, size)) => mtime == row.mtime && size == row.size,
                None => false,
            };
            if unchanged {
                TickStep::WriteBody { doc_id: row.doc_id.clone(), state: TickState::Writer(row), body: t }
            } else {
                TickStep::Done {
                    fate: RowFate::Remove { doc_id: row.doc_id.clone() },
                    outcome: TickOutcome::StaleSkipped { doc_id: row.doc_id },
                }
            }
        },
        (TickState::Writer(row), TickEvent::BodyWritten(result)) => match result {
            None => TickStep::Done {
                fate: RowFate::Remove { doc_id: row.doc_id.clone() },
                outcome: TickOutcome::Drained { doc_id: row.doc_id },
            },
            Some(e) => {
                let mut err = String::new();
                err.push_str("upsert_body: ");
                err.push_str(e.as_str());
                proof {
                    assert(err@ =~= "upsert_body: "@ + e@);
                }
                TickStep::Done {
                    fate: RowFate::Keep,
                    outcome: TickOutcome::Failed { doc_id: row.doc_id, err },
                }
            },
        },
        _ => TickStep::Done { fate: RowFate::Keep, outcome: TickOutcome::Empty },
    }
}

/// Law: a text reaches the index only where the file still has the
/// modification time and size that the job was enqueued with.
pub proof fn law_only_unchanged_files_are_written(
    state: TickState,
    event: TickEvent,
    step: TickStep,
)
    requires
        expects(state, event),
        follows(state, event, step),
        step is WriteBody,
    ensures
        state matches TickState::Metadata(row, t) && event == TickEvent::Statted(
            Some((row.mtime, row.size)),
        ) && step->WriteBody_doc_id == row.doc_id && step->body == t,
{
}

/// Law: a busy system leaves the queue as it is.
pub proof fn law_busy_keeps_the_row(state: TickState, step: TickStep)
    requires
        state is Gate || state is GateAgain,
        follows(state, TickEvent::Idle(false), step),
    ensures
        step == (TickStep::Done { fate: RowFate::Keep, outcome: TickOutcome::NoIdle }),
{
}

/// Law: a row leaves the queue only when its text was written or its file
/// has changed.
pub proof fn law_rows_leave_for_two_reasons(state: TickState, event: TickEvent, step: TickStep)
    requires
        expects(state, event),
        follows(state, event, step),
        step matches TickStep::Done { fate: RowFate::Remove { .. }, .. },
    ensures
        step matches TickStep::Done { outcome, .. } && (outcome is Drained
            || outcome is StaleSkipped),
{
}

/// Law: a tick goes from the idle machine to the queue's next job, from
/// there to its text, and, where the machine is still idle and the file is
/// still the one that was enqueued, to the index; only then has the job left
/// the queue as done.
pub proof fn law_a_job_runs_to_its_end(
    row: OcrRow,
    text: String,
    idle: TickStep,
    taken: TickStep,
    read: TickStep,
    still_idle: TickStep,
    unchanged: TickStep,
    written: TickStep,
)
    requires
        follows(TickState::Gate, TickEvent::Idle(true), idle),
        follows(TickState::Queue, TickEvent::Peeked(Some(row)), taken),
        follows(
            TickState::Recognizer(row),
            TickEvent::Recognized(Recognized::Text(text)),
            read,
        ),
        follows(TickState::GateAgain(row, text), TickEvent::Idle(true), still_idle),
        follows(
            TickState::Metadata(row, text),
            TickEvent::Statted(Some((row.mtime, row.size))),
            unchanged,
        ),
        follows(TickState::Writer(row), TickEvent::BodyWritten(None), written),
    ensures
        idle == TickStep::Next(TickState::Queue),
        taken == TickStep::Next(TickState::Recognizer(row)),
        read == TickStep::Next(TickState::GateAgain(row, text)),
        still_idle == TickStep::Next(TickState::Metadata(row, text)),
        unchanged matches TickStep::WriteBody { state, doc_id, body } && doc_id@ == row.doc_id@
            && body@ == text@ && state == TickState::Writer(row),
        written matches TickStep::Done { fate: RowFate::Remove { doc_id }, outcome } && doc_id@
            == row.doc_id@ && (outcome matches TickOutcome::Drained { doc_id: id } && id@
            == row.doc_id@),
{
}

/// Law: how a tick ends that writes nothing. An empty queue leaves all as it
/// is; a job that failed or found nothing is marked under its id; the text
/// of a file that has changed or is gone is dropped with its job; and a text
/// that could not be written is kept for another try.
pub proof fn law_a_job_may_end_early(
    row: OcrRow,
    text: String,
    err: String,
    now: Option<(i64, u64)>,
    empty: TickStep,
    failed: TickStep,
    nothing: TickStep,
    changed: TickStep,
    unwritten: TickStep,
)
    requires
        follows(TickState::Queue, TickEvent::Peeked(None), empty),
        follows(
            TickState::Recognizer(row),
            TickEvent::Recognized(Recognized::Error(err)),
            failed,
        ),
        follows(TickState::Recognizer(row), TickEvent::Recognized(Recognized::Nothing), nothing),
        follows(TickState::Metadata(row, text), TickEvent::Statted(now), changed),
        now != Some((row.mtime, row.size)),
        follows(TickState::Writer(row), TickEvent::BodyWritten(Some(err)), unwritten),
    ensures
        empty == (TickStep::Done { fate: RowFate::Keep, outcome: TickOutcome::Empty }),
        failed matches TickStep::Done { fate: RowFate::MarkFailure { doc_id, err: e }, outcome }
            && doc_id@ == row.doc_id@ && e@ == err@ && outcome is Failed,
        nothing matches TickStep::Done { fate: RowFate::MarkFailure { doc_id, .. }, outcome }
            && doc_id@ == row.doc_id@ && outcome is PermanentSkip,
        changed matches TickStep::Done { fate: RowFate::Remove { doc_id }, outcome } && doc_id@
            == row.doc_id@ && outcome is StaleSkipped,
        unwritten matches TickStep::Done { fate: RowFate::Keep, outcome: TickOutcome::Failed {
            doc_id,
            err: e,
        } } && doc_id@ == row.doc_id@ && e@ == "upsert_body: "@ + err@,
{
}

} // verus!
