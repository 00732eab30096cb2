//! The timer state machine over an injected store: the optional active-timer
//! record and the append-only log of completed intervals. The store is plain
//! in-memory state; callers persist it however they like.
use vstd::prelude::*;

use crate::record::{valid_label, ActiveTimer, CompletedInterval};

verus! {

/// A stopped timer is discarded rather than logged when it ran for no more
/// than this many seconds, unless the quash flag overrides the threshold.
pub const DISCARD_THRESHOLD: u64 = 120;

/// The two record stores, as values: at most one active timer, and the log
/// of completed intervals in append order.
pub struct Store {
    pub active: Option<ActiveTimer>,
    pub log: Vec<CompletedInterval>,
}

/// What `start` reports.
#[derive(PartialEq, Eq, Structural)]
pub enum StartOutcome {
    Started,
    AlreadyRunning,
}

/// What `stop` reports: the logged interval, a discard below the threshold,
/// or that no timer was running.
pub enum StopOutcome {
    Logged(CompletedInterval),
    Discarded,
    NotRunning,
}

/// What `cancel` reports.
#[derive(PartialEq, Eq, Structural)]
pub enum CancelOutcome {
    Cancelled,
    NotRunning,
}

/// The running half of a status report.
pub struct RunningStatus {
    pub project_code: String,
    pub task: String,
    pub elapsed: u64,
}

/// The store `start` leaves behind, and its outcome: a running timer is left
/// alone, an idle store gains the new active record.
pub open spec fn spec_start(s: Store, now: u64, project_code: String, task: String) -> (
    Store,
    StartOutcome,
) {
    if s.active is Some {
        (s, StartOutcome::AlreadyRunning)
    } else {
        (
            Store {
                active: Some(
                    ActiveTimer { start_time: now, project_code: project_code, task: task },
                ),
                log: s.log,
            },
            StartOutcome::Started,
        )
    }
}

/// Whether a stop at `now` writes the interval to the log.
pub open spec fn spec_logs(start_time: u64, now: u64, quash: bool) -> bool {
    now - start_time > DISCARD_THRESHOLD || quash
}

/// The interval a stop at `now` builds from the active timer.
pub open spec fn spec_interval(t: ActiveTimer, now: u64) -> CompletedInterval {
    CompletedInterval {
        project_code: t.project_code,
        start_time: t.start_time,
        end_time: now,
        duration: (now - t.start_time) as u64,
        task: t.task,
    }
}

/// What `stop` leaves behind — the new active record and the new log, by
/// view — and its outcome. The active record is deleted whenever one exists;
/// the log grows only past the threshold or under quash.
pub open spec fn spec_stop(s: Store, now: u64, quash: bool) -> (
    Option<ActiveTimer>,
    Seq<CompletedInterval>,
    StopOutcome,
) {
    match s.active {
        Option::Some(t) => {
            if spec_logs(t.start_time, now, quash) {
                let c = spec_interval(t, now);
                (Option::None, s.log@.push(c), StopOutcome::Logged(c))
            } else {
                (Option::None, s.log@, StopOutcome::Discarded)
            }
        },
        Option::None => (s.active, s.log@, StopOutcome::NotRunning),
    }
}

/// The running half of a status report at `now`.
pub open spec fn spec_running(s: Store, now: u64) -> Option<RunningStatus> {
    match s.active {
        Option::Some(t) => Option::Some(
            RunningStatus {
                project_code: t.project_code,
                task: t.task,
                elapsed: (now - t.start_time) as u64,
            },
        ),
        Option::None => Option::None,
    }
}

impl Store {
    /// A store with no running timer and an empty log.
    pub fn new() -> (r: Store)
        ensures
            r.active is None,
            r.log@ =~= Seq::<CompletedInterval>::empty(),
    {
        Store { active: None, log: Vec::new() }
    }

    /// Every stored label is valid and every logged interval well-formed.
    pub open spec fn wf(self) -> bool {
        &&& (self.active is Some ==> self.active->0.wf())
        &&& (forall|i: int| 0 <= i < self.log@.len() ==> (#[trigger] self.log@[i]).wf())
    }

    /// Starts a timer at `now`. A no-op when one is already running: the
    /// existing record is never overwritten.
    pub fn start(&mut self, now: u64, project_code: String, task: String) -> (r: StartOutcome)
        requires
            valid_label(project_code@),
            valid_label(task@),
            old(self).wf(),
        ensures
            (*final(self), r) == spec_start(*old(self), now, project_code, task),
            final(self).wf(),
    {
        if self.active.is_some() {
            StartOutcome::AlreadyRunning
        } else {
            self.active = Some(ActiveTimer { start_time: now, project_code, task });
            StartOutcome::Started
        }
    }

    /// Stops the running timer at `now`. Deletes the active record; appends
    /// one completed interval exactly when the run lasted over the threshold
    /// or `quash` is set. A no-op when idle.
    pub fn stop(&mut self, now: u64, quash: bool) -> (r: StopOutcome)
        requires
            old(self).active is Some ==> old(self).active->0.start_time <= now,
            old(self).wf(),
        ensures
            final(self).active == spec_stop(*old(self), now, quash).0,
            final(self).log@ == spec_stop(*old(self), now, quash).1,
            r == spec_stop(*old(self), now, quash).2,
            final(self).wf(),
    {
        match &self.active {
            Some(t) => {
                let duration = now - t.start_time;
                if duration > DISCARD_THRESHOLD || quash {
                    let c = CompletedInterval {
                        project_code: t.project_code.clone(),
                        start_time: t.start_time,
                        end_time: now,
                        duration,
                        task: t.task.clone(),
                    };
                    let out = c.duplicate();
                    self.log.push(c);
                    self.active = None;
                    StopOutcome::Logged(out)
                } else {
                    self.active = None;
                    StopOutcome::Discarded
                }
            },
            None => StopOutcome::NotRunning,
        }
    }

    /// Cancels the running timer: deletes the active record without logging,
    /// whatever the elapsed time. A no-op when idle.
    pub fn cancel(&mut self) -> (r: CancelOutcome)
        requires
            old(self).wf(),
        ensures
            final(self).active is None,
            final(self).log == old(self).log,
            r == (if old(self).active is Some {
                CancelOutcome::Cancelled
            } else {
                CancelOutcome::NotRunning
            }),
            final(self).wf(),
    {
        match &self.active {
            Some(_) => {
                self.active = None;
                CancelOutcome::Cancelled
            },
            None => CancelOutcome::NotRunning,
        }
    }

    /// Reports the running timer at `now`, if any, without changing state.
    pub fn running_status(&self, now: u64) -> (r: Option<RunningStatus>)
        requires
            self.active is Some ==> self.active->0.start_time <= now,
        ensures
            r == spec_running(*self, now),
    {
        match &self.active {
            Some(t) => Some(
                RunningStatus {
                    project_code: t.project_code.clone(),
                    task: t.task.clone(),
                    elapsed: now - t.start_time,
                },
            ),
            None => None,
        }
    }
}

/// Starting on an idle store and asking for status right away reports a
/// running timer with the very labels that were started and zero elapsed
/// time, and the start is acknowledged.
pub proof fn lemma_start_then_status(s: Store, now: u64, project_code: String, task: String)
    requires
        s.active is None,
        valid_label(project_code@),
        valid_label(task@),
    ensures
        spec_start(s, now, project_code, task).1 == StartOutcome::Started,
        spec_running(spec_start(s, now, project_code, task).0, now) == Option::Some(
            RunningStatus { project_code: project_code, task: task, elapsed: 0u64 },
        ),
{
}

/// A timer started at `t0` and stopped at `now` past the threshold (or under
/// quash) appends exactly one interval, and that interval carries the
/// project and task given to `start`, ends at `now`, and has duration
/// `now - t0`.
pub proof fn lemma_start_then_stop(
    s: Store,
    t0: u64,
    now: u64,
    quash: bool,
    project_code: String,
    task: String,
)
    requires
        s.active is None,
        t0 <= now,
        spec_logs(t0, now, quash),
    ensures
        ({
            let started = spec_start(s, t0, project_code, task).0;
            let (active, log, out) = spec_stop(started, now, quash);
            &&& active is None
            &&& log =~= s.log@.push(
                CompletedInterval {
                    project_code: project_code,
                    start_time: t0,
                    end_time: now,
                    duration: (now - t0) as u64,
                    task: task,
                },
            )
            &&& out is Logged
            &&& out->Logged_0 == log.last()
        }),
{
}

} // verus!
