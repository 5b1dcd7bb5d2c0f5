//! Lifecycle operations as sequences of native steps.
//!
//! A [`Run`] names one native step at a time. A failure before the first lasting effect is
//! returned as an error; from there on every failure ends in an incomplete outcome that
//! keeps the exact places to look at.

use crate::error::{Error, ErrorKind};
use crate::installation::{Outcome, OutcomeState, Preview};
use crate::lifecycle::{LifecycleOutcome, LifecycleRecord, LifecycleStage, StagedArtifactRecord};
use crate::package::Receipt;
use crate::recover;
use crate::recover::Recover;
use crate::text;
use vstd::prelude::*;
use vstd::string::*;

verus! {

/// One native step of an operation.
#[derive(Clone, Copy, Debug, PartialEq, Eq, Structural)]
pub enum Step {
    /// The parent directory is still the one that was opened.
    CheckParent,
    /// The source still has the digest of the preview.
    HashSource,
    /// The target name is free.
    RequireAbsent,
    /// The user has not cancelled.
    CheckCancel,
    /// The package verifies, with so much of it already removed.
    Verify { removed: u8 },
    /// The footprint is measured.
    Measure,
    MakeStage,
    OpenStage,
    MakeLock,
    MakeBin,
    CopyExecutable,
    WriteManifest,
    SyncStage,
    /// The staged package verifies.
    VerifyStage,
    /// The staged package is renamed into place, replacing nothing.
    Publish,
    SyncExecutable,
    SyncManifest,
    SyncLock,
    SyncBin,
    SyncRoot,
    SyncParent,
    FinalFullSync,
    CreateGuard,
    /// The lifecycle record of [`Run::record`] is made durable at this stage.
    Record { stage: LifecycleStage },
    StageExecutable,
    StageManifest,
    SyncStaged,
    RenameExecutable,
    RenameManifest,
    /// The package is opened again.
    Reopen,
    /// The manifest in place decides how the update ended.
    DecideOutcome,
    CheckGuard,
    RemoveGuard,
    CheckStagedExecutable,
    UnlinkStagedExecutable,
    CheckStagedManifest,
    UnlinkStagedManifest,
    /// The executable still has the candidate's digest.
    CheckExecutable,
    /// The package is renamed away from its prefix, replacing nothing.
    Detach,
    RemoveExecutable,
    RemoveBin,
    RemoveLock,
    RemoveManifest,
    RemoveRoot,
}

/// What came of a step.
#[derive(Debug)]
pub enum StepEvent {
    Done,
    /// The file that the step looked for is not there.
    Absent,
    Measured { logical: u64, allocated: u64 },
    Guarded(StagedArtifactRecord),
    Staged { executable: StagedArtifactRecord, manifest: StagedArtifactRecord },
    /// The manifest that is in place.
    InPlace(Receipt),
    /// The digest of the installed executable.
    Digest(String),
    Failed(Error),
}

/// A running operation.
#[derive(Debug)]
pub struct Run {
    pub steps: Vec<Step>,
    pub position: usize,
    /// Failures from this position on leave an effect behind.
    pub boundary: usize,
    /// Failures after this position are looked for in `late` instead of `early`.
    pub turn: usize,
    pub early: Vec<Vec<u8>>,
    pub late: Vec<Vec<u8>>,
    pub preview: Preview,
    pub success: OutcomeState,
    pub footprint: Option<(u64, u64)>,
    pub record: Option<LifecycleRecord>,
}

/// Where an operation stands after a step.
#[derive(Debug)]
pub enum Progress {
    Continue(Run),
    Ended(Outcome),
    Failed(Error),
}

/// Whether an event answers a step.
pub open spec fn answers(step: Step, event: StepEvent) -> bool {
    match event {
        StepEvent::Failed(_) => true,
        StepEvent::Measured { .. } => step == Step::Measure,
        StepEvent::Guarded(_) => step == Step::CreateGuard,
        StepEvent::Staged { .. } => step == Step::SyncStaged,
        StepEvent::InPlace(_) => step == Step::DecideOutcome,
        StepEvent::Digest(_) => step == Step::CheckExecutable,
        StepEvent::Absent => step == Step::CheckStagedExecutable || step
            == Step::CheckStagedManifest || step == Step::CheckGuard,
        StepEvent::Done => step != Step::Measure && step != Step::CreateGuard && step
            != Step::SyncStaged && step != Step::DecideOutcome && step != Step::CheckExecutable,
    }
}

/// How many of the following steps an absent file makes unnecessary, or what it means
/// that it is absent.
pub open spec fn on_absent(step: Step, next: Option<Step>) -> Result<nat, Seq<char>> {
    match step {
        Step::CheckStagedExecutable => Ok(1),
        Step::CheckGuard => Ok(2),
        Step::CheckStagedManifest => if next == Some(Step::UnlinkStagedManifest) {
            Err("staged artifacts changed before recovery execute"@)
        } else {
            Err("staged manifest changed before recovery finalize execute"@)
        },
        _ => Err("an expected artifact is missing"@),
    }
}

impl Run {
    pub open spec fn wf(self) -> bool {
        self.position < self.steps@.len() <= 64
    }

    pub open spec fn step(self) -> Step {
        self.steps@[self.position as int]
    }

    pub open spec fn following(self) -> Option<Step> {
        if self.position + 1 < self.steps@.len() {
            Some(self.steps@[self.position + 1])
        } else {
            None
        }
    }

    /// The step that the caller has to perform.
    pub fn current(&self) -> (step: Step)
        requires
            self.wf(),
        ensures
            step == self.step(),
    {
        self.steps[self.position]
    }

    /// Whether the lock was made durable `back` steps ago.
    pub open spec fn locked_before(self, back: int) -> bool {
        back <= self.position && self.steps@[self.position - back] == Step::SyncLock
    }

    /// Whether the current step makes a published package durable, and so gives way to a
    /// cancellation: the files, and the directories and the last barrier right behind them.
    /// The same barriers elsewhere complete an effect and are never left out.
    pub open spec fn heeds_cancellation(self) -> bool {
        match self.step() {
            Step::SyncExecutable | Step::SyncManifest | Step::SyncLock => true,
            Step::SyncBin => self.locked_before(1),
            Step::SyncRoot => self.locked_before(2),
            Step::SyncParent => self.locked_before(3),
            Step::FinalFullSync => self.locked_before(4),
            _ => false,
        }
    }

    /// Whether the current step gives way to a cancellation.
    pub fn gives_way(&self) -> (answer: bool)
        requires
            self.wf(),
        ensures
            answer == self.heeds_cancellation(),
    {
        let back: usize = match self.steps[self.position] {
            Step::SyncExecutable | Step::SyncManifest | Step::SyncLock => {
                return true;
            },
            Step::SyncBin => 1,
            Step::SyncRoot => 2,
            Step::SyncParent => 3,
            Step::FinalFullSync => 4,
            _ => {
                return false;
            },
        };
        back <= self.position && self.steps[self.position - back] == Step::SyncLock
    }

    /// The record with what an event brings.
    pub open spec fn noted(self, event: StepEvent) -> Option<LifecycleRecord> {
        match (self.record, event) {
            (Some(record), StepEvent::Guarded(guard)) => Some(
                LifecycleRecord { guard: Some(guard), ..record },
            ),
            (Some(record), StepEvent::Staged { executable, manifest }) => Some(
                LifecycleRecord {
                    staged_executable: Some(executable),
                    staged_manifest: Some(manifest),
                    ..record
                },
            ),
            (record, _) => record,
        }
    }

    /// The record as a step makes it durable: an outcome that nothing else decided is that
    /// the candidate was published.
    pub open spec fn entered(record: Option<LifecycleRecord>, step: Option<Step>) -> Option<
        LifecycleRecord,
    > {
        match (record, step) {
            (Some(record), Some(Step::Record { stage })) => Some(
                LifecycleRecord {
                    stage,
                    outcome: if stage == LifecycleStage::OutcomeRecorded && record.outcome is None {
                        Some(LifecycleOutcome::CandidatePublished)
                    } else {
                        record.outcome
                    },
                    ..record
                },
            ),
            (record, _) => record,
        }
    }

    pub open spec fn measured(self, event: StepEvent) -> Option<(u64, u64)> {
        match event {
            StepEvent::Measured { logical, allocated } => Some((logical, allocated)),
            _ => self.footprint,
        }
    }

    /// What a failure of the current step means.
    pub open spec fn fails_with(self, kind: ErrorKind, message: Seq<char>, progress: Progress) -> bool {
        if self.position < self.boundary {
            progress matches Progress::Failed(error) && error.says(kind, message)
        } else {
            &&& progress matches Progress::Ended(outcome)
            &&& outcome.status == OutcomeState::Incomplete
            &&& outcome.preview == self.preview
            &&& outcome.logical_bytes is None
            &&& outcome.allocated_bytes is None
            &&& outcome.recovery_paths == (if self.position <= self.turn {
                self.early
            } else {
                self.late
            })
            &&& text::opt_text(outcome.error) == Some(message)
        }
    }

    /// What the operation becomes when it goes on after `skip` unnecessary steps.
    pub open spec fn goes_on(self, event: StepEvent, skip: nat, progress: Progress) -> bool {
        let at = self.position + 1 + skip;
        if at < self.steps@.len() {
            &&& progress matches Progress::Continue(run)
            &&& run.steps == self.steps
            &&& run.position == at
            &&& run.boundary == self.boundary
            &&& run.turn == self.turn
            &&& run.early == self.early
            &&& run.late == self.late
            &&& run.preview == self.preview
            &&& run.success == self.success
            &&& run.footprint == self.measured(event)
            &&& run.record == Run::entered(self.recorded(event), Some(self.steps@[at]))
        } else {
            &&& progress matches Progress::Ended(outcome)
            &&& outcome.status == self.success
            &&& outcome.preview == self.preview
            &&& outcome.logical_bytes == (match self.measured(event) {
                Some(sizes) => Some(sizes.0),
                None => None,
            })
            &&& outcome.allocated_bytes == (match self.measured(event) {
                Some(sizes) => Some(sizes.1),
                None => None,
            })
            &&& outcome.recovery_paths@.len() == 0
            &&& outcome.error is None
        }
    }

    /// The record after an event: the manifest in place decides the outcome.
    pub open spec fn recorded(self, event: StepEvent) -> Option<LifecycleRecord> {
        match (self.record, event) {
            (Some(record), StepEvent::InPlace(receipt)) => if recover::describes(
                receipt,
                record.candidate,
            ) {
                Some(
                    LifecycleRecord {
                        outcome: Some(LifecycleOutcome::CandidatePublished),
                        ..record
                    },
                )
            } else {
                Some(
                    LifecycleRecord { outcome: Some(LifecycleOutcome::StagingAbandoned), ..record },
                )
            },
            _ => self.noted(event),
        }
    }

    /// Whether the manifest in place is neither that of the current image nor of the candidate.
    pub open spec fn is_stranger(self, event: StepEvent) -> bool {
        match (self.record, event) {
            (Some(record), StepEvent::InPlace(receipt)) => !recover::describes(
                receipt,
                record.candidate,
            ) && !recover::describes(receipt, record.current),
            _ => false,
        }
    }

    /// Whether the installed executable is no longer the candidate.
    pub open spec fn is_foreign(self, event: StepEvent) -> bool {
        match (self.record, event) {
            (Some(record), StepEvent::Digest(digest)) => digest@ != record.candidate.sha256@,
            _ => false,
        }
    }

    fn failed(self, error: Error) -> (progress: Progress)
        ensures
            self.fails_with(error.kind, error.message@, progress),
    {
        if self.position < self.boundary {
            return Progress::Failed(error);
        }
        let recovery_paths: Vec<Vec<u8>> = if self.position <= self.turn {
            self.early
        } else {
            self.late
        };
        Progress::Ended(
            Outcome {
                status: OutcomeState::Incomplete,
                preview: self.preview,
                logical_bytes: None,
                allocated_bytes: None,
                recovery_paths,
                error: Some(error.message),
            },
        )
    }

    fn absent_skip(step: Step, next: Option<Step>) -> (skip: Result<usize, &'static str>)
        ensures
            match skip {
                Ok(count) => on_absent(step, next) == Ok::<nat, Seq<char>>(count as nat) && count
                    <= 2,
                Err(message) => on_absent(step, next) == Err::<nat, Seq<char>>(message@),
            },
    {
        match step {
            Step::CheckStagedExecutable => Ok(1),
            Step::CheckGuard => Ok(2),
            Step::CheckStagedManifest => {
                let unlinks: bool = match next {
                    Some(Step::UnlinkStagedManifest) => true,
                    _ => false,
                };
                if unlinks {
                    Err("staged artifacts changed before recovery execute")
                } else {
                    Err("staged manifest changed before recovery finalize execute")
                }
            },
            _ => Err("an expected artifact is missing"),
        }
    }

    /// What the current step's event makes of the operation.
    pub open spec fn leads_to(self, event: StepEvent, progress: Progress) -> bool {
        match event {
            StepEvent::Failed(error) => self.fails_with(error.kind, error.message@, progress),
            StepEvent::Absent => match on_absent(self.step(), self.following()) {
                Ok(skip) => self.goes_on(event, skip, progress),
                Err(message) => self.fails_with(ErrorKind::InvalidData, message, progress),
            },
            _ => if self.is_stranger(event) {
                self.fails_with(
                    ErrorKind::InvalidData,
                    "recovered package state matches neither current nor candidate evidence"@,
                    progress,
                )
            } else if self.is_foreign(event) {
                self.fails_with(
                    ErrorKind::InvalidData,
                    "installed executable no longer matches candidate commit evidence"@,
                    progress,
                )
            } else {
                self.goes_on(event, 0, progress)
            },
        }
    }

    /// Takes what came of the current step.
    pub fn advance(self, event: StepEvent) -> (progress: Progress)
        requires
            self.wf(),
            answers(self.step(), event),
        ensures
            self.leads_to(event, progress),
    {
        let step: Step = self.steps[self.position];
        let next: Option<Step> = if self.position + 1 < self.steps.len() {
            Some(self.steps[self.position + 1])
        } else {
            None
        };
        let ghost before = self;
        let mut run = self;
        let mut skip: usize = 0;
        match event {
            StepEvent::Failed(error) => {
                return run.failed(error);
            },
            StepEvent::Absent => match Run::absent_skip(step, next) {
                Ok(count) => {
                    skip = count;
                },
                Err(message) => {
                    return run.failed(Error::new(ErrorKind::InvalidData, message));
                },
            },
            StepEvent::Done => {},
            StepEvent::Digest(digest) => {
                let foreign: bool = match &run.record {
                    Some(record) => !text::text_eq(
                        digest.as_str(),
                        record.candidate.sha256.as_str(),
                    ),
                    None => false,
                };
                if foreign {
                    return run.failed(
                        Error::new(
                            ErrorKind::InvalidData,
                            "installed executable no longer matches candidate commit evidence",
                        ),
                    );
                }
            },
            StepEvent::Measured { logical, allocated } => {
                run.footprint = Some((logical, allocated));
            },
            StepEvent::Guarded(guard) => {
                if let Some(record) = run.record {
                    run.record = Some(LifecycleRecord { guard: Some(guard), ..record });
                }
            },
            StepEvent::Staged { executable, manifest } => {
                if let Some(record) = run.record {
                    run.record = Some(
                        LifecycleRecord {
                            staged_executable: Some(executable),
                            staged_manifest: Some(manifest),
                            ..record
                        },
                    );
                }
            },
            StepEvent::InPlace(receipt) => {
                if let Some(record) = run.record {
                    match Recover::decide_outcome(&record, &receipt) {
                        Ok(outcome) => {
                            run.record = Some(LifecycleRecord { outcome: Some(outcome), ..record });
                        },
                        Err(error) => {
                            run.record = Some(record);
                            return run.failed(error);
                        },
                    }
                }
            },
        }
        assert(run.record == before.recorded(event));
        let at: usize = run.position + 1 + skip;
        if at >= run.steps.len() {
            let (logical_bytes, allocated_bytes): (Option<u64>, Option<u64>) = match run.footprint {
                Some((logical, allocated)) => (Some(logical), Some(allocated)),
                None => (None, None),
            };
            return Progress::Ended(
                Outcome {
                    status: run.success,
                    preview: run.preview,
                    logical_bytes,
                    allocated_bytes,
                    recovery_paths: Vec::new(),
                    error: None,
                },
            );
        }
        run.position = at;
        if let Step::Record { stage } = run.steps[at] {
            if let Some(record) = run.record {
                let outcome: Option<LifecycleOutcome> = if stage == LifecycleStage::OutcomeRecorded
                    && record.outcome.is_none() {
                    Some(LifecycleOutcome::CandidatePublished)
                } else {
                    record.outcome
                };
                run.record = Some(LifecycleRecord { stage, outcome, ..record });
            }
        }
        Progress::Continue(run)
    }
}

} // verus!
