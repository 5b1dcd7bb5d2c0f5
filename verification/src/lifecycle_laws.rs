//! What an interrupted update or recovery leaves can always be recovered.

use crate::lifecycle::{
    Evidence, LifecycleOutcome, LifecycleRecord, LifecycleStage, RecoverMode, StagedPresence,
};
use crate::operation::Step;
use crate::plan;
use crate::removal;
use crate::update;
use vstd::prelude::*;

verus! {

/// What is on disk around a package, as far as recovery can tell.
pub struct World {
    pub guard: bool,
    /// The stage of the durable lifecycle record, if there is one.
    pub recorded: Option<LifecycleStage>,
    pub outcome: Option<LifecycleOutcome>,
    pub staged_executable: bool,
    pub staged_manifest: bool,
    /// The executable in place is the candidate's.
    pub new_executable: bool,
    /// The manifest in place is the candidate's.
    pub new_manifest: bool,
}

/// The world before an update.
pub open spec fn quiet() -> World {
    World {
        guard: false,
        recorded: None,
        outcome: None,
        staged_executable: false,
        staged_manifest: false,
        new_executable: false,
        new_manifest: false,
    }
}

/// What a native step changes.
pub open spec fn after_step(world: World, step: Step) -> World {
    match step {
        Step::CreateGuard => World { guard: true, ..world },
        Step::Record { stage } => World {
            recorded: Some(stage),
            outcome: if stage == LifecycleStage::OutcomeRecorded {
                Some(
                    if world.new_manifest {
                        LifecycleOutcome::CandidatePublished
                    } else {
                        LifecycleOutcome::StagingAbandoned
                    },
                )
            } else {
                world.outcome
            },
            ..world
        },
        Step::StageExecutable => World { staged_executable: true, ..world },
        Step::StageManifest => World { staged_manifest: true, ..world },
        Step::RenameExecutable => World { staged_executable: false, new_executable: true, ..world },
        Step::RenameManifest => World { staged_manifest: false, new_manifest: true, ..world },
        Step::UnlinkStagedExecutable => World { staged_executable: false, ..world },
        Step::UnlinkStagedManifest => World { staged_manifest: false, ..world },
        Step::RemoveGuard => World { guard: false, ..world },
        _ => world,
    }
}

/// The world after the first `n` of a list of steps.
pub open spec fn after_steps(world: World, steps: Seq<Step>, n: int) -> World
    decreases n,
{
    if n <= 0 {
        world
    } else {
        after_step(after_steps(world, steps, n - 1), steps[n - 1])
    }
}

/// What recovery sees of a world, where the two images differ in bytes.
pub open spec fn seen(world: World) -> Evidence {
    Evidence {
        same_package: true,
        old_manifest: !world.new_manifest,
        new_manifest: world.new_manifest,
        executable_is_current: !world.new_executable,
        executable_is_candidate: world.new_executable,
        staged_executable: if world.staged_executable {
            StagedPresence::Present
        } else {
            StagedPresence::Missing
        },
        staged_manifest: if world.staged_manifest {
            StagedPresence::Present
        } else {
            StagedPresence::Missing
        },
        guard: if world.guard {
            StagedPresence::Present
        } else {
            StagedPresence::Missing
        },
        stage: world.recorded->0,
        outcome: world.outcome,
    }
}

/// The world after the first `n` steps of a replacing update.
pub open spec fn during_update(n: int) -> World {
    after_steps(quiet(), update::replacing_steps(), n)
}

proof fn lemma_steps()
    ensures
        update::replacing_steps().len() == 31,
        update::replacing_steps()[3] == Step::CreateGuard,
        update::replacing_steps()[4] == (Step::Record { stage: LifecycleStage::IntentRecorded }),
        update::replacing_steps()[5] == Step::StageExecutable,
        update::replacing_steps()[6] == Step::StageManifest,
        update::replacing_steps()[8] == (Step::Record { stage: LifecycleStage::StagedRecorded }),
        update::replacing_steps()[11] == Step::RenameExecutable,
        update::replacing_steps()[13] == (Step::Record { stage: LifecycleStage::BinaryCommitted }),
        update::replacing_steps()[14] == Step::RenameManifest,
        update::replacing_steps()[16] == (Step::Record {
            stage: LifecycleStage::ManifestCommitted,
        }),
        update::replacing_steps()[27] == (Step::Record {
            stage: LifecycleStage::OutcomeRecorded,
        }),
        update::replacing_steps()[29] == Step::RemoveGuard,
        forall|i: int|
            0 <= i < 31 && i != 3 && i != 4 && i != 5 && i != 6 && i != 8 && i != 11 && i != 13
                && i != 14 && i != 16 && i != 27 && i != 29 ==> inert(
                #[trigger] update::replacing_steps()[i],
            ),
{
    let steps = update::replacing_steps();
    assert(inert(steps[0]) && inert(steps[1]) && inert(steps[2]) && inert(steps[7]) && inert(
        steps[9],
    ) && inert(steps[10]) && inert(steps[12]) && inert(steps[15]) && inert(steps[17]));
    assert(inert(steps[18]) && inert(steps[19]) && inert(steps[20]) && inert(steps[21]) && inert(
        steps[22],
    ) && inert(steps[23]) && inert(steps[24]));
    assert(inert(steps[25]) && inert(steps[26]) && inert(steps[28]) && inert(steps[30]));
}

/// Whether a step changes nothing that recovery looks at.
spec fn inert(step: Step) -> bool {
    forall|world: World| #[trigger] after_step(world, step) == world
}

proof fn lemma_during_update(n: int)
    requires
        0 <= n <= 31,
    ensures
        ({
            let world = during_update(n);
            &&& world.guard == (4 <= n < 30)
            &&& world.recorded == (if n < 5 {
                None
            } else if n < 9 {
                Some(LifecycleStage::IntentRecorded)
            } else if n < 14 {
                Some(LifecycleStage::StagedRecorded)
            } else if n < 17 {
                Some(LifecycleStage::BinaryCommitted)
            } else if n < 28 {
                Some(LifecycleStage::ManifestCommitted)
            } else {
                Some(LifecycleStage::OutcomeRecorded)
            })
            &&& world.outcome == (if n < 28 {
                None
            } else {
                Some(LifecycleOutcome::CandidatePublished)
            })
            &&& world.staged_executable == (6 <= n < 12)
            &&& world.staged_manifest == (7 <= n < 15)
            &&& world.new_executable == (12 <= n)
            &&& world.new_manifest == (15 <= n)
        }),
    decreases n,
{
    lemma_steps();
    if n > 0 {
        lemma_during_update(n - 1);
        let step = update::replacing_steps()[n - 1];
        let before = during_update(n - 1);
        assert(during_update(n) == after_step(before, step));
        if inert(step) {
            assert(after_step(before, step) == before);
        }
    }
}

/// Wherever a replacing update is interrupted, recovery knows what to do: once the staged
/// files are durably recorded it abandons them while the old executable is in place,
/// finishes the manifest once the new executable is, and otherwise only confirms; before
/// that it leaves everything to a person.
pub proof fn interrupted_update_is_recoverable(n: int)
    requires
        0 <= n <= update::replacing_steps().len(),
        during_update(n).recorded is Some,
    ensures
        ({
            let world = during_update(n);
            let mode = seen(world).plan().0;
            if world.recorded == Some(LifecycleStage::IntentRecorded) {
                mode == RecoverMode::Manual
            } else if !world.new_executable {
                mode == RecoverMode::AbandonStaged
            } else if !world.new_manifest {
                mode == RecoverMode::FinalizeManifest
            } else if world.guard {
                mode == RecoverMode::ConfirmOutcome
            } else {
                mode == RecoverMode::Nothing
            }
        }),
{
    lemma_steps();
    lemma_during_update(n);
}

/// The record of a world, as far as the steps of a recovery depend on it.
pub open spec fn stands_for(record: LifecycleRecord, world: World) -> bool {
    &&& Some(record.stage) == world.recorded
    &&& record.outcome == world.outcome
    &&& record.guard is Some
}

/// What holds of a world during recovery: nothing is staged that does not belong to the
/// image in place, and the guard is there until an outcome is recorded.
spec fn coherent(world: World) -> bool {
    &&& world.recorded is Some
    &&& world.new_manifest ==> world.new_executable && !world.staged_manifest
    &&& world.recorded != Some(LifecycleStage::IntentRecorded)
    &&& world.staged_executable ==> world.staged_manifest && !world.new_executable
    &&& world.new_executable && !world.new_manifest ==> world.staged_manifest
    &&& match world.recorded->0 {
        LifecycleStage::IntentRecorded => false,
        LifecycleStage::StagedRecorded => world.guard,
        LifecycleStage::BinaryCommitted => world.guard && world.new_executable,
        LifecycleStage::ManifestCommitted => world.guard && world.new_manifest,
        LifecycleStage::OutcomeRecorded => {
            &&& !world.staged_executable
            &&& !world.staged_manifest
            &&& world.outcome == Some(
                if world.new_manifest {
                    LifecycleOutcome::CandidatePublished
                } else {
                    LifecycleOutcome::StagingAbandoned
                },
            )
            &&& world.new_executable == world.new_manifest
        },
    }
}

proof fn lemma_coherent_is_recoverable(world: World)
    requires
        coherent(world),
    ensures
        seen(world).plan().0 != RecoverMode::Manual,
{
}

/// The world after the first `n` steps of the recovery of `world`.
pub open spec fn during_recovery(world: World, record: LifecycleRecord, n: int) -> World {
    after_steps(world, removal::recover_steps(seen(world).plan().0, Some(record)), n)
}

/// How far the mode's own steps of a recovery have come.
spec fn mode_done(world: World, mode: RecoverMode, now: World, n: int) -> bool {
    let head = removal::mode_steps(mode).len() as int;
    match mode {
        RecoverMode::AbandonStaged => {
            &&& now.staged_executable == (world.staged_executable && n < 2)
            &&& now.staged_manifest == (n < 4)
            &&& now.new_executable == world.new_executable
            &&& now.new_manifest == world.new_manifest
        },
        RecoverMode::FinalizeManifest => {
            &&& now.staged_executable == world.staged_executable
            &&& now.staged_manifest == (n < 3)
            &&& now.new_executable
            &&& now.new_manifest == (n >= 3)
        },
        _ => {
            &&& now.staged_executable == world.staged_executable
            &&& now.staged_manifest == world.staged_manifest
            &&& now.new_executable == world.new_executable
            &&& now.new_manifest == world.new_manifest
        },
    }
}

/// The steps of a recovery by position.
proof fn lemma_recovery_steps(mode: RecoverMode, record: LifecycleRecord)
    requires
        record.guard is Some,
    ensures
        ({
            let steps = removal::recover_steps(mode, Some(record));
            let head = removal::mode_steps(mode).len() as int;
            let writes = removal::writes_outcome(mode, Some(record));
            let extra: int = if writes {
                2
            } else {
                0
            };
            &&& steps.len() == head + 8 + extra + 4
            &&& forall|i: int| 0 <= i < head ==> #[trigger] steps[i] == removal::mode_steps(mode)[i]
            &&& forall|i: int| head <= i < head + 8 ==> inert(#[trigger] steps[i])
            &&& writes ==> inert(steps[head + 8]) && steps[head + 9] == (Step::Record {
                stage: LifecycleStage::OutcomeRecorded,
            })
            &&& inert(steps[head + 8 + extra])
            &&& steps[head + 9 + extra] == Step::RemoveGuard
            &&& inert(steps[head + 10 + extra])
            &&& inert(steps[head + 11 + extra])
        }),
{
    let steps = removal::recover_steps(mode, Some(record));
    let head = removal::mode_steps(mode).len() as int;
    assert(inert(Step::Reopen) && inert(Step::SyncExecutable) && inert(Step::SyncManifest)
        && inert(Step::SyncLock) && inert(Step::SyncBin) && inert(Step::SyncRoot) && inert(
        Step::SyncParent,
    ) && inert(Step::FinalFullSync) && inert(Step::DecideOutcome) && inert(Step::CheckGuard)
        && inert(Step::Measure));
    assert(steps[head] == Step::Reopen);
    assert(steps[head + 1] == Step::SyncExecutable);
    assert(steps[head + 2] == Step::SyncManifest);
    assert(steps[head + 3] == Step::SyncLock);
    assert(steps[head + 4] == Step::SyncBin);
    assert(steps[head + 5] == Step::SyncRoot);
    assert(steps[head + 6] == Step::SyncParent);
    assert(steps[head + 7] == Step::FinalFullSync);
    assert forall|i: int| head <= i < head + 8 implies inert(#[trigger] steps[i]) by {
        let j = i - head;
        assert(j == 0 || j == 1 || j == 2 || j == 3 || j == 4 || j == 5 || j == 6 || j == 7);
    }
}

proof fn lemma_during_recovery(world: World, record: LifecycleRecord, n: int)
    requires
        coherent(world),
        stands_for(record, world),
        0 <= n <= removal::recover_steps(seen(world).plan().0, Some(record)).len(),
    ensures
        ({
            let mode = seen(world).plan().0;
            let now = during_recovery(world, record, n);
            let head = removal::mode_steps(mode).len() as int;
            let writes = removal::writes_outcome(mode, Some(record));
            let extra: int = if writes {
                2
            } else {
                0
            };
            &&& mode_done(world, mode, now, n)
            &&& now.recorded == (if writes && n >= head + 10 {
                Some(LifecycleStage::OutcomeRecorded)
            } else {
                world.recorded
            })
            &&& now.outcome == (if writes && n >= head + 10 {
                Some(
                    if now.new_manifest {
                        LifecycleOutcome::CandidatePublished
                    } else {
                        LifecycleOutcome::StagingAbandoned
                    },
                )
            } else {
                world.outcome
            })
            &&& now.guard == (world.guard && n < head + 10 + extra)
        }),
    decreases n,
{
    let mode = seen(world).plan().0;
    let steps = removal::recover_steps(mode, Some(record));
    let head = removal::mode_steps(mode).len() as int;
    lemma_coherent_is_recoverable(world);
    lemma_recovery_steps(mode, record);
    if n > 0 {
        lemma_during_recovery(world, record, n - 1);
        let step = steps[n - 1];
        let before = during_recovery(world, record, n - 1);
        assert(during_recovery(world, record, n) == after_step(before, step));
        if n - 1 < head {
            assert(step == removal::mode_steps(mode)[n - 1]);
        } else if inert(step) {
            assert(after_step(before, step) == before);
        }
    }
}

/// Wherever a recovery is interrupted, recovery can be run again: from any world that an
/// interrupted update leaves after its staged files were durably recorded, every prefix
/// of the recovery's own steps leaves a world that recovery can act on.
pub proof fn interrupted_recovery_is_recoverable(n: int, record: LifecycleRecord, m: int)
    requires
        0 <= n <= update::replacing_steps().len(),
        during_update(n).recorded is Some,
        during_update(n).recorded != Some(LifecycleStage::IntentRecorded),
        stands_for(record, during_update(n)),
        0 <= m <= removal::recover_steps(seen(during_update(n)).plan().0, Some(record)).len(),
    ensures
        seen(during_recovery(during_update(n), record, m)).plan().0 != RecoverMode::Manual,
{
    lemma_steps();
    lemma_during_update(n);
    let world = during_update(n);
    assert(coherent(world));
    lemma_during_recovery(world, record, m);
    lemma_recovery_steps(seen(world).plan().0, record);
    let now = during_recovery(world, record, m);
    assert(coherent(now));
    lemma_coherent_is_recoverable(now);
}

/// A recovery that ran to its end leaves nothing to recover: the guard and the staged files
/// are gone, and executable and manifest belong together.
pub proof fn finished_recovery_is_quiet(n: int, record: LifecycleRecord)
    requires
        0 <= n <= update::replacing_steps().len(),
        during_update(n).recorded is Some,
        during_update(n).recorded != Some(LifecycleStage::IntentRecorded),
        stands_for(record, during_update(n)),
    ensures
        ({
            let world = during_update(n);
            let steps = removal::recover_steps(seen(world).plan().0, Some(record));
            let end = during_recovery(world, record, steps.len() as int);
            &&& !end.guard
            &&& !end.staged_executable
            &&& !end.staged_manifest
            &&& end.new_executable == end.new_manifest
            &&& seen(end).plan().0 == RecoverMode::Nothing
        }),
{
    lemma_steps();
    lemma_during_update(n);
    let world = during_update(n);
    let mode = seen(world).plan().0;
    assert(coherent(world));
    let steps = removal::recover_steps(mode, Some(record));
    lemma_recovery_steps(mode, record);
    lemma_during_recovery(world, record, steps.len() as int);
}

} // verus!
