//! What holds of every installation, update, recovery and removal.

use crate::error::{Error, ErrorKind};
use crate::handles;
use crate::handles::OpenLook;
use crate::installation;
use crate::installation::{Outcome, OutcomeState};
use crate::lifecycle;
use crate::lifecycle::{LifecycleRecord, RecoverMode};
use crate::model::Host;
use crate::operation;
use crate::operation::{Progress, Run, Step, StepEvent};
use crate::package::Receipt;
use crate::plan;
use crate::plan::{GateLook, InstallLook, ParentLook, SourceImage};
use crate::removal;
use crate::removal::RecoverLook;
use crate::text;
use crate::update;
use crate::update::UpdateLook;
use crate::version;
use vstd::prelude::*;
use vstd::string::*;

verus! {

/// Whether one state of an operation led to the next.
pub open spec fn linked(runs: Seq<Run>, events: Seq<StepEvent>, i: int) -> bool {
    runs[i].leads_to(events[i], Progress::Continue(runs[i + 1]))
}

/// Whether the step of a state was answered.
pub open spec fn answered(runs: Seq<Run>, events: Seq<StepEvent>, i: int) -> bool {
    runs[i].wf() && operation::answers(runs[i].step(), events[i])
}

/// The states that an operation went through, each with what came of its step, up to the
/// outcome.
pub open spec fn finished(runs: Seq<Run>, events: Seq<StepEvent>, outcome: Outcome) -> bool {
    &&& runs.len() > 0
    &&& events.len() == runs.len()
    &&& runs[0].position == 0
    &&& forall|i: int| 0 <= i < runs.len() ==> #[trigger] answered(runs, events, i)
    &&& forall|i: int| 0 <= i < runs.len() - 1 ==> #[trigger] linked(runs, events, i)
    &&& runs.last().leads_to(events.last(), Progress::Ended(outcome))
}

/// A step that finds what it looks for, or fails.
pub open spec fn is_firm(step: Step) -> bool {
    &&& step != Step::CheckStagedExecutable
    &&& step != Step::CheckStagedManifest
    &&& step != Step::CheckGuard
}

pub open spec fn all_firm(steps: Seq<Step>) -> bool {
    forall|i: int| 0 <= i < steps.len() ==> is_firm(#[trigger] steps[i])
}

/// Whether a step was performed.
pub open spec fn performed(event: StepEvent) -> bool {
    !(event is Failed)
}

proof fn lemma_in_order(runs: Seq<Run>, events: Seq<StepEvent>, outcome: Outcome, i: int)
    requires
        finished(runs, events, outcome),
        all_firm(runs[0].steps@),
        0 <= i < runs.len(),
    ensures
        runs[i].position == i,
        runs[i].steps == runs[0].steps,
        runs[i].success == runs[0].success,
        runs[i].boundary == runs[0].boundary,
        runs[i].turn == runs[0].turn,
        runs[i].early == runs[0].early,
        runs[i].late == runs[0].late,
        runs[i].preview == runs[0].preview,
        forall|j: int| 0 <= j < i ==> performed(#[trigger] events[j]),
    decreases i,
{
    if i > 0 {
        lemma_in_order(runs, events, outcome, i - 1);
        let before = runs[i - 1];
        assert(answered(runs, events, i - 1));
        assert(is_firm(runs[0].steps@[before.position as int]));
        assert(linked(runs, events, i - 1));
    }
}

/// Whether a step was performed, or found to be unnecessary: only a file that may be missing
/// is missing, and what was found is what the record speaks of.
pub open spec fn succeeded(run: Run, event: StepEvent) -> bool {
    match event {
        StepEvent::Failed(_) => false,
        StepEvent::Absent => operation::on_absent(run.step(), run.following()) is Ok,
        _ => !run.is_stranger(event) && !run.is_foreign(event),
    }
}

/// How many of the following steps a missing file makes unnecessary.
pub open spec fn skipped(run: Run, event: StepEvent) -> nat {
    match event {
        StepEvent::Absent => operation::on_absent(run.step(), run.following())->Ok_0,
        _ => 0,
    }
}

/// Whether the step at a place of the list was performed.
pub open spec fn done_at(runs: Seq<Run>, events: Seq<StepEvent>, p: int) -> bool {
    exists|i: int|
        0 <= i < runs.len() && (#[trigger] runs[i]).position == p && succeeded(runs[i], events[i])
}

/// Whether the step at a place of the list was left out, because a file was missing that a
/// step before it looked for.
pub open spec fn left_out_at(runs: Seq<Run>, events: Seq<StepEvent>, p: int) -> bool {
    exists|i: int|
        0 <= i < runs.len() && (#[trigger] runs[i]).position < p && p <= runs[i].position
            + skipped(runs[i], events[i]) && events[i] is Absent && succeeded(runs[i], events[i])
}

/// Whether the step at a place of a list may be left out: the one behind the look at the
/// staged executable, and the two behind the look at the guard.
pub open spec fn may_be_left_out(steps: Seq<Step>, p: int) -> bool {
    ||| 1 <= p <= steps.len() && steps[p - 1] == Step::CheckStagedExecutable
    ||| 1 <= p <= steps.len() && steps[p - 1] == Step::CheckGuard
    ||| 2 <= p <= steps.len() && steps[p - 2] == Step::CheckGuard
}

/// What an operation is told at its start it keeps.
pub open spec fn same_operation(a: Run, b: Run) -> bool {
    &&& a.steps == b.steps
    &&& a.success == b.success
    &&& a.boundary == b.boundary
    &&& a.turn == b.turn
    &&& a.early == b.early
    &&& a.late == b.late
    &&& a.preview == b.preview
}

/// Every step before the one that an operation has come to is accounted for.
proof fn lemma_accounted(runs: Seq<Run>, events: Seq<StepEvent>, outcome: Outcome, i: int)
    requires
        finished(runs, events, outcome),
        0 <= i < runs.len(),
    ensures
        same_operation(runs[i], runs[0]),
        forall|j: int| 0 <= j < i ==> succeeded(#[trigger] runs[j], events[j]),
        forall|p: int|
            0 <= p < runs[i].position ==> done_at(runs, events, p) || (left_out_at(
                runs,
                events,
                p,
            ) && may_be_left_out(runs[0].steps@, p)),
    decreases i,
{
    if i > 0 {
        lemma_accounted(runs, events, outcome, i - 1);
        let before = runs[i - 1];
        assert(answered(runs, events, i - 1));
        assert(linked(runs, events, i - 1));
        assert(succeeded(before, events[i - 1]));
        assert forall|p: int| 0 <= p < runs[i].position implies done_at(runs, events, p) || (
        left_out_at(runs, events, p) && may_be_left_out(runs[0].steps@, p)) by {
            if p == before.position {
                assert(done_at(runs, events, p));
            } else if p > before.position {
                assert(left_out_at(runs, events, p));
            }
        }
    }
}

/// An operation reports success only when every one of its steps was performed, in order,
/// but for those that a missing file made unnecessary, and a footprint only then.
pub proof fn success_needs_every_step(runs: Seq<Run>, events: Seq<StepEvent>, outcome: Outcome)
    requires
        finished(runs, events, outcome),
        runs[0].success != OutcomeState::Incomplete,
        outcome.status != OutcomeState::Incomplete,
    ensures
        outcome.status == runs[0].success,
        forall|i: int| 0 <= i < runs.len() ==> succeeded(#[trigger] runs[i], events[i]),
        forall|i: int, j: int|
            0 <= i < j < runs.len() ==> (#[trigger] runs[i]).position < (
            #[trigger] runs[j]).position,
        forall|p: int|
            0 <= p < runs[0].steps@.len() ==> done_at(runs, events, p) || (left_out_at(
                runs,
                events,
                p,
            ) && may_be_left_out(runs[0].steps@, p)),
{
    let last = runs.len() - 1;
    lemma_accounted(runs, events, outcome, last);
    assert(answered(runs, events, last));
    assert(succeeded(runs[last], events[last]));
    assert forall|p: int| 0 <= p < runs[0].steps@.len() implies done_at(runs, events, p) || (
    left_out_at(runs, events, p) && may_be_left_out(runs[0].steps@, p)) by {
        if p == runs[last].position {
            assert(done_at(runs, events, p));
        } else if p > runs[last].position {
            assert(left_out_at(runs, events, p));
        }
    }
    assert forall|i: int, j: int| 0 <= i < j < runs.len() implies (#[trigger] runs[i]).position
        < (#[trigger] runs[j]).position by {
        lemma_later_is_further(runs, events, outcome, i, j);
    }
}

proof fn lemma_later_is_further(
    runs: Seq<Run>,
    events: Seq<StepEvent>,
    outcome: Outcome,
    i: int,
    j: int,
)
    requires
        finished(runs, events, outcome),
        0 <= i < j < runs.len(),
    ensures
        runs[i].position < runs[j].position,
    decreases j,
{
    assert(linked(runs, events, j - 1));
    assert(answered(runs, events, j - 1));
    if i < j - 1 {
        lemma_later_is_further(runs, events, outcome, i, j - 1);
    }
}

/// A failure after the first lasting effect keeps the exact places to look at, and claims
/// neither success nor a footprint.
pub proof fn failures_keep_their_places(runs: Seq<Run>, events: Seq<StepEvent>, outcome: Outcome)
    requires
        finished(runs, events, outcome),
        !succeeded(runs.last(), events.last()),
    ensures
        runs.last().position >= runs[0].boundary,
        outcome.status == OutcomeState::Incomplete,
        outcome.logical_bytes is None,
        outcome.allocated_bytes is None,
        outcome.error is Some,
        events.last() matches StepEvent::Failed(error) ==> text::opt_text(outcome.error) == Some(
            error.message@,
        ),
        outcome.preview == runs[0].preview,
        outcome.recovery_paths == if runs.last().position <= runs[0].turn {
            runs[0].early
        } else {
            runs[0].late
        },
{
    lemma_accounted(runs, events, outcome, runs.len() - 1);
}

proof fn lemma_replacing_list(p: int)
    requires
        0 <= p < 31,
        may_be_left_out(update::replacing_steps(), p),
    ensures
        p == 29 || p == 30,
        update::replacing_steps()[29] == Step::RemoveGuard,
        update::replacing_steps()[30] == Step::SyncRoot,
{
    let steps = update::replacing_steps();
    assert(steps.len() == 31);
    assert(steps[28] == Step::CheckGuard);
    assert(steps[29] == Step::RemoveGuard);
    assert(steps[30] == Step::SyncRoot);
    assert forall|i: int| 0 <= i < 28 implies is_firm(#[trigger] steps[i]) by {}
}

/// An update that replaces reports success only when every one of its steps was performed:
/// only where the guard is gone already are its removal and the flush behind it left out.
pub proof fn updates_leave_out_only_the_guard(
    runs: Seq<Run>,
    events: Seq<StepEvent>,
    outcome: Outcome,
    p: int,
)
    requires
        finished(runs, events, outcome),
        runs[0].steps@ == update::replacing_steps(),
        runs[0].success != OutcomeState::Incomplete,
        outcome.status != OutcomeState::Incomplete,
        0 <= p < update::replacing_steps().len(),
    ensures
        update::replacing_steps().len() == 31,
        done_at(runs, events, p) || (left_out_at(runs, events, p) && (p == 29 || p == 30)),
        update::replacing_steps()[29] == Step::RemoveGuard,
        update::replacing_steps()[30] == Step::SyncRoot,
{
    success_needs_every_step(runs, events, outcome);
    let steps = update::replacing_steps();
    assert(steps.len() == 31);
    assert(steps[28] == Step::CheckGuard);
    lemma_replacing_list(29);
    if !done_at(runs, events, p) {
        lemma_replacing_list(p);
    }
}

/// Whether a step takes away a file that may be gone already, or flushes its removal.
pub open spec fn tidies(steps: Seq<Step>, p: int) -> bool {
    ||| steps[p] == Step::UnlinkStagedExecutable
    ||| steps[p] == Step::RemoveGuard
    ||| p > 0 && steps[p] == Step::SyncRoot && steps[p - 1] == Step::RemoveGuard
}

proof fn lemma_recover_list(mode: RecoverMode, record: Option<LifecycleRecord>, p: int)
    requires
        0 <= p < removal::recover_steps(mode, record).len(),
        may_be_left_out(removal::recover_steps(mode, record), p),
    ensures
        tidies(removal::recover_steps(mode, record), p),
{
    let steps = removal::recover_steps(mode, record);
    let first = removal::mode_steps(mode);
    let middle = seq![Step::Reopen] + plan::barriers() + removal::outcome_steps(mode, record);
    let guard = removal::guard_steps(record);
    let a = first.len() as int;
    let b = a + middle.len();
    assert(steps =~= first + middle + guard + seq![Step::Measure]);
    assert forall|i: int| 0 <= i < middle.len() implies is_firm(#[trigger] middle[i]) by {}
    assert forall|i: int| a <= i < b implies is_firm(#[trigger] steps[i]) by {
        assert(steps[i] == middle[i - a]);
    }
    assert forall|i: int| 0 <= i < a implies steps[i] == #[trigger] first[i] by {}
    assert forall|i: int| b <= i < b + guard.len() implies #[trigger] steps[i] == guard[i - b] by {}
    assert(steps[b + guard.len()] == Step::Measure);
    if steps[p - 1] == Step::CheckStagedExecutable {
        if p - 1 < a {
            assert(first[p - 1] == Step::CheckStagedExecutable);
            assert(p - 1 == 0);
            assert(first[1] == Step::UnlinkStagedExecutable);
        } else if p - 1 < b {
            assert(is_firm(steps[p - 1]));
        }
    } else if steps[p - 1] == Step::CheckGuard {
        if p - 1 < a {
            assert(first[p - 1] == Step::CheckGuard);
        } else if p - 1 < b {
            assert(is_firm(steps[p - 1]));
        } else {
            assert(p - 1 == b);
            assert(steps[p] == guard[1]);
        }
    } else {
        if p - 2 < a {
            assert(first[p - 2] == Step::CheckGuard);
        } else if p - 2 < b {
            assert(is_firm(steps[p - 2]));
        } else {
            assert(p - 2 == b);
            assert(steps[p - 1] == guard[1]);
            assert(steps[p] == guard[2]);
        }
    }
}

/// A recovery reports success only when every one of its steps was performed: only where the
/// staged executable or the guard is gone already are its removal, and the flush behind that of
/// the guard, left out.
pub proof fn recoveries_leave_out_only_missing_files(
    mode: RecoverMode,
    record: Option<LifecycleRecord>,
    runs: Seq<Run>,
    events: Seq<StepEvent>,
    outcome: Outcome,
    p: int,
)
    requires
        finished(runs, events, outcome),
        runs[0].steps@ == removal::recover_steps(mode, record),
        runs[0].success != OutcomeState::Incomplete,
        outcome.status != OutcomeState::Incomplete,
        0 <= p < removal::recover_steps(mode, record).len(),
    ensures
        done_at(runs, events, p) || (left_out_at(runs, events, p) && tidies(
            removal::recover_steps(mode, record),
            p,
        )),
{
    success_needs_every_step(runs, events, outcome);
    if !done_at(runs, events, p) {
        lemma_recover_list(mode, record, p);
    }
}

/// In a list without files that may be missing no step is left out: each is performed at its
/// turn.
pub proof fn plain_operations_leave_nothing_out(
    runs: Seq<Run>,
    events: Seq<StepEvent>,
    outcome: Outcome,
)
    requires
        finished(runs, events, outcome),
        all_firm(runs[0].steps@),
        runs[0].success != OutcomeState::Incomplete,
        outcome.status != OutcomeState::Incomplete,
    ensures
        outcome.status == runs[0].success,
        events.len() == runs[0].steps@.len(),
        forall|i: int| 0 <= i < events.len() ==> performed(#[trigger] events[i]),
        forall|i: int| 0 <= i < events.len() ==> (#[trigger] runs[i]).position == i,
{
    let last = runs.len() - 1;
    lemma_in_order(runs, events, outcome, last);
    assert(answered(runs, events, last));
    assert(is_firm(runs[0].steps@[last]));
    assert forall|i: int| 0 <= i < events.len() implies (#[trigger] runs[i]).position == i by {
        lemma_in_order(runs, events, outcome, i);
    }
}

proof fn lemma_plain_lists()
    ensures
        all_firm(plan::existing_steps()),
        all_firm(plan::fresh_steps()),
        all_firm(update::unchanged_steps()),
        all_firm(removal::remove_steps()),
        plan::existing_steps().len() == 12,
        plan::existing_steps().subrange(3, 10) =~= plan::barriers(),
        plan::fresh_steps().len() == 23,
        plan::fresh_steps().subrange(14, 21) =~= plan::barriers(),
        plan::fresh_steps()[11] == Step::VerifyStage,
        plan::fresh_steps()[13] == Step::Publish,
        removal::remove_steps().len() == 22,
        update::unchanged_steps().len() == 12,
        update::unchanged_steps().subrange(3, 10) =~= plan::barriers(),
{
}

proof fn lemma_publish_at(i: int)
    requires
        0 <= i < 23,
        plan::fresh_steps()[i] == Step::Publish,
    ensures
        i == 13,
{
    let steps = plan::fresh_steps();
    assert(steps[0] == Step::CheckParent);
    assert(steps[1] == Step::HashSource);
    assert(steps[2] == Step::RequireAbsent);
    assert(steps[3] == Step::CheckCancel);
    assert(steps[4] == Step::MakeStage);
    assert(steps[5] == Step::OpenStage);
    assert(steps[6] == Step::MakeLock);
    assert(steps[7] == Step::MakeBin);
    assert(steps[8] == Step::CopyExecutable);
    assert(steps[9] == Step::WriteManifest);
    assert(steps[10] == Step::SyncStage);
    assert(steps[11] == Step::VerifyStage);
    assert(steps[12] == Step::RequireAbsent);
    assert(steps[14] == Step::SyncExecutable);
    assert(steps[15] == Step::SyncManifest);
    assert(steps[16] == Step::SyncLock);
    assert(steps[17] == Step::SyncBin);
    assert(steps[18] == Step::SyncRoot);
    assert(steps[19] == Step::SyncParent);
    assert(steps[20] == Step::FinalFullSync);
    assert(steps[21] == (Step::Verify { removed: 0 }));
    assert(steps[22] == Step::Measure);
}

proof fn lemma_verified_before(i: int)
    requires
        0 <= i < 22,
        takes_away(removal::remove_steps()[i]),
    ensures
        0 < i,
        removal::remove_steps()[i - 1] is Verify,
{
    let steps = removal::remove_steps();
    assert(steps[0] is Verify);
    assert(steps[1] == Step::Measure);
    assert(steps[2] == Step::RequireAbsent);
    assert(steps[3] == Step::CheckCancel);
    assert(steps[4] == Step::Detach);
    assert(steps[5] == Step::SyncParent);
    assert(steps[6] is Verify);
    assert(steps[8] == Step::SyncBin);
    assert(steps[9] is Verify);
    assert(steps[11] == Step::SyncRoot);
    assert(steps[12] is Verify);
    assert(steps[14] == Step::SyncRoot);
    assert(steps[15] is Verify);
    assert(steps[17] == Step::SyncRoot);
    assert(steps[18] is Verify);
    assert(steps[20] == Step::SyncParent);
    assert(steps[21] == Step::FinalFullSync);
}

/// An image that is already there is reported as installed only after every durability
/// barrier was established anew: its visibility alone proves nothing.
pub proof fn already_installed_means_durable(
    runs: Seq<Run>,
    events: Seq<StepEvent>,
    outcome: Outcome,
)
    requires
        finished(runs, events, outcome),
        runs[0].steps@ == plan::existing_steps() || runs[0].steps@ == update::unchanged_steps(),
        runs[0].success == OutcomeState::AlreadyInstalled,
        outcome.status == OutcomeState::AlreadyInstalled,
    ensures
        events.len() == runs[0].steps@.len(),
        runs[0].steps@.subrange(3, 10) == plan::barriers(),
        forall|i: int| 3 <= i < 10 ==> performed(#[trigger] events[i]),
{
    lemma_plain_lists();
    plain_operations_leave_nothing_out(runs, events, outcome);
}

/// A fresh package becomes visible only after it verified whole where it was staged, and is
/// reported as installed only after every durability barrier.
pub proof fn installed_means_verified_and_durable(
    runs: Seq<Run>,
    events: Seq<StepEvent>,
    outcome: Outcome,
)
    requires
        finished(runs, events, outcome),
        runs[0].steps@ == plan::fresh_steps(),
    ensures
        forall|i: int|
            0 <= i < runs.len() && (#[trigger] runs[i]).step() == Step::Publish ==> 11 < i
                && runs[11].step() == Step::VerifyStage && performed(events[11]),
        runs[0].success == OutcomeState::Installed && outcome.status == OutcomeState::Installed
            ==> events.len() == runs[0].steps@.len() && forall|i: int|
            14 <= i < 21 ==> performed(#[trigger] events[i]),
        runs[0].steps@.subrange(14, 21) == plan::barriers(),
{
    lemma_plain_lists();
    assert forall|i: int|
        0 <= i < runs.len() && (#[trigger] runs[i]).step() == Step::Publish implies 11 < i
        && runs[11].step() == Step::VerifyStage && performed(events[11]) by {
        lemma_in_order(runs, events, outcome, i);
        assert(answered(runs, events, i));
        lemma_publish_at(i);
        lemma_in_order(runs, events, outcome, 11);
    }
    if runs[0].success == OutcomeState::Installed && outcome.status == OutcomeState::Installed {
        plain_operations_leave_nothing_out(runs, events, outcome);
    }
}

/// Whether a step takes a part of the package away.
pub open spec fn takes_away(step: Step) -> bool {
    ||| step == Step::RemoveExecutable
    ||| step == Step::RemoveBin
    ||| step == Step::RemoveLock
    ||| step == Step::RemoveManifest
    ||| step == Step::RemoveRoot
}

/// Nothing of a package is removed before the step right before it verified that exactly
/// the rest of the package is there; what was not verified stays where it is.
pub proof fn only_verified_parts_are_removed(
    runs: Seq<Run>,
    events: Seq<StepEvent>,
    outcome: Outcome,
    i: int,
)
    requires
        finished(runs, events, outcome),
        runs[0].steps@ == removal::remove_steps(),
        0 <= i < runs.len(),
        takes_away(runs[i].step()),
    ensures
        0 < i,
        runs[i - 1].step() is Verify,
        performed(events[i - 1]),
{
    lemma_plain_lists();
    lemma_in_order(runs, events, outcome, i);
    assert(answered(runs, events, i));
    lemma_verified_before(i);
    lemma_in_order(runs, events, outcome, i - 1);
}

/// A package whose lock another plan holds cannot be opened, strictly or not, however sound it
/// is; once the lock is free, opening it gives what it would have given.
pub proof fn held_lock_refuses_opening(
    look: OpenLook,
    reason: String,
    require_payload_match: bool,
    euid: u32,
)
    requires
        handles::claim_fault(OpenLook { locked: Ok(()), ..look }, euid) is None,
        look.locked == Err::<(), String>(reason),
    ensures
        handles::open_fault(look, require_payload_match, euid) == Some(
            (
                ErrorKind::WouldBlock,
                "installation is busy or cannot be locked: "@ + reason@,
            ),
        ),
{
}

/// While a plan holds the lock of a package, nothing else can be prepared for its prefix: what
/// opening it refuses, a removal, a recovery and an update refuse with that very error, and an
/// installation refuses too. None of them has a step to perform.
pub proof fn busy_package_prepares_nothing(
    busy: Error,
    prefix: Seq<u8>,
    parent: ParentLook,
    gate: GateLook,
    recovery: RecoverLook,
    source_path: Seq<u8>,
    version: Seq<char>,
    source: SourceImage,
)
    requires
        plan::parent_fault(prefix, parent) is None,
        recovery.package == Err::<Receipt, Error>(busy),
        version::is_version(version),
        installation::is_physical(source_path),
    ensures
        removal::remove_fault(
            Host::MacOs,
            prefix,
            parent,
            Err::<Receipt, Error>(busy),
            gate,
        ) == Some(lifecycle::fault_of(busy)),
        removal::recover_fault(Host::MacOs, prefix, parent, recovery) == Some(
            lifecycle::fault_of(busy),
        ),
        update::update_fault(
            Host::MacOs,
            prefix,
            source_path,
            version,
            (UpdateLook { parent, source: Ok(source), package: Err(busy), gate }),
        ) == Some(lifecycle::fault_of(busy)),
        plan::install_fault(
            Host::MacOs,
            prefix,
            source_path,
            version,
            (InstallLook { parent, source: Ok(source), existing: Err(busy), gate }),
        ) == Some(lifecycle::fault_of(busy)),
{
}

/// No barrier of a removal gives way to a cancellation: what was begun is made durable.
pub proof fn removals_complete_their_barriers(run: Run)
    requires
        run.wf(),
        run.steps@ == removal::remove_steps(),
    ensures
        !run.heeds_cancellation(),
{
}

/// Every barrier of a published package gives way to a cancellation, wherever the barriers
/// stand among the steps.
pub proof fn published_barriers_give_way(run: Run, at: int)
    requires
        run.wf(),
        0 <= at <= run.position < at + 7 <= run.steps@.len(),
        run.steps@.subrange(at, at + 7) == plan::barriers(),
    ensures
        run.heeds_cancellation(),
{
    let barriers = plan::barriers();
    assert forall|i: int| 0 <= i < 7 implies run.steps@[at + i] == #[trigger] barriers[i] by {
        assert(run.steps@.subrange(at, at + 7)[i] == barriers[i]);
    }
    let n = run.position - at;
    assert(run.steps@[at + n] == barriers[n]);
    assert(run.steps@[at + 2] == barriers[2]);
}

} // verus!
