//! What holds of every run of a native Trash session.

use crate::error::Error;
use crate::execute;
use crate::execute::{
    Effect, ExecutionReport, GuardDecision, GuardPoint, Plan, PlanItem, PlanSkip,
};
use crate::journal::{ItemRecord, ItemState, ItemView, NativePath};
use crate::model::{ExecutionContract, FileIdentity};
use crate::session;
use crate::session::{Action, Event, Phase, Publication, SessionView};
use vstd::prelude::*;
use vstd::string::*;

verus! {

/// The session after a list of events.
pub open spec fn run(start: SessionView, events: Seq<Event>) -> SessionView
    decreases events.len(),
{
    if events.len() == 0 {
        start
    } else {
        run(start, events.drop_last()).next(events.last())
    }
}

/// Whether every event answers the action that was asked for.
pub open spec fn accepted(start: SessionView, events: Seq<Event>) -> bool
    decreases events.len(),
{
    if events.len() == 0 {
        session::is_start(start)
    } else {
        accepted(start, events.drop_last()) && run(start, events.drop_last()).expects(
            events.last(),
        )
    }
}

/// Whether the intent of item `index` became durable with the event after the first `k`.
pub open spec fn intent_durable_at(
    start: SessionView,
    events: Seq<Event>,
    index: int,
    k: int,
) -> bool {
    let at = run(start, events.take(k));
    &&& 0 <= k < events.len()
    &&& at.action() == (Action::Publish { initial: false })
    &&& at.index == index
    &&& at.items[index].state == ItemState::Started
    &&& events[k] == Event::Published(Publication::Clean)
}

/// Whether the success of item `index` became durable with the event after the first `k`.
pub open spec fn success_durable_at(
    start: SessionView,
    events: Seq<Event>,
    index: int,
    k: int,
) -> bool {
    let at = run(start, events.take(k));
    &&& 0 <= k < events.len()
    &&& at.action() == (Action::Publish { initial: false })
    &&& at.items[index].state == ItemState::Succeeded
    &&& events[k] matches Event::Published(publication)
    &&& !(publication is Failed)
}

/// The parts of an item that were approved.
pub open spec fn same_target(a: ItemView, b: ItemView) -> bool {
    &&& a.path == b.path
    &&& a.device == b.device
    &&& a.inode == b.inode
    &&& a.logical_bytes == b.logical_bytes
    &&& a.rule_binding == b.rule_binding
}

/// What every reachable session keeps.
spec fn kept(start: SessionView, s: SessionView) -> bool {
    &&& s.wf()
    &&& s.header == start.header
    &&& s.skips == start.skips
    &&& s.guarded == start.guarded
    &&& s.items.len() == start.items.len()
    &&& forall|i: int|
        0 <= i < s.items.len() ==> same_target(#[trigger] s.items[i], start.items[i])
    &&& s.journal_error is Some ==> s.phase == Phase::Done
    &&& (s.failure is Some <==> s.phase == Phase::Failed)
    // Items before the current one are settled, items after it untouched or skipped.
    &&& forall|i: int|
        0 <= i < s.index ==> (#[trigger] s.items[i]).state != ItemState::Planned
            && s.items[i].state != ItemState::Started
    &&& (s.phase != Phase::Done && s.phase != Phase::Failed) ==> forall|i: int|
        s.index < i < s.items.len() ==> (#[trigger] s.items[i]).state == ItemState::Planned
    &&& s.phase == Phase::Done ==> forall|i: int|
        0 <= i < s.items.len() ==> (#[trigger] s.items[i]).state != ItemState::Planned
            && s.items[i].state != ItemState::Started
    // An ambiguous item stops the session.
    &&& !s.stopped && s.phase != Phase::Done ==> forall|i: int|
        0 <= i < s.items.len() ==> (#[trigger] s.items[i]).state != ItemState::Unknown
    // The current item's state follows the phase.
    &&& s.phase == Phase::CheckStop ==> s.items[s.index].state == ItemState::Planned
    &&& (s.phase == Phase::StampIntent || s.phase == Phase::PublishIntent || s.phase
        == Phase::Guard || s.phase == Phase::Native) ==> {
        &&& s.items[s.index].state == ItemState::Started
        &&& !s.stopped
        &&& s.skips[s.index] is None
    }
    &&& (s.phase == Phase::StampOutcome || s.phase == Phase::PublishOutcome) ==> {
        &&& s.items[s.index].state != ItemState::Planned
        &&& s.items[s.index].state != ItemState::Started
    }
    &&& s.phase == Phase::PublishPlan ==> !s.stopped && (0 < s.items.len() ==> s.items[0].state
        == ItemState::Planned)
}

proof fn lemma_next_keeps(start: SessionView, s: SessionView, event: Event)
    requires
        kept(start, s),
        s.expects(event),
    ensures
        kept(start, s.next(event)),
{
}

proof fn lemma_kept(start: SessionView, events: Seq<Event>)
    requires
        accepted(start, events),
    ensures
        kept(start, run(start, events)),
    decreases events.len(),
{
    if events.len() > 0 {
        lemma_kept(start, events.drop_last());
        lemma_next_keeps(start, run(start, events.drop_last()), events.last());
    }
}

proof fn lemma_take(start: SessionView, events: Seq<Event>, k: int)
    requires
        accepted(start, events),
        0 <= k <= events.len(),
    ensures
        accepted(start, events.take(k)),
        k < events.len() ==> run(start, events.take(k)).expects(events[k]) && run(
            start,
            events.take(k + 1),
        ) == run(start, events.take(k)).next(events[k]),
    decreases events.len() - k,
{
    if k == events.len() {
        assert(events.take(k) =~= events);
    } else {
        lemma_take(start, events, k + 1);
        assert(events.take(k + 1).drop_last() =~= events.take(k));
        assert(events.take(k + 1).last() == events[k]);
    }
}

/// A native effect is asked for only after the intent to perform it on this very item
/// has been made durable.
pub proof fn intent_precedes_effect(start: SessionView, events: Seq<Event>) -> (k: int)
    requires
        accepted(start, events),
        run(start, events).action() == Action::PerformEffect,
    ensures
        intent_durable_at(start, events, run(start, events).index, k),
{
    let n = events.len() as int;
    let last = run(start, events);
    lemma_kept(start, events);
    assert(events.drop_last() =~= events.take(n - 1));
    let before = run(start, events.take(n - 1));
    lemma_kept(start, events.drop_last());
    if before.phase == Phase::PublishIntent {
        return n - 1;
    }
    assert(before.phase == Phase::Guard);
    let earlier = events.drop_last();
    reveal_with_fuel(accepted, 3);
    reveal_with_fuel(run, 3);
    assert(earlier.drop_last() =~= events.take(n - 2));
    lemma_kept(start, earlier.drop_last());
    assert(run(start, events.take(n - 2)).phase == Phase::PublishIntent);
    n - 2
}

/// A native effect is asked for only while no item is ambiguous, no journal failure
/// happened, and neither validation nor an earlier refusal stopped the item.
pub proof fn no_effect_after_ambiguity(start: SessionView, events: Seq<Event>)
    requires
        accepted(start, events),
        run(start, events).action() == Action::PerformEffect,
    ensures
        ({
            let s = run(start, events);
            &&& s.journal_error is None
            &&& s.skips[s.index] is None
            &&& forall|i: int|
                0 <= i < s.items.len() ==> (#[trigger] s.items[i]).state != ItemState::Unknown
        }),
{
    lemma_kept(start, events);
}

/// The phases in which the native call of the current item lies behind.
spec fn past_native(phase: Phase) -> bool {
    phase == Phase::StampOutcome || phase == Phase::PublishOutcome || phase == Phase::Done
}

proof fn lemma_step_order(s: SessionView, event: Event)
    requires
        s.wf(),
        s.expects(event),
    ensures
        s.index <= s.next(event).index,
        (s.phase == Phase::Native || past_native(s.phase)) && s.next(event).index == s.index
            ==> past_native(s.next(event).phase),
{
}

proof fn lemma_index_grows(start: SessionView, events: Seq<Event>, k: int, l: int)
    requires
        accepted(start, events),
        0 <= k <= l <= events.len(),
    ensures
        run(start, events.take(k)).index <= run(start, events.take(l)).index,
        run(start, events.take(k)).phase == Phase::Native && k < l && run(
            start,
            events.take(l),
        ).index == run(start, events.take(k)).index ==> past_native(
            run(start, events.take(l)).phase,
        ),
    decreases l - k,
{
    if k < l {
        lemma_index_grows(start, events, k, l - 1);
        lemma_take(start, events, l - 1);
        assert(run(start, events.take(l - 1)).wf()) by {
            lemma_kept(start, events.take(l - 1));
        }
        lemma_step_order(run(start, events.take(l - 1)), events[l - 1]);
    }
}

/// No item is ever handed to the platform twice: a later native effect is on a later item.
pub proof fn effect_is_never_retried(start: SessionView, events: Seq<Event>, k: int, l: int)
    requires
        accepted(start, events),
        0 <= k < l <= events.len(),
        run(start, events.take(k)).action() == Action::PerformEffect,
        run(start, events.take(l)).action() == Action::PerformEffect,
    ensures
        run(start, events.take(k)).index < run(start, events.take(l)).index,
{
    lemma_index_grows(start, events, k, l);
}

/// A finished session leaves no item open: each is moved, skipped, failed or unknown.
pub proof fn finished_session_settles_every_item(start: SessionView, events: Seq<Event>)
    requires
        accepted(start, events),
        run(start, events).action() == Action::Return,
    ensures
        forall|i: int|
            0 <= i < run(start, events).items.len() ==> {
                let state = (#[trigger] run(start, events).items[i]).state;
                state == ItemState::Succeeded || state == ItemState::Skipped || state
                    == ItemState::Failed || state == ItemState::Unknown
            },
{
    lemma_kept(start, events);
}

/// The approval is never widened: header, paths, identities, sizes and rule bindings of
/// the record stay those of the plan.
pub proof fn approval_is_never_widened(start: SessionView, events: Seq<Event>)
    requires
        accepted(start, events),
    ensures
        run(start, events).header == start.header,
        run(start, events).items.len() == start.items.len(),
        forall|i: int|
            0 <= i < start.items.len() ==> same_target(
                #[trigger] run(start, events).items[i],
                start.items[i],
            ),
{
    lemma_kept(start, events);
}

/// A finished session that reports an item as moved has published that success, and the
/// publication did not fail.
pub proof fn reported_success_is_durable(start: SessionView, events: Seq<Event>, i: int) -> (k: int)
    requires
        accepted(start, events),
        run(start, events).action() == Action::Return,
        0 <= i < run(start, events).items.len(),
        run(start, events).items[i].state == ItemState::Succeeded,
    ensures
        success_durable_at(start, events, i, k),
{
    lemma_success_published(start, events, i)
}

/// A moved item stays moved until the session ends, and was published before the session
/// went past it.
proof fn lemma_success_published(start: SessionView, events: Seq<Event>, i: int) -> (k: int)
    requires
        accepted(start, events),
        0 <= i < run(start, events).items.len(),
        run(start, events).items[i].state == ItemState::Succeeded,
        i < run(start, events).index || run(start, events).phase == Phase::Done,
    ensures
        success_durable_at(start, events, i, k),
    decreases events.len(),
{
    lemma_kept(start, events);
    if events.len() == 0 {
        assert(start.items[i].state == ItemState::Planned);
        return 0;
    }
    let n = events.len() as int;
    let shorter = events.drop_last();
    assert(shorter =~= events.take(n - 1));
    lemma_kept(start, shorter);
    let before = run(start, shorter);
    if i < before.index {
        let k = lemma_success_published(start, shorter, i);
        assert(shorter.take(k) =~= events.take(k));
        return k;
    }
    assert(i == before.index);
    assert(before.phase == Phase::PublishOutcome);
    n - 1
}

/// Whether the platform reported, with the event after the first `k`, that item `index` was
/// moved to `destination`.
pub open spec fn moved_at(
    start: SessionView,
    events: Seq<Event>,
    index: int,
    destination: NativePath,
    k: int,
) -> bool {
    let at = run(start, events.take(k));
    &&& 0 <= k < events.len()
    &&& at.action() == Action::PerformEffect
    &&& at.index == index
    &&& events[k] matches Event::Effect { effect, .. } && effect == Effect::Moved(destination)
}

/// An item is reported as moved only where the native effect on this very item returned a
/// move, and to the place that it returned.
pub proof fn only_moves_are_reported_as_moved(start: SessionView, events: Seq<Event>, i: int) -> (k:
    int)
    requires
        accepted(start, events),
        0 <= i < run(start, events).items.len(),
        run(start, events).items[i].state == ItemState::Succeeded,
    ensures
        run(start, events).items[i].destination matches Some(destination) && moved_at(
            start,
            events,
            i,
            destination,
            k,
        ),
    decreases events.len(),
{
    if events.len() == 0 {
        assert(start.items[i].state == ItemState::Planned);
        return 0;
    }
    let n = events.len() as int;
    let shorter = events.drop_last();
    assert(shorter =~= events.take(n - 1));
    lemma_kept(start, shorter);
    lemma_kept(start, events);
    let before = run(start, shorter);
    if before.items[i].state == ItemState::Succeeded {
        assert(run(start, events).items[i].destination == before.items[i].destination);
        let k = only_moves_are_reported_as_moved(start, shorter, i);
        assert(shorter.take(k) =~= events.take(k));
        return k;
    }
    n - 1
}

proof fn lemma_same_length(start: SessionView, events: Seq<Event>, k: int)
    requires
        accepted(start, events),
        0 <= k <= events.len(),
    ensures
        run(start, events.take(k)).items.len() == start.items.len(),
        run(start, events).items.len() == start.items.len(),
        run(start, events.take(k)).wf(),
{
    lemma_take(start, events, k);
    lemma_kept(start, events.take(k));
    lemma_kept(start, events);
}

/// A move that the platform reported is never reported as anything less: the item is moved to
/// the place that was returned, or unknown with that place.
pub proof fn moves_are_never_lost(
    start: SessionView,
    events: Seq<Event>,
    i: int,
    destination: NativePath,
    k: int,
)
    requires
        accepted(start, events),
        moved_at(start, events, i, destination, k),
    ensures
        ({
            let item = run(start, events).items[i];
            &&& item.state == ItemState::Succeeded || item.state == ItemState::Unknown
            &&& item.destination == Some(destination)
        }),
    decreases events.len(),
{
    let n = events.len() as int;
    let shorter = events.drop_last();
    assert(shorter =~= events.take(n - 1));
    lemma_kept(start, shorter);
    let before = run(start, shorter);
    assert(run(start, events) == before.next(events.last()));
    if k < n - 1 {
        assert(shorter.take(k) =~= events.take(k));
        assert(shorter[k] == events[k]);
        moves_are_never_lost(start, shorter, i, destination, k);
        lemma_same_length(start, shorter, k);
        lemma_index_grows(start, events, k, n - 1);
    } else {
        assert(events[k] == events.last());
    }
}

/// A plan that authorizes nothing native starts no session, and neither does one that the
/// planner refuses to validate: without a session nothing is recorded and nothing moves.
pub proof fn refused_plans_start_nothing(
    plan: Plan,
    spent: bool,
    validated: Result<Vec<PlanSkip>, String>,
    now: Result<u64, Error>,
    operation_id: Result<String, Error>,
)
    requires
        plan.contract != ExecutionContract::RevalidatedTrashV1 || validated is Err,
    ensures
        session::begin_fault(plan, spent, validated, now, operation_id) is Some,
{
}

/// An approval is one-shot: once a session was started with it, no plan starts another with
/// it, whatever the planner says of that plan.
pub proof fn approval_is_one_shot(
    plan: Plan,
    spent: bool,
    validated: Result<Vec<PlanSkip>, String>,
    now: Result<u64, Error>,
    operation_id: Result<String, Error>,
    other: Plan,
    validated_again: Result<Vec<PlanSkip>, String>,
    later: Result<u64, Error>,
    other_id: Result<String, Error>,
)
    requires
        session::begin_fault(plan, spent, validated, now, operation_id) is None,
    ensures
        ({
            let first = session::begin_fault(plan, spent, validated, now, operation_id);
            session::begin_fault(
                other,
                session::spent_after(spent, first),
                validated_again,
                later,
                other_id,
            ) is Some
        }),
{
}

/// A resource that validation names gets a reason, at whatever position it is named: the text
/// of the first skip that names it, which is its code, with the probe's error behind it where
/// there is one.
pub proof fn named_resources_are_skipped(skips: Seq<PlanSkip>, resource: u64, j: int)
    requires
        0 <= j < skips.len(),
        skips[j].resource == resource,
        forall|k: int| 0 <= k < j ==> (#[trigger] skips[k]).resource != resource,
    ensures
        execute::skip_of(skips, resource) matches Some(reason) && match skips[j].probe_error {
            None => reason == skips[j].code@,
            Some(error) => reason == skips[j].code@ + ": "@ + error@,
        },
    decreases j,
{
    if j > 0 {
        assert(skips[0].resource != resource);
        let rest = skips.drop_first();
        assert forall|k: int| 0 <= k < j - 1 implies (#[trigger] rest[k]).resource != resource by {
            assert(rest[k] == skips[k + 1]);
        }
        assert(rest[j - 1] == skips[j]);
        named_resources_are_skipped(rest, resource, j - 1);
    }
}

/// A resource that validation does not name gets no reason.
pub proof fn unnamed_resources_are_not_skipped(skips: Seq<PlanSkip>, resource: u64)
    requires
        forall|k: int| 0 <= k < skips.len() ==> (#[trigger] skips[k]).resource != resource,
    ensures
        execute::skip_of(skips, resource) is None,
    decreases skips.len(),
{
    if skips.len() > 0 {
        assert(skips[0].resource != resource);
        let rest = skips.drop_first();
        assert forall|k: int| 0 <= k < rest.len() implies (#[trigger] rest[k]).resource
            != resource by {
            assert(rest[k] == skips[k + 1]);
        }
        unnamed_resources_are_not_skipped(rest, resource);
    }
}

proof fn lemma_named(skips: Seq<PlanSkip>, resource: u64, j: int)
    requires
        0 <= j < skips.len(),
        skips[j].resource == resource,
    ensures
        execute::skip_of(skips, resource) is Some,
    decreases j,
{
    if forall|k: int| 0 <= k < j ==> (#[trigger] skips[k]).resource != resource {
        named_resources_are_skipped(skips, resource, j);
    } else {
        let k = choose|k: int| 0 <= k < j && (#[trigger] skips[k]).resource == resource;
        lemma_named(skips, resource, k);
    }
}

proof fn lemma_skipped_untouched(start: SessionView, events: Seq<Event>, i: int)
    requires
        accepted(start, events),
        0 <= i < start.items.len(),
        start.skips[i] is Some,
    ensures
        ({
            let item = run(start, events).items[i];
            &&& item.state == ItemState::Planned || item.state == ItemState::Skipped
            &&& item.destination is None
        }),
    decreases events.len(),
{
    if events.len() > 0 {
        lemma_skipped_untouched(start, events.drop_last(), i);
        lemma_kept(start, events.drop_last());
        lemma_kept(start, events);
    }
}

/// No effect is ever asked for on an item whose resource validation names, at whatever
/// position it does: the item is skipped, and goes nowhere. `skips` is what validation said,
/// and `resource` the item's resource, as a session starts with them.
pub proof fn changed_items_are_never_moved(
    start: SessionView,
    events: Seq<Event>,
    skips: Seq<PlanSkip>,
    resource: u64,
    i: int,
    j: int,
)
    requires
        accepted(start, events),
        0 <= i < start.items.len(),
        start.skips[i] == execute::skip_of(skips, resource),
        0 <= j < skips.len(),
        skips[j].resource == resource,
    ensures
        run(start, events).action() == Action::PerformEffect ==> run(start, events).index != i,
        run(start, events).items[i].state == ItemState::Planned || run(
            start,
            events,
        ).items[i].state == ItemState::Skipped,
        run(start, events).items[i].destination is None,
        run(start, events).action() == Action::Return ==> run(start, events).items[i].state
            == ItemState::Skipped,
{
    lemma_named(skips, resource, j);
    lemma_kept(start, events);
    lemma_skipped_untouched(start, events, i);
}

/// An item is skipped for a stop of the plan first, then for what validation said, then for
/// what happened to an earlier item; the reason is recorded. Any other item is started.
pub proof fn items_are_skipped_for_a_reason(s: SessionView, stop: Option<String>)
    requires
        s.wf(),
        s.phase == Phase::CheckStop,
    ensures
        ({
            let after = s.next(Event::Stop(stop));
            let item = after.items[s.index];
            &&& after.index == s.index
            &&& stop matches Some(reason) ==> item.state == ItemState::Skipped && item.reason
                == Some(reason@)
            &&& stop is None && s.skips[s.index] is Some ==> item.state == ItemState::Skipped
                && item.reason == s.skips[s.index]
            &&& stop is None && s.skips[s.index] is None && s.stopped ==> item.state
                == ItemState::Skipped && item.reason == Some("stopped_after_ambiguous_outcome"@)
            &&& stop is None && s.skips[s.index] is None && !s.stopped ==> item.state
                == ItemState::Started && item.reason == s.items[s.index].reason && after.phase
                == Phase::StampIntent
            &&& item.state == ItemState::Skipped ==> after.phase == Phase::StampOutcome
            &&& forall|i: int|
                0 <= i < s.items.len() && i != s.index ==> #[trigger] after.items[i] == s.items[i]
        }),
{
}

/// What a native effect reports is what is recorded: a move with its destination, a refusal as
/// a skip for the stop that was seen or else for what the platform said, a failure as a failure,
/// and an ambiguous effect as unknown with its evidence. No other item changes.
pub proof fn effects_are_recorded_as_reported(
    s: SessionView,
    effect: Effect,
    final_stop: Option<String>,
    last_guard: GuardDecision,
)
    requires
        s.wf(),
        s.phase == Phase::Native,
    ensures
        ({
            let after = s.next(Event::Effect { effect, final_stop, last_guard });
            let item = after.items[s.index];
            &&& after.index == s.index
            &&& after.phase == Phase::StampOutcome
            &&& match effect {
                Effect::Moved(destination) => item.state == ItemState::Succeeded
                    && item.destination == Some(destination) && after.stopped == s.stopped,
                Effect::Refused(message) => item.state == ItemState::Skipped && item.reason == Some(
                    match final_stop {
                        Some(stop) => stop@,
                        None => message@,
                    },
                ) && item.destination == s.items[s.index].destination && after.stopped == (s.stopped
                    || last_guard is Refused),
                Effect::Failed(message) => item.state == ItemState::Failed && item.reason == Some(
                    message@,
                ) && item.destination == s.items[s.index].destination && after.stopped
                    == s.stopped,
                Effect::Unknown { message, evidence } => item.state == ItemState::Unknown
                    && item.reason == Some(message@) && item.recovery_evidence == evidence
                    && after.stopped,
            }
            &&& forall|i: int|
                0 <= i < s.items.len() && i != s.index ==> #[trigger] after.items[i] == s.items[i]
        }),
{
}

/// A guard that refuses, or fails, keeps the item from the platform and stops the batch; one
/// that lets the item go on leads to the effect on this very item.
pub proof fn guards_decide_before_the_effect(s: SessionView, result: Result<GuardDecision, String>)
    requires
        s.wf(),
        s.phase == Phase::Guard,
    ensures
        ({
            let after = s.next(Event::Guard(result));
            let item = after.items[s.index];
            &&& after.index == s.index
            &&& result == Ok::<GuardDecision, String>(GuardDecision::Proceed) ==> after.action()
                == Action::PerformEffect && after.items == s.items && after.stopped == s.stopped
            &&& result != Ok::<GuardDecision, String>(GuardDecision::Proceed) ==> {
                &&& after.action() == Action::AskTime
                &&& after.phase == Phase::StampOutcome
                &&& after.stopped
                &&& item.state == ItemState::Skipped
                &&& item.destination is None
            }
            &&& result matches Ok(GuardDecision::Refused(reason)) ==> item.reason == Some(
                reason@ + "; no_native_call"@,
            )
            &&& result matches Err(error) ==> item.reason == Some(
                "policy_guard_error_"@ + "after_started"@ + ": "@ + error@ + "; no_native_call"@,
            )
        }),
{
}

/// The two answers of a guard say what it decided, and one that failed says where.
pub proof fn failing_guards_refuse(error: String, reason: String, point: GuardPoint)
    ensures
        execute::guard_refusal(Ok(GuardDecision::Proceed), point) is None,
        execute::guard_refusal(Ok(GuardDecision::Refused(reason)), point) == Some(reason@),
        execute::guard_refusal(Err(error), point) matches Some(said) && said
            == "policy_guard_error_"@ + (if point == GuardPoint::LastNative {
            "last_native"@
        } else {
            "after_started"@
        }) + ": "@ + error@,
{
}

proof fn lemma_stays_stopped(start: SessionView, events: Seq<Event>, k: int, l: int)
    requires
        accepted(start, events),
        0 <= k <= l <= events.len(),
        run(start, events.take(k)).stopped,
    ensures
        run(start, events.take(l)).stopped,
    decreases l - k,
{
    if k < l {
        lemma_stays_stopped(start, events, k, l - 1);
        lemma_take(start, events, l - 1);
    }
}

/// Once a guard has refused or failed, once an effect was ambiguous, or once the last guard
/// refused inside an effect, nothing is moved any more.
pub proof fn nothing_moves_after_a_refusal(start: SessionView, events: Seq<Event>, k: int, l: int)
    requires
        accepted(start, events),
        0 <= k < l <= events.len(),
        match events[k] {
            Event::Guard(result) => result != Ok::<GuardDecision, String>(GuardDecision::Proceed),
            Event::Effect { effect, last_guard, .. } => effect is Unknown || (effect is Refused
                && last_guard is Refused),
            _ => false,
        },
    ensures
        run(start, events.take(l)).action() != Action::PerformEffect,
{
    lemma_take(start, events, k);
    lemma_take(start, events, l);
    lemma_kept(start, events.take(k));
    lemma_kept(start, events.take(l));
    let at = run(start, events.take(k));
    match events[k] {
        Event::Guard(result) => {
            guards_decide_before_the_effect(at, result);
        },
        Event::Effect { effect, final_stop, last_guard } => {
            effects_are_recorded_as_reported(at, effect, final_stop, last_guard);
        },
        _ => {},
    }
    lemma_stays_stopped(start, events, k + 1, l);
}

/// An item that nothing speaks against reaches the platform: started, stamped, made durable
/// and let go by the guard where there is one, it is the item that the effect is asked for.
pub proof fn sound_items_reach_the_platform(s: SessionView, now: u64)
    requires
        s.wf(),
        s.phase == Phase::CheckStop,
        !s.stopped,
        s.skips[s.index] is None,
    ensures
        ({
            let started = s.next(Event::Stop(None));
            let stamped = started.next(Event::Time(Ok(now)));
            let durable = stamped.next(Event::Published(Publication::Clean));
            let guarded = durable.next(Event::Guard(Ok(GuardDecision::Proceed)));
            &&& stamped.action() == (Action::Publish { initial: false })
            &&& stamped.items[s.index].state == ItemState::Started
            &&& stamped.items[s.index].updated_unix_ms == now
            &&& s.guarded ==> durable.action() == Action::AskGuard && guarded.action()
                == Action::PerformEffect && guarded.index == s.index
            &&& !s.guarded ==> durable.action() == Action::PerformEffect && durable.index
                == s.index
        }),
{
}

/// An outcome that was stamped and made durable lets the session go on with the next item, or
/// ends it behind the last; what was recorded stays.
pub proof fn settled_items_make_way(s: SessionView, now: u64)
    requires
        s.wf(),
        s.phase == Phase::StampOutcome,
    ensures
        ({
            let stamped = s.next(Event::Time(Ok(now)));
            let after = stamped.next(Event::Published(Publication::Clean));
            &&& stamped.action() == (Action::Publish { initial: false })
            &&& after.items == stamped.items
            &&& after.items[s.index].state == s.items[s.index].state
            &&& after.items[s.index].reason == s.items[s.index].reason
            &&& after.items[s.index].updated_unix_ms == now
            &&& after.stopped == s.stopped
            &&& after.index == s.index + 1
            &&& s.index + 1 < s.items.len() ==> after.action() == Action::AskStop
            &&& s.index + 1 == s.items.len() ==> after.action() == Action::Return
        }),
{
}

/// Where an intent, or the plan itself, may not be durable, nothing is asked of the platform;
/// later items are skipped. A plan that was not published cleanly gives no report at all.
pub proof fn nothing_moves_without_a_durable_record(s: SessionView, publication: Publication)
    requires
        s.wf(),
        publication != Publication::Clean,
    ensures
        s.phase == Phase::PublishPlan ==> s.next(Event::Published(publication)).action()
            == Action::Fail,
        s.phase == Phase::PublishIntent ==> {
            let after = s.next(Event::Published(publication));
            &&& after.action() == Action::Return
            &&& after.journal_error is Some
            &&& forall|i: int|
                s.index <= i < s.items.len() ==> (#[trigger] after.items[i]).state
                    == ItemState::Skipped
            &&& forall|i: int|
                0 <= i < s.index ==> #[trigger] after.items[i] == s.items[i]
        },
{
}

/// Where an outcome may not be durable, a move or a failure is not confirmed, and every later
/// item is skipped.
pub proof fn unconfirmed_outcomes_are_unknown(s: SessionView, error: String)
    requires
        s.wf(),
        s.phase == Phase::PublishOutcome,
    ensures
        ({
            let after = s.next(Event::Published(Publication::Failed(error)));
            let item = after.items[s.index];
            &&& after.action() == Action::Return
            &&& after.journal_error == Some(error@)
            &&& s.items[s.index].state == ItemState::Skipped ==> item == s.items[s.index]
            &&& s.items[s.index].state != ItemState::Skipped ==> item.state == ItemState::Unknown
            &&& forall|i: int|
                s.index < i < s.items.len() ==> (#[trigger] after.items[i]).state
                    == ItemState::Skipped
        }),
{
}

/// A plan cannot be recorded exactly if some item of it has no Unix identity or no known size,
/// wherever that item stands.
pub proof fn every_item_needs_identity_and_size(items: Seq<PlanItem>)
    ensures
        execute::first_fault(items) is None <==> forall|i: int|
            0 <= i < items.len() ==> ((#[trigger] items[i]).identity matches Some(
                FileIdentity::Unix { .. },
            )) && items[i].logical_bytes is Some,
    decreases items.len(),
{
    if items.len() > 0 {
        let head = items.drop_last();
        every_item_needs_identity_and_size(head);
        assert forall|i: int| 0 <= i < head.len() implies #[trigger] head[i] == items[i] by {}
        assert(items[items.len() - 1] == items.last());
        if execute::first_fault(items) is None {
            assert forall|i: int| 0 <= i < items.len() implies ((
            #[trigger] items[i]).identity matches Some(FileIdentity::Unix { .. }))
                && items[i].logical_bytes is Some by {
                if i < head.len() {
                    assert(head[i] == items[i]);
                }
            }
        } else if forall|i: int|
            0 <= i < items.len() ==> ((#[trigger] items[i]).identity matches Some(
                FileIdentity::Unix { .. },
            )) && items[i].logical_bytes is Some {
            assert forall|i: int| 0 <= i < head.len() implies ((
            #[trigger] head[i]).identity matches Some(FileIdentity::Unix { .. }))
                && head[i].logical_bytes is Some by {
                assert(head[i] == items[i]);
            }
        }
    }
}

/// A report ends with zero exactly if the journal is sound and every item was moved; anything
/// unknown, whichever item it is, or a failing journal ends it with one, and a cancelled item
/// with 130 where nothing is unknown.
pub proof fn exit_codes_tell_the_worst_item(report: ExecutionReport)
    ensures
        report.code() == 0 <==> report.journal_error is None && (forall|i: int|
            0 <= i < report.record.items@.len() ==> (#[trigger] report.record.items@[i]).state
                == ItemState::Succeeded),
        report.code() == 1 <==> report.journal_error is Some || (exists|i: int|
            0 <= i < report.record.items@.len() && (#[trigger] report.record.items@[i]).state
                == ItemState::Unknown),
        report.code() == 130 ==> exists|i: int|
            0 <= i < report.record.items@.len() && ((#[trigger] report.record.items@[i]).reason
                matches Some(reason) && reason@ == "cancelled"@),
        forall|i: int|
            0 <= i < report.record.items@.len() && ((#[trigger] report.record.items@[i]).reason
                matches Some(reason) && reason@ == "cancelled"@) && report.record.items@[i].state
                != ItemState::Succeeded && report.code() != 1 ==> report.code() == 130,
{
    let items = report.record.items@;
    if report.code() == 0 && report.journal_error is None {
        assert(execute::all_succeeded(items));
    }
    if report.code() == 130 {
        let i = choose|i: int|
            0 <= i < items.len() && crate::text::opt_text((#[trigger] items[i]).reason) == Some(
                "cancelled"@,
            );
        assert(items[i].reason is Some);
    }
    assert forall|i: int|
        0 <= i < items.len() && ((#[trigger] items[i]).reason matches Some(reason) && reason@
            == "cancelled"@) && items[i].state != ItemState::Succeeded && report.code()
            != 1 implies report.code() == 130 by {
        assert(crate::text::opt_text(items[i].reason) == Some("cancelled"@));
        assert(execute::any_cancelled(items));
        assert(!execute::all_succeeded(items));
    }
}

/// A session starts exactly on a plan that may act natively, validated and not spent, with every
/// item recordable, at a known time and under a name of its own; an approval is spent exactly by
/// starting.
pub proof fn only_whole_plans_start(
    plan: Plan,
    spent: bool,
    validated: Result<Vec<PlanSkip>, String>,
    now: Result<u64, Error>,
    operation_id: Result<String, Error>,
)
    ensures
        ({
            let fault = session::begin_fault(plan, spent, validated, now, operation_id);
            &&& fault is None <==> {
                &&& plan.contract == ExecutionContract::RevalidatedTrashV1
                &&& validated is Ok
                &&& !spent
                &&& now is Ok
                &&& execute::first_fault(plan.items@) is None
                &&& operation_id is Ok
            }
            &&& session::spent_after(spent, fault) <==> spent || fault is None
        }),
{
}

/// A record has the layout of what it records: the third for a cleaning under a policy, the
/// second for a plan with rules, the first for any other.
pub proof fn records_have_the_layout_of_their_plan(plan_schema: u32, clean_profile: bool)
    ensures
        clean_profile ==> session::record_schema(plan_schema, clean_profile) == 3,
        !clean_profile && plan_schema == 3 ==> session::record_schema(plan_schema, clean_profile)
            == 2,
        !clean_profile && plan_schema != 3 ==> session::record_schema(plan_schema, clean_profile)
            == 1,
{
}

/// What a guard says decides: it lets the move go on exactly by saying so, its reason is the
/// refusal, and its failure is one too, named after the point at which it was asked.
pub proof fn guards_speak_for_themselves(
    result: Result<GuardDecision, String>,
    point: GuardPoint,
)
    ensures
        execute::guard_refusal(result, point) is None <==> result == Ok::<GuardDecision, String>(
            GuardDecision::Proceed,
        ),
        result matches Ok(GuardDecision::Refused(reason)) ==> execute::guard_refusal(result, point)
            == Some(reason@),
        result matches Err(error) && point == GuardPoint::AfterStarted ==> execute::guard_refusal(
            result,
            point,
        ) == Some("policy_guard_error_"@ + "after_started"@ + ": "@ + result->Err_0@),
        result matches Err(error) && point == GuardPoint::LastNative ==> execute::guard_refusal(
            result,
            point,
        ) == Some("policy_guard_error_"@ + "last_native"@ + ": "@ + result->Err_0@),
{
}

/// Every event changes at most the item in turn; a failing journal skips those behind it, and
/// never touches one before it.
pub proof fn earlier_items_are_left_alone(s: SessionView, event: Event, i: int)
    requires
        s.wf(),
        s.expects(event),
        0 <= i < s.items.len(),
    ensures
        i < s.index ==> s.next(event).items[i] == s.items[i],
        i > s.index ==> s.next(event).items[i] == s.items[i] || (s.next(event).items[i].state
            == ItemState::Skipped && s.next(event).items[i].reason == Some(
            "stopped_after_journal_failure"@,
        ) && s.next(event).journal_error is Some && s.next(event).items[i].destination
            == s.items[i].destination),
        s.next(event).items.len() == s.items.len(),
        s.next(event).skips == s.skips,
        s.next(event).header == s.header,
        s.next(event).guarded == s.guarded,
        s.stopped ==> s.next(event).stopped,
{
}

/// An item is named and measured in the record as it was planned.
pub proof fn planned_items_are_recorded_as_planned(item: PlanItem, now: u64, record: ItemRecord)
    requires
        execute::records_item(item, now, record),
    ensures
        record.path == item.path,
        item.identity == Some(FileIdentity::Unix { device: record.device, inode: record.inode }),
        item.logical_bytes == Some(record.logical_bytes),
        record.state == ItemState::Planned,
        record.destination is None,
        record.reason is None,
        record.updated_unix_ms == now,
        record.rule_binding is Some <==> item.rule_binding is Some,
        item.rule_binding matches Some(binding) ==> (record.rule_binding matches Some(written)
            && written.rule_id == binding.rule_id && written.semantics_digest
            == binding.semantics_digest && written.exclusions == binding.exclusions
            && written.target.path == binding.target.path && written.source.path
            == binding.source.path),
{
}

} // verus!
