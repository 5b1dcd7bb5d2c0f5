//! The decisions of one native Trash session.
//!
//! A [`Session`] walks the items of an approved plan. It never performs anything
//! itself: [`Session::action`] says what the caller has to do next, and
//! [`Session::step`] takes what came of it.

use crate::error::{Error, ErrorKind};
use crate::execute;
use crate::execute::{Effect, ExecutionReport, GuardDecision, GuardPoint, Plan, PlanSkip};
use crate::journal;
use crate::journal::{
    CleanPolicyContextRecord, ItemRecord, ItemState, ItemView, Record, RecordHeader,
};
use crate::lifecycle;
use crate::model::{Approval, ExecutionContract};
use crate::recover::Fault;
use crate::text;
use vstd::prelude::*;
use vstd::string::*;

verus! {

/// Where a session stands.
#[derive(Clone, Copy, Debug, PartialEq, Eq, Structural)]
pub enum Phase {
    /// The planned record has to be published before anything else.
    PublishPlan,
    /// The plan may have expired or been cancelled.
    CheckStop,
    /// The intent needs a timestamp.
    StampIntent,
    /// The intent has to be durable before the native call.
    PublishIntent,
    /// The guard is asked once the intent is durable.
    Guard,
    /// The native call may be made.
    Native,
    /// The outcome needs a timestamp.
    StampOutcome,
    /// The outcome has to be durable before the next item.
    PublishOutcome,
    /// The report is complete.
    Done,
    /// The session failed without a report.
    Failed,
}

/// What the caller has to do next.
#[derive(Clone, Copy, Debug, PartialEq, Eq, Structural)]
pub enum Action {
    /// Publish the record of [`Session::report`]; `initial` for the first time.
    Publish { initial: bool },
    /// Ask the planner whether the plan still stands.
    AskStop,
    /// Read the clock.
    AskTime,
    /// Ask the guard about the current item.
    AskGuard,
    /// Perform the native effect on the current item.
    PerformEffect,
    /// Return the report.
    Return,
    /// Return the failure.
    Fail,
}

/// What came of publishing a record.
#[derive(Debug)]
pub enum Publication {
    /// The record is durable and nothing is left behind.
    Clean,
    /// The record is durable, but cleaning up after it failed.
    Unclean(String),
    /// The record may not be durable.
    Failed(String),
}

/// What came of the action that was asked for.
#[derive(Debug)]
pub enum Event {
    Published(Publication),
    Stop(Option<String>),
    Time(Result<u64, String>),
    Guard(Result<GuardDecision, String>),
    /// The effect, the stop reason that it saw last, and what the last guard
    /// inside it decided.
    Effect {
        effect: Effect,
        final_stop: Option<String>,
        last_guard: GuardDecision,
    },
}

/// A running native Trash session.
#[derive(Debug)]
pub struct Session {
    pub report: ExecutionReport,
    pub skips: Vec<Option<String>>,
    pub guarded: bool,
    pub stopped: bool,
    pub index: usize,
    pub phase: Phase,
    pub failure: Option<String>,
}

/// The mathematical value of a [`Session`].
pub struct SessionView {
    pub header: RecordHeader,
    pub items: Seq<ItemView>,
    pub journal_error: Option<Seq<char>>,
    pub skips: Seq<Option<Seq<char>>>,
    pub guarded: bool,
    pub stopped: bool,
    pub index: int,
    pub phase: Phase,
    pub failure: Option<Seq<char>>,
}

impl View for Session {
    type V = SessionView;

    open spec fn view(&self) -> SessionView {
        SessionView {
            header: self.report.record.header(),
            items: journal::item_views(self.report.record.items@),
            journal_error: text::opt_text(self.report.journal_error),
            skips: Seq::new(self.skips@.len(), |i: int| text::opt_text(self.skips@[i])),
            guarded: self.guarded,
            stopped: self.stopped,
            index: self.index as int,
            phase: self.phase,
            failure: text::opt_text(self.failure),
        }
    }
}

/// Whether the current item is being worked on.
pub open spec fn in_item(phase: Phase) -> bool {
    match phase {
        Phase::PublishPlan | Phase::Done | Phase::Failed => false,
        _ => true,
    }
}

impl SessionView {
    /// The items and the position belong together.
    pub open spec fn wf(self) -> bool {
        &&& self.skips.len() == self.items.len()
        &&& self.items.len() <= usize::MAX
        &&& 0 <= self.index <= self.items.len()
        &&& in_item(self.phase) ==> self.index < self.items.len()
        &&& self.phase == Phase::PublishPlan ==> self.index == 0
    }

    /// What has to be done next.
    pub open spec fn action(self) -> Action {
        match self.phase {
            Phase::PublishPlan => Action::Publish { initial: true },
            Phase::CheckStop => Action::AskStop,
            Phase::StampIntent | Phase::StampOutcome => Action::AskTime,
            Phase::PublishIntent | Phase::PublishOutcome => Action::Publish { initial: false },
            Phase::Guard => Action::AskGuard,
            Phase::Native => Action::PerformEffect,
            Phase::Done => Action::Return,
            Phase::Failed => Action::Fail,
        }
    }

    /// Whether an event answers the action that was asked for.
    pub open spec fn expects(self, event: Event) -> bool {
        match self.action() {
            Action::Publish { .. } => event is Published,
            Action::AskStop => event is Stop,
            Action::AskTime => event is Time,
            Action::AskGuard => event is Guard,
            Action::PerformEffect => event is Effect,
            Action::Return | Action::Fail => false,
        }
    }

    /// The session with the current item replaced.
    pub open spec fn with_item(self, item: ItemView) -> SessionView {
        SessionView { items: self.items.update(self.index, item), ..self }
    }

    pub open spec fn in_phase(self, phase: Phase) -> SessionView {
        SessionView { phase, ..self }
    }

    /// The session that ends without a report.
    pub open spec fn failed(self, error: Seq<char>) -> SessionView {
        SessionView { phase: Phase::Failed, failure: Some(error), ..self }
    }

    /// The session that ends because its record may not be durable: no later item
    /// is started.
    pub open spec fn halted(self, error: Seq<char>) -> SessionView {
        SessionView {
            items: Seq::new(
                self.items.len(),
                |i: int|
                    if i > self.index {
                        ItemView {
                            state: ItemState::Skipped,
                            reason: Some("stopped_after_journal_failure"@),
                            ..self.items[i]
                        }
                    } else {
                        self.items[i]
                    },
            ),
            journal_error: Some(error),
            phase: Phase::Done,
            ..self
        }
    }

    /// The session at its next item, or done.
    pub open spec fn advanced(self) -> SessionView {
        SessionView {
            index: self.index + 1,
            phase: if self.index + 1 < self.items.len() {
                Phase::CheckStop
            } else {
                Phase::Done
            },
            ..self
        }
    }

    /// Why the current item is not started, if it is not.
    pub open spec fn skip_reason(self, stop: Option<Seq<char>>) -> Option<Seq<char>> {
        if stop is Some {
            stop
        } else if self.skips[self.index] is Some {
            self.skips[self.index]
        } else if self.stopped {
            Some("stopped_after_ambiguous_outcome"@)
        } else {
            None
        }
    }

    /// The session after the plan has been published.
    pub open spec fn after_plan(self, publication: Publication) -> SessionView {
        match publication {
            Publication::Clean => self.in_phase(
                if self.items.len() > 0 {
                    Phase::CheckStop
                } else {
                    Phase::Done
                },
            ),
            Publication::Unclean(error) | Publication::Failed(error) => self.failed(error@),
        }
    }

    /// The session after the plan was checked for expiry and cancellation.
    pub open spec fn after_stop(self, stop: Option<Seq<char>>) -> SessionView {
        let item = self.items[self.index];
        match self.skip_reason(stop) {
            Some(reason) => self.with_item(
                ItemView { state: ItemState::Skipped, reason: Some(reason), ..item },
            ).in_phase(Phase::StampOutcome),
            None => self.with_item(ItemView { state: ItemState::Started, ..item }).in_phase(
                Phase::StampIntent,
            ),
        }
    }

    /// The session after the clock was read for an intent.
    pub open spec fn after_intent_time(self, time: Result<u64, String>) -> SessionView {
        match time {
            Ok(now) => self.with_item(
                ItemView { updated_unix_ms: now, ..self.items[self.index] },
            ).in_phase(Phase::PublishIntent),
            Err(error) => self.failed(error@),
        }
    }

    /// The session after an intent has been published: only a clean publication
    /// lets the item go on.
    pub open spec fn after_intent(self, publication: Publication) -> SessionView {
        match publication {
            Publication::Clean => self.in_phase(
                if self.guarded {
                    Phase::Guard
                } else {
                    Phase::Native
                },
            ),
            Publication::Unclean(error) | Publication::Failed(error) => self.with_item(
                ItemView {
                    state: ItemState::Skipped,
                    reason: Some("intent_publication_incomplete; no_native_call"@),
                    ..self.items[self.index]
                },
            ).halted(error@),
        }
    }

    /// The session after the guard was asked.
    pub open spec fn after_guard(self, result: Result<GuardDecision, String>) -> SessionView {
        match execute::guard_refusal(result, GuardPoint::AfterStarted) {
            None => self.in_phase(Phase::Native),
            Some(reason) => SessionView {
                stopped: true,
                ..self.with_item(
                    ItemView {
                        state: ItemState::Skipped,
                        reason: Some(reason + "; no_native_call"@),
                        destination: None,
                        ..self.items[self.index]
                    },
                ).in_phase(Phase::StampOutcome)
            },
        }
    }

    /// The session after the native effect.
    pub open spec fn after_effect(
        self,
        effect: Effect,
        final_stop: Option<Seq<char>>,
        last_guard: GuardDecision,
    ) -> SessionView {
        let item = self.items[self.index];
        let row = match effect {
            Effect::Moved(destination) => ItemView {
                state: ItemState::Succeeded,
                destination: Some(destination),
                ..item
            },
            Effect::Refused(message) => ItemView {
                state: ItemState::Skipped,
                reason: if final_stop is Some {
                    final_stop
                } else {
                    Some(message@)
                },
                ..item
            },
            Effect::Failed(message) => ItemView {
                state: ItemState::Failed,
                reason: Some(message@),
                ..item
            },
            Effect::Unknown { message, evidence } => ItemView {
                state: ItemState::Unknown,
                reason: Some(message@),
                recovery_evidence: evidence,
                ..item
            },
        };
        SessionView {
            stopped: self.stopped || effect is Unknown || (effect is Refused
                && last_guard is Refused),
            ..self.with_item(row).in_phase(Phase::StampOutcome)
        }
    }

    /// The session after the clock was read for an outcome: an outcome without a
    /// timestamp is not confirmed.
    pub open spec fn after_outcome_time(self, time: Result<u64, String>) -> SessionView {
        let item = self.items[self.index];
        match time {
            Ok(now) => self.with_item(ItemView { updated_unix_ms: now, ..item }).in_phase(
                Phase::PublishOutcome,
            ),
            Err(error) => self.with_item(
                ItemView {
                    state: if item.state == ItemState::Succeeded || item.state
                        == ItemState::Failed {
                        ItemState::Unknown
                    } else {
                        item.state
                    },
                    reason: Some("outcome timestamp unavailable: "@ + error@),
                    ..item
                },
            ).halted(error@),
        }
    }

    /// The session after an outcome has been published: an outcome that may not be
    /// durable is not confirmed.
    pub open spec fn after_outcome(self, publication: Publication) -> SessionView {
        let item = self.items[self.index];
        match publication {
            Publication::Clean => self.advanced(),
            Publication::Unclean(error) => self.halted(error@),
            Publication::Failed(error) => if item.state == ItemState::Skipped {
                self.halted(error@)
            } else {
                self.with_item(
                    ItemView {
                        state: ItemState::Unknown,
                        reason: Some("native_outcome_not_confirmed_durable"@),
                        ..item
                    },
                ).halted(error@)
            },
        }
    }

    /// The session after an event that it expects.
    pub open spec fn next(self, event: Event) -> SessionView {
        match (self.phase, event) {
            (Phase::PublishPlan, Event::Published(publication)) => self.after_plan(publication),
            (Phase::CheckStop, Event::Stop(stop)) => self.after_stop(text::opt_text(stop)),
            (Phase::StampIntent, Event::Time(time)) => self.after_intent_time(time),
            (Phase::PublishIntent, Event::Published(publication)) => self.after_intent(
                publication,
            ),
            (Phase::Guard, Event::Guard(result)) => self.after_guard(result),
            (Phase::Native, Event::Effect { effect, final_stop, last_guard }) => self.after_effect(
                effect,
                text::opt_text(final_stop),
                last_guard,
            ),
            (Phase::StampOutcome, Event::Time(time)) => self.after_outcome_time(time),
            (Phase::PublishOutcome, Event::Published(publication)) => self.after_outcome(
                publication,
            ),
            _ => self,
        }
    }
}

/// The record layout that a plan is journaled in.
pub open spec fn record_schema(plan_schema: u32, clean_profile: bool) -> u32 {
    if clean_profile {
        journal::CLEAN_SCHEMA_VERSION
    } else if plan_schema == 3 {
        journal::SCHEMA_VERSION
    } else {
        1
    }
}

/// The state in which a session over the given items starts.
pub open spec fn is_start(view: SessionView) -> bool {
    &&& view.wf()
    &&& view.phase == Phase::PublishPlan
    &&& !view.stopped
    &&& view.journal_error is None
    &&& view.failure is None
    &&& forall|i: int|
        0 <= i < view.items.len() ==> (#[trigger] view.items[i]).state == ItemState::Planned
            && view.items[i].reason is None && view.items[i].destination is None
            && view.items[i].recovery_evidence is None
}

/// Why a plan starts no session: nothing has been recorded or moved then.
pub open spec fn begin_fault(
    plan: Plan,
    spent: bool,
    validated: Result<Vec<PlanSkip>, String>,
    now: Result<u64, Error>,
    operation_id: Result<String, Error>,
) -> Option<Fault> {
    if plan.contract != ExecutionContract::RevalidatedTrashV1 {
        Some(
            (
                ErrorKind::InvalidData,
                "model-only approval cannot authorize native execution"@,
            ),
        )
    } else {
        match (validated, now) {
            (Err(message), _) => Some((ErrorKind::InvalidInput, message@)),
            _ if spent => Some((ErrorKind::InvalidInput, "approval was already used"@)),
            (_, Err(error)) => Some(lifecycle::fault_of(error)),
            _ => match execute::first_fault(plan.items@) {
                Some(message) => Some((ErrorKind::InvalidData, message)),
                None => match operation_id {
                    Err(error) => Some(lifecycle::fault_of(error)),
                    Ok(_) => None,
                },
            },
        }
    }
}

/// Whether an approval is spent after an attempt to start a session with it.
pub open spec fn spent_after(spent: bool, fault: Option<Fault>) -> bool {
    spent || fault is None
}

impl Session {
    /// Starts a session for an approved plan. `validated` is what the planner says of the plan
    /// and its approval, `now` the time, `operation_id` the name that the journal gives. A plan
    /// without a native contract, one that the planner refuses, one whose approval was used
    /// before, or one with an item of unknown identity or size starts none.
    pub fn begin(
        plan: Plan,
        approval: &mut Approval,
        validated: Result<Vec<PlanSkip>, String>,
        now: Result<u64, Error>,
        operation_id: Result<String, Error>,
        clean_policy: Option<CleanPolicyContextRecord>,
        guarded: bool,
    ) -> (result: Result<Session, Error>)
        ensures
            final(approval).is_spent() == spent_after(
                old(approval).is_spent(),
                begin_fault(plan, old(approval).is_spent(), validated, now, operation_id),
            ),
            match result {
                Ok(session) => {
                    &&& begin_fault(
                        plan,
                        old(approval).is_spent(),
                        validated,
                        now,
                        operation_id,
                    ) is None
                    &&& is_start(session@)
                    &&& session.guarded == guarded
                    &&& session@.header == (RecordHeader {
                        schema_version: record_schema(plan.schema_version, clean_policy is Some),
                        plan_schema_version: plan.schema_version,
                        engine_version: plan.engine_version,
                        rules_version: plan.rules_version,
                        operation_id: operation_id->Ok_0@,
                        contract: plan.contract.name(),
                        scope: plan.scope,
                        clean_policy,
                        created_unix_ms: now->Ok_0,
                    })
                    &&& session@.items.len() == plan.items@.len()
                    &&& forall|i: int|
                        0 <= i < plan.items@.len() ==> execute::records_item(
                            plan.items@[i],
                            now->Ok_0,
                            #[trigger] session.report.record.items@[i],
                        )
                    &&& forall|i: int|
                        0 <= i < plan.items@.len() ==> #[trigger] session@.skips[i]
                            == execute::skip_of(validated->Ok_0@, plan.items@[i].resource)
                },
                Err(error) => {
                    &&& begin_fault(
                        plan,
                        old(approval).is_spent(),
                        validated,
                        now,
                        operation_id,
                    ) == Some(lifecycle::fault_of(error))
                },
            },
    {
        if plan.contract != ExecutionContract::RevalidatedTrashV1 {
            return Err(
                Error::new(
                    ErrorKind::InvalidData,
                    "model-only approval cannot authorize native execution",
                ),
            );
        }
        let skips: Vec<PlanSkip> = match validated {
            Ok(skips) => skips,
            Err(message) => {
                return Err(Error { kind: ErrorKind::InvalidInput, message });
            },
        };
        if approval.used() {
            return Err(Error::new(ErrorKind::InvalidInput, "approval was already used"));
        }
        let now: u64 = match now {
            Ok(now) => now,
            Err(error) => {
                return Err(error);
            },
        };
        let mut reasons: Vec<Option<String>> = Vec::new();
        let mut i: usize = 0;
        while i < plan.items.len()
            invariant
                0 <= i <= plan.items@.len(),
                reasons@.len() == i,
                forall|j: int|
                    0 <= j < i ==> text::opt_text(#[trigger] reasons@[j]) == execute::skip_of(
                        skips@,
                        plan.items@[j].resource,
                    ),
            decreases plan.items@.len() - i,
        {
            reasons.push(execute::skip_reason(&skips, plan.items[i].resource));
            i += 1;
        }
        let schema_version: u32 = if clean_policy.is_some() {
            journal::CLEAN_SCHEMA_VERSION
        } else if plan.schema_version == 3 {
            journal::SCHEMA_VERSION
        } else {
            1
        };
        let contract: String = plan.contract.as_str().to_owned();
        let items: Vec<ItemRecord> = match execute::item_records(plan.items, now) {
            Ok(items) => items,
            Err(error) => {
                return Err(error);
            },
        };
        let operation_id: String = match operation_id {
            Ok(id) => id,
            Err(error) => {
                return Err(error);
            },
        };
        let session = Session {
            report: ExecutionReport {
                record: Record {
                    schema_version,
                    plan_schema_version: plan.schema_version,
                    engine_version: plan.engine_version,
                    rules_version: plan.rules_version,
                    operation_id,
                    contract,
                    scope: plan.scope,
                    clean_policy,
                    created_unix_ms: now,
                    items,
                },
                journal_error: None,
            },
            skips: reasons,
            guarded,
            stopped: false,
            index: 0,
            phase: Phase::PublishPlan,
            failure: None,
        };
        approval.spend();
        Ok(session)
    }

    /// What the caller has to do next.
    pub fn action(&self) -> (action: Action)
        ensures
            action == self@.action(),
    {
        match self.phase {
            Phase::PublishPlan => Action::Publish { initial: true },
            Phase::CheckStop => Action::AskStop,
            Phase::StampIntent => Action::AskTime,
            Phase::StampOutcome => Action::AskTime,
            Phase::PublishIntent => Action::Publish { initial: false },
            Phase::PublishOutcome => Action::Publish { initial: false },
            Phase::Guard => Action::AskGuard,
            Phase::Native => Action::PerformEffect,
            Phase::Done => Action::Return,
            Phase::Failed => Action::Fail,
        }
    }

    /// Ends the session after a journal failure: every later item is left alone.
    fn stop_for_journal_error(&mut self, error: String)
        requires
            old(self)@.wf(),
            in_item(old(self)@.phase),
        ensures
            final(self)@ == old(self)@.halted(error@),
    {
        let ghost before = self@;
        let ghost start = self.report.record.items@;
        let mut i: usize = self.index + 1;
        while i < self.report.record.items.len()
            invariant
                before.wf(),
                in_item(before.phase),
                before.index < i <= before.items.len(),
                self@.header == before.header,
                self@.journal_error == before.journal_error,
                self.skips == old(self).skips,
                self.failure == old(self).failure,
                self.guarded == old(self).guarded,
                self.stopped == old(self).stopped,
                self.index == before.index,
                before == old(self)@,
                self.report.record.items@.len() == before.items.len(),
                forall|j: int|
                    0 <= j < before.items.len() ==> (#[trigger] self.report.record.items@[j])@ == (
                    if before.index < j && j < i {
                        ItemView {
                            state: ItemState::Skipped,
                            reason: Some("stopped_after_journal_failure"@),
                            ..before.items[j]
                        }
                    } else {
                        before.items[j]
                    }),
            decreases before.items.len() - i,
        {
            self.report.record.items[i].state = ItemState::Skipped;
            self.report.record.items[i].reason = Some("stopped_after_journal_failure".to_owned());
            i += 1;
        }
        self.report.journal_error = Some(error);
        self.phase = Phase::Done;
        assert(self@.items =~= before.halted(error@).items);
    }

    /// Takes what came of the action that was asked for.
    pub fn step(&mut self, event: Event)
        requires
            old(self)@.wf(),
            old(self)@.expects(event),
        ensures
            final(self)@ == old(self)@.next(event),
            final(self)@.wf(),
    {
        let ghost before = self@;
        match event {
            Event::Published(publication) => {
                if self.phase == Phase::PublishPlan {
                    match publication {
                        Publication::Clean => {
                            self.phase =
                            if self.report.record.items.len() > 0 {
                                Phase::CheckStop
                            } else {
                                Phase::Done
                            };
                        },
                        Publication::Unclean(error) => {
                            self.failure = Some(error);
                            self.phase = Phase::Failed;
                        },
                        Publication::Failed(error) => {
                            self.failure = Some(error);
                            self.phase = Phase::Failed;
                        },
                    }
                } else if self.phase == Phase::PublishIntent {
                    self.intent_published(publication);
                } else {
                    self.outcome_published(publication);
                }
            },
            Event::Stop(stop) => {
                self.stop_checked(stop);
            },
            Event::Time(time) => {
                if self.phase == Phase::StampIntent {
                    match time {
                        Ok(now) => {
                            let index: usize = self.index;
                            self.report.record.items[index].updated_unix_ms = now;
                            self.phase = Phase::PublishIntent;
                        },
                        Err(error) => {
                            self.failure = Some(error);
                            self.phase = Phase::Failed;
                        },
                    }
                } else {
                    self.outcome_stamped(time);
                }
            },
            Event::Guard(result) => {
                self.guard_answered(result);
            },
            Event::Effect { effect, final_stop, last_guard } => {
                self.effect_done(effect, final_stop, last_guard);
            },
        }
        assert(self@.items =~= before.next(event).items);
        assert(self@.skips =~= before.skips);
    }

    fn intent_published(&mut self, publication: Publication)
        requires
            old(self)@.wf(),
            old(self)@.phase == Phase::PublishIntent,
        ensures
            final(self)@ == old(self)@.after_intent(publication),
    {
        let ghost before = self@;
        let index: usize = self.index;
        match publication {
            Publication::Clean => {
                self.phase =
                if self.guarded {
                    Phase::Guard
                } else {
                    Phase::Native
                };
                assert(self@.items =~= before.items);
            },
            Publication::Unclean(error) | Publication::Failed(error) => {
                // The intent may have reached the disk, but no native call was made.
                self.report.record.items[index].state = ItemState::Skipped;
                self.report.record.items[index].reason =
                Some("intent_publication_incomplete; no_native_call".to_owned());
                assert(self@.items =~= before.with_item(
                    ItemView {
                        state: ItemState::Skipped,
                        reason: Some("intent_publication_incomplete; no_native_call"@),
                        ..before.items[before.index]
                    },
                ).items);
                self.stop_for_journal_error(error);
            },
        }
    }

    fn stop_checked(&mut self, stop: Option<String>)
        requires
            old(self)@.wf(),
            old(self)@.phase == Phase::CheckStop,
        ensures
            final(self)@ == old(self)@.after_stop(text::opt_text(stop)),
    {
        let ghost before = self@;
        let index: usize = self.index;
        let reason: Option<String> = match stop {
            Some(code) => Some(code),
            None => match &self.skips[index] {
                Some(skip) => Some(skip.clone()),
                None => if self.stopped {
                    Some("stopped_after_ambiguous_outcome".to_owned())
                } else {
                    None
                },
            },
        };
        assert(text::opt_text(reason) == before.skip_reason(text::opt_text(stop)));
        if reason.is_some() {
            self.report.record.items[index].state = ItemState::Skipped;
            self.report.record.items[index].reason = reason;
            self.phase = Phase::StampOutcome;
        } else {
            self.report.record.items[index].state = ItemState::Started;
            self.phase = Phase::StampIntent;
        }
        assert(self@.items =~= before.after_stop(text::opt_text(stop)).items);
        assert(self@.skips =~= before.skips);
    }

    fn guard_answered(&mut self, result: Result<GuardDecision, String>)
        requires
            old(self)@.wf(),
            old(self)@.phase == Phase::Guard,
        ensures
            final(self)@ == old(self)@.after_guard(result),
    {
        let ghost before = self@;
        let index: usize = self.index;
        match execute::resolve_guard_decision(result, GuardPoint::AfterStarted) {
            GuardDecision::Proceed => {
                self.phase = Phase::Native;
            },
            GuardDecision::Refused(reason) => {
                self.report.record.items[index].state = ItemState::Skipped;
                self.report.record.items[index].reason =
                Some(text::concat(reason.as_str(), "; no_native_call"));
                self.report.record.items[index].destination = None;
                self.stopped = true;
                self.phase = Phase::StampOutcome;
            },
        }
        assert(self@.items =~= before.after_guard(result).items);
    }

    fn effect_done(
        &mut self,
        effect: Effect,
        final_stop: Option<String>,
        last_guard: GuardDecision,
    )
        requires
            old(self)@.wf(),
            old(self)@.phase == Phase::Native,
        ensures
            final(self)@ == old(self)@.after_effect(effect, text::opt_text(final_stop), last_guard),
    {
        let ghost before = self@;
        let index: usize = self.index;
        match effect {
            Effect::Moved(destination) => {
                self.report.record.items[index].state = ItemState::Succeeded;
                self.report.record.items[index].destination = Some(destination);
            },
            Effect::Refused(message) => {
                self.report.record.items[index].state = ItemState::Skipped;
                self.report.record.items[index].reason =
                Some(
                    match final_stop {
                        Some(code) => code,
                        None => message,
                    },
                );
                if let GuardDecision::Refused(_) = &last_guard {
                    self.stopped = true;
                }
            },
            Effect::Failed(message) => {
                self.report.record.items[index].state = ItemState::Failed;
                self.report.record.items[index].reason = Some(message);
            },
            Effect::Unknown { message, evidence } => {
                self.report.record.items[index].state = ItemState::Unknown;
                self.report.record.items[index].reason = Some(message);
                self.report.record.items[index].recovery_evidence = evidence;
                self.stopped = true;
            },
        }
        self.phase = Phase::StampOutcome;
        assert(self@.items =~= before.after_effect(
            effect,
            text::opt_text(final_stop),
            last_guard,
        ).items);
    }

    fn outcome_stamped(&mut self, time: Result<u64, String>)
        requires
            old(self)@.wf(),
            old(self)@.phase == Phase::StampOutcome,
        ensures
            final(self)@ == old(self)@.after_outcome_time(time),
    {
        let ghost before = self@;
        let index: usize = self.index;
        match time {
            Ok(now) => {
                self.report.record.items[index].updated_unix_ms = now;
                self.phase = Phase::PublishOutcome;
                assert(self@.items =~= before.after_outcome_time(time).items);
            },
            Err(error) => {
                let state: ItemState = self.report.record.items[index].state;
                if state == ItemState::Succeeded || state == ItemState::Failed {
                    self.report.record.items[index].state = ItemState::Unknown;
                }
                self.report.record.items[index].reason =
                Some(text::concat("outcome timestamp unavailable: ", error.as_str()));
                let ghost item = before.items[before.index];
                assert(self@.items =~= before.with_item(
                    ItemView {
                        state: if item.state == ItemState::Succeeded || item.state
                            == ItemState::Failed {
                            ItemState::Unknown
                        } else {
                            item.state
                        },
                        reason: Some("outcome timestamp unavailable: "@ + error@),
                        ..item
                    },
                ).items);
                self.stop_for_journal_error(error);
            },
        }
    }

    fn outcome_published(&mut self, publication: Publication)
        requires
            old(self)@.wf(),
            old(self)@.phase == Phase::PublishOutcome,
        ensures
            final(self)@ == old(self)@.after_outcome(publication),
    {
        let ghost before = self@;
        let index: usize = self.index;
        match publication {
            Publication::Clean => {
                self.index = index + 1;
                self.phase =
                if index + 1 < self.report.record.items.len() {
                    Phase::CheckStop
                } else {
                    Phase::Done
                };
                assert(self@.items =~= before.items);
            },
            Publication::Unclean(error) => {
                self.stop_for_journal_error(error);
            },
            Publication::Failed(error) => {
                if self.report.record.items[index].state != ItemState::Skipped {
                    self.report.record.items[index].state = ItemState::Unknown;
                    self.report.record.items[index].reason =
                    Some("native_outcome_not_confirmed_durable".to_owned());
                    assert(self@.items =~= before.with_item(
                        ItemView {
                            state: ItemState::Unknown,
                            reason: Some("native_outcome_not_confirmed_durable"@),
                            ..before.items[before.index]
                        },
                    ).items);
                }
                self.stop_for_journal_error(error);
            },
        }
    }
}

} // verus!
