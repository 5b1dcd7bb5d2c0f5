use sayaka_engine::error::{Error, ErrorKind};
use sayaka_engine::execute::{
    resolve_guard_decision, Effect, ExecutionReport, GuardDecision, GuardPoint, Plan, PlanItem,
    PlanSkip, RuleBinding, RuleWitness,
};
use sayaka_engine::journal::{
    CleanPolicyContextRecord, CleanPolicyFileRecord, CleanPolicyIdentityRecord,
    CleanPolicyPathRecord, FileEvidence, ItemState, NativePath, NativeTime, Record,
    RecoveryEvidence, SCHEMA_VERSION,
};
use sayaka_engine::model::{Approval, ExecutionContract, FileIdentity, ResourceKind};
use sayaka_engine::session::{Action, Event, Publication, Session};

fn native(path: &str) -> NativePath {
    NativePath {
        encoding: "unix_bytes".into(),
        bytes: path.as_bytes().to_vec(),
        display: format!("{path:?}"),
    }
}

fn epoch() -> NativeTime {
    NativeTime {
        seconds: 0,
        nanoseconds: 0,
    }
}

/// What the platform, the planner and the clock of a session would say.
struct Fixture {
    plan: Plan,
    skips: Vec<PlanSkip>,
    now_seconds: u64,
    cancelled: bool,
    effects: Vec<String>,
    fail_on: Option<usize>,
    next_unknown: bool,
    unknown_evidence: Option<RecoveryEvidence>,
    cancel_before_effect: bool,
    time_before_effect: Option<u64>,
    refuse_before_effect: Option<String>,
}

impl Fixture {
    fn new(plan: Plan) -> Fixture {
        Fixture {
            plan,
            skips: Vec::new(),
            now_seconds: 100,
            cancelled: false,
            effects: Vec::new(),
            fail_on: None,
            next_unknown: false,
            unknown_evidence: None,
            cancel_before_effect: false,
            time_before_effect: None,
            refuse_before_effect: None,
        }
    }

    /// The plan is made at 100 seconds and holds for 60.
    fn stop_reason(&self) -> Option<String> {
        if self.cancelled {
            Some("cancelled".into())
        } else if self.now_seconds >= 160 {
            Some("expired_plan".into())
        } else {
            None
        }
    }

    fn effect(&mut self, path: &NativePath, last_guard: &GuardDecision) -> (Effect, Option<String>) {
        if let Some(seconds) = self.time_before_effect {
            self.now_seconds = seconds;
        }
        if self.cancel_before_effect {
            self.cancelled = true;
        }
        if let GuardDecision::Refused(reason) = last_guard {
            return (Effect::Refused(reason.clone()), None);
        }
        if let Some(reason) = self.refuse_before_effect.take() {
            return (Effect::Refused(reason), None);
        }
        if let Some(reason) = self.stop_reason() {
            return (Effect::Refused("stopped".into()), Some(reason));
        }
        let place = String::from_utf8(path.bytes.clone()).unwrap();
        let name = place.rsplit('/').next().unwrap().to_owned();
        self.effects.push(place);
        let effect = if self.fail_on == Some(self.effects.len()) {
            Effect::Failed("injected item failure".into())
        } else if self.next_unknown {
            Effect::Unknown {
                message: "injected ambiguous native result".into(),
                evidence: self.unknown_evidence.take(),
            }
        } else {
            Effect::Moved(native(&format!("/fixture-trash/{name}")))
        };
        (effect, None)
    }
}

#[derive(Default)]
struct FakeJournal {
    calls: usize,
    fail_on: usize,
    cleanup_fail_on: usize,
    durable: Vec<Record>,
}

impl FakeJournal {
    fn publish(&mut self, record: &Record) -> Publication {
        record.validate().unwrap();
        self.calls += 1;
        if self.calls == self.fail_on {
            return Publication::Failed("injected journal failure".into());
        }
        self.durable.push(record.clone());
        if self.calls == self.cleanup_fail_on {
            Publication::Unclean("outcome durable; marker cleanup failed".into())
        } else {
            Publication::Clean
        }
    }
}

type Guard<'a> = &'a dyn Fn(GuardPoint) -> Result<GuardDecision, String>;

fn run(
    fixture: &mut Fixture,
    journal: &mut FakeJournal,
    clean_policy: Option<CleanPolicyContextRecord>,
    guard: Option<Guard>,
) -> ExecutionReport {
    let plan = fixture.plan.clone();
    let mut approval = Approval::granted();
    run_approved(fixture, plan, &mut approval, journal, clean_policy, guard).unwrap()
}

fn run_approved(
    fixture: &mut Fixture,
    plan: Plan,
    approval: &mut Approval,
    journal: &mut FakeJournal,
    clean_policy: Option<CleanPolicyContextRecord>,
    guard: Option<Guard>,
) -> Result<ExecutionReport, Error> {
    let mut session = Session::begin(
        plan,
        approval,
        Ok(fixture.skips.clone()),
        Ok(fixture.now_seconds * 1000),
        Ok("1-a".into()),
        clean_policy,
        guard.is_some(),
    )?;
    loop {
        let event = match session.action() {
            Action::Publish { .. } => Event::Published(journal.publish(&session.report.record)),
            Action::AskStop => Event::Stop(fixture.stop_reason()),
            Action::AskTime => Event::Time(Ok(fixture.now_seconds * 1000)),
            Action::AskGuard => Event::Guard(guard.unwrap()(GuardPoint::AfterStarted)),
            Action::PerformEffect => {
                let last_guard = match guard {
                    Some(guard) => resolve_guard_decision(
                        guard(GuardPoint::LastNative),
                        GuardPoint::LastNative,
                    ),
                    None => GuardDecision::Proceed,
                };
                let path = session.report.record.items[session.index].path.clone();
                let (effect, final_stop) = fixture.effect(&path, &last_guard);
                Event::Effect {
                    effect,
                    final_stop,
                    last_guard,
                }
            }
            Action::Return => return Ok(session.report),
            Action::Fail => panic!("{:?}", session.failure),
        };
        session.step(event);
    }
}

fn execute(fixture: &mut Fixture, journal: &mut FakeJournal) -> ExecutionReport {
    run(fixture, journal, None, None)
}

fn setup() -> Fixture {
    let item = |index: u64| PlanItem {
        resource: index,
        path: native(&format!("/fixture/file{index}")),
        identity: Some(FileIdentity::Unix {
            device: 1,
            inode: index,
        }),
        logical_bytes: Some(7),
        rule_binding: None,
    };
    Fixture::new(Plan {
        schema_version: 2,
        engine_version: 2,
        rules_version: 1,
        contract: ExecutionContract::RevalidatedTrashV1,
        scope: native("/fixture"),
        items: vec![item(1), item(2)],
    })
}

fn witness(path: &str, inode: u64, kind: ResourceKind, logical_bytes: u64, mode: u32) -> RuleWitness {
    RuleWitness {
        path: native(path),
        identity: FileIdentity::Unix { device: 1, inode },
        kind,
        logical_bytes,
        modified_at: epoch(),
        changed_at: epoch(),
        created_at: epoch(),
        uid: 501,
        gid: 20,
        mode,
        nlink: 1,
        flags: 0,
    }
}

const RULE_ID: &str = "cpython-source-backed-pyc";
const RULE_DIGEST: &str = "sha256:semantics";

fn setup_rule_bound() -> Fixture {
    let target = "/fixture/pkg/__pycache__/module.cpython-39.pyc";
    Fixture::new(Plan {
        schema_version: 3,
        engine_version: 2,
        rules_version: 2,
        contract: ExecutionContract::RevalidatedTrashV1,
        scope: native("/fixture"),
        items: vec![PlanItem {
            resource: 1,
            path: native(target),
            identity: Some(FileIdentity::Unix {
                device: 1,
                inode: 99,
            }),
            logical_bytes: Some(12),
            rule_binding: Some(RuleBinding {
                schema_version: 1,
                rule_id: RULE_ID.into(),
                rule_version: 1,
                ruleset_schema_version: 1,
                ruleset_revision: 1,
                semantics: "trash".into(),
                semantics_digest: RULE_DIGEST.into(),
                selected_root: native("/fixture"),
                exclusions: vec![],
                target: witness(target, 99, ResourceKind::File, 12, 0o100600),
                source: witness("/fixture/pkg/module.py", 98, ResourceKind::File, 40, 0o100600),
                root: witness("/fixture", 1, ResourceKind::Directory, 0, 0o040700),
                target_ancestors: vec![
                    witness("/fixture/pkg", 40, ResourceKind::Directory, 0, 0o040700),
                    witness("/fixture/pkg/__pycache__", 41, ResourceKind::Directory, 0, 0o040700),
                ],
                source_ancestors: vec![witness(
                    "/fixture/pkg",
                    40,
                    ResourceKind::Directory,
                    0,
                    0o040700,
                )],
                warnings: vec!["metadata-only".into()],
            }),
        }],
    })
}

fn clean_policy_context() -> CleanPolicyContextRecord {
    CleanPolicyContextRecord {
        schema_version: 1,
        kind: "sayaka_clean_policy_context".into(),
        root_path: CleanPolicyPathRecord {
            encoding: "unix_bytes".into(),
            bytes_hex: "2f66697874757265".into(),
            display: "\"/fixture\"".into(),
        },
        root_identity: CleanPolicyIdentityRecord {
            device: 1,
            inode: 1,
        },
        file_state: CleanPolicyFileRecord::Present {
            path: CleanPolicyPathRecord {
                encoding: "unix_bytes".into(),
                bytes_hex: "2f636f6e6669672f6578636c7573696f6e732d76312e6a736f6e".into(),
                display: "\"/config/exclusions-v1.json\"".into(),
            },
            identity: CleanPolicyIdentityRecord {
                device: 1,
                inode: 44,
            },
            length: 100,
            modified_unix_ms: None,
            sha256: "abc123".into(),
        },
        effective_exclusions: vec![],
    }
}

#[test]
fn exact_versioned_approval_and_intent_precede_every_effect() {
    let mut fixture = setup();
    assert_eq!(fixture.plan.schema_version, 2);
    let mut journal = FakeJournal::default();
    let report = execute(&mut fixture, &mut journal);
    assert_eq!(report.exit_code(), 0);
    assert_eq!(report.record.scope, native("/fixture"));
    assert_eq!(report.record.items[0].path, native("/fixture/file1"));
    assert_eq!(
        report.record.items[0].destination,
        Some(native("/fixture-trash/file1"))
    );
    assert_eq!(report.record.handled_bytes(), Some(14));
    let records = &journal.durable;
    assert_eq!(records.len(), 5);
    assert_eq!(records[1].items[0].state, ItemState::Started);
    assert_eq!(records[2].items[0].state, ItemState::Succeeded);
    assert_eq!(records[3].items[1].state, ItemState::Started);
}

#[test]
fn intent_failure_never_enters_native_effect() {
    let mut fixture = setup();
    let mut journal = FakeJournal {
        fail_on: 2,
        ..Default::default()
    };
    let report = execute(&mut fixture, &mut journal);
    assert!(fixture.effects.is_empty());
    assert!(report.journal_error.is_some());
    assert!(report
        .record
        .items
        .iter()
        .all(|item| item.state == ItemState::Skipped));
}

#[test]
fn item_failure_preserves_successful_results_without_retry_or_delete_fallback() {
    for failed_index in 0..2 {
        let mut fixture = setup();
        fixture.fail_on = Some(failed_index + 1);
        let mut journal = FakeJournal::default();
        let report = execute(&mut fixture, &mut journal);
        assert_eq!(report.exit_code(), 3);
        assert!(report.journal_error.is_none());
        assert_eq!(report.record.handled_bytes(), Some(7));
        let failed = &report.record.items[failed_index];
        assert_eq!(failed.state, ItemState::Failed);
        assert_eq!(failed.reason.as_deref(), Some("injected item failure"));
        assert!(failed.destination.is_none());
        assert_eq!(
            report.record.items[1 - failed_index].state,
            ItemState::Succeeded
        );
        assert_eq!(fixture.effects, ["/fixture/file1", "/fixture/file2"]);
        let records = &journal.durable;
        assert_eq!(records.len(), 5);
        assert_eq!(
            records.last().unwrap().items[failed_index].state,
            ItemState::Failed
        );
        assert_eq!(
            records.last().unwrap().items[1 - failed_index].state,
            ItemState::Succeeded
        );
        records.last().unwrap().validate().unwrap();
    }
}

#[test]
fn outcome_failure_stops_batch_and_preserves_interrupted_intent() {
    let mut fixture = setup();
    let mut journal = FakeJournal {
        fail_on: 3,
        ..Default::default()
    };
    let report = execute(&mut fixture, &mut journal);
    assert_eq!(fixture.effects.len(), 1);
    assert_eq!(report.record.items[0].state, ItemState::Unknown);
    assert_eq!(report.record.items[1].state, ItemState::Skipped);
    assert_eq!(
        journal.durable.last().unwrap().clone().reconciled().items[0].state,
        ItemState::Unknown
    );
}

#[test]
fn durable_outcome_cleanup_warning_preserves_success_but_stops_batch() {
    let mut fixture = setup();
    let mut journal = FakeJournal {
        cleanup_fail_on: 3,
        ..Default::default()
    };
    let report = execute(&mut fixture, &mut journal);
    assert_eq!(fixture.effects.len(), 1);
    assert_eq!(report.record.items[0].state, ItemState::Succeeded);
    assert_eq!(report.record.items[1].state, ItemState::Skipped);
    assert!(report.journal_error.is_some());
    assert_eq!(report.exit_code(), 1);
}

#[test]
fn intent_cleanup_warning_prevents_native_call() {
    let mut fixture = setup();
    let mut journal = FakeJournal {
        cleanup_fail_on: 2,
        ..Default::default()
    };
    let report = execute(&mut fixture, &mut journal);
    assert!(fixture.effects.is_empty());
    assert!(report.journal_error.is_some());
    assert!(report
        .record
        .items
        .iter()
        .all(|item| item.state == ItemState::Skipped));
}

#[test]
fn ambiguous_native_result_never_retries_or_starts_next_item() {
    let mut fixture = setup();
    fixture.next_unknown = true;
    let report = execute(&mut fixture, &mut FakeJournal::default());
    assert_eq!(fixture.effects.len(), 1);
    assert_eq!(report.record.items[0].state, ItemState::Unknown);
    assert_eq!(report.record.items[1].state, ItemState::Skipped);
}

#[test]
fn unverified_native_destination_and_held_evidence_survive_journaling() {
    let mut fixture = setup();
    let approved = FileEvidence {
        device: 1,
        inode: 1,
        logical_bytes: 7,
        modified: epoch(),
    };
    let evidence = RecoveryEvidence {
        approved,
        returned_destination: Some(native("/fixture-trash/reported")),
        held_source: Some(approved),
        held_source_path: Some(native("/fixture/held")),
        observation_errors: vec!["destination verification failed".into()],
    };
    fixture.next_unknown = true;
    fixture.unknown_evidence = Some(evidence.clone());
    let mut journal = FakeJournal::default();
    let report = execute(&mut fixture, &mut journal);
    assert_eq!(report.exit_code(), 1);
    assert_eq!(fixture.effects.len(), 1);
    assert_eq!(report.record.items[0].state, ItemState::Unknown);
    assert!(report.record.items[0].destination.is_none());
    let reopened = journal.durable.last().unwrap().clone();
    reopened.validate().unwrap();
    let reopened = reopened.reconciled();
    assert_eq!(
        reopened.items[0].recovery_evidence.as_ref(),
        Some(&evidence)
    );
    assert_eq!(reopened.items[0].state, ItemState::Unknown);
    assert_eq!(reopened.items[1].state, ItemState::Skipped);
}

#[test]
fn changed_target_is_skipped_without_expanding_approval() {
    let mut fixture = setup();
    fixture.skips.push(PlanSkip {
        resource: 1,
        code: "resource_changed".into(),
        probe_error: None,
    });
    let report = execute(&mut fixture, &mut FakeJournal::default());
    assert_eq!(report.record.items[0].state, ItemState::Skipped);
    assert_eq!(
        report.record.items[0].reason.as_deref(),
        Some("resource_changed")
    );
    assert_eq!(fixture.effects, ["/fixture/file2"]);
}

fn begin(plan: Plan, validated: Result<Vec<PlanSkip>, String>) -> Result<Session, Error> {
    Session::begin(
        plan,
        &mut Approval::granted(),
        validated,
        Ok(0),
        Ok("1-a".into()),
        None,
        false,
    )
}

#[test]
fn approval_is_one_shot_and_model_contract_cannot_execute() {
    let mut fixture = setup();
    let preview = fixture.plan.clone();
    let mut approval = Approval::granted();
    let mut journal = FakeJournal::default();
    run_approved(
        &mut fixture,
        preview.clone(),
        &mut approval,
        &mut journal,
        None,
        None,
    )
    .unwrap();
    assert!(approval.used());
    let error = run_approved(
        &mut fixture,
        preview.clone(),
        &mut approval,
        &mut journal,
        None,
        None,
    )
    .unwrap_err();
    assert_eq!(error.kind, ErrorKind::InvalidInput);
    assert_eq!(error.message, "approval was already used");
    let mut forged = preview;
    forged.contract = ExecutionContract::ModelOnly;
    assert!(run_approved(
        &mut fixture,
        forged,
        &mut approval,
        &mut journal,
        None,
        None
    )
    .is_err());
    assert_eq!(fixture.effects.len(), 2);
}

#[test]
fn model_contract_cannot_execute() {
    let mut plan = setup().plan;
    plan.contract = ExecutionContract::ModelOnly;
    assert!(begin(plan, Ok(vec![])).is_err());
}

#[test]
fn refused_plans_start_no_session() {
    let error = begin(setup().plan, Err("approval_already_used".into())).unwrap_err();
    assert_eq!(error.kind, ErrorKind::InvalidInput);
    assert_eq!(error.message, "approval_already_used");
    let mut approval = Approval::granted();
    let late = Session::begin(
        setup().plan,
        &mut approval,
        Ok(vec![]),
        Ok(0),
        Err(Error::new(ErrorKind::Other, "no identifier")),
        None,
        false,
    );
    assert_eq!(late.unwrap_err().message, "no identifier");
    assert!(!approval.used());
    let timeless = Session::begin(
        setup().plan,
        &mut approval,
        Ok(vec![]),
        Err(Error::new(ErrorKind::Other, "clock before epoch")),
        Ok("1-a".into()),
        None,
        false,
    );
    assert_eq!(timeless.unwrap_err().message, "clock before epoch");
}

#[test]
fn items_without_identity_or_size_cannot_execute() {
    let mut plan = setup().plan;
    plan.items[1].identity = Some(FileIdentity::Windows {
        volume: 1,
        index: 2,
    });
    let error = begin(plan, Ok(vec![])).unwrap_err();
    assert_eq!(error.message, "native plan lacks Unix identity");
    let mut plan = setup().plan;
    plan.items[0].logical_bytes = None;
    let error = begin(plan, Ok(vec![])).unwrap_err();
    assert_eq!(error.message, "native size is unknown");
    assert_eq!(error.kind, ErrorKind::InvalidData);
}

#[test]
fn expiry_at_final_native_boundary_stops_effect_after_intent() {
    let mut fixture = setup();
    fixture.time_before_effect = Some(160);
    let report = execute(&mut fixture, &mut FakeJournal::default());
    assert!(fixture.effects.is_empty());
    assert!(report
        .record
        .items
        .iter()
        .all(|item| item.state == ItemState::Skipped));
    assert_eq!(
        report.record.items[0].reason.as_deref(),
        Some("expired_plan")
    );
}

#[test]
fn cancellation_at_final_native_boundary_is_not_success() {
    let mut fixture = setup();
    fixture.cancel_before_effect = true;
    let report = execute(&mut fixture, &mut FakeJournal::default());
    assert!(fixture.effects.is_empty());
    assert_eq!(report.exit_code(), 130);
}

#[test]
fn rule_bound_execute_publishes_schema_v3_v2_with_binding() {
    let mut fixture = setup_rule_bound();
    let report = execute(&mut fixture, &mut FakeJournal::default());
    assert_eq!(report.exit_code(), 0);
    assert_eq!(report.record.plan_schema_version, 3);
    assert_eq!(report.record.schema_version, SCHEMA_VERSION);
    let binding = report.record.items[0].rule_binding.as_ref().unwrap();
    assert_eq!(binding.rule_id, RULE_ID);
    assert_eq!(binding.semantics_digest, RULE_DIGEST);
    assert_eq!(binding.target.kind, "file");
    assert_eq!(binding.target_ancestors[1].inode, 41);
}

#[test]
fn cancel_before_native_effect_keeps_rule_bound_batch_at_zero_effect() {
    let mut fixture = setup_rule_bound();
    fixture.cancelled = true;
    let mut journal = FakeJournal::default();
    let report = execute(&mut fixture, &mut journal);
    assert!(fixture.effects.is_empty());
    assert_eq!(report.record.items[0].state, ItemState::Skipped);
    assert_eq!(report.record.items[0].reason.as_deref(), Some("cancelled"));
    assert_eq!(journal.durable[1].items[0].state, ItemState::Skipped);
}

#[test]
fn rule_bound_after_started_source_refusal_has_zero_effect_and_truthful_skip() {
    let mut fixture = setup_rule_bound();
    fixture.refuse_before_effect = Some("source_changed_after_durable_intent".into());
    let mut journal = FakeJournal::default();
    let report = execute(&mut fixture, &mut journal);
    assert!(fixture.effects.is_empty());
    assert_eq!(report.record.items[0].state, ItemState::Skipped);
    assert_eq!(
        report.record.items[0].reason.as_deref(),
        Some("source_changed_after_durable_intent")
    );
    let durable = &journal.durable;
    assert_eq!(durable[1].items[0].state, ItemState::Started);
    assert_eq!(durable.last().unwrap().items[0].state, ItemState::Skipped);
}

#[test]
fn clean_execution_writes_policy_bound_schema_v3_record() {
    let mut fixture = setup_rule_bound();
    let guard = |_: GuardPoint| Ok(GuardDecision::Proceed);
    let report = run(
        &mut fixture,
        &mut FakeJournal::default(),
        Some(clean_policy_context()),
        Some(&guard),
    );
    assert_eq!(report.exit_code(), 0);
    assert_eq!(report.record.schema_version, 3);
    assert!(report.record.clean_policy.is_some());
    report.record.validate().unwrap();
}

#[test]
fn clean_policy_refusal_after_started_makes_zero_effect_calls_and_stops_batch() {
    let mut fixture = setup_rule_bound();
    let mut journal = FakeJournal::default();
    let guard = |point: GuardPoint| {
        if matches!(point, GuardPoint::AfterStarted) {
            Ok(GuardDecision::Refused(
                "policy_refused_after_started:policy_content_changed_after_approval".into(),
            ))
        } else {
            Ok(GuardDecision::Proceed)
        }
    };
    let report = run(
        &mut fixture,
        &mut journal,
        Some(clean_policy_context()),
        Some(&guard),
    );
    assert!(fixture.effects.is_empty());
    assert_eq!(report.record.items[0].state, ItemState::Skipped);
    assert!(report.record.clean_policy.is_some());
    assert!(report.record.items[0]
        .reason
        .as_deref()
        .unwrap()
        .contains("policy_refused_after_started"));
    assert_ne!(report.record.items[0].reason.as_deref(), Some("cancelled"));
    let durable = &journal.durable;
    assert_eq!(durable[1].items[0].state, ItemState::Started);
    assert_eq!(durable[2].items[0].state, ItemState::Skipped);
}

#[test]
fn clean_policy_refusal_at_last_native_guard_makes_zero_effect_calls() {
    let mut fixture = setup_rule_bound();
    let guard = |point: GuardPoint| {
        if matches!(point, GuardPoint::LastNative) {
            Ok(GuardDecision::Refused(
                "policy_refused_last_native_guard:policy_content_changed_after_approval".into(),
            ))
        } else {
            Ok(GuardDecision::Proceed)
        }
    };
    let report = run(
        &mut fixture,
        &mut FakeJournal::default(),
        Some(clean_policy_context()),
        Some(&guard),
    );
    assert!(fixture.effects.is_empty());
    assert_eq!(report.record.items[0].state, ItemState::Skipped);
    assert!(report.record.items[0]
        .reason
        .as_deref()
        .unwrap()
        .contains("policy_refused_last_native_guard"));
}

#[test]
fn clean_policy_guard_error_after_started_records_skipped_and_stops_without_effect() {
    for message in ["policy unreadable", "policy corrupt", "injected policy I/O"] {
        let mut fixture = setup_rule_bound();
        let mut journal = FakeJournal::default();
        let guard = |point: GuardPoint| {
            if matches!(point, GuardPoint::AfterStarted) {
                Err(message.to_owned())
            } else {
                Ok(GuardDecision::Proceed)
            }
        };
        let report = run(&mut fixture, &mut journal, None, Some(&guard));
        assert!(fixture.effects.is_empty());
        assert_eq!(report.record.items[0].state, ItemState::Skipped);
        let reason = report.record.items[0].reason.as_deref().unwrap();
        assert!(reason.contains("policy_guard_error_after_started"));
        assert!(reason.contains("no_native_call"));
        assert_ne!(Some(reason), Some("cancelled"));
        let durable = &journal.durable;
        assert_eq!(durable[1].items[0].state, ItemState::Started);
        assert_eq!(durable[2].items[0].state, ItemState::Skipped);
    }
}

#[test]
fn clean_policy_guard_error_after_started_publication_failure_keeps_ambiguity_and_no_effect() {
    let mut fixture = setup_rule_bound();
    let mut journal = FakeJournal {
        fail_on: 3,
        ..Default::default()
    };
    let guard = |point: GuardPoint| {
        if matches!(point, GuardPoint::AfterStarted) {
            Err("injected policy read I/O failure".to_owned())
        } else {
            Ok(GuardDecision::Proceed)
        }
    };
    let report = run(
        &mut fixture,
        &mut journal,
        Some(clean_policy_context()),
        Some(&guard),
    );
    assert!(fixture.effects.is_empty());
    assert!(report.journal_error.is_some());
    assert!(report.record.clean_policy.is_some());
    assert_eq!(report.record.items[0].state, ItemState::Skipped);
    let durable = &journal.durable;
    assert_eq!(durable[1].items[0].state, ItemState::Started);
    assert_eq!(durable.len(), 2);
}
