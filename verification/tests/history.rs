use sayaka_engine::history::{query, Query};
use sayaka_engine::journal::{
    CleanPolicyContextRecord, CleanPolicyFileRecord, CleanPolicyIdentityRecord,
    CleanPolicyPathRecord, ItemRecord, ItemState, JournalRead, NativePath, NativeTime, Record,
    RuleBindingRecord, RuleWitnessRecord, MAX_RECORDS,
};

fn fixture_path(path: &str) -> NativePath {
    NativePath {
        encoding: "unix_bytes".into(),
        bytes: path.as_bytes().to_vec(),
        display: format!("{path:?}"),
    }
}

fn record(id: &str, created: u64, state: ItemState) -> Record {
    Record {
        schema_version: 1,
        plan_schema_version: 2,
        engine_version: 2,
        rules_version: 1,
        operation_id: id.into(),
        contract: "revalidated_trash_v1".into(),
        scope: fixture_path("/fixture"),
        clean_policy: None,
        created_unix_ms: created,
        items: vec![ItemRecord {
            path: fixture_path("/fixture/file"),
            device: 1,
            inode: 2,
            logical_bytes: 1,
            state,
            reason: None,
            destination: None,
            rule_binding: None,
            recovery_evidence: None,
            updated_unix_ms: created,
        }],
    }
}

fn read(records: Vec<Record>) -> JournalRead {
    JournalRead {
        records,
        uncommitted_snapshots: vec!["a-1.pending".into()],
    }
}

fn witness(path: &str, inode: u64, kind: &str, logical_bytes: u64, mode: u32) -> RuleWitnessRecord {
    let epoch = NativeTime {
        seconds: 0,
        nanoseconds: 0,
    };
    RuleWitnessRecord {
        path: fixture_path(path),
        device: 1,
        inode,
        kind: kind.into(),
        logical_bytes,
        modified: epoch,
        changed: epoch,
        created: epoch,
        uid: 1,
        gid: 1,
        mode,
        nlink: 1,
        flags: 0,
    }
}

fn rule_bound_record(id: &str, created: u64, state: ItemState) -> Record {
    let target = "/fixture/pkg/__pycache__/module.cpython-39.pyc";
    Record {
        schema_version: 2,
        plan_schema_version: 3,
        engine_version: 2,
        rules_version: 2,
        operation_id: id.into(),
        contract: "revalidated_trash_v1".into(),
        scope: fixture_path("/fixture"),
        clean_policy: None,
        created_unix_ms: created,
        items: vec![ItemRecord {
            path: fixture_path(target),
            device: 1,
            inode: 12,
            logical_bytes: 7,
            state,
            reason: None,
            destination: None,
            rule_binding: Some(RuleBindingRecord {
                schema_version: 1,
                rule_id: "cpython-source-backed-pyc".into(),
                rule_version: 1,
                ruleset_schema_version: 1,
                ruleset_revision: 1,
                semantics: "trash".into(),
                semantics_digest: "digest".into(),
                selected_root: fixture_path("/fixture"),
                exclusions: vec![],
                target: witness(target, 12, "file", 7, 0o100600),
                source: witness("/fixture/pkg/module.py", 11, "file", 8, 0o100600),
                root: witness("/fixture", 1, "directory", 0, 0o040700),
                target_ancestors: vec![
                    witness("/fixture/pkg", 2, "directory", 0, 0o040700),
                    witness("/fixture/pkg/__pycache__", 3, "directory", 0, 0o040700),
                ],
                source_ancestors: vec![witness("/fixture/pkg", 2, "directory", 0, 0o040700)],
                warnings: vec!["metadata-only".into()],
            }),
            recovery_evidence: None,
            updated_unix_ms: created,
        }],
    }
}

#[test]
fn newest_first_time_boundaries_and_pages_are_deterministic() {
    let page = query(
        read(vec![
            record("b", 20, ItemState::Failed),
            record("a", 20, ItemState::Failed),
            record("c", 30, ItemState::Failed),
            record("d", 10, ItemState::Failed),
        ]),
        &Query {
            since_unix_ms: Some(20),
            until_unix_ms: Some(30),
            offset: 1,
            limit: 1,
            ..Query::default()
        },
    )
    .unwrap();
    assert_eq!(page.total_records, 4);
    assert_eq!(page.matched_records, 2);
    assert_eq!(page.records[0].operation_id, "b");
    assert_eq!(page.uncommitted_snapshots, ["a-1.pending"]);
}

#[test]
fn state_filter_reconciles_started_and_preserves_whole_operation() {
    let mut operation = record("a-1", 10, ItemState::Started);
    let mut second = operation.items[0].clone();
    second.path = fixture_path("/fixture/other");
    second.inode = 3;
    second.state = ItemState::Failed;
    operation.items.push(second);
    let page = query(
        read(vec![operation]),
        &Query {
            states: vec![ItemState::Unknown],
            ..Query::default()
        },
    )
    .unwrap();
    assert_eq!(page.records.len(), 1);
    assert_eq!(page.records[0].items.len(), 2);
    assert_eq!(page.records[0].items[0].state, ItemState::Unknown);
    assert_eq!(page.records[0].items[1].state, ItemState::Failed);
}

#[test]
fn empty_filters_never_hide_global_pending_warnings_or_bad_records() {
    let page = query(
        read(vec![record("a", 10, ItemState::Failed)]),
        &Query {
            operation_id: Some("b".into()),
            ..Query::default()
        },
    )
    .unwrap();
    assert!(page.records.is_empty());
    assert!(!page.uncommitted_snapshots.is_empty());
    let mut invalid = record("a", 10, ItemState::Failed);
    invalid.schema_version = 99;
    assert!(query(
        read(vec![invalid]),
        &Query {
            operation_id: Some("b".into()),
            ..Query::default()
        }
    )
    .is_err());
}

#[test]
fn invalid_filters_and_duplicate_ids_are_explicit_errors() {
    assert!(Query {
        limit: 0,
        ..Query::default()
    }
    .validate()
    .is_err());
    assert!(Query {
        operation_id: Some("../a".into()),
        ..Query::default()
    }
    .validate()
    .is_err());
    assert!(Query {
        states: vec![ItemState::Started],
        ..Query::default()
    }
    .validate()
    .is_err());
    assert!(Query {
        since_unix_ms: Some(20),
        until_unix_ms: Some(10),
        ..Query::default()
    }
    .validate()
    .is_err());
    assert!(query(
        read(vec![
            record("a", 10, ItemState::Failed),
            record("a", 20, ItemState::Failed)
        ]),
        &Query::default()
    )
    .is_err());
}

#[test]
fn mixed_legacy_and_rule_bound_records_are_queryable() {
    let clean = Record {
        schema_version: 3,
        plan_schema_version: 3,
        engine_version: 2,
        rules_version: 2,
        operation_id: "c-3".into(),
        contract: "revalidated_trash_v1".into(),
        scope: fixture_path("/fixture"),
        clean_policy: Some(CleanPolicyContextRecord {
            schema_version: 1,
            kind: "sayaka_clean_policy_context".into(),
            root_path: CleanPolicyPathRecord {
                encoding: "unix_bytes".into(),
                bytes_hex: "2f66697874757265".into(),
                display: "\"/fixture\"".into(),
            },
            root_identity: CleanPolicyIdentityRecord {
                device: 1,
                inode: 1,
            },
            file_state: CleanPolicyFileRecord::Absent {
                expected_path: CleanPolicyPathRecord {
                    encoding: "unix_bytes".into(),
                    bytes_hex: "2f".into(),
                    display: "\"/\"".into(),
                },
                nearest_existing_parent: None,
                nearest_existing_parent_identity: None,
            },
            effective_exclusions: vec![],
        }),
        created_unix_ms: 30,
        items: vec![ItemRecord {
            path: fixture_path("/fixture/pkg/__pycache__/module.cpython-39.pyc"),
            device: 1,
            inode: 12,
            logical_bytes: 7,
            state: ItemState::Skipped,
            reason: Some("policy_refused_last_native_guard".into()),
            destination: None,
            rule_binding: rule_bound_record("x", 1, ItemState::Skipped).items[0]
                .rule_binding
                .clone(),
            recovery_evidence: None,
            updated_unix_ms: 30,
        }],
    };
    let page = query(
        read(vec![
            record("a-1", 10, ItemState::Failed),
            rule_bound_record("b-2", 20, ItemState::Skipped),
            clean,
        ]),
        &Query::default(),
    )
    .unwrap();
    assert_eq!(page.total_records, 3);
    assert_eq!(page.records[0].operation_id, "c-3");
    assert_eq!(page.records[0].schema_version, 3);
    assert!(page.records[0].clean_policy.is_some());
    assert_eq!(page.records[1].operation_id, "b-2");
    assert_eq!(page.records[1].schema_version, 2);
    assert_eq!(page.records[2].operation_id, "a-1");
    assert_eq!(page.records[2].schema_version, 1);
}

#[test]
fn consecutive_pages_show_every_record_once() {
    let store = || {
        read(vec![
            record("a", 10, ItemState::Failed),
            record("b", 20, ItemState::Failed),
            record("c", 30, ItemState::Failed),
        ])
    };
    let page = |offset: usize, limit: usize| {
        query(
            store(),
            &Query {
                offset,
                limit,
                ..Query::default()
            },
        )
        .unwrap()
    };
    let names = |offset: usize, limit: usize| -> Vec<String> {
        page(offset, limit)
            .records
            .into_iter()
            .map(|record| record.operation_id)
            .collect()
    };
    assert_eq!(names(0, 2), ["c", "b"]);
    assert_eq!(names(2, 2), ["a"]);
    assert_eq!(names(0, 3), ["c", "b", "a"]);
    assert!(names(3, 1).is_empty());
}

#[test]
fn query_errors_name_their_reason() {
    let error = Query {
        limit: MAX_RECORDS + 1,
        ..Query::default()
    }
    .validate()
    .unwrap_err();
    assert_eq!(error.message, "invalid history filter, time range or page bounds");
    let error = query(
        JournalRead {
            records: vec![],
            uncommitted_snapshots: vec![String::new(); MAX_RECORDS * 2 + 1],
        },
        &Query::default(),
    )
    .unwrap_err();
    assert_eq!(error.message, "history input exceeds the journal budget");
    let error = query(
        read(vec![
            record("a", 10, ItemState::Failed),
            record("a", 20, ItemState::Failed),
        ]),
        &Query::default(),
    )
    .unwrap_err();
    assert_eq!(error.message, "duplicate history operation identifier");
}

#[test]
fn handled_bytes_add_up_what_was_moved() {
    let mut operation = record("a", 10, ItemState::Succeeded);
    let mut second = operation.items[0].clone();
    second.logical_bytes = 41;
    operation.items.push(second);
    let mut third = operation.items[0].clone();
    third.state = ItemState::Skipped;
    third.logical_bytes = 1000;
    operation.items.push(third);
    assert_eq!(operation.handled_bytes(), Some(42));
    operation.items[1].logical_bytes = u64::MAX;
    assert_eq!(operation.handled_bytes(), None);
}
