use sayaka_engine::app_inventory::RunningObservation;
use sayaka_engine::batch::{batch_refusals, common_ancestor, ReasonCode};
use sayaka_engine::bundle::{IoFailure, IoKind};
use sayaka_engine::bundle_session::{bundle_guard, BundleUninstallSession};
use sayaka_engine::cache_session::{
    cache_guard, CacheAgain, CacheLook, CacheSelection, CacheSession,
};
use sayaka_engine::clean_policy::{PolicyFile, UnixIdentity, POLICY_KIND};
use sayaka_engine::clean_session::{clean_guard, CleanSession};
use sayaka_engine::error::{Error, ErrorKind};
use sayaka_engine::execute::{Effect, GuardDecision, GuardPoint, Plan, PlanItem};
use sayaka_engine::installer_session::{
    Admission, InstallerAgain, InstallerCandidate, InstallerSession,
};
use sayaka_engine::journal::{CleanPolicyFileRecord, NativePath, NativeTime};
use sayaka_engine::model::{ExecutionContract, FileIdentity, Host, ResourceKind};
use sayaka_engine::native::{
    owner_state, CaptureFailure, NativeFileInfo, OwnerState, Retained,
};
use sayaka_engine::policy_snapshot::{
    GivenPath, LoadedPolicy, PolicyFileState, PolicyGuardStatus, PolicySnapshot, RootMeta,
    SnapshotLook,
};
use sayaka_engine::policy_store::ShownSnapshot;
use sayaka_engine::purge_session::{
    nesting_probes, purge_guard, purge_nesting_observed, ProjectMarker, PurgeAgain, PurgeFinding,
    PurgeSelection, PurgeSession,
};
use sayaka_engine::rule_binding::{
    bind_items, time_from_parts, to_witness, NativeRuleBindingWitness, NativeWitnessInfo,
    RuleBindingMetadata, RuleCandidate,
};
use sayaka_engine::trash_session::{
    exclusion_guard, valid_absolute_path, ExclusionLook, Finding, PathLook, Prepared, Rejected,
    RuleLook, TrashSession,
};

fn native(path: &str) -> NativePath {
    NativePath {
        encoding: "unix_bytes".into(),
        bytes: path.as_bytes().to_vec(),
        display: format!("{path:?}"),
    }
}

fn info(inode: u64) -> NativeFileInfo {
    NativeFileInfo {
        device: 1,
        inode,
        logical_bytes: 10,
        modified_at: NativeTime {
            seconds: 1,
            nanoseconds: 0,
        },
    }
}

fn holding(places: &[(&str, u64)]) -> Retained {
    let mut retained = Retained::new(ResourceKind::Directory);
    for (place, inode) in places {
        retained
            .inspect(
                native(place),
                Ok(()),
                Ok(info(*inode)),
                OwnerState::NotApplicable,
            )
            .unwrap();
    }
    retained
}

fn plan(items: Vec<PlanItem>) -> Plan {
    Plan {
        schema_version: 1,
        engine_version: 1,
        rules_version: 1,
        contract: ExecutionContract::RevalidatedTrashV1,
        scope: native("/fixture"),
        items,
    }
}

fn item(resource: u64, path: &str, inode: u64) -> PlanItem {
    PlanItem {
        resource,
        path: native(path),
        identity: Some(FileIdentity::Unix { device: 1, inode }),
        logical_bytes: Some(10),
        rule_binding: None,
    }
}

fn look(resource: u64, retained: bool, matches: &[bool]) -> PathLook {
    PathLook {
        cancelled: false,
        found: Ok(Finding { resource, retained }),
        exclusions: matches
            .iter()
            .map(|matches| ExclusionLook {
                cancelled: false,
                matches: Ok(*matches),
            })
            .collect(),
    }
}

fn changed() -> Error {
    Error::new(ErrorKind::PermissionDenied, "changed")
}

#[test]
fn held_targets_are_revalidated_and_others_captured() {
    let mut retained = holding(&[("/fixture/a", 5)]);
    assert_eq!(retained.find(b"/fixture/a"), Some(info(5)));
    assert_eq!(
        retained
            .inspect(
                native("/fixture/a"),
                Err("moved away".into()),
                Ok(info(6)),
                OwnerState::NotApplicable
            )
            .unwrap_err(),
        "moved away"
    );
    assert_eq!(retained.find(b"/fixture/a"), Some(info(5)));
    let unknown = retained
        .inspect(
            native("/fixture/b"),
            Ok(()),
            Err(CaptureFailure {
                message: "capture failed".into(),
                os_code: Some(13),
                phase: Some("open".into()),
                operation: None,
            }),
            OwnerState::NotApplicable,
        )
        .unwrap();
    assert!(unknown.identity.is_none());
    assert!(!unknown.complete);
    assert_eq!(retained.issues.len(), 1);
    assert_eq!(retained.issues[0].os_code, Some(13));
    assert!(retained.inspect_held(b"/fixture/b", Ok(())).is_err());
    assert!(matches!(
        retained.effect(b"/fixture/b", "cache ", Effect::Moved(native("/t"))),
        Effect::Refused(reason) if reason == "native cache candidate unavailable"
    ));
    assert!(matches!(
        retained.effect(b"/fixture/a", "cache ", Effect::Moved(native("/t"))),
        Effect::Moved(_)
    ));
    let expected = |inode: u64| {
        vec![(
            b"/fixture/a".to_vec(),
            FileIdentity::Unix { device: 1, inode },
        )]
    };
    assert!(retained.matches_observed_identities(&expected(5)));
    assert!(!retained.matches_observed_identities(&expected(6)));
}

#[test]
fn only_proven_absence_stops_an_owner() {
    assert_eq!(
        owner_state(&RunningObservation::NotRunning),
        OwnerState::Stopped
    );
    assert_eq!(
        owner_state(&RunningObservation::Running(vec![3])),
        OwnerState::Running
    );
    for open in [
        RunningObservation::Unknown,
        RunningObservation::NotChecked,
        RunningObservation::NotAttributable("no regular executable observed"),
    ] {
        assert_eq!(owner_state(&open), OwnerState::Unknown);
    }
}

#[test]
fn selections_are_bounded_and_plain() {
    assert!(valid_absolute_path(b"/fixture/a"));
    assert!(!valid_absolute_path(b"fixture/a"));
    assert!(!valid_absolute_path(b"/fixture/../a"));
    let none: Vec<NativePath> = Vec::new();
    let error = TrashSession::prepare(Host::MacOs, &none, &none, &Vec::new()).unwrap_err();
    assert_eq!(
        error.message,
        "select between 1 and 32 explicit files, with at most 32 exclusions"
    );
    let many = (0..33)
        .map(|number| native(&format!("/fixture/{number}")))
        .collect::<Vec<_>>();
    let looks = (0..33).map(|number| look(number, true, &[])).collect();
    assert!(TrashSession::prepare(Host::MacOs, &many, &none, &looks).is_err());
    assert_eq!(
        TrashSession::prepare(
            Host::Other,
            &vec![native("/fixture/a")],
            &none,
            &vec![look(1, true, &[])]
        )
        .unwrap_err()
        .kind,
        ErrorKind::Unsupported
    );
    assert_eq!(
        TrashSession::prepare(
            Host::MacOs,
            &vec![native("/fixture/a")],
            &vec![native("relative")],
            &vec![look(1, true, &[])]
        )
        .unwrap_err()
        .message,
        "exclusions must be absolute native paths without traversal"
    );
}

#[test]
fn exclusions_only_narrow_a_selection() {
    let paths = vec![
        native("/fixture/a"),
        native("/fixture/keep/b"),
        native("/fixture/alias"),
    ];
    let looks = || {
        vec![
            look(1, true, &[false]),
            look(2, true, &[]),
            look(3, true, &[true]),
        ]
    };
    let all = TrashSession::prepare(Host::MacOs, &paths, &Vec::new(), &looks()).unwrap();
    assert_eq!(all.selected, [1, 2, 3]);
    assert!(all.excluded.is_empty());
    let some = TrashSession::prepare(
        Host::MacOs,
        &paths,
        &vec![native("/fixture/keep")],
        &looks(),
    )
    .unwrap();
    assert_eq!(some.selected, [1, 2, 3]);
    assert_eq!(some.excluded, [2, 3]);
    let failing = vec![PathLook {
        exclusions: vec![ExclusionLook {
            cancelled: false,
            matches: Err(Error::new(ErrorKind::Other, "stat failed")),
        }],
        ..look(1, true, &[])
    }];
    assert_eq!(
        TrashSession::prepare(
            Host::MacOs,
            &vec![native("/fixture/a")],
            &vec![native("/fixture/keep")],
            &failing
        )
        .unwrap_err()
        .message,
        "cannot verify exclusion \"/fixture/keep\": stat failed"
    );
}

#[test]
fn rule_selections_need_supported_targets() {
    let paths = vec![native("/fixture/a")];
    let looks = vec![look(1, true, &[])];
    let prepare = |known: bool, rule: RuleLook| {
        TrashSession::prepare_rule_selection(
            Host::MacOs,
            known,
            &paths,
            &Vec::new(),
            &looks,
            &vec![rule],
        )
    };
    let supported = || RuleLook {
        supported: true,
        captured: Ok(()),
    };
    assert_eq!(prepare(true, supported()).unwrap().selected, [1]);
    assert_eq!(
        prepare(false, supported()).unwrap_err().message,
        "unsupported rule for native trash"
    );
    assert_eq!(
        prepare(
            true,
            RuleLook {
                supported: false,
                captured: Ok(())
            }
        )
        .unwrap_err()
        .message,
        "selected path is not a supported explicit rule target"
    );
    assert_eq!(
        prepare(
            true,
            RuleLook {
                supported: true,
                captured: Err(changed())
            }
        )
        .unwrap_err()
        .kind,
        ErrorKind::PermissionDenied
    );
}

fn trash_session(rejected: Vec<Rejected>) -> TrashSession {
    let paths = vec![native("/fixture/a"), native("/fixture/b")];
    let gathered = TrashSession::prepare(
        Host::MacOs,
        &paths,
        &Vec::new(),
        &vec![look(1, true, &[]), look(2, true, &[])],
    )
    .unwrap();
    TrashSession::seal(
        holding(&[("/fixture/a", 5), ("/fixture/b", 6)]),
        paths,
        gathered,
        Prepared {
            plan: plan(vec![item(1, "/fixture/a", 5), item(2, "/fixture/b", 6)]),
            rejected,
        },
    )
}

#[test]
fn refusals_name_the_paths_that_were_selected() {
    let session = trash_session(vec![Rejected {
        resource: 2,
        code: "owner_running".into(),
    }]);
    let refusals = session.refusals();
    assert_eq!(refusals.len(), 1);
    assert_eq!(refusals[0].path, native("/fixture/b"));
    assert!(refusals[0].reason.contains("owner_running"));
    assert_eq!(session.preview().items.len(), 2);
    assert!(session.issues().is_empty());
}

#[test]
fn changed_policy_refuses_the_native_call() {
    assert!(matches!(
        exclusion_guard(None),
        Ok(GuardDecision::Proceed)
    ));
    assert!(matches!(
        exclusion_guard(Some(Ok(PolicyGuardStatus::Unchanged))),
        Ok(GuardDecision::Proceed)
    ));
    assert!(matches!(
        exclusion_guard(Some(Ok(PolicyGuardStatus::Refused("gone".into())))),
        Ok(GuardDecision::Refused(_))
    ));
    assert!(exclusion_guard(Some(Err(changed()))).is_err());
    assert!(matches!(
        clean_guard(
            GuardPoint::LastNative,
            Ok(PolicyGuardStatus::Refused("policy_removed_after_approval".into()))
        ),
        Ok(GuardDecision::Refused(reason))
            if reason == "policy_refused_last_native_guard:policy_removed_after_approval"
    ));
}

#[test]
fn common_ancestor_is_the_deepest_shared_directory() {
    let of = |places: &[&str]| {
        common_ancestor(
            &places
                .iter()
                .map(|place| place.as_bytes().to_vec())
                .collect(),
        )
    };
    assert_eq!(
        of(&["/a/b/c", "/a/b/d", "/a/b"]).unwrap(),
        b"/a/b".to_vec()
    );
    assert_eq!(of(&["/a/bc", "/a/b"]).unwrap(), b"/a".to_vec());
    assert!(of(&["/a", "/b"]).is_none_or(|root| root == b"/"));
    assert_eq!(of(&["a/b", "a/c"]).unwrap(), b"a".to_vec());
    assert_eq!(of(&["a", "/a"]).unwrap(), b"".to_vec());
    assert!(of(&["/a", "a"]).is_none());
    assert!(of(&[]).is_none());
}

#[test]
fn batch_refusals_follow_the_discovered_paths() {
    let refusals = batch_refusals(
        &vec![(1, native("/fixture/a")), (2, native("/fixture/b"))],
        &vec![
            Rejected {
                resource: 2,
                code: "probe_failed".into(),
            },
            Rejected {
                resource: 9,
                code: "probe_failed".into(),
            },
        ],
    );
    assert_eq!(refusals.len(), 2);
    assert_eq!(refusals[0].path, native("/fixture/b"));
    assert_eq!(refusals[1].path.bytes, b"(unknown)");
}

fn cache(path: &str, root: &str, inode: u64) -> CacheSelection {
    CacheSelection {
        path: native(path),
        scope_root: native(root),
        expected_identity: FileIdentity::Unix { device: 1, inode },
    }
}

fn cache_look(path: &str, inode: u64, resource: u64) -> CacheLook {
    CacheLook {
        path: native(path),
        still_valid: Ok(()),
        cancelled: false,
        captured: Ok(info(inode)),
        found: Ok(resource),
    }
}

#[test]
fn cache_selections_keep_the_identity_of_the_preview() {
    let selections = vec![
        cache("/home/me/.cache/a", "/home/me/.cache", 5),
        cache("/home/me/.cache/b", "/home/me/.cache", 6),
    ];
    let looks = |inode: u64| {
        vec![
            cache_look("/home/me/.cache/a", 5, 1),
            cache_look("/home/me/.cache/b", inode, 2),
        ]
    };
    let found = CacheSession::prepare(&selections, &looks(6), &Ok(())).unwrap();
    assert_eq!(found.resources, [1, 2]);
    assert_eq!(found.discovered[1], (2, native("/home/me/.cache/b")));
    assert_eq!(
        CacheSession::prepare(&selections, &looks(7), &Ok(()))
            .unwrap_err()
            .message,
        "developer cache identity changed since preview"
    );
    assert_eq!(
        CacheSession::prepare(
            &vec![cache("/home/me/.cache/a", "/home/other", 5)],
            &vec![cache_look("/home/me/.cache/a", 5, 1)],
            &Ok(())
        )
        .unwrap_err()
        .message,
        "cache selections must retain a preview root at or above the cache path"
    );
    let session = CacheSession {
        retained: holding(&[("/home/me/.cache/a", 5)]),
        prepared: Prepared {
            plan: plan(vec![item(1, "/home/me/.cache/a", 5)]),
            rejected: Vec::new(),
        },
        selections: vec![cache("/home/me/.cache/a", "/home/me/.cache", 5)],
        discovered: vec![(1, native("/home/me/.cache/a"))],
    };
    let again = |path: &str, still_valid: bool, unchanged: bool| CacheAgain {
        path: native(path),
        still_valid,
        unchanged,
    };
    assert!(session.approve(&vec![again("/home/me/.cache/a", true, true)]).is_ok());
    assert_eq!(
        session.approve(&vec![again("/home/me/.cache/a", false, true)]),
        Err(ReasonCode::ResourceChanged)
    );
    assert_eq!(
        session.approve(&vec![again("/home/me/.cache/a", true, false)]),
        Err(ReasonCode::ResourceChanged)
    );
    assert!(session.refusals().is_empty());
    let wider = CacheSession {
        selections,
        ..session
    };
    assert_eq!(
        wider.approve(&vec![
            again("/home/me/.cache/a", true, true),
            again("/home/me/.cache/b", true, true),
        ]),
        Err(ReasonCode::ProbeFailed)
    );
}

#[test]
fn changed_cache_is_refused_before_the_native_call() {
    let selections = vec![cache("/home/me/.cache/a", "/home/me/.cache", 5)];
    let guard = |point: GuardPoint| {
        cache_guard(
            point,
            b"/home/me/.cache/a",
            &selections,
            None,
            Err("identity changed".into()),
        )
    };
    assert!(matches!(
        guard(GuardPoint::LastNative),
        Ok(GuardDecision::Refused(reason)) if reason == "identity changed"
    ));
    assert!(matches!(
        guard(GuardPoint::AfterStarted),
        Ok(GuardDecision::Proceed)
    ));
}

fn artifact(path: &str, root: &str, marker: &str) -> PurgeSelection {
    PurgeSelection {
        artifact: native(path),
        project_root: native(root),
        markers: vec![native(marker)],
    }
}

#[test]
fn artifacts_lie_directly_below_a_marked_project() {
    let good = || {
        vec![
            artifact("/work/a/target", "/work/a", "/work/a/Cargo.toml"),
            artifact("/work/b/target", "/work/b", "/work/b/Cargo.toml"),
        ]
    };
    let found = || {
        vec![
            PurgeFinding {
                artifact: native("/work/a/target"),
                resource: Ok(1),
            },
            PurgeFinding {
                artifact: native("/work/b/target"),
                resource: Ok(2),
            },
        ]
    };
    let gathered = PurgeSession::prepare(&good(), &Ok(()), false, &found()).unwrap();
    assert_eq!(gathered.scope_root, b"/work");
    assert_eq!(gathered.resources, [1, 2]);
    assert_eq!(gathered.discovered[0], (1, native("/work/a/target")));
    assert_eq!(
        PurgeSession::prepare(
            &good(),
            &Ok(()),
            false,
            &vec![PurgeFinding {
                artifact: native("/work/a/target"),
                resource: Err(changed()),
            }]
        )
        .unwrap_err()
        .message,
        "changed"
    );
    assert_eq!(
        PurgeSession::prepare(&good(), &Ok(()), true, &Vec::new())
            .unwrap_err()
            .kind,
        ErrorKind::Interrupted
    );
    for (selection, message) in [
        (
            artifact("/work/a/x/target", "/work/a", "/work/a/Cargo.toml"),
            "an artifact must be a direct child of its project root",
        ),
        (
            artifact("/work/a/target", "/work/a", "/work/b/Cargo.toml"),
            "markers must be files directly at the project root",
        ),
        (
            PurgeSelection {
                markers: Vec::new(),
                ..artifact("/work/a/target", "/work/a", "/work/a/Cargo.toml")
            },
            "an artifact carries between 1 and 4 binding markers",
        ),
    ] {
        assert_eq!(
            PurgeSession::prepare(&vec![selection], &Ok(()), false, &Vec::new())
                .unwrap_err()
                .message,
            message
        );
    }
}

#[test]
fn nested_artifacts_are_refused() {
    let markers = vec![ProjectMarker {
        file_name: "Cargo.toml".into(),
        artifacts: vec!["target".into()],
    }];
    assert_eq!(
        nesting_probes(b"/work/a/target/deps/target", &markers),
        [b"/work/a/Cargo.toml".to_vec()]
    );
    assert!(nesting_probes(b"/work/a/target", &markers).is_empty());
    let missing = || {
        Err(IoFailure {
            kind: IoKind::NotFound,
            text: "No such file or directory".into(),
            os_code: Some(2),
        })
    };
    assert!(!purge_nesting_observed(&vec![missing()]));
    assert!(!purge_nesting_observed(&vec![Ok(ResourceKind::Directory)]));
    assert!(purge_nesting_observed(&vec![missing(), Ok(ResourceKind::File)]));
    assert!(purge_nesting_observed(&vec![Err(IoFailure {
        kind: IoKind::PermissionDenied,
        text: "Permission denied".into(),
        os_code: Some(13),
    })]));
    assert!(matches!(
        purge_guard(GuardPoint::LastNative, true, None),
        Ok(GuardDecision::Refused(_))
    ));
    let session = PurgeSession {
        retained: holding(&[("/work/a/target", 5)]),
        prepared: Prepared {
            plan: plan(vec![item(1, "/work/a/target", 5)]),
            rejected: Vec::new(),
        },
        selections: vec![artifact("/work/a/target", "/work/a", "/work/a/Cargo.toml")],
        discovered: vec![(1, native("/work/a/target"))],
    };
    let again = |nested: bool, unchanged: bool| {
        vec![PurgeAgain {
            artifact: native("/work/a/target"),
            nested,
            unchanged,
        }]
    };
    assert!(session.approve(&again(false, true)).is_ok());
    assert_eq!(
        session.approve(&again(true, true)),
        Err(ReasonCode::ResourceChanged)
    );
    assert_eq!(
        session.approve(&again(false, false)),
        Err(ReasonCode::ResourceChanged)
    );
}

#[test]
fn only_a_stopped_bundle_moves() {
    assert_eq!(BundleUninstallSession::prepare(false, Ok(4)).unwrap(), 4);
    assert!(BundleUninstallSession::prepare(true, Ok(4)).is_err());
    let session = BundleUninstallSession {
        retained: holding(&[("/Applications/Demo.app", 5)]),
        prepared: Prepared {
            plan: plan(vec![item(4, "/Applications/Demo.app", 5)]),
            rejected: vec![Rejected {
                resource: 4,
                code: "owner_running".into(),
            }],
        },
        bundle: native("/Applications/Demo.app"),
    };
    assert!(session.approve(&RunningObservation::NotRunning).is_ok());
    assert_eq!(
        session.approve(&RunningObservation::Running(vec![1])),
        Err(ReasonCode::OwnerRunning)
    );
    assert_eq!(
        session.approve(&RunningObservation::Unknown),
        Err(ReasonCode::OwnerUnknown)
    );
    assert_eq!(session.refusals().len(), 1);
    assert!(matches!(
        bundle_guard(GuardPoint::LastNative, &RunningObservation::Running(vec![1, 2])),
        GuardDecision::Refused(reason)
            if reason == "bundle executables are running (pids: [1, 2]); refused, never signaled"
    ));
    assert!(matches!(
        bundle_guard(GuardPoint::LastNative, &RunningObservation::Unknown),
        GuardDecision::Refused(reason)
            if reason == "running state is not proven clear (unknown); refused"
    ));
    assert!(matches!(
        bundle_guard(GuardPoint::LastNative, &RunningObservation::NotRunning),
        GuardDecision::Proceed
    ));
}

#[test]
fn installers_are_approved_whole_or_not_at_all() {
    let candidates = vec![
        InstallerCandidate {
            path: b"/fixture/a".to_vec(),
            selectable: true,
        },
        InstallerCandidate {
            path: b"/fixture/b".to_vec(),
            selectable: true,
        },
    ];
    let paths = vec![native("/fixture/a"), native("/fixture/b")];
    let admission = |path: &str, admitted: Result<(), Error>| Admission {
        path: native(path),
        admitted,
    };
    let prepare = |paths: &Vec<NativePath>, inner: Result<TrashSession, Error>| {
        InstallerSession::prepare(
            &Ok(()),
            &candidates,
            paths,
            inner,
            &vec![admission("/fixture/a", Ok(())), admission("/fixture/b", Ok(()))],
        )
    };
    let again = |unchanged: Result<(), Error>| {
        vec![
            InstallerAgain {
                path: native("/fixture/a"),
                unchanged: Ok(()),
            },
            InstallerAgain {
                path: native("/fixture/b"),
                unchanged,
            },
        ]
    };
    let session = prepare(&paths, Ok(trash_session(Vec::new()))).unwrap();
    assert!(session.ready());
    assert!(session.approve(&again(Ok(()))).is_ok());
    assert!(session.approve(&again(Err(changed()))).is_err());
    assert_eq!(session.execute().unwrap().items.len(), 2);
    let refused = prepare(
        &paths,
        Ok(trash_session(vec![Rejected {
            resource: 2,
            code: "probe_failed".into(),
        }])),
    )
    .unwrap();
    assert!(!refused.ready());
    assert_eq!(
        refused.approve(&again(Ok(()))).unwrap_err().message,
        "installer batch contains refusals; no files can be approved"
    );
    assert_eq!(
        refused.execute().unwrap_err().message,
        "installer batch was refused"
    );
    assert_eq!(
        prepare(&vec![native("/fixture/a"), native("/fixture/a")], Err(changed()))
            .unwrap_err()
            .message,
        "installer selections must be unique absolute paths without traversal"
    );
    assert!(prepare(&vec![native("/fixture/c")], Err(changed()))
        .unwrap_err()
        .message
        .starts_with("selected path is not a recognized current-user installer candidate: "));
    assert_eq!(
        InstallerSession::prepare(
            &Ok(()),
            &candidates,
            &paths,
            Ok(trash_session(Vec::new())),
            &vec![
                admission("/fixture/a", Ok(())),
                admission("/fixture/b", Err(changed())),
            ],
        )
        .unwrap_err()
        .message,
        "changed"
    );
}

fn witness(path: &str, inode: u64) -> NativeWitnessInfo {
    NativeWitnessInfo {
        path: native(path),
        device: 1,
        inode,
        kind: "file".into(),
        logical_bytes: 10,
        modified_unix_seconds: 3,
        modified_nanoseconds: 4,
        changed_unix_seconds: 5,
        changed_nanoseconds: 6,
        created_unix_seconds: 7,
        created_nanoseconds: 8,
        uid: 501,
        gid: 20,
        mode: 0o100644,
        nlink: 1,
        flags: 0,
    }
}

fn metadata() -> RuleBindingMetadata {
    RuleBindingMetadata {
        rule_id: "rule".into(),
        rule_version: 1,
        ruleset_schema_version: 1,
        ruleset_revision: 1,
        semantics: "exact".into(),
        semantics_digest: "digest".into(),
    }
}

#[test]
fn witnesses_keep_every_fact() {
    let time = time_from_parts(3, 999_999_999, "modified").unwrap();
    assert_eq!((time.seconds, time.nanoseconds), (3, 999_999_999));
    assert!(time_from_parts(3, 1_000_000_000, "modified").is_err());
    assert!(time_from_parts(3, -1, "modified").is_err());
    let seen = to_witness(&witness("/fixture/a", 5)).unwrap();
    assert_eq!(seen.kind, ResourceKind::File);
    assert_eq!(seen.identity, FileIdentity::Unix { device: 1, inode: 5 });
    assert_eq!(seen.created_at.seconds, 7);
    let mut odd = witness("/fixture/a", 5);
    odd.kind = "socket".into();
    assert_eq!(to_witness(&odd).unwrap().kind, ResourceKind::Other);
    odd.changed_nanoseconds = -1;
    assert!(to_witness(&odd).is_err());
    let binding = NativeRuleBindingWitness {
        target: witness("/fixture/a", 5),
        source: witness("/fixture/s", 6),
        root: NativeWitnessInfo {
            kind: "directory".into(),
            ..witness("/fixture", 7)
        },
        target_ancestors: Vec::new(),
        source_ancestors: Vec::new(),
    };
    let bound = bind_items(
        &metadata(),
        &native("/fixture"),
        &Vec::new(),
        &holding(&[("/fixture/a", 5)]),
        &vec![item(1, "/fixture/a", 5)],
        &vec![Some(binding)],
    )
    .unwrap();
    assert_eq!(bound.len(), 1);
    assert_eq!(bound[0].rule_id, "rule");
    for (held, message) in [
        ("/fixture/a", "missing rule-bound witness"),
        ("/fixture/b", "rule-bound candidate unavailable"),
    ] {
        assert_eq!(
            bind_items(
                &metadata(),
                &native("/fixture"),
                &Vec::new(),
                &holding(&[(held, 5)]),
                &vec![item(1, "/fixture/a", 5)],
                &vec![None]
            )
            .unwrap_err()
            .message,
            message
        );
    }
}

const ROOT_IDENTITY: UnixIdentity = UnixIdentity {
    device: 1,
    inode: 7,
};

fn absent_policy() -> PolicyFileState {
    PolicyFileState::Absent {
        expected_path: b"/config/exclusions-v1.json".to_vec(),
        nearest_existing_parent: Some(b"/config".to_vec()),
        nearest_existing_parent_identity: Some(UnixIdentity {
            device: 1,
            inode: 9,
        }),
    }
}

fn policy_snapshot(exclusions: &[&str]) -> PolicySnapshot {
    PolicySnapshot {
        file_state: absent_policy(),
        root: None,
        effective_exclusions: exclusions
            .iter()
            .map(|place| place.as_bytes().to_vec())
            .collect(),
        missing_attention_entries: Vec::new(),
    }
}

fn shown(exclusions: &[&str]) -> ShownSnapshot {
    ShownSnapshot {
        root: native("/fixture"),
        file: native("/config/exclusions-v1.json"),
        nearest_existing_parent: Some(native("/config")),
        effective_exclusions: exclusions.iter().map(|place| native(place)).collect(),
    }
}

fn look_at_policy(policy: LoadedPolicy) -> SnapshotLook {
    SnapshotLook {
        root: GivenPath {
            raw: b"/fixture".to_vec(),
            absolute: Ok(b"/fixture".to_vec()),
        },
        root_display: "/fixture".into(),
        root_meta: Ok(RootMeta {
            physical_directory: true,
            identity: ROOT_IDENTITY,
        }),
        policy: Ok(policy),
        entries: Vec::new(),
    }
}

fn created_policy() -> LoadedPolicy {
    LoadedPolicy::Present {
        file_state: PolicyFileState::Present {
            path: b"/config/exclusions-v1.json".to_vec(),
            identity: UnixIdentity {
                device: 1,
                inode: 10,
            },
            length: 1,
            modified_unix_ms: None,
            sha256: "digest".into(),
        },
        policy: PolicyFile {
            schema_version: 1,
            kind: POLICY_KIND.into(),
            roots: Vec::new(),
        },
    }
}

fn bound_session(inode: u64) -> TrashSession {
    let mut session = trash_session(Vec::new());
    let witnessed = NativeRuleBindingWitness {
        target: witness("/fixture/a", inode),
        source: witness("/fixture/s", 6),
        root: NativeWitnessInfo {
            kind: "directory".into(),
            ..witness("/fixture", 7)
        },
        target_ancestors: Vec::new(),
        source_ancestors: Vec::new(),
    };
    let mut bound = bind_items(
        &metadata(),
        &native("/fixture"),
        &Vec::new(),
        &session.retained,
        &vec![item(1, "/fixture/a", 5)],
        &vec![Some(witnessed)],
    )
    .unwrap();
    session.paths.truncate(1);
    session.resources.truncate(1);
    session.prepared.plan.items.truncate(1);
    session.prepared.plan.items[0].rule_binding = bound.pop();
    session
}

#[test]
fn clean_items_are_the_discovered_ones() {
    let candidates = |rule: &str, inode: u64| {
        vec![RuleCandidate {
            target_path: b"/fixture/a".to_vec(),
            rule_id: rule.into(),
            target_identity: FileIdentity::Unix { device: 1, inode },
        }]
    };
    let prepare = |candidates: Vec<RuleCandidate>, selected: &str| {
        CleanSession::prepare_rule_selection(
            Host::MacOs,
            &candidates,
            &vec![native(selected)],
            if selected == "/fixture/a" {
                Ok(bound_session(5))
            } else {
                Err(changed())
            },
            shown(&[]),
            policy_snapshot(&[]),
            Ok(ROOT_IDENTITY),
        )
    };
    let session = prepare(candidates("rule", 5), "/fixture/a").unwrap();
    assert_eq!(session.preview().items.len(), 1);
    assert_eq!(
        prepare(candidates("rule", 5), "/fixture/z").unwrap_err().message,
        "selected path is not a current clean discovery candidate"
    );
    assert_eq!(
        prepare(candidates("rule", 9), "/fixture/a").unwrap_err().message,
        "selected candidate changed after discovery; rerun clean preview"
    );
    assert_eq!(
        prepare(candidates("other", 5), "/fixture/a")
            .unwrap_err()
            .message,
        "selected candidate rule binding changed; rerun clean preview"
    );
    let context = &session.clean_policy_context;
    assert_eq!(context.kind, "sayaka_clean_policy_context");
    assert_eq!(context.root_path.bytes_hex, "2f66697874757265");
    assert_eq!(context.root_identity.inode, 7);
    assert!(matches!(
        &context.file_state,
        CleanPolicyFileRecord::Absent { nearest_existing_parent: Some(parent), .. }
            if parent.bytes_hex == "2f636f6e666967"
    ));
    let unchanged = look_at_policy(LoadedPolicy::Absent(absent_policy()));
    let created = look_at_policy(created_policy());
    assert!(session.approve(Host::MacOs, &unchanged, Ok(())).is_ok());
    assert_eq!(
        session
            .approve(Host::MacOs, &unchanged, Err("plan_expired".into()))
            .unwrap_err()
            .kind,
        ErrorKind::InvalidInput
    );
    assert_eq!(
        session
            .approve(Host::MacOs, &created, Ok(()))
            .unwrap_err()
            .message,
        "policy_created_after_approval; no_native_call"
    );
    assert!(matches!(
        session.guard(Host::MacOs, GuardPoint::AfterStarted, &unchanged),
        Ok(GuardDecision::Proceed)
    ));
    assert!(matches!(
        session.guard(Host::MacOs, GuardPoint::AfterStarted, &created),
        Ok(GuardDecision::Refused(reason))
            if reason == "policy_refused_after_started:policy_created_after_approval"
    ));
    let gone = CleanSession::prepare_rule_selection(
        Host::MacOs,
        &candidates("rule", 5),
        &vec![native("/fixture/a")],
        Ok(bound_session(5)),
        shown(&[]),
        policy_snapshot(&[]),
        Err(Error::new(ErrorKind::NotFound, "root is gone")),
    );
    assert_eq!(gone.unwrap_err().message, "root is gone");
}

#[test]
fn excluded_paths_are_left_out_of_a_clean_session() {
    let candidates: Vec<RuleCandidate> = ["/fixture/a", "/fixture/keep/b"]
        .iter()
        .map(|place| RuleCandidate {
            target_path: place.as_bytes().to_vec(),
            rule_id: "rule".into(),
            target_identity: FileIdentity::Unix { device: 1, inode: 5 },
        })
        .collect();
    let selected = vec![native("/fixture/a"), native("/fixture/keep/b")];
    let gather = |candidates: &Vec<RuleCandidate>, known: bool| {
        CleanSession::gather(
            Host::MacOs,
            known,
            candidates,
            &selected,
            &shown(&["/fixture/keep"]),
            &policy_snapshot(&["/fixture/keep"]),
            &vec![look(1, true, &[false]), look(2, true, &[])],
            &vec![
                RuleLook {
                    supported: true,
                    captured: Ok(()),
                },
                RuleLook {
                    supported: true,
                    captured: Ok(()),
                },
            ],
        )
    };
    let gathered = gather(&candidates, true).unwrap();
    assert_eq!(gathered.selected, [1, 2]);
    assert_eq!(gathered.excluded, [2]);
    assert_eq!(
        gather(&candidates, false).unwrap_err().message,
        "unsupported rule for native trash"
    );
    assert_eq!(
        gather(&Vec::new(), true).unwrap_err().message,
        "selected path is not a current clean discovery candidate"
    );
}
