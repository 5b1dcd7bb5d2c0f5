use sayaka_engine::app_inventory::{
    AppInventory, AppInventoryCounts, AppInventoryMetrics, AppInventoryStatus, AppIssue,
    AppIssueCode, AppKind, AppRecord, ExecutableMetadata, NameSource, PathStatus, PlistFormat,
    RunningObservation, StringField, StringState,
};
use sayaka_engine::app_related::{
    issue, push_issue, update_status, AppRelatedCounts, AppRelatedIssue, AppRelatedMetrics,
    AppRelatedPreview, AppRelatedStatus, APP_RELATED_KIND, APP_RELATED_SCHEMA_VERSION,
    MAX_CANDIDATES, MAX_GENERIC_APP_COPIES, MAX_ISSUES, MAX_LIBRARY_ROOTS, MAX_PATH_BYTES,
};
use sayaka_engine::bundle::{IoFailure, IoKind, Moment, RawStat};
use sayaka_engine::model::{FileIdentity, Host, ResourceKind};
use sayaka_engine::probe::Reading;
use sayaka_engine::related_finish::{source_urls, ProbeOutcome};
use sayaka_engine::related_plan::{maybe_add_spec, CandidateSpec, CandidateSpecInput};
use sayaka_engine::related_preview::{
    preview_app_related_data, valid_bundle_id_component_path, RootStep,
};
use sayaka_engine::related_probe::{
    finalize_policy_outcome, open_library_root, probe_candidate_path,
    validate_opened_intermediate_observation, validate_root_observation, verify_root_mapping,
    IntermediateObservation, IntermediateOpenError, OpenRootLook, PolicyFailure, ProbeLook, RootLook, StepLook,
    VolumeFault,
};

fn unix(device: u64, inode: u64) -> FileIdentity {
    FileIdentity::Unix { device, inode }
}

fn app(
    path: &str,
    bundle_id: Option<&str>,
    cr_dir: Option<&str>,
    display: &str,
    app_kind: AppKind,
) -> AppRecord {
    let field = |value: Option<&str>| StringField {
        state: if value.is_some() {
            StringState::Present
        } else {
            StringState::Missing
        },
        value: value.map(str::to_string),
    };
    AppRecord {
        bundle_path: path.as_bytes().to_vec(),
        observed_roots: vec![b"/Applications".to_vec()],
        bundle_identity: unix(1, 1),
        app_kind,
        parser_format: PlistFormat::Xml,
        display_name: display.to_string(),
        display_name_source: NameSource::BundleDisplayName,
        localized: false,
        bundle_id: field(bundle_id),
        short_version: field(Some("1.0")),
        build_version: field(Some("1")),
        package_type: field(Some("APPL")),
        declared_product_dir_name: field(cr_dir),
        executable: ExecutableMetadata {
            state: StringState::Present,
            declared_value: Some("Run".into()),
            path_status: PathStatus::PresentFile,
        },
        running: RunningObservation::NotChecked,
    }
}

fn inventory(apps: Vec<AppRecord>) -> AppInventory {
    AppInventory {
        schema_version: 1,
        kind: "app_inventory",
        platform: "macos",
        status: AppInventoryStatus::Complete,
        complete: true,
        effects_performed: false,
        roots: vec![b"/Applications".to_vec()],
        filter: String::new(),
        excludes: Vec::new(),
        scan_task_id: "task-1".into(),
        counts: AppInventoryCounts {
            scan_entries: 0,
            scan_issues: 0,
            named_candidates: 0,
            inspected_candidates: 0,
            recognized_apps: 0,
            unknown: 0,
            non_app: 0,
            duplicate_identities: 0,
            metadata_issues: 0,
        },
        apps,
        scan_issues: Vec::new(),
        issues: Vec::new(),
        issues_omitted: 0,
        metrics: AppInventoryMetrics {
            elapsed_ms: 0,
            probe_elapsed_ms: 0,
            plist_read_bytes: 0,
            retained_metadata_string_bytes: 0,
        },
    }
}

fn inventory_with_status(
    apps: Vec<AppRecord>,
    status: AppInventoryStatus,
    complete: bool,
) -> AppInventory {
    let mut inv = inventory(apps);
    inv.status = status;
    inv.complete = complete;
    inv
}

fn inventory_with_inventory_issues(
    apps: Vec<AppRecord>,
    issues: Vec<AppIssue>,
    issues_omitted: usize,
) -> AppInventory {
    let mut inv = inventory(apps);
    inv.status = AppInventoryStatus::Partial;
    inv.complete = false;
    inv.issues = issues;
    inv.issues_omitted = issues_omitted;
    inv
}

fn demo() -> AppRecord {
    app(
        "/Applications/Demo.app",
        Some("com.example.demo"),
        None,
        "Demo",
        AppKind::App,
    )
}

fn raw(mode: u32, device: u64, inode: u64) -> RawStat {
    let moment = Moment {
        seconds: 0,
        nanoseconds: 0,
    };
    RawStat {
        mode,
        device,
        inode,
        flags: 0,
        size: 64,
        mtime: moment,
        ctime: moment,
    }
}

const DIRECTORY: u32 = 0o040755;

fn reading(cancelled: bool) -> Reading {
    Reading {
        cancelled,
        elapsed_nanos: 0,
        budget_nanos: 5_000_000_000,
    }
}

/// Drives a preview over library roots that are there and hold nothing.
fn preview_over(
    inventory: AppInventory,
    library_roots: &[&str],
    filter: &str,
    cancelled: bool,
) -> AppRelatedPreview {
    let roots = library_roots
        .iter()
        .map(|root| root.as_bytes().to_vec())
        .collect();
    let mut run = preview_app_related_data(
        Host::MacOs,
        &inventory,
        vec![b"/Applications".to_vec()],
        roots,
        filter.into(),
    );
    if run.ended {
        return run.preview;
    }
    let mut inode = 100;
    loop {
        match run.approach_root(reading(cancelled)) {
            RootStep::Done => break,
            RootStep::Skipped => {}
            RootStep::Open => {
                inode += 1;
                run.take_root(
                    Host::MacOs,
                    &OpenRootLook {
                        entered: Ok(()),
                        root: RootLook::Held(raw(DIRECTORY, 10, inode)),
                        restored: Ok(()),
                    },
                );
            }
        }
    }
    let readings = run.selected.iter().map(|_| reading(cancelled)).collect();
    run.plan(&inventory, &readings, cancelled);
    let outcomes = run
        .specs
        .iter()
        .map(|_| ProbeOutcome {
            state: "missing",
            issue: None,
        })
        .collect();
    run.complete(&inventory, &outcomes, 3, 2)
}

fn preview(inventory: AppInventory, filter: &str) -> AppRelatedPreview {
    preview_over(inventory, &["/fixture/Library"], filter, false)
}

fn has_issue(preview: &AppRelatedPreview, code: &str) -> bool {
    preview.issues.iter().any(|issue| issue.code == code)
}

fn ends_with(path: &[u8], name: &str) -> bool {
    path.ends_with(name.as_bytes())
}

#[test]
fn chromium_requires_allowlisted_declared_product_dir() {
    let inv = inventory(vec![
        app(
            "/Applications/Chrome.app",
            Some("com.google.Chrome"),
            Some("Google/Chrome"),
            "Google Chrome",
            AppKind::App,
        ),
        app(
            "/Applications/NameOnly.app",
            Some("com.google.Chrome"),
            None,
            "Google Chrome",
            AppKind::App,
        ),
    ]);
    let preview = preview(inv, "");
    assert!(!has_issue(&preview, "duration_limit"));
    assert!(preview
        .candidates
        .iter()
        .any(|candidate| candidate.source_rule_id.starts_with("org.chromium")));
    let name_only_id = preview
        .app_copies
        .iter()
        .find(|copy| ends_with(&copy.bundle_path, "NameOnly.app"))
        .map(|copy| copy.app_copy_id.clone())
        .expect("name-only copy id");
    assert!(preview
        .candidates
        .iter()
        .filter(|candidate| candidate.source_rule_id.starts_with("org.chromium"))
        .all(|candidate| !candidate.matched_app_copy_ids.contains(&name_only_id)));
}

#[test]
fn generic_bundle_candidates_are_hypothesis_and_never_deletable() {
    let preview = preview(inventory(vec![demo()]), "");
    assert!(!has_issue(&preview, "duration_limit"));
    let generic = preview
        .candidates
        .iter()
        .filter(|candidate| candidate.source_rule_id.starts_with("org.apple.library"))
        .collect::<Vec<_>>();
    assert!(!generic.is_empty());
    for candidate in generic {
        assert_eq!(
            candidate.ownership_certainty,
            "location_standard_hypothesis"
        );
        assert!(!candidate.deletable);
        assert!(candidate.authorized_action.is_none());
        assert_eq!(candidate.path_state, "missing");
    }
    assert_eq!(preview.status, AppRelatedStatus::Complete);
    assert!(preview.complete);
    assert_eq!(preview.counts.missing_candidates, preview.candidates.len());
}

#[test]
fn bundle_id_validation_rejects_traversal_segments() {
    assert!(valid_bundle_id_component_path("com.example.demo"));
    assert!(!valid_bundle_id_component_path("../demo"));
    assert!(!valid_bundle_id_component_path("com.example/demo"));
    assert!(!valid_bundle_id_component_path("com..example"));
}

#[test]
fn filter_narrows_candidates_and_counts_but_keeps_referenced_copies() {
    let inv = inventory(vec![
        app(
            "/Applications/Google Chrome.app",
            Some("com.google.Chrome"),
            Some("Google/Chrome"),
            "Google Chrome",
            AppKind::App,
        ),
        demo(),
    ]);
    let preview = preview(inv, "Chrome");
    assert!(!has_issue(&preview, "duration_limit"));
    assert!(preview
        .candidates
        .iter()
        .all(|candidate| !candidate.relative_library_path.contains("com.example.demo")));
    assert!(preview
        .candidates
        .iter()
        .any(|candidate| candidate.relative_library_path == "Application Support/Google/Chrome"));
    assert_eq!(preview.counts.candidate_paths, preview.candidates.len());
    assert_eq!(
        preview.counts.protected_candidates,
        preview.candidates.len()
    );
    assert!(preview
        .app_copies
        .iter()
        .all(|copy| ends_with(&copy.bundle_path, "Google Chrome.app")));
}

#[test]
fn partial_inventory_forces_unattributed_certainty_and_partial_reason() {
    let inv = inventory_with_status(
        vec![app(
            "/Applications/Google Chrome.app",
            Some("com.google.Chrome"),
            Some("Google/Chrome"),
            "Google Chrome",
            AppKind::App,
        )],
        AppInventoryStatus::Partial,
        false,
    );
    let preview = preview(inv, "");
    assert!(!has_issue(&preview, "duration_limit"));
    assert_eq!(preview.status, AppRelatedStatus::Partial);
    assert!(!preview.complete);
    assert!(preview.candidates.iter().all(|candidate| {
        candidate.ownership_certainty == "unattributed_due_to_partial_inventory"
            && candidate
                .protection_reasons
                .contains(&"inventory_or_probe_partial")
    }));
    assert!(!preview.app_copies.is_empty());
    assert!(preview
        .app_copies
        .iter()
        .all(|copy| copy.copy_state == "inventory_partial_unknown"));
}

#[test]
fn duplicate_physical_chrome_copies_share_candidates() {
    let inv = inventory(vec![
        app(
            "/Applications/Google Chrome.app",
            Some("com.google.Chrome"),
            Some("Google/Chrome"),
            "Google Chrome",
            AppKind::App,
        ),
        app(
            "/Applications/Google Chrome Canary.app",
            Some("com.google.Chrome"),
            Some("Google/Chrome"),
            "Google Chrome Canary",
            AppKind::App,
        ),
    ]);
    let preview = preview(inv, "");
    assert!(!has_issue(&preview, "duration_limit"));
    let profile = preview
        .candidates
        .iter()
        .find(|candidate| candidate.relative_library_path == "Application Support/Google/Chrome")
        .unwrap();
    assert_eq!(profile.matched_app_copy_ids.len(), 2);
    assert!(profile
        .protection_reasons
        .contains(&"multiple_physical_app_copies"));
    assert_eq!(preview.counts.shared_candidates, 2);
}

#[test]
fn duplicate_firefox_copies_remain_shared_family_candidates() {
    let inv = inventory(vec![
        app(
            "/Applications/Firefox.app",
            Some("org.mozilla.firefox"),
            None,
            "Firefox",
            AppKind::App,
        ),
        app(
            "/Applications/Firefox Developer Edition.app",
            Some("org.mozilla.firefox"),
            None,
            "Firefox Developer Edition",
            AppKind::App,
        ),
    ]);
    let preview = preview(inv, "");
    assert!(!has_issue(&preview, "duration_limit"));
    let profiles = preview
        .candidates
        .iter()
        .find(|candidate| {
            candidate.source_rule_id == "org.mozilla.firefox.default_profiles.macos.v1"
        })
        .unwrap();
    assert_eq!(profiles.matched_app_copy_ids.len(), 2);
    assert!(profiles
        .protection_reasons
        .contains(&"shared_across_profiles_or_app_copies"));
}

#[test]
fn candidate_limit_marks_partial_with_explicit_issue() {
    let libraries = (0..MAX_LIBRARY_ROOTS)
        .map(|idx| format!("/fixture/root-{idx}/Library"))
        .collect::<Vec<_>>();
    let libraries = libraries.iter().map(String::as_str).collect::<Vec<_>>();
    let apps = (0..MAX_GENERIC_APP_COPIES)
        .map(|idx| {
            app(
                &format!("/Applications/Demo{idx}.app"),
                Some(&format!("com.example.demo{idx}")),
                None,
                &format!("Demo{idx}"),
                AppKind::App,
            )
        })
        .collect::<Vec<_>>();
    let preview = preview_over(inventory(apps), &libraries, "", false);
    assert_eq!(preview.status, AppRelatedStatus::Partial);
    assert!(has_issue(&preview, "candidate_limit"));
    assert_eq!(preview.counts.candidate_paths, MAX_CANDIDATES);
}

fn empty_preview() -> AppRelatedPreview {
    AppRelatedPreview {
        schema_version: APP_RELATED_SCHEMA_VERSION,
        kind: APP_RELATED_KIND,
        platform: "macos",
        status: AppRelatedStatus::Complete,
        complete: true,
        effects_performed: false,
        app_roots: vec![b"/Applications".to_vec()],
        library_roots: vec![b"/Users/test/Library".to_vec()],
        filter: String::new(),
        scan_task_id: Some("unit".into()),
        inventory_status: "complete",
        inventory_complete: true,
        counts: AppRelatedCounts::none(),
        app_copies: Vec::new(),
        candidates: Vec::new(),
        scan_issues: Vec::new(),
        issues: Vec::new(),
        metrics: AppRelatedMetrics {
            elapsed_ms: 0,
            inventory_elapsed_ms: 0,
            candidate_probe_elapsed_ms: 0,
            candidate_probe_count: 0,
        },
    }
}

#[test]
fn path_budget_limit_is_reported() {
    let mut preview = empty_preview();
    let mut specs: Vec<CandidateSpec> = Vec::new();
    let mut bytes = MAX_PATH_BYTES;
    maybe_add_spec(
        &mut preview,
        &mut specs,
        &mut bytes,
        &vec!["unit-copy".to_owned()],
        CandidateSpecInput {
            library_root_index: 0,
            path: b"/Users/test/Library/Application Support/com.example.demo".to_vec(),
            relative_library_path: "Application Support/com.example.demo".into(),
            source_rule_id: "org.apple.library.application_support.bundle_id_convention.v1",
            role: "persistent_support_or_profile",
            ownership_certainty: "location_standard_hypothesis",
            evidence: Vec::new(),
            protection_reasons: vec!["ownership_not_proven"],
        },
    );
    assert!(specs.is_empty());
    assert!(has_issue(&preview, "path_bytes_limit"));
}

#[test]
fn issues_budget_tracks_omitted_items() {
    let mut preview = empty_preview();
    for index in 0..(MAX_ISSUES + 7) {
        push_issue(
            &mut preview,
            issue(None, "probe_failed", &format!("issue {index}")),
        );
    }
    assert_eq!(preview.issues.len(), MAX_ISSUES);
    assert_eq!(preview.counts.issues_omitted, 7);
}

#[test]
fn inventory_issues_and_upstream_omitted_are_preserved() {
    let inventory_issues = vec![AppIssue {
        path: Some(b"/Applications/Bad.app/Contents/Info.plist".to_vec()),
        code: AppIssueCode::MalformedPlist,
        message: "malformed plist fixture".into(),
        os_code: None,
    }];
    let preview = preview(
        inventory_with_inventory_issues(
            vec![app(
                "/Applications/Bad.app",
                Some("com.example.bad"),
                None,
                "Bad",
                AppKind::App,
            )],
            inventory_issues,
            3,
        ),
        "",
    );
    assert!(has_issue(&preview, "malformed_plist"));
    assert_eq!(preview.counts.issues_omitted, 3);
}

#[test]
fn upstream_issue_overflow_accounting_is_exact() {
    let mut issues = Vec::new();
    for idx in 0..MAX_ISSUES {
        issues.push(AppIssue {
            path: None,
            code: AppIssueCode::MalformedPlist,
            message: format!("malformed-{idx}"),
            os_code: None,
        });
    }
    let preview = preview_over(
        inventory_with_inventory_issues(
            vec![app(
                "/Applications/Bad.app",
                Some("com.example.bad"),
                None,
                "Bad",
                AppKind::App,
            )],
            issues,
            2,
        ),
        &["/Users/test/home"],
        "",
        false,
    );
    assert_eq!(preview.issues.len(), MAX_ISSUES);
    assert_eq!(preview.counts.issues_omitted, 3);
    assert!(has_issue(&preview, "malformed_plist"));
}

#[test]
fn pre_cancelled_generic_limit_stays_cancelled() {
    let apps = (0..(MAX_GENERIC_APP_COPIES + 1))
        .map(|idx| {
            app(
                &format!("/Applications/Demo{idx}.app"),
                Some(&format!("com.example.demo{idx}")),
                None,
                &format!("Demo{idx}"),
                AppKind::App,
            )
        })
        .collect::<Vec<_>>();
    let preview = preview_over(inventory(apps), &["/fixture/Library"], "", true);
    assert_eq!(preview.status, AppRelatedStatus::Cancelled);
    assert_eq!(preview.status.exit_code(), 130);
}

#[test]
fn policy_restore_failure_overrides_successful_probe_state() {
    let (state, issue) = finalize_policy_outcome(
        b"/Users/test/Library/Caches/example",
        "missing",
        None,
        &Err(PolicyFailure {
            text: "Input/output error (os error 5)".into(),
            os_code: Some(5),
        }),
    );
    assert_eq!(state, "probe_failed");
    let issue = issue.expect("policy restore issue");
    assert_eq!(issue.code, "policy_failure");
    assert!(issue.message.contains("after missing"));
}

#[test]
fn policy_restore_failure_retains_primary_context() {
    let (state, issue) = finalize_policy_outcome(
        b"/Users/test/Library/Caches/example",
        "probe_failed",
        Some(AppRelatedIssue {
            path: None,
            code: "permission_denied",
            message: "stat candidate: permission denied".into(),
            os_code: Some(13),
        }),
        &Err(PolicyFailure {
            text: "Operation not permitted (os error 1)".into(),
            os_code: Some(1),
        }),
    );
    assert_eq!(state, "probe_failed");
    let issue = issue.expect("policy restore issue");
    assert_eq!(issue.code, "policy_failure");
    assert!(issue.message.contains("prior permission_denied"));
}

#[test]
fn root_observation_detects_identity_or_device_changes() {
    let expected = unix(10, 22);
    assert!(validate_root_observation(expected, 10, expected, 10, true, false).is_ok());
    assert!(validate_root_observation(expected, 10, expected, 11, true, false).is_err());
    assert!(validate_root_observation(expected, 10, unix(10, 23), 10, true, false).is_err());
}

#[test]
fn opened_intermediate_validation_checks_dataless_kind_device_and_mapping() {
    let prior = IntermediateObservation {
        identity: unix(10, 20),
        device: 10,
        kind: ResourceKind::Directory,
        dataless: false,
    };
    assert!(validate_opened_intermediate_observation(prior, prior, 10).is_ok());
    assert!(matches!(
        validate_opened_intermediate_observation(
            prior,
            IntermediateObservation {
                dataless: true,
                ..prior
            },
            10
        ),
        Err(IntermediateOpenError::Dataless)
    ));
    assert!(matches!(
        validate_opened_intermediate_observation(
            prior,
            IntermediateObservation {
                kind: ResourceKind::File,
                ..prior
            },
            10
        ),
        Err(IntermediateOpenError::NotDirectory)
    ));
    assert!(matches!(
        validate_opened_intermediate_observation(
            prior,
            IntermediateObservation {
                device: 11,
                ..prior
            },
            10
        ),
        Err(IntermediateOpenError::MountBoundary)
    ));
    assert!(matches!(
        validate_opened_intermediate_observation(
            prior,
            IntermediateObservation {
                identity: unix(10, 21),
                ..prior
            },
            10
        ),
        Err(IntermediateOpenError::MappingChanged)
    ));
}

#[test]
fn cancellation_marks_result_cancelled() {
    let preview = preview_over(inventory(vec![demo()]), &["/fixture/Library"], "", true);
    assert_eq!(preview.status, AppRelatedStatus::Cancelled);
    assert!(!preview.complete);
    assert!(has_issue(&preview, "cancelled"));
}

#[test]
fn overlapping_library_roots_are_coalesced() {
    let preview = preview_over(
        inventory(vec![demo()]),
        &["/fixture/Library", "/fixture/Library/Nested/Library"],
        "",
        false,
    );
    assert!(!has_issue(&preview, "duration_limit"));
    assert_eq!(preview.library_roots.len(), 1);
    assert!(has_issue(&preview, "coalesced_library_root"));
}

#[test]
fn invalid_library_root_leaf_is_rejected() {
    let preview = preview_over(inventory(vec![demo()]), &["/Users/test/home"], "", false);
    assert_eq!(preview.status, AppRelatedStatus::Failed);
    assert!(has_issue(&preview, "invalid_input"));
}

#[test]
fn spent_time_marks_the_preview_partial() {
    let inventory = inventory(vec![demo()]);
    let mut run = preview_app_related_data(
        Host::MacOs,
        &inventory,
        vec![b"/Applications".to_vec()],
        vec![b"/fixture/Library".to_vec()],
        String::new(),
    );
    let late = Reading {
        cancelled: false,
        elapsed_nanos: 6_000_000_000,
        budget_nanos: 5_000_000_000,
    };
    while run.approach_root(late) != RootStep::Done {}
    assert!(run.selected.is_empty());
    assert!(has_issue(&run.preview, "duration_limit"));
    assert_eq!(run.preview.status, AppRelatedStatus::Partial);
}

#[test]
fn library_roots_on_other_volumes_are_refused() {
    let refused = open_library_root(
        Host::MacOs,
        b"/fixture/Library",
        &OpenRootLook {
            entered: Ok(()),
            root: RootLook::Volume(VolumeFault {
                code: "network_volume",
                message: "not local".into(),
                os_code: None,
            }),
            restored: Ok(()),
        },
    )
    .unwrap_err();
    assert_eq!(refused.code, "network_volume");
    assert!(open_library_root(
        Host::Other,
        b"/fixture/Library",
        &OpenRootLook {
            entered: Ok(()),
            root: RootLook::Held(raw(DIRECTORY, 10, 1)),
            restored: Ok(()),
        },
    )
    .is_err());
}

#[test]
fn replaced_library_root_is_reported() {
    let root = open_library_root(
        Host::MacOs,
        b"/fixture/Library",
        &OpenRootLook {
            entered: Ok(()),
            root: RootLook::Held(raw(DIRECTORY, 10, 1)),
            restored: Ok(()),
        },
    )
    .unwrap();
    assert_eq!(root.identity, unix(10, 1));
    assert!(verify_root_mapping(&root, &RootLook::Held(raw(DIRECTORY, 10, 1))).is_none());
    assert!(verify_root_mapping(&root, &RootLook::Held(raw(DIRECTORY, 10, 2))).is_some());
    let gone = IoFailure {
        kind: IoKind::NotFound,
        text: "gone".into(),
        os_code: Some(2),
    };
    assert!(verify_root_mapping(&root, &RootLook::NotOpened(gone)).is_some());
}

#[test]
fn statuses_only_get_worse() {
    let mut preview = empty_preview();
    update_status(&mut preview, AppRelatedStatus::Partial);
    assert_eq!(preview.status, AppRelatedStatus::Partial);
    assert!(!preview.complete);
    update_status(&mut preview, AppRelatedStatus::Complete);
    assert_eq!(preview.status, AppRelatedStatus::Partial);
    update_status(&mut preview, AppRelatedStatus::Cancelled);
    update_status(&mut preview, AppRelatedStatus::Partial);
    assert_eq!(preview.status, AppRelatedStatus::Cancelled);
    update_status(&mut preview, AppRelatedStatus::Failed);
    update_status(&mut preview, AppRelatedStatus::Cancelled);
    assert_eq!(preview.status, AppRelatedStatus::Failed);
}

#[test]
fn rules_name_their_documentation() {
    assert_eq!(source_urls("org.mozilla.firefox.default_profiles.macos.v1").len(), 1);
    assert_eq!(
        source_urls("org.apple.library.caches.bundle_id_convention.v1").len(),
        2
    );
}

fn library() -> sayaka_engine::related_probe::LibraryRoot {
    open_library_root(
        Host::MacOs,
        b"/fixture/Library",
        &OpenRootLook {
            entered: Ok(()),
            root: RootLook::Held(raw(DIRECTORY, 10, 1)),
            restored: Ok(()),
        },
    )
    .unwrap()
}

fn step(raw_stat: RawStat, opened: RawStat) -> StepLook {
    StepLook {
        stat: Ok(raw_stat),
        opened: Ok(()),
        opened_stat: Ok(opened),
    }
}

fn probe_look(steps: Vec<StepLook>) -> ProbeLook {
    ProbeLook {
        reading: reading(false),
        entered: Ok(()),
        before: RootLook::Held(raw(DIRECTORY, 10, 1)),
        handle: Ok(()),
        steps,
        found: RootLook::Held(raw(DIRECTORY, 10, 1)),
        after: RootLook::Held(raw(DIRECTORY, 10, 1)),
        restored: Ok(()),
    }
}

#[test]
fn present_candidate_is_seen_below_its_root() {
    let directory = raw(DIRECTORY, 10, 5);
    let leaf = raw(DIRECTORY, 10, 6);
    let (state, issue) = probe_candidate_path(
        Host::MacOs,
        b"/fixture/Library/Caches/com.example.demo",
        "Caches/com.example.demo",
        &library(),
        &probe_look(vec![step(directory, directory), step(leaf, leaf)]),
    );
    assert_eq!(state, "present_directory");
    assert!(issue.is_none());
}

#[test]
fn replacing_intermediate_between_stat_and_open_fails_before_next_lookup() {
    let directory = raw(DIRECTORY, 10, 5);
    let replacement = raw(DIRECTORY, 10, 50);
    let leaf = raw(DIRECTORY, 10, 6);
    let place = b"/fixture/Library/Application Support/com.example.demo";
    let (state, issue) = probe_candidate_path(
        Host::MacOs,
        place,
        "Application Support/com.example.demo",
        &library(),
        &probe_look(vec![step(directory, replacement), step(leaf, leaf)]),
    );
    assert_eq!(state, "probe_failed");
    let issue = issue.unwrap();
    assert_eq!(issue.path.as_deref(), Some(&place[..]));
    assert_eq!(issue.code, "probe_failed");
    assert!(issue
        .message
        .contains("intermediate candidate mapping changed before open"));
    assert!(!issue.message.contains("stat candidate"));
}
