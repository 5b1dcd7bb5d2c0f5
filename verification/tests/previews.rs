use sayaka_engine::ai_footprint::{project, ScanTree, Tool, TreeSummary};
use sayaka_engine::app_inventory::{
    AppInventory, AppInventoryCounts, AppInventoryMetrics, AppInventoryStatus, AppKind, AppRecord,
    ExecutableMetadata, NameSource, PathStatus, PlistFormat, RunningObservation, ScanEntry,
    ScanReport, ScanStatus, StringField, StringState,
};
use sayaka_engine::app_orphans::{cache_bundle_id, project_orphan_caches};
use sayaka_engine::app_uninstall::{
    bundle_running, list_numbers, preview_bundle_uninstall, ExecutablesLook, MacosEntry, TargetLook,
    UninstallPreview, UninstallRefusalCode, EXECUTION_DEFERRED,
};
use sayaka_engine::bundle::{IoFailure, IoKind};
use sayaka_engine::error::{Error, ErrorKind};
use sayaka_engine::journal::NativeTime;
use sayaka_engine::model::{FileIdentity, Host, ResourceKind};
use sayaka_engine::running::{running_process_paths, RunningPath};

const BUNDLE: &[u8] = b"/tmp/fixture/Fixture.app";
const RUN: &[u8] = b"/tmp/fixture/Fixture.app/Contents/MacOS/Run";

fn failure(kind: IoKind, text: &str, os_code: i32) -> IoFailure {
    IoFailure {
        kind,
        text: text.into(),
        os_code: Some(os_code),
    }
}

fn target(kind: ResourceKind) -> Result<TargetLook, IoFailure> {
    Ok(TargetLook {
        kind,
        device: 1,
        inode: 2,
        logical_bytes: 96,
        modified: Some(NativeTime {
            seconds: 10,
            nanoseconds: 0,
        }),
    })
}

fn executables(pids: Vec<u32>) -> ExecutablesLook {
    ExecutablesLook {
        entries: Ok(vec![MacosEntry::File {
            resolved: Some(RUN.to_vec()),
        }]),
        running: Ok(vec![RunningPath {
            path: if pids.is_empty() {
                b"/sbin/launchd".to_vec()
            } else {
                RUN.to_vec()
            },
            pids: if pids.is_empty() { vec![1] } else { pids },
        }]),
    }
}

fn preview(
    bundle: &[u8],
    look: Result<TargetLook, IoFailure>,
    plist: Result<ResourceKind, IoFailure>,
    executables: &ExecutablesLook,
) -> UninstallPreview {
    let mut run = preview_bundle_uninstall(bundle);
    if run.ended {
        return run.preview;
    }
    run.take_target(&look);
    if run.ended {
        return run.preview;
    }
    run.finish(Host::MacOs, &Ok(true), &plist, executables)
}

fn refused(preview: &UninstallPreview, code: UninstallRefusalCode) -> bool {
    preview.refusals.iter().any(|refusal| refusal.code == code)
}

#[test]
fn valid_bundle_previews_without_refusals_but_never_executable() {
    let preview = preview(
        BUNDLE,
        target(ResourceKind::Directory),
        Ok(ResourceKind::File),
        &executables(Vec::new()),
    );
    assert!(preview.refusals.is_empty(), "{:?}", preview.refusals);
    assert!(!preview.can_execute());
    assert_eq!(preview.execution, EXECUTION_DEFERRED);
    assert_eq!(preview.executables_observed, Some(1));
    assert_eq!(preview.running, RunningObservation::NotRunning);
    assert!(preview.identity.is_some());
    assert!(preview.recovery.contains("Put Back"));
    assert!(preview.protections.len() >= 4);
}

#[test]
fn missing_not_directory_not_app_and_missing_plist_are_refused() {
    let idle = executables(Vec::new());
    let missing = preview(
        b"/tmp/fixture/Ghost.app",
        Err(failure(IoKind::NotFound, "No such file or directory", 2)),
        Ok(ResourceKind::File),
        &idle,
    );
    assert!(refused(&missing, UninstallRefusalCode::NotFound));
    assert_eq!(missing.refusals[0].os_code, Some(2));

    let not_dir = preview(
        b"/tmp/fixture/File.app",
        target(ResourceKind::File),
        Ok(ResourceKind::File),
        &idle,
    );
    assert!(refused(&not_dir, UninstallRefusalCode::NotDirectory));

    let not_app = preview(
        b"/tmp/fixture/PlainDir",
        target(ResourceKind::Directory),
        Ok(ResourceKind::File),
        &idle,
    );
    assert!(refused(&not_app, UninstallRefusalCode::NotAppBundle));

    let missing_plist = preview(
        b"/tmp/fixture/NoPlist.app",
        target(ResourceKind::Directory),
        Err(failure(IoKind::NotFound, "No such file or directory", 2)),
        &idle,
    );
    assert!(refused(&missing_plist, UninstallRefusalCode::MissingInfoPlist));

    let odd_plist = preview(
        BUNDLE,
        target(ResourceKind::Directory),
        Ok(ResourceKind::Link),
        &idle,
    );
    assert!(refused(
        &odd_plist,
        UninstallRefusalCode::InfoPlistNotRegularFile
    ));
}

#[test]
fn system_location_is_refused_before_any_inspection() {
    let run = preview_bundle_uninstall(b"/System/Library/CoreServices/Finder.app");
    assert!(run.ended);
    let preview = run.preview;
    assert!(refused(&preview, UninstallRefusalCode::SystemLocation));
    // The refusal is a closed boundary: nothing beneath /System is probed.
    assert!(preview.identity.is_none());
    assert!(preview.executables_observed.is_none());
    assert_eq!(preview.running, RunningObservation::NotChecked);
}

#[test]
fn symlink_bundle_is_never_followed() {
    let preview = preview(
        b"/tmp/fixture/Link.app",
        target(ResourceKind::Link),
        Ok(ResourceKind::File),
        &executables(Vec::new()),
    );
    assert!(refused(&preview, UninstallRefusalCode::SymlinkBundle));
}

#[test]
fn other_volumes_and_systems_are_refused() {
    let finish = |host: Host, local: Result<bool, IoFailure>| {
        let mut run = preview_bundle_uninstall(BUNDLE);
        run.take_target(&target(ResourceKind::Directory));
        assert!(!run.ended);
        run.finish(host, &local, &Ok(ResourceKind::File), &executables(Vec::new()))
    };
    assert!(refused(
        &finish(Host::MacOs, Ok(false)),
        UninstallRefusalCode::NonLocalVolume
    ));
    assert!(refused(
        &finish(Host::Other, Ok(true)),
        UninstallRefusalCode::Internal
    ));
    assert!(refused(
        &finish(Host::MacOs, Err(failure(IoKind::Other, "Input/output error", 5))),
        UninstallRefusalCode::Internal
    ));
    assert_eq!(UninstallRefusalCode::NonLocalVolume.as_str(), "non_local_volume");
}

#[test]
fn running_bundle_is_refused_with_every_pid() {
    let preview = preview(
        BUNDLE,
        target(ResourceKind::Directory),
        Ok(ResourceKind::File),
        &executables(vec![12, 7, 12]),
    );
    assert_eq!(preview.running, RunningObservation::Running(vec![7, 12]));
    let refusal = preview
        .refusals
        .iter()
        .find(|refusal| refusal.code == UninstallRefusalCode::Running)
        .unwrap();
    assert_eq!(
        refusal.message,
        "bundle executables are running (pids: [7, 12]); refused, never signaled"
    );
    assert_eq!(list_numbers(&vec![7, 12]), "7, 12");
}

#[test]
fn absence_is_claimed_only_when_every_executable_resolves() {
    let look = |entries: Vec<MacosEntry>| ExecutablesLook {
        entries: Ok(entries),
        running: Ok(Vec::new()),
    };
    assert_eq!(
        bundle_running(&look(vec![MacosEntry::File { resolved: None }])),
        RunningObservation::NotAttributable("executable path cannot be resolved")
    );
    assert_eq!(
        bundle_running(&look(vec![MacosEntry::Other])),
        RunningObservation::NotAttributable("no regular executable observed")
    );
    assert_eq!(
        bundle_running(&ExecutablesLook {
            running: Err(Error::new(ErrorKind::Other, "proc_listpids failed")),
            ..executables(Vec::new())
        }),
        RunningObservation::Unknown
    );
}

#[test]
fn process_paths_are_grouped() {
    let listing = vec![
        (9, b"/bin/b".to_vec()),
        (4, b"/bin/a".to_vec()),
        (2, b"/bin/b".to_vec()),
    ];
    let paths = running_process_paths(Host::MacOs, Ok(listing)).unwrap();
    assert_eq!(paths.len(), 2);
    let of = |place: &[u8]| {
        paths
            .iter()
            .find(|running| running.path == place)
            .unwrap()
            .pids
            .clone()
    };
    assert_eq!(of(b"/bin/b"), [9, 2]);
    assert_eq!(of(b"/bin/a"), [4]);
    assert!(running_process_paths(Host::Other, Ok(Vec::new())).is_err());
}

fn entry(path: &str, kind: ResourceKind, bytes: Option<u64>, dataless: bool) -> ScanEntry {
    ScanEntry {
        path: path.as_bytes().to_vec(),
        kind,
        identity: FileIdentity::Unix {
            device: 1,
            inode: 1,
        },
        logical_bytes: bytes,
        depth: 1,
        dataless,
    }
}

fn report(roots: &[&str], entries: Vec<ScanEntry>) -> ScanReport {
    ScanReport {
        task_id: "task".into(),
        roots: roots.iter().map(|root| root.as_bytes().to_vec()).collect(),
        status: ScanStatus::Complete,
        complete: true,
        entries,
        issues: Vec::new(),
        issues_omitted: 0,
    }
}

fn field(value: &str) -> StringField {
    StringField {
        state: StringState::Present,
        value: Some(value.into()),
    }
}

fn app(path: &str, bundle_id: &str) -> AppRecord {
    AppRecord {
        bundle_path: path.as_bytes().to_vec(),
        observed_roots: vec![b"/Applications".to_vec()],
        bundle_identity: FileIdentity::Unix {
            device: 1,
            inode: 9,
        },
        app_kind: AppKind::App,
        parser_format: PlistFormat::Xml,
        display_name: "Demo".into(),
        display_name_source: NameSource::BundleDisplayName,
        localized: false,
        bundle_id: field(bundle_id),
        short_version: StringField::missing(),
        build_version: StringField::missing(),
        package_type: StringField::missing(),
        declared_product_dir_name: StringField::missing(),
        executable: ExecutableMetadata {
            state: StringState::Missing,
            declared_value: None,
            path_status: PathStatus::NotChecked,
        },
        running: RunningObservation::NotChecked,
    }
}

fn inventory(apps: Vec<AppRecord>, complete: bool) -> AppInventory {
    AppInventory {
        schema_version: 1,
        kind: "app_inventory",
        platform: "macos",
        status: if complete {
            AppInventoryStatus::Complete
        } else {
            AppInventoryStatus::Partial
        },
        complete,
        effects_performed: false,
        roots: vec![b"/Applications".to_vec()],
        filter: String::new(),
        excludes: Vec::new(),
        scan_task_id: "task".into(),
        counts: AppInventoryCounts {
            scan_entries: 0,
            scan_issues: 0,
            named_candidates: 0,
            inspected_candidates: 0,
            recognized_apps: 0,
            unknown: 0,
            non_app: 0,
            duplicate_identities: 0,
            metadata_issues: 0,
        },
        apps,
        scan_issues: Vec::new(),
        issues: Vec::new(),
        issues_omitted: 0,
        metrics: AppInventoryMetrics {
            elapsed_ms: 0,
            probe_elapsed_ms: 0,
            plist_read_bytes: 0,
            retained_metadata_string_bytes: 0,
        },
    }
}

#[test]
fn only_direct_bundle_names_below_library_caches_count() {
    let root = b"/Users/me/Library/Caches";
    assert_eq!(
        cache_bundle_id(b"/Users/me/Library/Caches/com.example.demo", root).unwrap(),
        b"com.example.demo"
    );
    assert!(cache_bundle_id(b"/Users/me/Library/Caches/com.example.demo/x", root).is_none());
    assert!(cache_bundle_id(b"/Users/me/Library/Caches/demo.app", root).is_none());
    assert_eq!(
        cache_bundle_id(b"Library/Caches/com.a.b", b"Library/Caches").unwrap(),
        b"com.a.b"
    );
    assert!(cache_bundle_id(b"./Library/Caches/com.a.b", b"Library/Caches").is_none());
    assert_eq!(
        cache_bundle_id(b"./Library/Caches/com.a.b", b"./Library/./Caches").unwrap(),
        b"com.a.b"
    );
    assert!(cache_bundle_id(b"/Users/me/Library/Caches/com..demo", root).is_none());
    assert!(cache_bundle_id(b"/Users/me/Library/Caches/com.ex_ample.demo", root).is_none());
    assert!(cache_bundle_id(b"/tmp/Caches/com.example.demo", b"/tmp/Caches").is_none());
}

#[test]
fn owned_and_shared_caches_are_no_orphans() {
    let root = "/Users/me/Library/Caches";
    let directory = |name: &str| {
        entry(
            &format!("{root}/{name}"),
            ResourceKind::Directory,
            None,
            false,
        )
    };
    let scan = report(
        &[root],
        vec![
            directory("com.example.owned"),
            directory("com.example.lost"),
            directory("com.apple.Safari"),
        ],
    );
    let preview = project_orphan_caches(
        &inventory(
            vec![app("/Applications/Owned.app", "com.example.owned")],
            false,
        ),
        &scan,
    );
    assert!(!preview.globally_complete);
    assert!(!preview.effects_performed);
    let row = |hint: &str| {
        preview
            .candidates
            .iter()
            .find(|row| row.bundle_id_hint == hint)
            .unwrap()
    };
    assert_eq!(
        row("com.example.lost").disposition,
        "possible_orphan_review_only"
    );
    assert_eq!(
        row("com.example.lost").uncertainty,
        [
            "app_inventory_covers_explicit_roots_only",
            "app_inventory_incomplete"
        ]
    );
    assert_eq!(row("com.example.owned").disposition, "installed_app_observed");
    assert_eq!(row("com.example.owned").matching_app_count, 1);
    assert_eq!(
        row("com.example.owned").matching_app_paths,
        ["/Applications/Owned.app"]
    );
    assert_eq!(
        row("com.apple.Safari").disposition,
        "protected_shared_or_system"
    );
    let paths = preview
        .candidates
        .iter()
        .map(|row| row.path.clone())
        .collect::<Vec<_>>();
    let mut sorted = paths.clone();
    sorted.sort();
    assert_eq!(paths, sorted);
    assert!(preview
        .candidates
        .iter()
        .all(|row| !row.selected && row.authorized_action.is_none()));
}

#[test]
fn orphan_rows_are_bounded() {
    let root = "/Users/me/Library/Caches";
    let entries = (0..300)
        .map(|number| {
            entry(
                &format!("{root}/com.example.lost{number:03}"),
                ResourceKind::Directory,
                None,
                false,
            )
        })
        .collect();
    let preview = project_orphan_caches(&inventory(Vec::new(), true), &report(&[root], entries));
    assert_eq!(preview.candidates.len(), 256);
    assert!(preview.truncated);
}

fn tree(names: &[(&str, ResourceKind)]) -> ScanTree {
    let mut entries = vec![entry("/fixture", ResourceKind::Directory, None, false)];
    for (name, kind) in names {
        entries.push(entry(
            &format!("/fixture/{name}"),
            *kind,
            if *kind == ResourceKind::File {
                Some(5)
            } else {
                None
            },
            *name == "temp",
        ));
    }
    let count = entries.len();
    ScanTree {
        report: report(&["/fixture"], entries),
        roots: vec![0],
        children: (0..count)
            .map(|id| if id == 0 { (1..count).collect() } else { Vec::new() })
            .collect(),
        summaries: (0..count)
            .map(|id| {
                Some(TreeSummary {
                    logical_bytes_known: 100 + id as u64,
                    logical_bytes_unknown_files: 1,
                    complete: true,
                })
            })
            .collect(),
    }
}

#[test]
fn documented_parts_are_projected_from_a_recognized_root() {
    let footprint = project(
        &tree(&[
            ("folder_paths.py", ResourceKind::File),
            ("models", ResourceKind::Directory),
            ("temp", ResourceKind::Directory),
            ("notes", ResourceKind::Directory),
        ]),
        Tool::ComfyUI,
    )
    .unwrap();
    assert!(footprint.recognized);
    assert_eq!(footprint.tool, "comfyui");
    assert_eq!(footprint.logical_bytes_known, 100);
    let names = footprint
        .components
        .iter()
        .map(|component| component.relative_path)
        .collect::<Vec<_>>();
    assert_eq!(names, ["folder_paths.py", "models", "temp"]);
    assert_eq!(footprint.components[0].logical_bytes_known, 5);
    assert_eq!(footprint.components[0].logical_bytes_unknown_files, 0);
    assert_eq!(footprint.components[1].logical_bytes_known, 102);
    assert_eq!(footprint.components[1].role, "user_asset");
    assert!(!footprint.components[1].contains_cloud_placeholder);
    assert!(footprint.components[2].contains_cloud_placeholder);
    assert_eq!(footprint.last_activity, None);
    assert_eq!(footprint.running, None);
}

#[test]
fn names_without_a_marker_claim_nothing() {
    let footprint = project(
        &tree(&[
            ("models", ResourceKind::Directory),
            ("folder_paths.py", ResourceKind::Directory),
        ]),
        Tool::ComfyUI,
    )
    .unwrap();
    assert!(!footprint.recognized);
    assert!(footprint.components.is_empty());
    let mut two = tree(&[]);
    two.roots.push(0);
    assert!(project(&two, Tool::Codex).is_none());
}

#[test]
fn tools_have_codes_and_documentation() {
    assert_eq!(Tool::from_code(2), Some(Tool::Codex));
    assert_eq!(Tool::from_code(5), None);
    let footprint = project(
        &tree(&[("history.jsonl", ResourceKind::File)]),
        Tool::Claude,
    )
    .unwrap();
    assert!(footprint.recognized);
    let product = &Tool::Claude.code()[..6];
    assert!(footprint.components[0]
        .evidence_url
        .starts_with(&format!("https://code.{product}.com/docs/en/")));
}
