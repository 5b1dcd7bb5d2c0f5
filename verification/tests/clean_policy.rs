use sayaka_engine::clean_policy::{
    validate_policy, EntryKind, EntryRecord, PolicyFile, RootRecord, UnixEntryIdentity,
    UnixIdentity, MAX_ROOTS, POLICY_KIND,
};
use sayaka_engine::error::{Error, ErrorKind};
use sayaka_engine::model::Host;
use sayaka_engine::policy_edit::{
    add_entries, normalize_entries, remove_entries, remove_root, AnchoredEntryObservation,
    AnchoredEntryState, EntryRequest, RemoveRequest,
};
use sayaka_engine::policy_snapshot::{
    guard_snapshot, normalize_abs_dir, resolve_config_path, snapshot_for_root, ConfigEnv,
    ConfigPath, GivenPath, LoadedPolicy, PolicyFileState, PolicyGuardStatus, PolicySnapshot,
    RootMeta, SnapshotLook,
};
use sayaka_engine::policy_store::{
    admit_stage, anchor_root, anchored_components, confirm_readback, ensure_expected_observed_state, ensure_private_config_dir,
    inspect_anchored, list_root_entries, load_policy_readonly, lock_busy, starting_policy,
    verify_private_regular_file, AncestorLook, ConfigDirLook, DirectoryMeta, ListLook, Lookup, PolicyFileLook,
    PrivateMeta,
};
use sayaka_engine::wire::{
    decode_absolute, decode_relative_bytes, encode_absolute, encode_relative, ShownPath,
};

const ROOT: &[u8] = b"/fixture/root";
const EUID: u32 = 501;
const ROOT_IDENTITY: UnixIdentity = UnixIdentity {
    device: 1,
    inode: 100,
};
const KEEP: UnixEntryIdentity = UnixEntryIdentity {
    device: 1,
    inode: 200,
    kind: EntryKind::Directory,
};

fn shown(path: &[u8]) -> ShownPath {
    ShownPath {
        bytes: path.to_vec(),
        display: String::from_utf8_lossy(path).into_owned(),
    }
}

fn given(path: &[u8]) -> GivenPath {
    GivenPath {
        raw: path.to_vec(),
        absolute: Ok(path.to_vec()),
    }
}

fn config() -> ConfigPath {
    ConfigPath {
        directory: b"/fixture/config".to_vec(),
        file: b"/fixture/config/exclusions-v1.json".to_vec(),
    }
}

fn present(identity: UnixEntryIdentity) -> AnchoredEntryState {
    AnchoredEntryState::Present(AnchoredEntryObservation {
        device: identity.device,
        inode: identity.inode,
        nlink: 1,
        kind: identity.kind,
    })
}

fn empty_policy() -> PolicyFile {
    PolicyFile {
        schema_version: 1,
        kind: POLICY_KIND.into(),
        roots: Vec::new(),
    }
}

fn meta(inode: u64, bytes: &[u8]) -> PrivateMeta {
    PrivateMeta {
        regular: true,
        links: 1,
        uid: EUID,
        mode: 0o100600,
        identity: UnixIdentity { device: 1, inode },
        length: bytes.len() as u64,
        modified_unix_ms: Some(5),
        ancestors: vec![Ok(false), Ok(false)],
    }
}

fn found(policy: &PolicyFile, inode: u64, bytes: &[u8]) -> PolicyFileLook {
    PolicyFileLook::Found {
        meta: meta(inode, bytes),
        bytes: Ok(bytes.to_vec()),
        parsed: Ok(policy.clone()),
    }
}

fn missing() -> PolicyFileLook {
    PolicyFileLook::NotFound {
        error: Error::new(ErrorKind::NotFound, "No such file or directory"),
        above: vec![
            (b"/fixture/config".to_vec(), AncestorLook::NotFound),
            (
                b"/fixture".to_vec(),
                AncestorLook::Found(UnixIdentity {
                    device: 1,
                    inode: 50,
                }),
            ),
        ],
    }
}

fn snapshot_look(
    policy: Result<LoadedPolicy, Error>,
    entries: Vec<Result<AnchoredEntryState, Error>>,
) -> SnapshotLook {
    SnapshotLook {
        root: given(ROOT),
        root_display: "/fixture/root".into(),
        root_meta: Ok(RootMeta {
            physical_directory: true,
            identity: ROOT_IDENTITY,
        }),
        policy,
        entries,
    }
}

fn load(look: PolicyFileLook) -> Result<LoadedPolicy, Error> {
    load_policy_readonly(&config(), look, EUID)
}

fn snapshot(
    look: PolicyFileLook,
    entries: Vec<Result<AnchoredEntryState, Error>>,
) -> Result<PolicySnapshot, Error> {
    snapshot_for_root(Host::MacOs, &snapshot_look(load(look), entries))
}

fn guard(
    look: PolicyFileLook,
    entries: Vec<Result<AnchoredEntryState, Error>>,
    expected: &PolicySnapshot,
) -> Result<PolicyGuardStatus, Error> {
    guard_snapshot(Host::MacOs, &snapshot_look(load(look), entries), expected)
}

fn refusal(status: PolicyGuardStatus) -> String {
    match status {
        PolicyGuardStatus::Refused(reason) => reason,
        PolicyGuardStatus::Unchanged => panic!("unchanged"),
    }
}

fn request(path: &[u8], anchored: Result<AnchoredEntryState, Error>) -> EntryRequest {
    EntryRequest {
        absolute: path.to_vec(),
        relative_display: "keep".into(),
        anchored: anchored.as_ref().map(|state| *state).map_err(copy),
        anchored_again: anchored,
        now: Ok(7),
    }
}

fn copy(error: &Error) -> Error {
    Error::new(error.kind, &error.message)
}

fn with_keep() -> PolicyFile {
    add_entries(
        Host::MacOs,
        starting_policy(load(missing()).unwrap()),
        &shown(ROOT),
        ROOT_IDENTITY,
        &vec![request(b"/fixture/root/keep", Ok(present(KEEP)))],
        &Ok(7),
    )
    .unwrap()
}

fn escape() -> Error {
    Error::new(
        ErrorKind::InvalidInput,
        "entry crosses a symlink or mount boundary",
    )
}

#[test]
fn unsupported_policy_never_reports_empty_success() {
    let env = ConfigEnv {
        chosen: None,
        sayaka_config_dir: None,
        xdg_config_home: None,
        home: None,
    };
    assert_eq!(
        resolve_config_path(Host::Other, &env).unwrap_err().kind,
        ErrorKind::Unsupported
    );
    assert_eq!(
        snapshot_for_root(Host::Other, &snapshot_look(load(missing()), Vec::new()))
            .unwrap_err()
            .kind,
        ErrorKind::Unsupported
    );
    assert_eq!(
        add_entries(
            Host::Other,
            empty_policy(),
            &shown(b"unused"),
            ROOT_IDENTITY,
            &Vec::new(),
            &Ok(0)
        )
        .unwrap_err()
        .kind,
        ErrorKind::Unsupported
    );
    assert_eq!(
        remove_root(Host::Other, empty_policy(), &shown(b"unused"))
            .unwrap_err()
            .kind,
        ErrorKind::Unsupported
    );
}

#[test]
fn absent_snapshot_does_not_create_config_files() {
    let absent = snapshot(missing(), Vec::new()).unwrap();
    assert!(matches!(absent.file_state, PolicyFileState::Absent { .. }));
    assert!(absent.effective_exclusions.is_empty());
}

#[test]
fn add_and_remove_entries_tracks_missing_attention() {
    let keep = b"/fixture/root/keep".to_vec();
    let policy = with_keep();
    let now = snapshot(found(&policy, 9, b"one"), vec![Ok(present(KEEP))]).unwrap();
    assert_eq!(now.effective_exclusions, vec![keep.clone()]);
    let now = snapshot(
        found(&policy, 9, b"one"),
        vec![Ok(AnchoredEntryState::Missing)],
    )
    .unwrap();
    assert!(now.effective_exclusions.is_empty());
    assert_eq!(now.missing_attention_entries, vec![keep]);
    let (policy, removed) = remove_entries(
        Host::MacOs,
        policy,
        &shown(ROOT),
        &vec![RemoveRequest {
            value: b"keep".to_vec(),
            anchored: Ok(AnchoredEntryState::Missing),
        }],
    )
    .unwrap();
    assert_eq!(removed, 1);
    let now = snapshot(found(&policy, 9, b"two"), Vec::new()).unwrap();
    assert!(now.missing_attention_entries.is_empty());
}

#[test]
fn stale_root_identity_is_fail_closed() {
    let mut policy = with_keep();
    policy.roots[0].root_identity.inode += 1;
    let error = snapshot(found(&policy, 9, b"one"), vec![Ok(present(KEEP))]).unwrap_err();
    assert_eq!(error.kind, ErrorKind::PermissionDenied);
}

#[test]
fn guard_snapshot_refuses_absent_created_and_present_removed() {
    let absent = snapshot(missing(), Vec::new()).unwrap();
    let created = guard(found(&empty_policy(), 9, b"empty"), Vec::new(), &absent).unwrap();
    assert_eq!(refusal(created), "policy_created_after_approval");
    let present = snapshot(found(&empty_policy(), 9, b"empty"), Vec::new()).unwrap();
    let removed = guard(missing(), Vec::new(), &present).unwrap();
    assert_eq!(refusal(removed), "policy_removed_after_approval");
    assert!(matches!(
        guard(found(&empty_policy(), 9, b"empty"), Vec::new(), &present).unwrap(),
        PolicyGuardStatus::Unchanged
    ));
}

#[test]
fn guard_snapshot_refuses_replaced_corrupt_and_same_inode_edits() {
    let policy = with_keep();
    let before = snapshot(found(&policy, 9, b"one"), vec![Ok(present(KEEP))]).unwrap();
    let edited = guard(found(&empty_policy(), 9, b"empty"), Vec::new(), &before).unwrap();
    assert_eq!(refusal(edited), "policy_content_changed_after_approval");
    let before = snapshot(found(&empty_policy(), 9, b"empty"), Vec::new()).unwrap();
    let corrupt = PolicyFileLook::Found {
        meta: meta(9, b"{not-json"),
        bytes: Ok(b"{not-json".to_vec()),
        parsed: Err(Error::new(ErrorKind::InvalidData, "key must be a string")),
    };
    assert!(guard(corrupt, Vec::new(), &before).is_err());
    let touched = PolicyFileLook::Found {
        meta: PrivateMeta {
            modified_unix_ms: Some(6),
            ..meta(9, b"empty")
        },
        bytes: Ok(b"empty".to_vec()),
        parsed: Ok(empty_policy()),
    };
    assert_eq!(
        refusal(guard(touched, Vec::new(), &before).unwrap()),
        "policy_snapshot_changed_after_approval"
    );
}

#[test]
fn remove_entries_accepts_absolute_inside_root_and_rejects_outside() {
    let (policy, removed) = remove_entries(
        Host::MacOs,
        with_keep(),
        &shown(ROOT),
        &vec![RemoveRequest {
            value: b"/fixture/root/keep".to_vec(),
            anchored: Ok(present(KEEP)),
        }],
    )
    .unwrap();
    assert_eq!(removed, 1);
    let error = remove_entries(
        Host::MacOs,
        policy,
        &shown(ROOT),
        &vec![RemoveRequest {
            value: b"/fixture/outside".to_vec(),
            anchored: Ok(AnchoredEntryState::Missing),
        }],
    )
    .unwrap_err();
    assert_eq!(error.kind, ErrorKind::InvalidInput);
}

#[test]
fn remove_root_works_when_root_path_is_stale_or_missing() {
    let (policy, removed) = remove_root(Host::MacOs, with_keep(), &shown(ROOT)).unwrap();
    assert!(removed);
    assert!(policy.roots.is_empty());
    let (_, removed) = remove_root(Host::MacOs, policy, &shown(ROOT)).unwrap();
    assert!(!removed);
}

#[test]
fn update_policy_conflict_preserves_external_bytes_and_reports_conflict() {
    let policy = with_keep();
    let state = match load(found(&policy, 9, b"one")).unwrap() {
        LoadedPolicy::Present { file_state, .. } => file_state,
        LoadedPolicy::Absent(_) => panic!("expected present policy"),
    };
    let error =
        ensure_expected_observed_state(&state, &found(&empty_policy(), 9, b"external"), EUID)
            .unwrap_err();
    assert_eq!(error.kind, ErrorKind::AlreadyExists);
    assert!(ensure_expected_observed_state(&state, &found(&policy, 9, b"one"), EUID).is_ok());
}

#[test]
fn identity_lookup_prevents_empty_policy_on_alias_spelling() {
    let policy = with_keep();
    let mut look = snapshot_look(load(found(&policy, 9, b"one")), vec![Ok(present(KEEP))]);
    look.root = given(b"/fixture/ROOT");
    let alias = snapshot_for_root(Host::MacOs, &look).unwrap();
    assert_eq!(alias.effective_exclusions, [b"/fixture/ROOT/keep".to_vec()]);
}

#[test]
fn add_entries_rejects_intermediate_symlink_escape() {
    let error = add_entries(
        Host::MacOs,
        empty_policy(),
        &shown(ROOT),
        ROOT_IDENTITY,
        &vec![request(b"/fixture/root/link_out/keep", Err(escape()))],
        &Ok(7),
    )
    .unwrap_err();
    assert_eq!(error.kind, ErrorKind::InvalidInput);
}

#[test]
fn remove_absolute_rejects_intermediate_symlink_escape_and_keeps_policy_bytes() {
    let error = remove_entries(
        Host::MacOs,
        with_keep(),
        &shown(ROOT),
        &vec![RemoveRequest {
            value: b"/fixture/root/link_out/keep".to_vec(),
            anchored: Ok(AnchoredEntryState::NeedsAttention),
        }],
    )
    .unwrap_err();
    assert_eq!(error.kind, ErrorKind::InvalidInput);
}

#[test]
fn snapshot_marks_entry_missing_attention_when_ancestor_becomes_symlink() {
    let keep = b"/fixture/root/keep".to_vec();
    let policy = with_keep();
    let before = snapshot(found(&policy, 9, b"one"), vec![Ok(present(KEEP))]).unwrap();
    assert_eq!(before.effective_exclusions, vec![keep.clone()]);
    let crossing = || vec![inspect_anchored(&vec![Lookup::Failed], false)];
    let after = snapshot(found(&policy, 9, b"one"), crossing()).unwrap();
    assert!(after.effective_exclusions.is_empty());
    assert_eq!(after.missing_attention_entries, vec![keep]);
    let status = guard(found(&policy, 9, b"one"), crossing(), &before).unwrap();
    assert_eq!(refusal(status), "policy_snapshot_changed_after_approval");
}

#[test]
fn adding_twice_changes_nothing_more() {
    let once = with_keep();
    let twice = add_entries(
        Host::MacOs,
        once.clone(),
        &shown(ROOT),
        ROOT_IDENTITY,
        &vec![request(b"/fixture/root/keep", Ok(present(KEEP)))],
        &Ok(900),
    )
    .unwrap();
    assert_eq!(once, twice);
}

#[test]
fn policies_are_bounded_and_shaped() {
    assert!(validate_policy(&with_keep()).is_ok());
    let mut wrong = with_keep();
    wrong.kind = "other".into();
    assert_eq!(
        validate_policy(&wrong).unwrap_err().kind,
        ErrorKind::InvalidData
    );
    let mut many = empty_policy();
    for number in 0..=MAX_ROOTS {
        many.roots.push(RootRecord {
            root_path: encode_absolute(&shown(format!("/root{number}").as_bytes())).unwrap(),
            root_identity: UnixIdentity {
                device: 1,
                inode: number as u64,
            },
            created_unix_ms: 0,
            entries: Vec::new(),
        });
    }
    assert!(validate_policy(&many).is_err());
    many.roots.pop();
    assert!(validate_policy(&many).is_ok());
    let duplicate = many.roots[0].clone();
    many.roots[1] = duplicate;
    assert!(validate_policy(&many).is_err());
}

#[test]
fn entries_are_sorted_and_unique() {
    let entry = |name: &[u8]| EntryRecord {
        literal_relative_path: encode_relative(&shown(name)).unwrap(),
        entry_identity: KEEP,
        created_unix_ms: 1,
    };
    let sorted = normalize_entries(vec![entry(b"b"), entry(b"a"), entry(b"b")]).unwrap();
    let names = sorted
        .iter()
        .map(|entry| decode_relative_bytes(&entry.literal_relative_path).unwrap())
        .collect::<Vec<_>>();
    assert_eq!(names, [b"a".to_vec(), b"b".to_vec()]);
}

#[test]
fn wire_paths_come_back_unchanged() {
    let odd = b"/tmp/\xff\x01 name";
    let wire = encode_absolute(&shown(odd)).unwrap();
    assert_eq!(wire.bytes_hex, "2f746d702fff01206e616d65");
    assert_eq!(decode_absolute(&wire).unwrap(), odd);
    assert!(encode_absolute(&shown(b"relative")).is_err());
    let wire = encode_relative(&shown(b"a/b")).unwrap();
    assert_eq!(decode_relative_bytes(&wire).unwrap(), b"a/b");
    assert!(encode_relative(&shown(b"../b")).is_err());
    let mut broken = wire.clone();
    broken.bytes_hex = "zz".into();
    assert!(decode_relative_bytes(&broken).is_err());
}

#[test]
fn configuration_is_private() {
    assert!(verify_private_regular_file(&meta(9, b"x"), EUID).is_ok());
    for broken in [
        PrivateMeta {
            mode: 0o100644,
            ..meta(9, b"x")
        },
        PrivateMeta {
            uid: 0,
            ..meta(9, b"x")
        },
        PrivateMeta {
            links: 2,
            ..meta(9, b"x")
        },
        PrivateMeta {
            regular: false,
            ..meta(9, b"x")
        },
        PrivateMeta {
            ancestors: vec![Ok(true)],
            ..meta(9, b"x")
        },
    ] {
        assert!(verify_private_regular_file(&broken, EUID).is_err(), "{broken:?}");
    }
    let directory = DirectoryMeta {
        physical_directory: true,
        uid: EUID,
        mode: 0o040700,
    };
    let look = |parent_exists: Option<bool>, meta: DirectoryMeta| ConfigDirLook {
        parent_exists,
        made: Ok(()),
        meta: Ok(meta),
    };
    assert!(ensure_private_config_dir(look(Some(true), directory), EUID).is_ok());
    let public = DirectoryMeta {
        mode: 0o040755,
        ..directory
    };
    assert!(ensure_private_config_dir(look(Some(true), public), EUID).is_err());
    assert_eq!(
        ensure_private_config_dir(look(Some(false), directory), EUID)
            .unwrap_err()
            .message,
        "config parent does not exist"
    );
    assert_eq!(
        ensure_private_config_dir(look(None, directory), EUID)
            .unwrap_err()
            .message,
        "config directory has no parent"
    );
}

#[test]
fn policies_are_staged_locked_and_read_back() {
    assert!(admit_stage(65_536, false).is_ok());
    assert_eq!(
        admit_stage(65_537, true).unwrap_err().message,
        "clean policy exceeds 64 KiB"
    );
    assert_eq!(
        admit_stage(1, true).unwrap_err().kind,
        ErrorKind::AlreadyExists
    );
    assert!(confirm_readback(b"same", b"same").is_ok());
    assert!(confirm_readback(b"one", b"two").is_err());
    assert_eq!(
        lock_busy("would block").message,
        "clean policy lock busy: would block"
    );
    assert!(anchor_root(ROOT_IDENTITY, ROOT_IDENTITY).is_ok());
    assert_eq!(
        anchor_root(
            ROOT_IDENTITY,
            UnixIdentity {
                inode: 101,
                ..ROOT_IDENTITY
            }
        )
        .unwrap_err()
        .kind,
        ErrorKind::PermissionDenied
    );
}

#[test]
fn configuration_directory_follows_the_environment() {
    let env = |chosen: Option<&[u8]>, own: Option<&[u8]>, xdg: Option<&[u8]>, home: Option<&[u8]>| {
        ConfigEnv {
            chosen: chosen.map(given),
            sayaka_config_dir: own.map(given),
            xdg_config_home: xdg.map(given),
            home: home.map(given),
        }
    };
    let file = |env: ConfigEnv| resolve_config_path(Host::MacOs, &env).map(|path| path.file);
    assert_eq!(
        file(env(Some(b"/a"), Some(b"/b"), Some(b"/c"), Some(b"/d"))).unwrap(),
        b"/a/exclusions-v1.json"
    );
    assert_eq!(
        file(env(None, Some(b"/b"), Some(b"/c"), Some(b"/d"))).unwrap(),
        b"/b/exclusions-v1.json"
    );
    assert_eq!(
        file(env(None, None, Some(b"/c"), Some(b"/d"))).unwrap(),
        b"/c/sayaka/exclusions-v1.json"
    );
    assert_eq!(
        file(env(None, None, None, Some(b"/d"))).unwrap(),
        b"/d/.config/sayaka/exclusions-v1.json"
    );
    assert!(file(env(None, None, None, None)).is_err());
    assert!(normalize_abs_dir(&given(b"/a\0b")).is_err());
}

#[test]
fn anchored_walk_stops_at_the_first_surprise() {
    assert_eq!(
        anchored_components(b"a/b").unwrap(),
        [b"a".to_vec(), b"b".to_vec()]
    );
    assert!(anchored_components(b"../b").is_err());
    let leaf = Lookup::Found {
        device: 1,
        inode: 2,
        nlink: 1,
        kind: Some(EntryKind::File),
    };
    assert!(matches!(
        inspect_anchored(&vec![Lookup::Opened, leaf], true).unwrap(),
        AnchoredEntryState::Present(observed) if observed.inode == 2
    ));
    assert_eq!(
        inspect_anchored(&vec![Lookup::NotFound, leaf], false).unwrap(),
        AnchoredEntryState::Missing
    );
    assert!(inspect_anchored(&vec![Lookup::NotFound, leaf], true).is_err());
    assert_eq!(
        inspect_anchored(&vec![Lookup::Failed, leaf], true).unwrap(),
        AnchoredEntryState::NeedsAttention
    );
}

#[test]
fn every_exclusion_is_listed_with_its_state() {
    let policy = with_keep();
    let look = |state: AnchoredEntryState| ListLook {
        root: given(ROOT),
        root_display: "/fixture/root".into(),
        root_identity: Some(ROOT_IDENTITY),
        policy: load(found(&policy, 9, b"one")),
        entries: vec![Ok(state)],
        shown: vec![Ok(state)],
    };
    let (now, statuses) = list_root_entries(Host::MacOs, &look(present(KEEP))).unwrap();
    assert_eq!(now.effective_exclusions.len(), 1);
    assert_eq!(statuses.len(), 1);
    assert!(!statuses[0].missing_attention);
    let (now, statuses) =
        list_root_entries(Host::MacOs, &look(AnchoredEntryState::Missing)).unwrap();
    assert_eq!(now.missing_attention_entries.len(), 1);
    assert!(statuses[0].missing_attention);
}

#[test]
fn guards_compare_paths_by_their_components() {
    let absent = |path: &[u8], parent: &[u8]| {
        LoadedPolicy::Absent(PolicyFileState::Absent {
            expected_path: path.to_vec(),
            nearest_existing_parent: Some(parent.to_vec()),
            nearest_existing_parent_identity: Some(ROOT_IDENTITY),
        })
    };
    let expected = snapshot_for_root(
        Host::MacOs,
        &snapshot_look(Ok(absent(b"/x/y/p.json", b"/x/y")), Vec::new()),
    )
    .unwrap();
    let guarded = |path: &[u8], parent: &[u8]| {
        guard_snapshot(
            Host::MacOs,
            &snapshot_look(Ok(absent(path, parent)), Vec::new()),
            &expected,
        )
        .unwrap()
    };
    assert!(matches!(
        guarded(b"/x//y/p.json", b"/x/./y/"),
        PolicyGuardStatus::Unchanged
    ));
    assert_eq!(
        refusal(guarded(b"/x/y/q.json", b"/x/y")),
        "policy_snapshot_changed_after_approval"
    );
    assert_eq!(
        refusal(guarded(b"/x/y/p.json", b"/x")),
        "policy_snapshot_changed_after_approval"
    );
}

#[test]
fn removing_undoes_adding_and_both_can_be_repeated() {
    let policy = with_keep();
    let other = UnixEntryIdentity {
        device: 1,
        inode: 201,
        kind: EntryKind::Directory,
    };
    let more = |policy: PolicyFile| {
        add_entries(
            Host::MacOs,
            policy,
            &shown(ROOT),
            ROOT_IDENTITY,
            &vec![request(b"/fixture/root/also", Ok(present(other)))],
            &Ok(9),
        )
        .unwrap()
    };
    let added = more(policy.clone());
    assert_eq!(added.roots[0].entries.len(), 2);
    assert!(added.roots[0].entries.contains(&policy.roots[0].entries[0]));
    assert_eq!(more(added.clone()), added);
    let less = |policy: PolicyFile| {
        remove_entries(
            Host::MacOs,
            policy,
            &shown(ROOT),
            &vec![RemoveRequest {
                value: b"also".to_vec(),
                anchored: Ok(AnchoredEntryState::Missing),
            }],
        )
        .unwrap()
    };
    let (restored, removed) = less(added);
    assert_eq!(removed, 1);
    assert_eq!(restored.roots[0].entries, policy.roots[0].entries);
    let (same, removed) = less(restored.clone());
    assert_eq!(removed, 0);
    assert_eq!(same, restored);
}
