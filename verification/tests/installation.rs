use sayaka_engine::digest::sha256_hex;
use sayaka_engine::error::{Error, ErrorKind};
use sayaka_engine::installation::{
    check, inventory, named, physical_absolute, Action, Held, HeldKind, Identity, NameEntry,
    Outcome, OutcomeState, Preview, Snapshot, Stamp, UpdatePolicy,
};
use sayaka_engine::handles::{
    admit_lifecycle, executable_digest, fit_manifest, open_package, open_source, parent_unchanged,
    read_lifecycle, require_absent, FileRead, LifecycleRead, OpenLook, SourceOpenLook,
};
use sayaka_engine::lifecycle::{
    LifecycleOutcome, LifecycleRecord, LifecycleStage, StagedArtifactRecord, StagedLook,
};
use sayaka_engine::model::Host;
use sayaka_engine::macho::{read_commands, read_header, Header, TargetMetadata};
use sayaka_engine::operation::{Progress, Run, Step, StepEvent};
use sayaka_engine::package::{
    accept_source, digest_valid, footprint, new_receipt, FileSize, PackageIdentities, Receipt,
    Transfer,
};
use sayaka_engine::plan::{
    busy, lifecycle_name, Begun, GateLook, InstallLook, InstallPlan, ParentLook, SourceImage,
};
use sayaka_engine::recover::{GuardLook, Recover, RecoveryLooks};
use sayaka_engine::removal::{RecoverLook, RecoverPlan, RemovePlan};
use sayaka_engine::update::{UpdateLook, UpdatePlan};
use sayaka_engine::verify::{verify, ArtifactLook, HeldPackage, PackageLook};
use sayaka_engine::version::version_valid;

const ARCH: &str = "aarch64";
const PREFIX: &[u8] = b"/work/package";
const SOURCE: &[u8] = b"/work/source";
const EUID: u32 = 501;

fn fail() -> Error {
    Error::new(ErrorKind::Other, "injected boundary failure")
}

fn image() -> Vec<u8> {
    b"#!/bin/sh\nprintf 'installation fixture\\n'\n".to_vec()
}

fn source(bytes: &[u8]) -> SourceImage {
    SourceImage {
        digest: sha256_hex(bytes),
        bytes: bytes.len() as u64,
        target: TargetMetadata {
            target_os: "macos".into(),
            target_arch: ARCH.into(),
            min_macos: Some("13.0".into()),
            verified_macho: true,
        },
        display: "\"/work/source\"".into(),
    }
}

fn identity(inode: u64, mode: u32) -> Identity {
    Identity {
        device: 1,
        inode,
        uid: EUID,
        gid: 20,
        mode,
    }
}

fn identities() -> PackageIdentities {
    PackageIdentities {
        prefix: identity(10, 0o040700),
        bin: identity(11, 0o040700),
        executable: identity(12, 0o100700),
        manifest: identity(13, 0o100600),
        lock: identity(14, 0o100600),
    }
}

fn receipt(bytes: &[u8], version: &str) -> Receipt {
    let image = source(bytes);
    let preview = Preview {
        action: Action::Install,
        prefix: PREFIX.to_vec(),
        executable: b"/work/package/bin/sayaka".to_vec(),
        version: version.into(),
        sha256: image.digest.clone(),
        executable_bytes: image.bytes,
        already_installed: false,
        current: None,
        candidate: None,
        can_execute: true,
        decision: None,
    };
    new_receipt(&preview, &image.target, ARCH, &identities())
}

fn parent() -> ParentLook {
    ParentLook {
        euid: EUID,
        opened: Ok(()),
        local: Ok(true),
    }
}

fn gate() -> GateLook {
    GateLook {
        next_marker: Ok(false),
        record: Ok(None),
        package: None,
        euid: EUID,
    }
}

fn prepare_install(existing: Result<Option<Receipt>, Error>, version: &str) -> Result<InstallPlan, Error> {
    InstallPlan::prepare(
        Host::MacOs,
        PREFIX,
        SOURCE,
        version,
        &InstallLook {
            parent: parent(),
            source: Ok(source(&image())),
            existing,
            gate: gate(),
        },
        ARCH,
    )
}

fn prepare_remove(package: Result<Receipt, Error>) -> Result<RemovePlan, Error> {
    RemovePlan::prepare(Host::MacOs, PREFIX, &parent(), &package, &gate(), ARCH)
}

/// Performs an operation whose step at the given place fails.
fn drive(run: Run, fail_at: Option<usize>, visited: &mut Vec<Step>) -> Result<Outcome, Error> {
    let mut run = run;
    loop {
        let step = run.current();
        visited.push(step);
        let event = if fail_at == Some(run.position) {
            StepEvent::Failed(fail())
        } else {
            match step {
                Step::Measure => StepEvent::Measured {
                    logical: 100,
                    allocated: 4096,
                },
                Step::CreateGuard => StepEvent::Guarded(staged(".sayaka-guard", 20)),
                Step::SyncStaged => StepEvent::Staged {
                    executable: staged(".sayaka-executable", 21),
                    manifest: staged(".sayaka-manifest", 22),
                },
                Step::DecideOutcome => StepEvent::InPlace(receipt(&image(), "1.2.3")),
                Step::CheckExecutable => {
                    StepEvent::Digest(run.record.as_ref().unwrap().candidate.sha256.clone())
                }
                _ => StepEvent::Done,
            }
        };
        match run.advance(event) {
            Progress::Continue(next) => run = next,
            Progress::Ended(outcome) => return Ok(outcome),
            Progress::Failed(error) => return Err(error),
        }
    }
}

fn staged(name: &str, inode: u64) -> StagedArtifactRecord {
    StagedArtifactRecord {
        name: name.into(),
        identity: identity(inode, 0o100600),
        bytes: 8,
        sha256: sha256_hex(b"content!"),
    }
}

fn started(begun: Begun) -> Run {
    match begun {
        Begun::Started(run) => run,
        Begun::Ended(outcome) => panic!("{outcome:?}"),
    }
}

fn ended(begun: Begun) -> Outcome {
    match begun {
        Begun::Ended(outcome) => outcome,
        Begun::Started(run) => panic!("{run:?}"),
    }
}

const BARRIERS: [Step; 7] = [
    Step::SyncExecutable,
    Step::SyncManifest,
    Step::SyncLock,
    Step::SyncBin,
    Step::SyncRoot,
    Step::SyncParent,
    Step::FinalFullSync,
];

#[test]
fn installation_is_explicitly_unsupported() {
    let look = InstallLook {
        parent: parent(),
        source: Ok(source(&image())),
        existing: Ok(None),
        gate: gate(),
    };
    assert!(matches!(
        InstallPlan::prepare(Host::Other, b"/unused", b"/unused", "1", &look, ARCH),
        Err(error) if error.kind == ErrorKind::Unsupported
    ));
    assert!(matches!(
        RemovePlan::prepare(
            Host::Other,
            b"/unused",
            &parent(),
            &Ok(receipt(&image(), "1")),
            &gate(),
            ARCH
        ),
        Err(error) if error.kind == ErrorKind::Unsupported
    ));
}

#[test]
fn lock_is_exclusive_for_cooperating_previews_and_operations() {
    let installed = receipt(&image(), "1.2.3");
    let plan = prepare_remove(Ok(installed.clone())).unwrap();
    let held = || busy("Resource temporarily unavailable");
    assert!(matches!(
        prepare_remove(Err(held())),
        Err(e) if e.kind == ErrorKind::WouldBlock
    ));
    assert!(prepare_install(Err(held()), "1.2.3").is_err());
    drop(plan);
    assert!(prepare_remove(Ok(installed)).is_ok());
}

#[test]
fn owned_same_image_is_idempotent_without_metadata_writes() {
    let installed = receipt(&image(), "1.2.3");
    let plan = prepare_install(Ok(Some(installed.clone())), "1.2.3").unwrap();
    assert!(plan.preview().already_installed);
    let run = started(plan.execute(false, &gate(), b".sayaka-stage").unwrap());
    let mut visited = Vec::new();
    let outcome = drive(run, None, &mut visited).unwrap();
    assert_eq!(outcome.status, OutcomeState::AlreadyInstalled);
    assert!(!visited.contains(&Step::WriteManifest));
    assert!(!visited.contains(&Step::Publish));
    assert!(prepare_install(Ok(Some(installed)), "different").is_err());
}

#[test]
fn published_incomplete_install_requires_explicit_successful_durability_retry() {
    for publication_failure in [Step::SyncParent, Step::FinalFullSync] {
        let plan = prepare_install(Ok(None), "1.2.3").unwrap();
        let run = started(plan.execute(false, &gate(), b".sayaka-stage").unwrap());
        let at = run
            .steps
            .iter()
            .rposition(|step| *step == publication_failure)
            .unwrap();
        let published = drive(run, Some(at), &mut Vec::new()).unwrap();
        assert_eq!(published.status, OutcomeState::Incomplete);
        assert_eq!(published.recovery_paths, [PREFIX.to_vec()]);

        let installed = receipt(&image(), "1.2.3");
        for (index, failed_barrier) in BARRIERS.iter().enumerate() {
            let plan = prepare_install(Ok(Some(installed.clone())), "1.2.3").unwrap();
            assert!(plan.preview().already_installed);
            let run = started(plan.execute(false, &gate(), b".sayaka-stage").unwrap());
            let first = run.steps.iter().position(|step| *step == BARRIERS[0]).unwrap();
            let mut visited = Vec::new();
            let result = drive(run, Some(first + index), &mut visited).unwrap();
            assert_eq!(visited[first..], BARRIERS[..=index]);
            assert_eq!(
                result.status,
                OutcomeState::Incomplete,
                "{failed_barrier:?}"
            );
            assert_eq!(result.exit_code(), 1);
            assert_eq!(result.recovery_paths, [PREFIX.to_vec()]);
            assert!(result.error.unwrap().contains("injected boundary failure"));
            assert!(result.logical_bytes.is_none());
            assert!(result.allocated_bytes.is_none());
        }

        let plan = prepare_install(Ok(Some(installed)), "1.2.3").unwrap();
        let mut run = started(plan.execute(false, &gate(), b".sayaka-stage").unwrap());
        for at in 0..run.steps.len() {
            run.position = at;
            assert_eq!(run.gives_way(), BARRIERS.contains(&run.steps[at]));
        }
        run.position = 0;
        let mut visited = Vec::new();
        let result = drive(run, None, &mut visited).unwrap();
        assert_eq!(
            visited
                .into_iter()
                .filter(|step| BARRIERS.contains(step))
                .collect::<Vec<_>>(),
            BARRIERS
        );
        assert_eq!(result.status, OutcomeState::AlreadyInstalled);
        assert_eq!(result.exit_code(), 0);
        assert!(result.recovery_paths.is_empty());
        assert!(result.error.is_none());
        assert!(result.logical_bytes.is_some());
        assert!(result.allocated_bytes.is_some());
    }
}

#[test]
fn cancellation_before_effects_and_during_staging_removal_is_honest() {
    let plan = prepare_install(Ok(None), "1.2.3").unwrap();
    let result = ended(plan.execute(true, &gate(), b".sayaka-stage").unwrap());
    assert_eq!(result.status, OutcomeState::Cancelled);
    assert_eq!(result.exit_code(), 130);
    assert!(result.recovery_paths.is_empty());

    let plan = prepare_install(Ok(None), "1.2.3").unwrap();
    let mut run = started(plan.execute(false, &gate(), b".sayaka-stage").unwrap());
    let result = loop {
        let event = if run.current() == Step::WriteManifest {
            StepEvent::Failed(Error::new(ErrorKind::Interrupted, "operation cancelled"))
        } else {
            StepEvent::Done
        };
        match run.advance(event) {
            Progress::Continue(next) => run = next,
            Progress::Ended(outcome) => break outcome,
            Progress::Failed(error) => panic!("{error:?}"),
        }
    };
    assert_eq!(result.status, OutcomeState::Incomplete);
    assert!(result.error.as_ref().unwrap().contains("cancelled"));
    assert_eq!(result.recovery_paths, [b"/work/.sayaka-stage".to_vec()]);

    let installed = receipt(&image(), "1.2.3");
    let plan = prepare_remove(Ok(installed.clone())).unwrap();
    let result = ended(plan.execute(true, &gate(), b".sayaka-detached").unwrap());
    assert_eq!(result.status, OutcomeState::Cancelled);

    let plan = prepare_remove(Ok(installed)).unwrap();
    let mut run = started(plan.execute(false, &gate(), b".sayaka-detached").unwrap());
    let at = run.steps.iter().position(|step| *step == Step::Detach).unwrap() + 2;
    for position in 0..run.steps.len() {
        run.position = position;
        assert!(!run.gives_way());
    }
    run.position = 0;
    let result = drive(run, Some(at), &mut Vec::new()).unwrap();
    assert_eq!(result.status, OutcomeState::Incomplete);
    assert_eq!(result.recovery_paths, [b"/work/.sayaka-detached".to_vec()]);
}

#[test]
fn installation_fault_boundaries_retain_the_actual_recovery_path() {
    let stage = b"/work/.sayaka-stage".to_vec();
    let steps = started(
        prepare_install(Ok(None), "1")
            .unwrap()
            .execute(false, &gate(), b".sayaka-stage")
            .unwrap(),
    )
    .steps;
    let publish = steps.iter().position(|step| *step == Step::Publish).unwrap();
    for (at, path) in [
        (
            steps.iter().position(|step| *step == Step::OpenStage).unwrap(),
            stage.clone(),
        ),
        (
            steps
                .iter()
                .position(|step| *step == Step::CopyExecutable)
                .unwrap(),
            stage.clone(),
        ),
        (publish - 1, stage.clone()),
        (publish + 1, PREFIX.to_vec()),
    ] {
        let plan = prepare_install(Ok(None), "1").unwrap();
        let run = started(plan.execute(false, &gate(), b".sayaka-stage").unwrap());
        let result = drive(run, Some(at), &mut Vec::new()).unwrap();
        assert_eq!(result.status, OutcomeState::Incomplete, "{:?}", steps[at]);
        assert_eq!(result.exit_code(), 1);
        assert!(result.logical_bytes.is_none());
        assert_eq!(result.recovery_paths, [path]);
    }
    // Before anything was made a failure leaves nothing to recover.
    let plan = prepare_install(Ok(None), "1").unwrap();
    let run = started(plan.execute(false, &gate(), b".sayaka-stage").unwrap());
    assert!(drive(run, Some(1), &mut Vec::new()).is_err());
}

#[test]
fn removal_faults_preserve_exact_progress_without_success_fallback() {
    for step in [
        Step::SyncParent,
        Step::SyncBin,
        Step::RemoveBin,
        Step::RemoveLock,
        Step::RemoveManifest,
        Step::RemoveRoot,
        Step::FinalFullSync,
    ] {
        let plan = prepare_remove(Ok(receipt(&image(), "1.2.3"))).unwrap();
        let run = started(plan.execute(false, &gate(), b".sayaka-detached").unwrap());
        let at = run.steps.iter().position(|found| *found == step).unwrap();
        let mut visited = Vec::new();
        let result = drive(run, Some(at), &mut visited).unwrap();
        assert_eq!(result.status, OutcomeState::Incomplete, "{step:?}");
        assert!(result.error.is_some());
        assert!(result.allocated_bytes.is_none());
        assert_eq!(result.recovery_paths, [b"/work/.sayaka-detached".to_vec()]);
        assert_eq!(visited.last(), Some(&step));
    }
    let plan = prepare_remove(Ok(receipt(&image(), "1.2.3"))).unwrap();
    assert_eq!(plan.preview().action, Action::Remove);
    let run = started(plan.execute(false, &gate(), b".sayaka-detached").unwrap());
    let result = drive(run, None, &mut Vec::new()).unwrap();
    assert_eq!(result.status, OutcomeState::Removed);
    assert_eq!(result.logical_bytes, Some(100));
}

fn update(version: &str, bytes: &[u8], policy: UpdatePolicy) -> UpdatePlan {
    UpdatePlan::prepare(
        Host::MacOs,
        PREFIX,
        SOURCE,
        version,
        policy,
        &UpdateLook {
            parent: parent(),
            source: Ok(source(bytes)),
            package: Ok(receipt(&image(), "1.2.3")),
            gate: gate(),
        },
        ARCH,
    )
    .unwrap()
}

const STRICT: UpdatePolicy = UpdatePolicy {
    allow_downgrade: false,
    allow_same_version_replace: false,
};

#[test]
fn updates_follow_the_order_of_versions() {
    let decision = |version: &str, bytes: &[u8], policy: UpdatePolicy| {
        let plan = update(version, bytes, policy);
        (
            plan.preview().can_execute,
            plan.preview().decision.clone().unwrap(),
        )
    };
    assert_eq!(
        decision("1.3.0", b"new", STRICT),
        (true, "candidate is newer and compatible".into())
    );
    assert_eq!(
        decision("1.2.2", b"new", STRICT),
        (
            false,
            "candidate is older; pass --allow-downgrade to execute".into()
        )
    );
    assert_eq!(
        decision(
            "1.2.3-rc.1",
            b"new",
            UpdatePolicy {
                allow_downgrade: true,
                ..STRICT
            }
        ),
        (true, "downgrade explicitly allowed by policy".into())
    );
    assert_eq!(
        decision("1.2.3", b"new", STRICT).1,
        "same version has different bytes; pass --allow-same-version-replace to execute"
    );
    assert_eq!(
        decision("1.2.3", &image(), STRICT).1,
        "candidate matches installed bytes; execute only reruns durability barriers"
    );
    assert_eq!(
        decision("nightly", b"new", STRICT).1,
        "current/candidate versions are not SemVer-orderable"
    );
}

#[test]
fn updates_announce_every_rename_before_it_happens() {
    let plan = update("1.3.0", b"new", STRICT);
    let run = started(plan.execute(false, &gate()).unwrap());
    let mut visited = Vec::new();
    let steps = run.steps.clone();
    let outcome = drive(run, None, &mut visited).unwrap();
    assert_eq!(outcome.status, OutcomeState::Updated);
    let place = |wanted: Step| steps.iter().position(|step| *step == wanted).unwrap();
    assert!(place(Step::CreateGuard) < place(Step::StageExecutable));
    assert!(
        place(Step::Record {
            stage: LifecycleStage::StagedRecorded
        }) < place(Step::RenameExecutable)
    );
    assert!(place(Step::RenameExecutable) < place(Step::RenameManifest));
    assert!(
        place(Step::Record {
            stage: LifecycleStage::OutcomeRecorded
        }) < place(Step::RemoveGuard)
    );
}

fn lifecycle_record() -> LifecycleRecord {
    LifecycleRecord {
        schema_version: 1,
        action: "update".into(),
        stage: LifecycleStage::StagedRecorded,
        prefix_name: b"package".to_vec(),
        prefix: identity(10, 0o040700),
        lock: identity(14, 0o100600),
        current: receipt(&image(), "1.2.3").metadata("owned installed manifest", ARCH),
        candidate: receipt(b"new", "1.3.0").metadata("owned installed manifest", ARCH),
        guard: Some(staged(".sayaka-update-guard-v1", 20)),
        staged_executable: Some(staged(".sayaka-executable", 21)),
        staged_manifest: Some(staged(".sayaka-manifest", 22)),
        outcome: None,
    }
}

fn staged_look(inode: u64, mode: u32) -> StagedLook {
    let snapshot = Snapshot {
        identity: identity(inode, mode),
        links: 1,
        bytes: 8,
        modified: Stamp {
            seconds: 1,
            nanoseconds: 0,
        },
        changed: Stamp {
            seconds: 1,
            nanoseconds: 0,
        },
    };
    StagedLook {
        held: Held {
            kind: HeldKind::File,
            snapshot,
            extended_acl: false,
        },
        digest: Ok(sha256_hex(b"content!")),
        after: snapshot,
    }
}

#[test]
fn recovery_needs_a_record_or_does_nothing() {
    let looks = RecoveryLooks {
        executable_digest: Ok(sha256_hex(&image())),
        staged_executable: Ok(None),
        staged_manifest: Ok(None),
        guard: GuardLook {
            present: Ok(false),
            file: Ok(None),
        },
    };
    let recovery = Recover::classify(
        b"package",
        &receipt(&image(), "1.2.3"),
        false,
        &None,
        &looks,
        EUID,
    )
    .unwrap();
    assert!(recovery.can_execute);
    let manual = Recover::classify(
        b"package",
        &receipt(&image(), "1.2.3"),
        true,
        &None,
        &looks,
        EUID,
    )
    .unwrap();
    assert!(!manual.can_execute);
    assert_eq!(
        manual.decision,
        "record update is partially published; manual inspection required"
    );
}

#[test]
fn interrupted_update_blocks_other_operations_until_recovered() {
    let look = GateLook {
        next_marker: Ok(false),
        record: Ok(Some(lifecycle_record())),
        package: None,
        euid: EUID,
    };
    let plan = RemovePlan::prepare(
        Host::MacOs,
        PREFIX,
        &parent(),
        &Ok(receipt(&image(), "1.2.3")),
        &look,
        ARCH,
    )
    .unwrap();
    assert!(!plan.preview().can_execute);
    let outcome = ended(plan.execute(false, &gate(), b".sayaka-detached").unwrap());
    assert_eq!(outcome.status, OutcomeState::Refused);
    let mut name = lifecycle_name(b"package");
    let mut place = b"/work/".to_vec();
    place.append(&mut name);
    assert_eq!(outcome.recovery_paths, [place]);
}

#[test]
fn recovery_abandons_what_was_only_staged() {
    let look = |record: LifecycleRecord| RecoverLook {
        package: Ok(receipt(&image(), "1.2.3")),
        next_marker: Ok(false),
        record: Ok(Some(record)),
        looks: RecoveryLooks {
            executable_digest: Ok(sha256_hex(&image())),
            staged_executable: Ok(Some(staged_look(21, 0o100700))),
            staged_manifest: Ok(Some(staged_look(22, 0o100600))),
            guard: GuardLook {
                present: Ok(true),
                file: Ok(Some(staged_look(20, 0o100600))),
            },
        },
        euid: EUID,
    };
    let mut record = lifecycle_record();
    record.staged_executable.as_mut().unwrap().identity = identity(21, 0o100700);
    let plan = RecoverPlan::prepare(
        Host::MacOs,
        PREFIX,
        &parent(),
        &look(record.clone()),
        ARCH,
    )
    .unwrap();
    assert!(plan.preview().can_execute, "{:?}", plan.preview().decision);
    let run = started(plan.execute(false, look(record)).unwrap());
    assert!(run.steps.contains(&Step::UnlinkStagedExecutable));
    assert!(!run.steps.contains(&Step::RenameManifest));
    assert_eq!(
        run.record.as_ref().unwrap().candidate.version,
        "1.3.0"
    );
}

#[test]
fn outcomes_are_decided_by_the_manifest_in_place() {
    let record = lifecycle_record();
    assert_eq!(
        Recover::decide_outcome(&record, &receipt(b"new", "1.3.0")).unwrap(),
        LifecycleOutcome::CandidatePublished
    );
    assert_eq!(
        Recover::decide_outcome(&record, &receipt(&image(), "1.2.3")).unwrap(),
        LifecycleOutcome::StagingAbandoned
    );
    assert!(Recover::decide_outcome(&record, &receipt(b"third", "9.9.9")).is_err());
}

#[test]
fn receipts_are_valid_only_as_written() {
    let good = receipt(&image(), "1.2.3");
    assert!(good.validate().is_ok());
    let mut bad = good.clone();
    bad.sha256 = bad.sha256.to_uppercase();
    assert!(bad.validate().is_err());
    let mut bad = good.clone();
    bad.schema_version = 3;
    assert_eq!(
        bad.validate().unwrap_err().message,
        "unsupported or malformed ownership manifest"
    );
    assert!(digest_valid(&good.sha256));
    assert!(!digest_valid("abc"));
    assert!(version_valid("1.2.3"));
    assert!(!version_valid(""));
    assert!(!version_valid("1 2"));
}

#[test]
fn transfers_hash_what_they_carry() {
    let bytes = image();
    let mut transfer = Transfer::begin(bytes.len() as u64).unwrap();
    assert!(transfer.budget() >= bytes.len());
    transfer.feed(&bytes[..10]).unwrap();
    transfer.feed(&bytes[10..]).unwrap();
    assert_eq!(transfer.finish().unwrap(), sha256_hex(&bytes));
    let mut short = Transfer::begin(4).unwrap();
    short.feed(b"ab").unwrap();
    assert!(short.finish().is_err());
}

#[test]
fn digests_are_those_of_the_standard() {
    assert_eq!(
        sha256_hex(b""),
        "e3b0c44298fc1c149afbf4c8996fb92427ae41e4649b934ca495991b7852b855"
    );
    assert_eq!(
        sha256_hex(b"abc"),
        "ba7816bf8f01cfea414140de5dae2223b00361a396177a9cb410ff61f20015ad"
    );
}

#[test]
fn managed_artifacts_have_exact_owner_mode_and_links() {
    let held = |mode: u32, links: u64, extended_acl: bool| Held {
        kind: HeldKind::File,
        snapshot: Snapshot {
            identity: identity(12, mode),
            links,
            bytes: 1,
            modified: Stamp {
                seconds: 0,
                nanoseconds: 0,
            },
            changed: Stamp {
                seconds: 0,
                nanoseconds: 0,
            },
        },
        extended_acl,
    };
    assert!(check(&held(0o100700, 1, false), EUID, false, 0o700).is_ok());
    assert_eq!(
        check(&held(0o100755, 1, false), EUID, false, 0o700)
            .unwrap_err()
            .message,
        "artifact must be user-owned, a singly linked regular file with mode 0700"
    );
    assert!(check(&held(0o100700, 2, false), EUID, false, 0o700).is_err());
    assert!(check(&held(0o100700, 1, true), EUID, false, 0o700).is_err());
    assert!(check(&held(0o100700, 1, false), 502, false, 0o700).is_err());
    assert!(accept_source(&held(0o100755, 1, false), EUID).is_ok());
    let entry = NameEntry {
        device: 1,
        inode: 12,
        mode: 0o100700,
    };
    assert!(named(&entry, &identity(12, 0o100700)).is_ok());
    assert!(named(&entry, &identity(99, 0o100700)).is_err());
}

#[test]
fn directories_hold_exactly_the_expected_names() {
    let names = |list: &[&str]| {
        list.iter()
            .map(|name| name.as_bytes().to_vec())
            .collect::<Vec<_>>()
    };
    let expected = names(&["bin", ".lock"]);
    assert!(inventory(&names(&[".", "..", ".lock", "bin"]), &expected).is_ok());
    assert!(inventory(&names(&["bin"]), &expected).is_err());
    assert!(inventory(&names(&["bin", ".lock", "extra"]), &expected).is_err());
    assert!(physical_absolute(b"/work/package").is_ok());
    assert!(physical_absolute(b"/work/../package").is_err());
    assert!(physical_absolute(b"package").is_err());
}

#[test]
fn footprints_add_up_and_never_wrap() {
    let size = |logical: u64, blocks: u64| FileSize {
        bytes: logical,
        blocks,
    };
    assert_eq!(
        footprint(size(10, 8), size(20, 8), size(0, 0)).unwrap(),
        (30, 16 * 512)
    );
    let error = |executable, manifest, lock| footprint(executable, manifest, lock).unwrap_err();
    assert_eq!(
        error(size(u64::MAX, 8), size(1, u64::MAX), size(0, 0)).message,
        "logical footprint overflow"
    );
    assert_eq!(
        error(size(1, 8), size(1, u64::MAX), size(u64::MAX, 0)).message,
        "allocated footprint overflow"
    );
}

fn macho(command: u32, minimum: u32) -> Vec<u8> {
    let mut bytes = Vec::new();
    for word in [0xfeed_facfu32, 0x0100_000c, 0, 2, 1, 24, 0, 0] {
        bytes.extend(word.to_le_bytes());
    }
    for word in [command, 24, 1, minimum, 0, 0] {
        bytes.extend(word.to_le_bytes());
    }
    bytes
}

#[test]
fn mach_o_header_names_the_target() {
    let bytes = macho(0x32, 0x000d_0100);
    let compiled = TargetMetadata {
        target_os: "macos".into(),
        target_arch: ARCH.into(),
        min_macos: None,
        verified_macho: false,
    };
    assert_eq!(
        read_header(&bytes[..32]).unwrap(),
        Header::Thin {
            cpu: 0x0100_000c,
            commands: 1,
            command_bytes: 24
        }
    );
    let target = read_commands(0x0100_000c, 1, &bytes[32..], &compiled).unwrap();
    assert_eq!(target.target_arch, "aarch64");
    assert_eq!(target.min_macos.as_deref(), Some("13.1.0"));
    assert!(target.verified_macho);
    assert_eq!(read_header(&[b'#'; 32]).unwrap(), Header::Foreign);
    assert_eq!(
        read_commands(7, 1, &bytes[32..], &compiled).unwrap_err().message,
        "unsupported Mach-O architecture"
    );
    assert_eq!(
        read_commands(0x0100_000c, 2, &bytes[32..], &compiled)
            .unwrap_err()
            .message,
        "truncated Mach-O load command header"
    );
    let fat = [0xca, 0xfe, 0xba, 0xbe].into_iter().chain([0u8; 28]).collect::<Vec<u8>>();
    assert!(read_header(&fat).is_err());
}

fn assert_send<T: Send>() {}

#[test]
fn consumed_public_plans_can_move_to_an_owned_worker() {
    assert_send::<InstallPlan>();
    assert_send::<RemovePlan>();
}

fn snapshot(identity: Identity, bytes: u64) -> Snapshot {
    Snapshot {
        identity,
        links: 1,
        bytes,
        modified: Stamp {
            seconds: 1,
            nanoseconds: 0,
        },
        changed: Stamp {
            seconds: 1,
            nanoseconds: 0,
        },
    }
}

fn artifact(kind: HeldKind, snapshot: Snapshot) -> ArtifactLook {
    ArtifactLook {
        entry: Ok(NameEntry {
            device: snapshot.identity.device,
            inode: snapshot.identity.inode,
            mode: snapshot.identity.mode,
        }),
        held: Ok(Held {
            kind,
            snapshot,
            extended_acl: false,
        }),
    }
}

fn entries(names: &[&str]) -> Result<Vec<Vec<u8>>, Error> {
    Ok(names.iter().map(|name| name.as_bytes().to_vec()).collect())
}

fn missing() -> ArtifactLook {
    ArtifactLook {
        entry: Err(Error::new(ErrorKind::NotFound, "no such file")),
        held: Err(Error::new(ErrorKind::NotFound, "no such file")),
    }
}

fn held_package() -> HeldPackage {
    let all = identities();
    HeldPackage {
        executable: snapshot(all.executable, image().len() as u64),
        manifest: snapshot(all.manifest, 300),
        lock: snapshot(all.lock, 0),
        guard: None,
    }
}

fn package_look() -> PackageLook {
    let all = identities();
    let held = held_package();
    PackageLook {
        cancelled_before: false,
        parent_unchanged: Ok(true),
        root: artifact(HeldKind::Directory, snapshot(all.prefix, 160)),
        root_entries: entries(&[".", "..", ".lock", "bin", "ownership-v1.json"]),
        bin: artifact(HeldKind::Directory, snapshot(all.bin, 96)),
        bin_entries: entries(&["sayaka"]),
        executable: artifact(HeldKind::File, held.executable),
        manifest: artifact(HeldKind::File, held.manifest),
        lock: artifact(HeldKind::File, held.lock),
        guard: missing(),
        guard_present: Ok(false),
        payload: Ok(sha256_hex(&image())),
        executable_after: held.executable,
        cancelled_after: false,
    }
}

fn verified(look: &PackageLook) -> Result<(), Error> {
    verify(
        look,
        &receipt(&image(), "1.2.3"),
        &held_package(),
        0,
        true,
        EUID,
    )
}

#[test]
fn whole_packages_verify() {
    verified(&package_look()).unwrap();
}

#[test]
fn modified_hardlinked_symlinked_and_public_payloads_are_refused() {
    let held = held_package();
    for (mutation, executable, payload) in [
        (
            "changed bytes",
            artifact(HeldKind::File, held.executable),
            sha256_hex(b"changed"),
        ),
        (
            "hardlink",
            artifact(
                HeldKind::File,
                Snapshot {
                    links: 2,
                    ..held.executable
                },
            ),
            sha256_hex(&image()),
        ),
        (
            "symlink",
            artifact(HeldKind::Other, held.executable),
            sha256_hex(&image()),
        ),
        (
            "public",
            artifact(
                HeldKind::File,
                snapshot(identity(12, 0o100755), image().len() as u64),
            ),
            sha256_hex(&image()),
        ),
        (
            "replaced",
            artifact(
                HeldKind::File,
                snapshot(identity(99, 0o100700), image().len() as u64),
            ),
            sha256_hex(&image()),
        ),
    ] {
        let look = PackageLook {
            executable,
            payload: Ok(payload),
            ..package_look()
        };
        assert!(verified(&look).is_err(), "mutation {mutation}");
    }
}

#[test]
fn all_managed_identity_mode_and_acl_checks_are_enforced() {
    let all = identities();
    let public = |identity: Identity| Identity {
        mode: identity.mode | 0o077,
        ..identity
    };
    for (name, look) in [
        (
            "prefix",
            PackageLook {
                root: artifact(HeldKind::Directory, snapshot(public(all.prefix), 160)),
                ..package_look()
            },
        ),
        (
            "bin",
            PackageLook {
                bin: artifact(HeldKind::Directory, snapshot(public(all.bin), 96)),
                ..package_look()
            },
        ),
        (
            "manifest",
            PackageLook {
                manifest: artifact(HeldKind::File, snapshot(public(all.manifest), 300)),
                ..package_look()
            },
        ),
        (
            "lock",
            PackageLook {
                lock: artifact(HeldKind::File, snapshot(public(all.lock), 0)),
                ..package_look()
            },
        ),
        (
            "acl",
            PackageLook {
                bin: ArtifactLook {
                    held: Ok(Held {
                        kind: HeldKind::Directory,
                        snapshot: snapshot(all.bin, 96),
                        extended_acl: true,
                    }),
                    ..artifact(HeldKind::Directory, snapshot(all.bin, 96))
                },
                ..package_look()
            },
        ),
    ] {
        assert!(verified(&look).is_err(), "{name}");
    }
}

#[test]
fn extra_and_missing_artifacts_are_refused_at_every_removal_boundary() {
    let receipt = receipt(&image(), "1.2.3");
    let held = held_package();
    let present: [&[&str]; 5] = [
        &["bin", "ownership-v1.json", ".lock"],
        &["bin", "ownership-v1.json", ".lock"],
        &["ownership-v1.json", ".lock"],
        &["ownership-v1.json"],
        &[],
    ];
    for (removed, names) in present.iter().enumerate() {
        let look = |names: &[&str]| PackageLook {
            root_entries: entries(names),
            bin_entries: if removed == 0 {
                entries(&["sayaka"])
            } else {
                entries(&[])
            },
            ..package_look()
        };
        verify(&look(names), &receipt, &held, removed, true, EUID).unwrap();
        let mut extra = names.to_vec();
        extra.push("unowned-arrival");
        assert_eq!(
            verify(&look(&extra), &receipt, &held, removed, true, EUID)
                .unwrap_err()
                .message,
            "unknown or extra artifact in dedicated installation"
        );
        if let Some((_, fewer)) = names.split_last() {
            assert_eq!(
                verify(&look(fewer), &receipt, &held, removed, true, EUID)
                    .unwrap_err()
                    .message,
                "managed inventory is incomplete; an expected artifact is missing"
            );
        }
    }
    assert_eq!(
        verify(&package_look(), &receipt, &held, 5, true, EUID)
            .unwrap_err()
            .message,
        "invalid removal progress"
    );
}

fn held(kind: HeldKind, snapshot: Snapshot) -> Held {
    Held {
        kind,
        snapshot,
        extended_acl: false,
    }
}

fn open_look() -> OpenLook {
    let all = identities();
    let opened = held_package();
    OpenLook {
        root: Ok(held(HeldKind::Directory, snapshot(all.prefix, 160))),
        guard_named: Ok(false),
        root_entries: entries(&["bin", "ownership-v1.json", ".lock"]),
        lock: Ok(held(HeldKind::File, opened.lock)),
        locked: Ok(()),
        bin: Ok(held(HeldKind::Directory, snapshot(all.bin, 96))),
        executable: Ok(held(HeldKind::File, opened.executable)),
        guard: Err(Error::new(ErrorKind::NotFound, "no such file")),
        manifest: Ok(FileRead {
            held: held(HeldKind::File, opened.manifest),
            length: Ok(300),
            after: Ok(opened.manifest),
        }),
        parsed: Ok(receipt(&image(), "1.2.3")),
        guard_now: Err(Error::new(ErrorKind::NotFound, "no such file")),
        executable_now: Ok(opened.executable),
        lock_now: Ok(opened.lock),
        package: package_look(),
    }
}

#[test]
fn opened_packages_are_claimed_read_and_verified() {
    let (receipt, held) = open_package(open_look(), true, EUID).unwrap();
    assert_eq!(receipt.version, "1.2.3");
    assert_eq!(held.lock.bytes, 0);
    assert!(held.guard.is_none());
    let refused = |look: OpenLook| open_package(look, true, EUID).unwrap_err();
    let busy = refused(OpenLook {
        locked: Err("Resource temporarily unavailable".into()),
        ..open_look()
    });
    assert_eq!(busy.kind, ErrorKind::WouldBlock);
    let opened = held_package();
    assert_eq!(
        refused(OpenLook {
            manifest: Ok(FileRead {
                held: self::held(HeldKind::File, opened.manifest),
                length: Ok(16_385),
                after: Ok(opened.manifest),
            }),
            ..open_look()
        })
        .message,
        "ownership manifest changed during read"
    );
    let mut malformed = receipt;
    malformed.sha256 = "short".into();
    assert_eq!(
        refused(OpenLook {
            parsed: Ok(malformed),
            ..open_look()
        })
        .message,
        "unsupported or malformed ownership manifest"
    );
    let mut wrong = package_look();
    wrong.payload = Ok(sha256_hex(b"changed"));
    assert!(open_package(
        OpenLook {
            package: wrong,
            ..open_look()
        },
        false,
        EUID
    )
    .is_ok());
}

#[test]
fn sources_and_parents_are_held_steady() {
    let file = snapshot(identity(30, 0o100755), image().len() as u64);
    let look = |after: Snapshot| SourceOpenLook {
        target: Ok(source(&image()).target),
        held: Ok(held(HeldKind::File, file)),
        digest: Ok(sha256_hex(&image())),
        after: Ok(after),
    };
    let opened = open_source(look(file), EUID, "/work/source").unwrap();
    assert_eq!(opened.bytes, image().len() as u64);
    assert_eq!(opened.digest, sha256_hex(&image()));
    assert_eq!(
        open_source(look(Snapshot { bytes: 1, ..file }), EUID, "/work/source")
            .unwrap_err()
            .message,
        "source metadata changed while hashing"
    );
    let parent = identity(1, 0o040755);
    assert!(parent_unchanged(parent, &Ok(parent), &Ok(parent)).is_ok());
    assert!(parent_unchanged(parent, &Ok(identity(2, 0o040755)), &Ok(parent)).is_err());
    assert!(require_absent(&Ok(false)).is_ok());
    assert_eq!(
        require_absent(&Ok(true)).unwrap_err().kind,
        ErrorKind::AlreadyExists
    );
    assert!(fit_manifest(16_384, false).is_ok());
    assert_eq!(
        fit_manifest(16_385, true).unwrap_err().message,
        "generated update manifest exceeds size bound"
    );
    assert!(executable_digest(file, Ok("d".into()), Ok(Snapshot { links: 2, ..file })).is_err());
    assert_eq!(executable_digest(file, Ok("d".into()), Ok(file)).unwrap(), "d");
}

#[test]
fn lifecycle_records_are_read_whole_or_not_at_all() {
    let file = snapshot(identity(40, 0o100600), 500);
    let read = |length: u64, after: Snapshot| LifecycleRead {
        file: Ok(FileRead {
            held: held(HeldKind::File, file),
            length: Ok(length),
            after: Ok(after),
        }),
        parsed: Ok(lifecycle_record()),
    };
    assert!(read_lifecycle(read(500, file), EUID).unwrap().is_some());
    assert_eq!(
        read_lifecycle(read(500, Snapshot { bytes: 501, ..file }), EUID)
            .unwrap_err()
            .message,
        "lifecycle record changed during read"
    );
    assert!(read_lifecycle(
        LifecycleRead {
            file: Err(Error::new(ErrorKind::NotFound, "no such file")),
            parsed: Err(fail()),
        },
        EUID
    )
    .unwrap()
    .is_none());
    assert!(admit_lifecycle(&Ok(false), &Ok(10)).is_ok());
    assert_eq!(
        admit_lifecycle(&Ok(true), &Ok(10)).unwrap_err().message,
        "lifecycle next marker already exists; explicit recovery is required"
    );
    assert!(admit_lifecycle(&Ok(false), &Ok(65_537)).is_err());
}

#[test]
fn prefixes_need_a_physical_local_parent() {
    let prepare = |parent: ParentLook| {
        RemovePlan::prepare(
            Host::MacOs,
            PREFIX,
            &parent,
            &Ok(receipt(&image(), "1.2.3")),
            &gate(),
            ARCH,
        )
    };
    assert!(prepare(parent()).is_ok());
    assert_eq!(
        prepare(ParentLook {
            opened: Err(Error::new(ErrorKind::NotFound, "No such file or directory")),
            ..parent()
        })
        .unwrap_err()
        .message,
        "prefix parent must already exist physically; choose or explicitly prepare a parent: \
         No such file or directory"
    );
    assert!(prepare(ParentLook {
        local: Ok(false),
        ..parent()
    })
    .is_err());
    assert_eq!(
        prepare(ParentLook {
            euid: 0,
            ..parent()
        })
        .unwrap_err()
        .kind,
        ErrorKind::PermissionDenied
    );
}
