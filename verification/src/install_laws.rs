//! What holds of every decision about the dedicated installation.

use crate::digest;
use crate::error::{Error, ErrorKind};
use crate::handles;
use crate::handles::{FileRead, LifecycleRead, OpenLook, SourceOpenLook};
use crate::hex;
use crate::installation;
use crate::installation::{
    ArtifactMetadata, Held, HeldKind, Identity, NameEntry, OutcomeState, Snapshot, UpdatePolicy,
};
use crate::lifecycle;
use crate::lifecycle::{
    Evidence, LifecycleOutcome, LifecycleRecord, LifecycleStage, RecoverMode,
    StagedArtifactRecord, StagedLook, StagedPresence,
};
use crate::macho;
use crate::macho::{TargetMetadata, Walk};
use crate::model::Host;
use crate::operation;
use crate::operation::{Progress, Run, Step, StepEvent};
use crate::package;
use crate::package::{FileSize, Receipt};
use crate::path;
use crate::plan;
use crate::plan::{GateLook, InstallLook, ParentLook, SourceImage};
use crate::recover;
use crate::recover::{Fault, GuardLook, RecoveryLooks};
use crate::removal;
use crate::removal::RecoverLook;
use crate::update;
use crate::update::{UpdateLook, UpdatePlan};
use crate::verify;
use crate::verify::{HeldPackage, PackageLook};
use crate::version;
use crate::version::{Sign, VersionOrder};
use vstd::prelude::*;
use vstd::string::*;

verus! {

/// Whether an image is known to run here: its header was verified, it is made for macOS and for
/// the architecture that runs, and its minimum system is known.
pub open spec fn runs_here(
    verified_macho: bool,
    candidate: ArtifactMetadata,
    running_arch: Seq<char>,
) -> bool {
    &&& verified_macho
    &&& candidate.target_os@ == "macos"@
    &&& candidate.target_arch@ == running_arch
    &&& candidate.min_macos is Some
}

/// An update may run exactly if nothing is left to recover, the candidate is known to run here,
/// the installed layout is one of the two known, and the candidate is the installed release, or
/// newer, or older where that is allowed, or of the same version where the bytes are the same
/// or a replacement is allowed.
pub proof fn only_compatible_updates_run(
    gate: Option<Seq<char>>,
    verified_macho: bool,
    current: ArtifactMetadata,
    candidate: ArtifactMetadata,
    policy: UpdatePolicy,
    running_arch: Seq<char>,
    order: VersionOrder,
)
    ensures
        update::decision_of(
            gate,
            verified_macho,
            current,
            candidate,
            policy,
            running_arch,
            order,
        ).0 <==> {
            &&& gate is None
            &&& runs_here(verified_macho, candidate, running_arch)
            &&& current.ownership_layout@ == "dedicated-macos-v1"@ || current.ownership_layout@
                == "dedicated-macos-v2"@
            &&& {
                ||| current.sha256@ == candidate.sha256@ && current.version@ == candidate.version@
                ||| order == VersionOrder::Newer
                ||| order == VersionOrder::Older && policy.allow_downgrade
                ||| order == VersionOrder::Equal && (policy.allow_same_version_replace
                    || current.sha256@ == candidate.sha256@)
            }
        },
{
}

/// A refused update says why: what is left to recover comes first, then what is not known of
/// the candidate, then its system, its architecture and its minimum system, then the installed
/// layout, and last the order of the versions.
pub proof fn refused_updates_say_why(
    gate: Option<Seq<char>>,
    verified_macho: bool,
    current: ArtifactMetadata,
    candidate: ArtifactMetadata,
    policy: UpdatePolicy,
    running_arch: Seq<char>,
    order: VersionOrder,
)
    ensures
        ({
            let said = update::decision_of(
                gate,
                verified_macho,
                current,
                candidate,
                policy,
                running_arch,
                order,
            ).1;
            &&& gate matches Some(reason) ==> said == reason
            &&& gate is None && !verified_macho ==> said
                == "candidate Mach-O metadata is unavailable; compatibility is unproven"@
            &&& gate is None && verified_macho && candidate.target_os@ != "macos"@ ==> said
                == "candidate target OS is not macOS"@
            &&& gate is None && verified_macho && candidate.target_os@ == "macos"@
                && candidate.target_arch@ != running_arch ==> said == "candidate arch "@
                + candidate.target_arch@ + " does not match running arch "@ + running_arch
            &&& gate is None && verified_macho && candidate.target_os@ == "macos"@
                && candidate.target_arch@ == running_arch && candidate.min_macos is None ==> said
                == "candidate minOS metadata is unavailable; compatibility is unproven"@
            &&& gate is None && runs_here(verified_macho, candidate, running_arch) && (
            current.ownership_layout@ == "dedicated-macos-v1"@ || current.ownership_layout@
                == "dedicated-macos-v2"@) && !(current.sha256@ == candidate.sha256@
                && current.version@ == candidate.version@) ==> {
                &&& order == VersionOrder::Unknown ==> said
                    == "current/candidate versions are not SemVer-orderable"@
                &&& order == VersionOrder::Newer ==> said == "candidate is newer and compatible"@
                &&& order == VersionOrder::Older && !policy.allow_downgrade ==> said
                    == "candidate is older; pass --allow-downgrade to execute"@
            }
        }),
{
}

/// A candidate is newer, older or the same as its semantic version compares with the installed
/// one, and of unknown order exactly if one of the two is no semantic version.
pub proof fn versions_are_ordered_by_precedence(current: Seq<char>, candidate: Seq<char>)
    ensures
        version::version_order(current, candidate) == VersionOrder::Unknown <==> (
        !version::is_semver(current) || !version::is_semver(candidate)),
        version::is_semver(current) && version::is_semver(candidate) ==> {
            let order = version::version_order(current, candidate);
            &&& version::semver_sign(current, candidate) == Sign::Less ==> order
                == VersionOrder::Newer
            &&& version::semver_sign(current, candidate) == Sign::Same ==> order
                == VersionOrder::Equal
            &&& version::semver_sign(current, candidate) == Sign::Greater ==> order
                == VersionOrder::Older
        },
{
}

/// A release name is between one and 128 letters, digits, dots, plus signs, hyphens and
/// underscores.
pub proof fn release_names_are_plain(name: Seq<char>)
    ensures
        version::is_version(name) <==> {
            &&& 1 <= name.len() <= 128
            &&& forall|i: int|
                0 <= i < name.len() ==> {
                    let c = #[trigger] name[i];
                    ('a' <= c <= 'z') || ('A' <= c <= 'Z') || ('0' <= c <= '9') || c == '.' || c
                        == '+' || c == '-' || c == '_'
                }
        },
{
    if version::is_version(name) {
        assert forall|i: int| 0 <= i < name.len() implies {
            let c = #[trigger] name[i];
            ('a' <= c <= 'z') || ('A' <= c <= 'Z') || ('0' <= c <= '9') || c == '.' || c == '+' || c
                == '-' || c == '_'
        } by {
            assert(version::version_char(name[i]));
        }
    }
}

/// A digest is 64 lower-case hexadecimal digits.
pub proof fn digests_are_hexadecimal(digest: Seq<char>)
    ensures
        digest::is_digest_text(digest) <==> {
            &&& digest.len() == 64
            &&& forall|i: int|
                0 <= i < 64 ==> {
                    let c = #[trigger] digest[i];
                    ('0' <= c <= '9') || ('a' <= c <= 'f')
                }
        },
{
    if digest::is_digest_text(digest) {
        assert forall|i: int| 0 <= i < 64 implies {
            let c = #[trigger] digest[i];
            ('0' <= c <= '9') || ('a' <= c <= 'f')
        } by {
            assert(digest::is_hex_digit(digest[i]));
        }
    }
}

/// A path is physical exactly if it starts at the root and neither `.` nor `..` stands between
/// separators anywhere in it.
pub proof fn physical_paths_name_every_step(path: Seq<u8>)
    ensures
        installation::is_physical(path) <==> {
            &&& path.len() > 0 && path[0] == 47
            &&& forall|at: int, end: int|
                #![trigger path.subrange(at, end)]
                0 <= at < end <= path.len() && (at == 0 || path[at - 1] == 47) && (end
                    == path.len() || path[end] == 47) ==> path.subrange(at, end) != seq![46u8]
                    && path.subrange(at, end) != seq![46u8, 46u8]
        },
{
    let dot = seq![46u8];
    let dots = seq![46u8, 46u8];
    if installation::is_physical(path) {
        assert forall|at: int, end: int|
            #![trigger path.subrange(at, end)]
            0 <= at < end <= path.len() && (at == 0 || path[at - 1] == 47) && (end == path.len()
                || path[end] == 47) implies path.subrange(at, end) != dot && path.subrange(at, end)
            != dots by {
            if path.subrange(at, end) == dot {
                assert(path.subrange(at, end).len() == 1);
                assert(path::piece_at(path, dot, at));
            }
            if path.subrange(at, end) == dots {
                assert(path.subrange(at, end).len() == 2);
                assert(path::piece_at(path, dots, at));
            }
        }
    } else if path.len() > 0 && path[0] == 47 {
        if path::has_piece(path, dot) {
            let at = choose|at: int| path::piece_at(path, dot, at);
            assert(path.subrange(at, at + 1) == dot);
        } else {
            assert(path::has_piece(path, dots));
            let at = choose|at: int| path::piece_at(path, dots, at);
            assert(path.subrange(at, at + 2) == dots);
        }
    }
}

/// A prefix can be managed exactly if it is a physical path with a name of its own, nobody acts
/// as root, and its directory could be opened and lies on a local file system.
pub proof fn only_plain_prefixes_are_managed(prefix: Seq<u8>, look: ParentLook)
    ensures
        plan::parent_fault(prefix, look) is None <==> {
            &&& installation::is_physical(prefix)
            &&& look.euid != 0
            &&& path::leaf(prefix).len() > 0
            &&& look.opened is Ok
            &&& look.local == Ok::<bool, Error>(true)
        },
{
}

/// An installation can be prepared exactly on macOS, of a plain release, into a prefix that can
/// be managed, from a physical source that could be read, where no other image or version is
/// installed and the state of an earlier update can be told.
pub proof fn installations_replace_nothing(
    host: Host,
    prefix: Seq<u8>,
    source_path: Seq<u8>,
    version: Seq<char>,
    look: InstallLook,
)
    ensures
        plan::install_fault(host, prefix, source_path, version, look) is None <==> {
            &&& host == Host::MacOs
            &&& version::is_version(version)
            &&& plan::parent_fault(prefix, look.parent) is None
            &&& installation::is_physical(source_path)
            &&& look.source matches Ok(source) && look.existing matches Ok(existing) && (
            existing matches Some(receipt) ==> receipt.sha256@ == source.digest@
                && receipt.executable_bytes == source.bytes && receipt.version@ == version)
            &&& plan::gate_of(path::leaf(prefix), look.gate) is Ok
        },
{
}

/// An update can be prepared exactly on macOS, of a plain release, for a prefix that can be
/// managed, from a physical source that could be read, where the installed package verified and
/// the state of an earlier update can be told.
pub proof fn updates_need_a_verified_package(
    host: Host,
    prefix: Seq<u8>,
    source_path: Seq<u8>,
    version: Seq<char>,
    look: UpdateLook,
)
    ensures
        update::update_fault(host, prefix, source_path, version, look) is None <==> {
            &&& host == Host::MacOs
            &&& version::is_version(version)
            &&& plan::parent_fault(prefix, look.parent) is None
            &&& installation::is_physical(source_path)
            &&& look.source is Ok
            &&& look.package is Ok
            &&& plan::gate_of(path::leaf(prefix), look.gate) is Ok
        },
{
}

/// A removal can be prepared exactly on macOS, for a prefix that can be managed, of a package
/// that verified, where the state of an earlier update can be told.
pub proof fn removals_need_a_verified_package(
    host: Host,
    prefix: Seq<u8>,
    parent: ParentLook,
    package: Result<Receipt, Error>,
    look: GateLook,
)
    ensures
        removal::remove_fault(host, prefix, parent, package, look) is None <==> {
            &&& host == Host::MacOs
            &&& plan::parent_fault(prefix, parent) is None
            &&& package is Ok
            &&& plan::gate_of(path::leaf(prefix), look) is Ok
        },
{
}

/// Nothing but recovery goes on while an update is pending: not while the record is being
/// replaced, not while a record is there that is not of a completed update, and not while a
/// guard is there.
pub proof fn pending_updates_come_first(
    name: Seq<u8>,
    marker: bool,
    record: Option<LifecycleRecord>,
    package: Option<GuardLook>,
    euid: u32,
)
    ensures
        ({
            let gate = recover::gate_plan(name, Ok(marker), Ok(record), package, euid);
            &&& gate == Ok::<Option<Seq<char>>, Fault>(None) ==> {
                &&& !marker
                &&& record matches Some(written) ==> written.stage
                    == LifecycleStage::OutcomeRecorded && written.shape_fault(name) is None
                &&& record is None ==> (package matches Some(look) ==> look.present == Ok::<
                    bool,
                    Error,
                >(false))
                &&& record matches Some(written) ==> (package matches Some(look) ==> (
                written.guard is None ==> look.present == Ok::<bool, Error>(false)) && (
                written.guard is Some ==> look.file == Ok::<Option<StagedLook>, Error>(None)))
            }
            &&& marker ==> (gate matches Ok(Some(_)))
            &&& !marker && record is None && package is None ==> gate == Ok::<
                Option<Seq<char>>,
                Fault,
            >(None)
            &&& !marker && (record matches Some(written) && written.shape_fault(name) is None
                && written.stage != LifecycleStage::OutcomeRecorded) ==> (gate matches Ok(Some(_)))
            &&& !marker && (record matches Some(written) && written.shape_fault(name) is Some)
                ==> gate is Err
            &&& !marker && (record matches Some(written) && written.shape_fault(name) is None
                && written.stage == LifecycleStage::OutcomeRecorded) && package is None ==> gate
                == Ok::<Option<Seq<char>>, Fault>(None)
        }),
{
}

/// A staged file is recorded as the engine writes it: under a name of its own without
/// separators, with a digest of 64 bytes, and not empty.
pub open spec fn proper_staged(staged: Option<StagedArtifactRecord>) -> bool {
    &&& staged matches Some(artifact)
    &&& proper_name(artifact)
    &&& artifact.bytes > 0
}

/// Whether the name of a recorded file is one plain component of the engine's own, and its
/// digest is 64 bytes long.
pub open spec fn proper_name(artifact: StagedArtifactRecord) -> bool {
    &&& artifact.name@.len() >= 8
    &&& artifact.name@.subrange(0, 8) == ".sayaka-"@
    &&& !artifact.name@.contains('/')
    &&& !artifact.name@.contains('\0')
    &&& vstd::utf8::encode_utf8(artifact.sha256@).len() == 64
}

proof fn lemma_proper_name(artifact: StagedArtifactRecord)
    ensures
        artifact.is_shaped() == proper_name(artifact),
{
    reveal_strlit(".sayaka-");
    let name = artifact.name@;
    assert(".sayaka-"@.len() == 8);
    if artifact.is_shaped() {
        if name.contains('/') {
            let i = choose|i: int| 0 <= i < name.len() && name[i] == '/';
            assert(name[i] != '/');
        }
        if name.contains('\0') {
            let i = choose|i: int| 0 <= i < name.len() && name[i] == '\0';
            assert(name[i] != '\0');
        }
    } else if proper_name(artifact) {
        assert forall|i: int| 0 <= i < name.len() implies #[trigger] name[i] != '/' && name[i]
            != '\0' by {
            assert(name.contains(name[i]));
        }
    }
}

/// A lifecycle record is accepted exactly if it is the record of an update of this prefix,
/// names both staged files properly or neither before they were staged, names its guard
/// properly, has one until the outcome is recorded, and has an outcome then.
pub proof fn only_own_records_are_accepted(record: LifecycleRecord, name: Seq<u8>)
    ensures
        record.shape_fault(name) is None <==> {
            &&& record.schema_version == 1
            &&& record.action@ == "update"@
            &&& record.prefix_name@ == name
            &&& {
                ||| proper_staged(record.staged_executable) && proper_staged(
                    record.staged_manifest,
                )
                ||| record.staged_executable is None && record.staged_manifest is None
                    && record.stage == LifecycleStage::IntentRecorded
            }
            &&& record.guard matches Some(guard) ==> proper_name(guard)
            &&& record.stage != LifecycleStage::OutcomeRecorded ==> record.guard is Some
            &&& record.stage == LifecycleStage::OutcomeRecorded ==> record.outcome is Some
        },
{
    if let Some(artifact) = record.staged_executable {
        lemma_proper_name(artifact);
    }
    if let Some(artifact) = record.staged_manifest {
        lemma_proper_name(artifact);
    }
    if let Some(artifact) = record.guard {
        lemma_proper_name(artifact);
    }
}

/// An open file is accepted as an artifact exactly if the user owns it, it is a directory or a
/// file with a single name as asked, its permissions are the given ones, and it has no extended
/// access list.
pub proof fn artifacts_have_their_shape(held: Held, euid: u32, directory: bool, mode: u32)
    ensures
        installation::shape_fault(held, euid, directory, mode) is None <==> {
            &&& held.snapshot.identity.uid == euid
            &&& held.snapshot.identity.mode & 0o7777 == mode
            &&& directory ==> held.kind == HeldKind::Directory
            &&& !directory ==> held.kind == HeldKind::File && held.snapshot.links == 1
            &&& !held.extended_acl
        },
{
}

/// A name leads to an open file exactly if device, inode and mode agree.
pub proof fn names_lead_to_what_is_held(entry: NameEntry, identity: Identity)
    ensures
        installation::names(entry, identity) <==> entry.device == identity.device && entry.inode
            == identity.inode && entry.mode == identity.mode,
{
}

/// A staged file is accepted as the recorded one exactly if its size, owner, kind, permissions,
/// identity and digest are the recorded ones and nothing of it changed while it was read.
pub proof fn staged_files_are_unchanged(
    look: StagedLook,
    staged: StagedArtifactRecord,
    mode: u32,
    euid: u32,
)
    ensures
        lifecycle::staged_fault(look, staged, mode, euid) is None <==> {
            let seen = look.held.snapshot;
            &&& seen.bytes == staged.bytes
            &&& seen.identity == staged.identity
            &&& seen.identity.uid == euid
            &&& seen.identity.mode & 0o7777 == mode
            &&& look.held.kind == HeldKind::File
            &&& seen.links == 1
            &&& !look.held.extended_acl
            &&& look.digest matches Ok(found) && found@ == staged.sha256@
            &&& look.after == seen
        },
{
}

/// A guard is accepted as the recorded one exactly if its size, owner, kind, permissions,
/// identity and digest are the recorded ones and nothing of it changed while it was read.
pub proof fn guards_are_unchanged(look: StagedLook, guard: StagedArtifactRecord, euid: u32)
    ensures
        lifecycle::guard_fault(look, guard, euid) is None <==> {
            let seen = look.held.snapshot;
            &&& seen.bytes == guard.bytes
            &&& seen.identity == guard.identity
            &&& seen.identity.uid == euid
            &&& seen.identity.mode & 0o7777 == 0o600
            &&& look.held.kind == HeldKind::File
            &&& seen.links == 1
            &&& !look.held.extended_acl
            &&& seen.bytes == 0 ==> guard.sha256@ == digest::sha256_text(Seq::<u8>::empty())
            &&& seen.bytes > 0 ==> (look.digest matches Ok(found) && found@ == guard.sha256@)
            &&& look.after == seen
        },
{
}

/// The evidence is read off the record, the manifest in place and the digest of the executable:
/// an image is described by a manifest with its digest and its version.
pub proof fn evidence_is_what_is_there(
    record: LifecycleRecord,
    receipt: Receipt,
    digest: Seq<char>,
    executable: StagedPresence,
    manifest: StagedPresence,
    guard: StagedPresence,
)
    ensures
        ({
            let e = recover::evidence_of(record, receipt, digest, executable, manifest, guard);
            &&& e.same_package <==> record.prefix == receipt.prefix && record.lock == receipt.lock
            &&& e.old_manifest <==> receipt.sha256@ == record.current.sha256@ && receipt.version@
                == record.current.version@
            &&& e.new_manifest <==> receipt.sha256@ == record.candidate.sha256@
                && receipt.version@ == record.candidate.version@
            &&& e.executable_is_current <==> digest == record.current.sha256@
            &&& e.executable_is_candidate <==> digest == record.candidate.sha256@
            &&& e.staged_executable == executable
            &&& e.staged_manifest == manifest
            &&& e.guard == guard
            &&& e.stage == record.stage
            &&& e.outcome == record.outcome
        }),
{
}

/// Staged files are abandoned exactly while the record says that they are staged, the installed
/// image stands untouched, and the staged manifest and the guard are still there.
pub proof fn only_uncommitted_updates_are_abandoned(e: Evidence)
    ensures
        e.plan().0 == RecoverMode::AbandonStaged <==> {
            &&& e.same_package
            &&& e.stage == LifecycleStage::StagedRecorded
            &&& e.old_manifest && e.executable_is_current
            &&& e.staged_manifest == StagedPresence::Present
            &&& e.guard == StagedPresence::Present
        },
{
}

/// A staged manifest is moved into place only behind the candidate's executable, over the old
/// manifest and under the guard; exactly where the record says that the executable was
/// committed, or was about to be and has gone.
pub proof fn manifests_follow_their_executable(e: Evidence)
    ensures
        e.plan().0 == RecoverMode::FinalizeManifest <==> {
            &&& e.same_package
            &&& e.executable_is_candidate && e.old_manifest
            &&& e.guard == StagedPresence::Present
            &&& {
                ||| e.stage == LifecycleStage::BinaryCommitted && (e.staged_manifest
                    == StagedPresence::Present || e.new_manifest)
                ||| e.stage == LifecycleStage::StagedRecorded && e.staged_executable
                    == StagedPresence::Missing && e.staged_manifest == StagedPresence::Present
                    && !e.executable_is_current
            }
        },
{
}

/// An outcome is confirmed only under a guard, and only where executable and manifest are both
/// the old ones with nothing staged, or both the new ones.
pub proof fn only_whole_images_are_confirmed(e: Evidence)
    ensures
        e.plan().0 == RecoverMode::ConfirmOutcome ==> {
            &&& e.same_package
            &&& e.guard == StagedPresence::Present
            &&& {
                ||| e.old_manifest && e.executable_is_current && e.staged_executable
                    == StagedPresence::Missing && e.staged_manifest == StagedPresence::Missing
                ||| e.new_manifest && e.executable_is_candidate
            }
        },
        e.same_package && e.guard == StagedPresence::Present && e.new_manifest
            && e.executable_is_candidate && !e.old_manifest && e.staged_executable
            == StagedPresence::Missing && e.staged_manifest == StagedPresence::Missing && (e.stage
            == LifecycleStage::StagedRecorded || e.stage == LifecycleStage::BinaryCommitted
            || e.stage == LifecycleStage::ManifestCommitted || (e.stage
            == LifecycleStage::OutcomeRecorded && e.outcome == Some(
            LifecycleOutcome::CandidatePublished,
        ))) ==> e.plan().0 == RecoverMode::ConfirmOutcome,
        e.same_package && e.guard == StagedPresence::Present && e.old_manifest
            && e.executable_is_current && e.staged_executable == StagedPresence::Missing
            && e.staged_manifest == StagedPresence::Missing && (e.stage
            == LifecycleStage::StagedRecorded || (e.stage == LifecycleStage::OutcomeRecorded
            && e.outcome == Some(LifecycleOutcome::StagingAbandoned))) ==> e.plan().0
            == RecoverMode::ConfirmOutcome,
{
}

/// There is nothing to recover only after an outcome was recorded and the guard has gone: of
/// another package where nothing of the update is left, or of this one with the image that the
/// outcome speaks of.
pub proof fn finished_updates_need_no_recovery(e: Evidence)
    ensures
        e.plan().0 == RecoverMode::Nothing <==> {
            &&& e.stage == LifecycleStage::OutcomeRecorded
            &&& e.guard == StagedPresence::Missing
            &&& if e.same_package {
                ||| e.outcome == Some(LifecycleOutcome::CandidatePublished) && e.new_manifest
                    && e.executable_is_candidate
                ||| e.outcome == Some(LifecycleOutcome::StagingAbandoned) && e.old_manifest
                    && e.executable_is_current && e.staged_executable == StagedPresence::Missing
                    && e.staged_manifest == StagedPresence::Missing
            } else {
                e.staged_executable == StagedPresence::Missing && e.staged_manifest
                    == StagedPresence::Missing
            }
        },
        !e.same_package && e.stage != LifecycleStage::OutcomeRecorded ==> e.plan().0
            == RecoverMode::Manual,
        e.stage == LifecycleStage::IntentRecorded ==> e.plan().0 == RecoverMode::Manual,
{
}

/// Recovery is never decided on a record that is being replaced, on one that is not the
/// engine's own, or on a file that is not the recorded one.
pub proof fn doubtful_evidence_is_never_acted_on(
    name: Seq<u8>,
    receipt: Receipt,
    marker: bool,
    record: Option<LifecycleRecord>,
    looks: RecoveryLooks,
    euid: u32,
)
    ensures
        ({
            let plan = recover::recovery_plan(name, receipt, marker, record, looks, euid);
            &&& marker ==> (plan matches Ok((mode, _)) && mode == RecoverMode::Manual)
            &&& !marker && record is None ==> match looks.guard.present {
                Err(error) => plan == Err::<(RecoverMode, Seq<char>), Fault>(
                    (error.kind, error.message@),
                ),
                Ok(there) => plan matches Ok((mode, _)) && mode == if there {
                    RecoverMode::Manual
                } else {
                    RecoverMode::Nothing
                },
            }
            &&& !marker && (record matches Some(written) && written.shape_fault(name) is Some)
                ==> plan is Err
            &&& !marker && looks.executable_digest is Err && record is Some ==> plan is Err
            &&& !marker && (record matches Some(written) && written.staged_executable matches Some(
                staged,
            ) && looks.staged_executable matches Ok(Some(seen)) && lifecycle::staged_fault(
                seen,
                staged,
                0o700,
                euid,
            ) is Some) ==> plan is Err
            &&& !marker && (record matches Some(written) && written.staged_manifest matches Some(
                staged,
            ) && looks.staged_manifest matches Ok(Some(seen)) && lifecycle::staged_fault(
                seen,
                staged,
                0o600,
                euid,
            ) is Some) ==> plan is Err
            &&& !marker && (record matches Some(written) && written.guard matches Some(guard)
                && looks.guard.file matches Ok(Some(seen)) && lifecycle::guard_fault(
                seen,
                guard,
                euid,
            ) is Some) ==> plan is Err
        }),
{
}

/// A package verifies exactly if it is whole and its own: at the start of a removal or at any
/// other time, directory, `bin`, executable, manifest and lock are the recorded ones, the lock
/// is empty, the guard is the one that is held or is not there, and the executable has the
/// recorded size and digest.
pub proof fn whole_packages_verify(
    look: PackageLook,
    receipt: Receipt,
    held: HeldPackage,
    euid: u32,
)
    ensures
        verify::package_fault(look, receipt, held, 0, true, euid) is None <==> {
            &&& !look.cancelled_before && !look.cancelled_after
            &&& look.parent_unchanged == Ok::<bool, Error>(true)
            &&& verify::artifact_fault(look.root, euid, true, 0o700) is None
                && look.root.held->Ok_0.snapshot.identity == receipt.prefix
            &&& verify::artifact_fault(look.bin, euid, true, 0o700) is None
                && look.bin.held->Ok_0.snapshot.identity == receipt.bin
            &&& verify::listing_fault(
                look.root_entries,
                verify::expected_names(0, held.guard is Some),
            ) is None
            &&& verify::listing_fault(look.bin_entries, seq!["sayaka".spec_bytes()]) is None
            &&& verify::artifact_fault(look.executable, euid, false, 0o700) is None
                && look.executable.held->Ok_0.snapshot == held.executable
                && held.executable.identity == receipt.executable
            &&& verify::artifact_fault(look.manifest, euid, false, 0o600) is None
                && look.manifest.held->Ok_0.snapshot == held.manifest && held.manifest.identity
                == receipt.manifest
            &&& verify::artifact_fault(look.lock, euid, false, 0o600) is None
                && look.lock.held->Ok_0.snapshot == held.lock && held.lock.identity
                == receipt.lock
            &&& held.lock.bytes == 0
            &&& held.guard matches Some(guard) ==> verify::artifact_fault(
                look.guard,
                euid,
                false,
                0o600,
            ) is None && look.guard.held->Ok_0.snapshot == guard
            &&& held.guard is None ==> look.guard_present == Ok::<bool, Error>(false)
            &&& held.executable.bytes == receipt.executable_bytes
            &&& look.payload matches Ok(found) && found@ == receipt.sha256@
            &&& look.executable_after == held.executable
        },
{
}

/// What is left of a package while it is removed: the executable goes first, then `bin`, the
/// lock and the manifest, and what is left is still the recorded one.
pub proof fn partial_packages_are_what_is_left(
    look: PackageLook,
    receipt: Receipt,
    held: HeldPackage,
    removed: int,
    strict: bool,
    euid: u32,
)
    requires
        0 <= removed,
        verify::package_fault(look, receipt, held, removed, strict, euid) is None,
    ensures
        removed <= 4,
        look.root.held matches Ok(root) && root.snapshot.identity == receipt.prefix,
        removed < 2 ==> (look.bin.held matches Ok(bin) && bin.snapshot.identity == receipt.bin),
        removed < 3 ==> (look.lock.held matches Ok(lock) && lock.snapshot == held.lock
            && held.lock.identity == receipt.lock && held.lock.bytes == 0),
        removed < 4 ==> (look.manifest.held matches Ok(manifest) && manifest.snapshot
            == held.manifest && held.manifest.identity == receipt.manifest),
        look.root_entries is Ok,
        verify::expected_names(removed, held.guard is Some).len() == if removed < 2 {
            if held.guard is Some {
                4int
            } else {
                3
            }
        } else if removed == 2 {
            2
        } else if removed == 3 {
            1
        } else {
            0
        },
{
}

/// A name leads to an artifact exactly if it and what it leads to could be looked at, are one
/// file, and have the shape that is asked for.
pub proof fn artifacts_are_named_and_shaped(
    look: verify::ArtifactLook,
    euid: u32,
    directory: bool,
    mode: u32,
)
    ensures
        verify::artifact_fault(look, euid, directory, mode) is None <==> {
            &&& look.entry matches Ok(entry) && look.held matches Ok(held) && entry.device
                == held.snapshot.identity.device && entry.inode == held.snapshot.identity.inode
                && entry.mode == held.snapshot.identity.mode && installation::shape_fault(
                held,
                euid,
                directory,
                mode,
            ) is None
        },
{
}

/// A directory listing is accepted exactly if it holds, beside itself and its parent, as many
/// names as are expected, and every one of them is expected.
pub proof fn listings_hold_nothing_else(entries: Vec<Vec<u8>>, expected: Seq<Seq<u8>>)
    ensures
        verify::listing_fault(Ok(entries), expected) is None <==> {
            let names = path::views(entries@).filter(
                |name: Seq<u8>| name != seq![46u8] && name != seq![46u8, 46u8],
            );
            &&& names.len() == expected.len()
            &&& forall|i: int| 0 <= i < names.len() ==> expected.contains(#[trigger] names[i])
        },
{
    assert(installation::listed(path::views(entries@)) == path::views(entries@).filter(
        |name: Seq<u8>| name != seq![46u8] && name != seq![46u8, 46u8],
    ));
}

/// A package holds its `bin`, its manifest and its lock, and its guard while there is one.
pub proof fn packages_hold_their_files(guarded: bool)
    ensures
        ({
            let names = verify::expected_names(0, guarded);
            &&& names[0] == "bin".spec_bytes()
            &&& names[1] == "ownership-v1.json".spec_bytes()
            &&& names[2] == ".lock".spec_bytes()
            &&& guarded ==> names.len() == 4 && names[3] == ".sayaka-update-guard-v1".spec_bytes()
            &&& !guarded ==> names.len() == 3
        }),
        verify::expected_names(2, guarded) == seq![
            "ownership-v1.json".spec_bytes(),
            ".lock".spec_bytes(),
        ],
        verify::expected_names(3, guarded) == seq!["ownership-v1.json".spec_bytes()],
        verify::expected_bin(1) == Seq::<Seq<u8>>::empty(),
{
}

/// A manifest is accepted exactly if it names a plain release, a digest and a bounded size, and
/// has one of the two layouts whole.
pub proof fn manifests_are_whole(receipt: Receipt)
    ensures
        receipt.is_valid() <==> {
            &&& version::is_version(receipt.version@)
            &&& digest::is_digest_text(receipt.sha256@)
            &&& 1 <= receipt.executable_bytes <= 268_435_456
            &&& {
                ||| receipt.schema_version == 1 && receipt.profile@ == "dedicated-macos-v1"@
                ||| receipt.schema_version == 2 && receipt.profile@ == "dedicated-macos-v2"@ && (
                receipt.target_os matches Some(os) && os@ == "macos"@) && receipt.target_arch is Some
                    && receipt.min_macos is Some && (receipt.ownership_layout matches Some(layout)
                    && layout@ == "dedicated-macos-v2"@) && (
                receipt.lifecycle_contract matches Some(contract) && contract@
                    == "local-update-recover-v1"@)
            }
        },
{
}

/// An executable can be copied exactly if it is a file with a single name that the user owns,
/// can read and run, that nobody else can write, without special bits, and of a bounded size.
pub proof fn sources_are_private_executables(held: Held, euid: u32)
    ensures
        package::is_source(held, euid) <==> {
            &&& held.kind == HeldKind::File
            &&& held.snapshot.links == 1
            &&& held.snapshot.identity.uid == euid
            &&& held.snapshot.identity.mode & 0o7022 == 0
            &&& held.snapshot.identity.mode & 0o500 == 0o500
            &&& 1 <= held.snapshot.bytes <= 268_435_456
        },
{
}

/// The second layout is written exactly for an image that is known to run here.
pub proof fn second_layout_needs_a_known_target(target: TargetMetadata, running_arch: Seq<char>)
    ensures
        package::writes_second_layout(target, running_arch) <==> target.verified_macho
            && target.target_os@ == "macos"@ && target.target_arch@ == running_arch
            && target.min_macos is Some,
{
}

/// The space of a package is told exactly if both sums fit; the first sum that does not is
/// named.
pub proof fn footprints_fit_or_say_which_does_not(a: FileSize, b: FileSize, c: FileSize)
    ensures
        package::footprint_fault(a, b, c) is None <==> {
            &&& a.bytes + b.bytes + c.bytes <= u64::MAX
            &&& 512 * a.blocks + 512 * b.blocks + 512 * c.blocks <= u64::MAX
        },
        a.bytes + b.bytes > u64::MAX && 512 * a.blocks <= u64::MAX ==> package::footprint_fault(
            a,
            b,
            c,
        ) == Some("logical footprint overflow"@),
        512 * a.blocks > u64::MAX ==> package::footprint_fault(a, b, c) == Some(
            "allocated footprint overflow"@,
        ),
{
}

/// Only what was asked for exits with zero: a refused or incomplete operation with one, a
/// cancelled one with 130.
pub proof fn exit_codes_tell_success(status: OutcomeState)
    ensures
        installation::outcome_code(status) == 0 <==> status != OutcomeState::Refused && status
            != OutcomeState::Incomplete && status != OutcomeState::Cancelled,
        installation::outcome_code(status) == 130 <==> status == OutcomeState::Cancelled,
        installation::outcome_code(status) == 1 <==> status == OutcomeState::Refused || status
            == OutcomeState::Incomplete,
{
}

/// The processor of an image decides its architecture, and no other than the two is known.
pub proof fn two_processors_are_known(cpu: u32)
    ensures
        cpu == 0x0100_0007 ==> macho::arch_name(cpu) == Some("x86_64"@),
        cpu == 0x0100_000c ==> macho::arch_name(cpu) == Some("aarch64"@),
        macho::arch_name(cpu) is Some <==> cpu == 0x0100_0007 || cpu == 0x0100_000c,
{
}

/// A header is that of a universal image by any of four beginnings, and that of a thin one by
/// any of two.
pub proof fn images_are_told_by_their_first_bytes(header: Seq<u8>)
    requires
        header.len() >= 4,
    ensures
        macho::is_fat(header) <==> {
            let first = seq![header[0], header[1], header[2], header[3]];
            ||| first == seq![0xcau8, 0xfe, 0xba, 0xbe]
            ||| first == seq![0xcau8, 0xfe, 0xba, 0xbf]
            ||| first == seq![0xbeu8, 0xba, 0xfe, 0xca]
            ||| first == seq![0xbfu8, 0xba, 0xfe, 0xca]
        },
        macho::is_thin(header) <==> {
            let first = seq![header[0], header[1], header[2], header[3]];
            ||| first == seq![0xceu8, 0xfa, 0xed, 0xfe]
            ||| first == seq![0xcfu8, 0xfa, 0xed, 0xfe]
        },
{
    let first = seq![header[0], header[1], header[2], header[3]];
    if macho::is_fat(header) {
        assert(first =~= seq![0xcau8, 0xfe, 0xba, 0xbe] || first =~= seq![0xcau8, 0xfe, 0xba, 0xbf]
            || first =~= seq![0xbeu8, 0xba, 0xfe, 0xca] || first
            =~= seq![0xbfu8, 0xba, 0xfe, 0xca]);
    } else {
        assert(first[0] == header[0] && first[1] == header[1] && first[2] == header[2] && first[3]
            == header[3]);
    }
    if macho::is_thin(header) {
        assert(first =~= seq![0xceu8, 0xfa, 0xed, 0xfe] || first
            =~= seq![0xcfu8, 0xfa, 0xed, 0xfe]);
    }
}

/// Walking on past a command that holds a minimum system makes that the one that is known; any
/// other command leaves it as it was, and a command that does not fit ends the walk.
pub proof fn the_last_minimum_system_counts(
    commands: Seq<u8>,
    offset: int,
    count: nat,
    found: Option<u32>,
)
    requires
        0 <= offset,
        count > 0,
    ensures
        offset + 8 > commands.len() ==> macho::walk(commands, offset, count, found)
            == Walk::Truncated,
        offset + 8 <= commands.len() ==> {
            let kind = macho::le_u32(commands, offset);
            let size = macho::le_u32(commands, offset + 4);
            let rest = (count - 1) as nat;
            &&& size < 8 || offset + size > commands.len() ==> macho::walk(
                commands,
                offset,
                count,
                found,
            ) == Walk::BadSize
            &&& 16 <= size && offset + size <= commands.len() && kind == 0x32 ==> macho::walk(
                commands,
                offset,
                count,
                found,
            ) == macho::walk(
                commands,
                offset + size,
                rest,
                Some(macho::le_u32(commands, offset + 12) as u32),
            )
            &&& 16 <= size && offset + size <= commands.len() && kind == 0x24 ==> macho::walk(
                commands,
                offset,
                count,
                found,
            ) == macho::walk(
                commands,
                offset + size,
                rest,
                Some(macho::le_u32(commands, offset + 8) as u32),
            )
            &&& 8 <= size && offset + size <= commands.len() && (size < 16 || (kind != 0x32 && kind
                != 0x24)) ==> macho::walk(commands, offset, count, found) == macho::walk(
                commands,
                offset + size,
                rest,
                found,
            )
        },
        macho::walk(commands, offset, 0, found) == Walk::Found(found),
{
}

/// A removal takes its parts away in one order, each after the rest was verified with exactly
/// that many parts gone, and syncs behind each.
pub proof fn removals_verify_what_is_left(p: int)
    requires
        0 <= p < removal::remove_steps().len(),
    ensures
        ({
            let steps = removal::remove_steps();
            &&& steps[0] == (Step::Verify { removed: 0 })
            &&& steps[p] == Step::Detach ==> exists|q: int|
                0 <= q < p && #[trigger] steps[q] == Step::RequireAbsent
            &&& steps[p] == Step::RemoveExecutable ==> steps[p - 1] == (Step::Verify {
                removed: 0,
            }) && steps[p + 1] == Step::SyncBin
            &&& steps[p] == Step::RemoveBin ==> steps[p - 1] == (Step::Verify { removed: 1 })
                && steps[p + 1] == Step::SyncRoot
            &&& steps[p] == Step::RemoveLock ==> steps[p - 1] == (Step::Verify { removed: 2 })
                && steps[p + 1] == Step::SyncRoot
            &&& steps[p] == Step::RemoveManifest ==> steps[p - 1] == (Step::Verify { removed: 3 })
                && steps[p + 1] == Step::SyncRoot
            &&& steps[p] == Step::RemoveRoot ==> steps[p - 1] == (Step::Verify { removed: 4 })
                && steps[p + 1] == Step::SyncParent
        }),
{
    let steps = removal::remove_steps();
    assert(steps[2] == Step::RequireAbsent);
}

/// A parent counts as unmoved exactly if its name and the open directory both still lead to
/// what was recorded.
pub proof fn unmoved_parents_are_the_recorded_ones(
    recorded: Identity,
    named: Result<Identity, Error>,
    held: Result<Identity, Error>,
)
    ensures
        handles::moved_fault(recorded, named, held) is None <==> named == Ok::<Identity, Error>(
            recorded,
        ) && held == Ok::<Identity, Error>(recorded),
{
}

/// A source is opened exactly if its target and itself could be looked at, it is a private
/// executable without an extended access list, and it did not change while it was read.
pub proof fn opened_sources_are_unchanged(look: SourceOpenLook, euid: u32)
    ensures
        handles::source_open_fault(look, euid) is None <==> {
            &&& look.target is Ok
            &&& look.held matches Ok(held) && package::is_source(held, euid) && !held.extended_acl
                && look.digest is Ok && look.after == Ok::<Snapshot, Error>(held.snapshot)
        },
{
}

/// A private file is read exactly if it has its shape, is no larger than allowed before and
/// after it was read, and did not change meanwhile.
pub proof fn private_files_are_read_whole(
    read: FileRead,
    euid: u32,
    bound: u64,
    too_large: Seq<char>,
    changed: Seq<char>,
)
    ensures
        handles::read_fault(read, euid, bound, too_large, changed) is None <==> {
            &&& installation::shape_fault(read.held, euid, false, 0o600) is None
            &&& read.held.snapshot.bytes <= bound
            &&& read.length matches Ok(length) && length <= bound
            &&& read.after == Ok::<Snapshot, Error>(read.held.snapshot)
        },
{
}

/// A lifecycle record is read exactly if there is none, or if it is a private file of bounded
/// size that can be parsed.
pub proof fn lifecycle_records_are_read_or_absent(read: LifecycleRead, euid: u32)
    ensures
        handles::lifecycle_fault(read, euid) is None <==> match read.file {
            Err(error) => error.kind == ErrorKind::NotFound,
            Ok(file) => handles::read_fault(
                file,
                euid,
                installation::MAX_LIFECYCLE,
                "lifecycle record exceeds size bound"@,
                "lifecycle record changed during read"@,
            ) is None && read.parsed is Ok,
        },
{
}

/// A package is opened exactly if its directory and its lock have their shape, it holds what is
/// expected and nothing else, the lock could be taken, every file has its shape, the manifest is
/// sound, and the whole verifies.
pub proof fn opened_packages_are_claimed_whole(look: OpenLook, require_payload: bool, euid: u32)
    ensures
        handles::open_fault(look, require_payload, euid) is None <==> {
            &&& handles::held_fault(look.root, euid, true, 0o700) is None
            &&& look.guard_named is Ok
            &&& verify::listing_fault(
                look.root_entries,
                verify::expected_names(0, look.guard_named->Ok_0),
            ) is None
            &&& handles::held_fault(look.lock, euid, false, 0o600) is None
            &&& look.locked is Ok
            &&& handles::held_fault(look.bin, euid, true, 0o700) is None
            &&& handles::held_fault(look.executable, euid, false, 0o700) is None
            &&& match look.guard {
                Err(error) => error.kind == ErrorKind::NotFound,
                Ok(guard) => installation::shape_fault(guard, euid, false, 0o600) is None
                    && look.guard_now is Ok,
            }
            &&& handles::manifest_fault(look, euid) is None
            &&& look.executable_now is Ok
            &&& look.lock_now is Ok
            &&& verify::package_fault(
                look.package,
                look.parsed->Ok_0,
                handles::held_of(look),
                0,
                require_payload,
                euid,
            ) is None
        },
        look.locked is Err ==> handles::open_fault(look, require_payload, euid) is Some,
{
}

/// An update changes the installed image only behind the record of what it is about to do: the
/// guard comes first, the staged files are recorded before either is moved, the executable is
/// recorded as committed before the manifest follows, and the guard goes last.
pub proof fn updates_record_before_they_change(p: int)
    requires
        0 <= p < update::replacing_steps().len(),
    ensures
        ({
            let steps = update::replacing_steps();
            &&& steps[p] == Step::CreateGuard ==> p == 3 && steps[1] == (Step::Verify {
                removed: 0,
            })
            &&& steps[p] == (Step::Record { stage: LifecycleStage::IntentRecorded }) ==> steps[p
                - 1] == Step::CreateGuard
            &&& steps[p] == (Step::Record { stage: LifecycleStage::StagedRecorded }) ==> steps[p
                - 1] == Step::SyncStaged && steps[p - 2] == Step::StageManifest && steps[p - 3]
                == Step::StageExecutable && steps[p - 4] == (Step::Record {
                stage: LifecycleStage::IntentRecorded,
            })
            &&& steps[p] == Step::RenameExecutable ==> steps[p - 1] == Step::HashSource && steps[p
                - 2] == (Step::Verify { removed: 0 }) && steps[p - 3] == (Step::Record {
                stage: LifecycleStage::StagedRecorded,
            }) && steps[p + 1] == Step::SyncBin
            &&& steps[p] == Step::RenameManifest ==> steps[p - 1] == (Step::Record {
                stage: LifecycleStage::BinaryCommitted,
            }) && steps[p + 1] == Step::SyncRoot && steps[p + 2] == (Step::Record {
                stage: LifecycleStage::ManifestCommitted,
            })
            &&& steps[p] == (Step::Record { stage: LifecycleStage::OutcomeRecorded }) ==> steps[p
                - 1] == Step::Measure && steps[p - 2] == (Step::Verify { removed: 0 }) && steps[p
                - 3] == Step::FinalFullSync
            &&& steps[p] == Step::RemoveGuard ==> steps[p - 1] == Step::CheckGuard && steps[p - 2]
                == (Step::Record { stage: LifecycleStage::OutcomeRecorded }) && p
                == steps.len() - 2
        }),
{
}

/// A recovery changes files only as its mode says: it takes both staged files away, or moves the
/// manifest behind the executable that it checked, or leaves all as it is; it always reopens the
/// package and makes it durable, and removes the guard only behind the recorded outcome.
pub proof fn recoveries_do_what_their_mode_says(
    mode: RecoverMode,
    record: Option<LifecycleRecord>,
    p: int,
)
    requires
        0 <= p < removal::recover_steps(mode, record).len(),
    ensures
        ({
            let steps = removal::recover_steps(mode, record);
            &&& steps[p] == Step::UnlinkStagedExecutable ==> mode == RecoverMode::AbandonStaged
                && steps[p - 1] == Step::CheckStagedExecutable
            &&& steps[p] == Step::UnlinkStagedManifest ==> mode == RecoverMode::AbandonStaged
                && steps[p - 1] == Step::CheckStagedManifest
            &&& steps[p] == Step::RenameManifest ==> mode == RecoverMode::FinalizeManifest && steps[p
                - 1] == Step::CheckExecutable && steps[p - 2] == Step::CheckStagedManifest
            &&& mode == RecoverMode::AbandonStaged ==> steps[1] == Step::UnlinkStagedExecutable
                && steps[3] == Step::UnlinkStagedManifest
            &&& mode == RecoverMode::FinalizeManifest ==> steps[2] == Step::RenameManifest
            &&& steps[p] != Step::RenameExecutable && steps[p] != Step::Publish && steps[p]
                != Step::RemoveExecutable && steps[p] != Step::RemoveRoot
            &&& steps[p] == Step::RemoveGuard ==> (record matches Some(written) && written.guard
                is Some) && steps[p - 1] == Step::CheckGuard
            &&& steps[p] == (Step::Record { stage: LifecycleStage::OutcomeRecorded }) ==> steps[p
                - 1] == Step::DecideOutcome
            &&& steps.last() == Step::Measure
        }),
{
    let steps = removal::recover_steps(mode, record);
    let a = removal::mode_steps(mode);
    let b = a + seq![Step::Reopen];
    let c = b + plan::barriers();
    let d = c + removal::outcome_steps(mode, record);
    let e = d + removal::guard_steps(record);
    assert(steps == e + seq![Step::Measure]);
    if p < a.len() {
        assert(steps[p] == a[p]);
        assert(a.len() == 4);
        assert(steps[0] == a[0] && steps[1] == a[1] && steps[2] == a[2] && steps[3] == a[3]);
    } else if p < b.len() {
        assert(steps[p] == Step::Reopen);
    } else if p < c.len() {
        assert(steps[p] == plan::barriers()[p - b.len()]);
    } else if p < d.len() {
        assert(steps[p] == removal::outcome_steps(mode, record)[p - c.len()]);
        if p > c.len() {
            assert(steps[p - 1] == removal::outcome_steps(mode, record)[p - 1 - c.len()]);
        }
    } else if p < e.len() {
        assert(steps[p] == removal::guard_steps(record)[p - d.len()]);
        if p > d.len() {
            assert(steps[p - 1] == removal::guard_steps(record)[p - 1 - d.len()]);
        }
    }
    if a.len() == 4 {
        assert(steps[1] == a[1] && steps[2] == a[2] && steps[3] == a[3]);
    }
}

/// An outcome is written by a recovery wherever one is not recorded yet or files were changed.
pub proof fn recoveries_write_their_outcome(mode: RecoverMode, record: LifecycleRecord)
    ensures
        removal::writes_outcome(mode, None) == false,
        removal::writes_outcome(mode, Some(record)) <==> record.stage
            != LifecycleStage::OutcomeRecorded || mode == RecoverMode::AbandonStaged || mode
            == RecoverMode::FinalizeManifest,
{
}

/// A durable package is synced from its files up to the directory that holds it, and last the
/// whole file system.
pub proof fn packages_are_synced_from_the_inside()
    ensures
        plan::barriers() == seq![
            Step::SyncExecutable,
            Step::SyncManifest,
            Step::SyncLock,
            Step::SyncBin,
            Step::SyncRoot,
            Step::SyncParent,
            Step::FinalFullSync,
        ],
        forall|p: int|
            0 <= p < 14 ==> #[trigger] plan::fresh_steps()[p] != Step::SyncParent
                && plan::fresh_steps()[p] != Step::Measure,
        plan::fresh_steps()[13] == Step::Publish,
        plan::fresh_steps()[12] == Step::RequireAbsent,
        plan::fresh_steps()[11] == Step::VerifyStage,
{
}

/// What was changed before a failure is said; a failure before anything was changed leaves
/// nothing to say but itself.
pub proof fn failures_before_the_boundary_are_plain_errors(
    run: Run,
    kind: ErrorKind,
    message: Seq<char>,
    progress: Progress,
)
    requires
        run.fails_with(kind, message, progress),
    ensures
        progress is Failed <==> run.position < run.boundary,
        progress matches Progress::Failed(error) ==> error.kind == kind && error.message@
            == message,
        progress matches Progress::Ended(outcome) ==> outcome.status == OutcomeState::Incomplete
            && (outcome.error matches Some(text) && text@ == message) && outcome.logical_bytes
            is None && outcome.recovery_paths == (if run.position <= run.turn {
            run.early
        } else {
            run.late
        }),
{
}

/// The outcome that is recorded is that of the image that is in place: the candidate's where it
/// is described, the old one's where that is, and none where it is neither.
pub proof fn outcomes_tell_what_is_in_place(run: Run, record: LifecycleRecord, receipt: Receipt)
    requires
        run.record == Some(record),
    ensures
        ({
            let event = StepEvent::InPlace(receipt);
            let new = receipt.sha256@ == record.candidate.sha256@ && receipt.version@
                == record.candidate.version@;
            let old = receipt.sha256@ == record.current.sha256@ && receipt.version@
                == record.current.version@;
            &&& run.is_stranger(event) <==> !new && !old
            &&& new ==> (run.recorded(event) matches Some(next) && next.outcome == Some(
                LifecycleOutcome::CandidatePublished,
            ))
            &&& !new ==> (run.recorded(event) matches Some(next) && next.outcome == Some(
                LifecycleOutcome::StagingAbandoned,
            ))
        }),
{
}

/// A candidate is described by what was read of its source, in the second layout.
pub proof fn candidates_are_described_by_their_source(
    source: SourceImage,
    version: Seq<char>,
    metadata: ArtifactMetadata,
)
    requires
        plan::describes_source(source, version, metadata),
    ensures
        metadata.version@ == version,
        metadata.sha256 == source.digest,
        metadata.executable_bytes == source.bytes,
        metadata.target_os == source.target.target_os,
        metadata.target_arch == source.target.target_arch,
        metadata.min_macos == source.target.min_macos,
        metadata.ownership_layout@ == "dedicated-macos-v2"@,
        metadata.lifecycle_contract@ == "local-update-recover-v1"@,
        metadata.source_trust@ == "local running executable copied from "@ + source.display@,
{
}

/// The lifecycle record of a prefix is a hidden file beside it, named after the digits of its
/// name, so that no two prefixes share one.
pub proof fn lifecycle_records_are_named_after_their_prefix(a: Seq<u8>, b: Seq<u8>)
    ensures
        plan::lifecycle_name_of(a) == vstd::utf8::encode_utf8(
            "."@ + hex::encoded(a) + ".sayaka-lifecycle-v1.json"@,
        ),
        hex::encoded(a) == hex::encoded(b) ==> a == b,
{
    hex::decode_undoes_encode(a);
    hex::decode_undoes_encode(b);
}

/// A staged file counts as present exactly if it is recorded, there, and the recorded one; the
/// guard of a record likewise, and without a record exactly if it is there.
pub proof fn staged_files_count_while_they_are_there(
    look: Result<Option<StagedLook>, Error>,
    staged: Option<StagedArtifactRecord>,
    mode: u32,
    euid: u32,
    guard: GuardLook,
)
    ensures
        recover::staged_state(look, staged, mode, euid) == Ok::<StagedPresence, Fault>(
            StagedPresence::Present,
        ) <==> (staged matches Some(artifact) && look matches Ok(Some(seen))
            && lifecycle::staged_fault(seen, artifact, mode, euid) is None),
        recover::staged_state(look, staged, mode, euid) == Ok::<StagedPresence, Fault>(
            StagedPresence::Missing,
        ) <==> staged is None || look == Ok::<Option<StagedLook>, Error>(None),
        recover::guard_state(guard, staged, euid) == Ok::<StagedPresence, Fault>(
            StagedPresence::Present,
        ) <==> match staged {
            Some(artifact) => guard.file matches Ok(Some(seen)) && lifecycle::guard_fault(
                seen,
                artifact,
                euid,
            ) is None,
            None => guard.present == Ok::<bool, Error>(true),
        },
        recover::guard_state(guard, staged, euid) == Ok::<StagedPresence, Fault>(
            StagedPresence::Missing,
        ) <==> match staged {
            Some(_) => guard.file == Ok::<Option<StagedLook>, Error>(None),
            None => guard.present == Ok::<bool, Error>(false),
        },
{
}

/// What is held of an opened package is what was seen of it last, and its guard exactly if it
/// could be opened.
pub proof fn held_packages_are_what_was_seen_last(look: OpenLook)
    requires
        look.executable_now is Ok,
        look.lock_now is Ok,
        look.manifest is Ok,
    ensures
        ({
            let held = handles::held_of(look);
            &&& look.executable_now == Ok::<Snapshot, Error>(held.executable)
            &&& look.lock_now == Ok::<Snapshot, Error>(held.lock)
            &&& held.manifest == look.manifest->Ok_0.held.snapshot
            &&& held.guard is Some <==> look.guard is Ok
            &&& look.guard is Ok && look.guard_now is Ok ==> held.guard == Some(
                look.guard_now->Ok_0,
            )
        }),
{
}

/// What a step reports is kept in the record: the guard when it is made, both staged files when
/// they are written, and the stage when it is recorded; a footprint is logical size first.
pub proof fn reports_are_kept_in_the_record(
    run: Run,
    record: LifecycleRecord,
    guard: StagedArtifactRecord,
    executable: StagedArtifactRecord,
    manifest: StagedArtifactRecord,
    stage: LifecycleStage,
    logical: u64,
    allocated: u64,
    digest: String,
)
    requires
        run.record == Some(record),
    ensures
        run.recorded(StepEvent::Guarded(guard)) == Some(
            LifecycleRecord { guard: Some(guard), ..record },
        ),
        run.recorded(StepEvent::Staged { executable, manifest }) == Some(
            LifecycleRecord {
                staged_executable: Some(executable),
                staged_manifest: Some(manifest),
                ..record
            },
        ),
        run.recorded(StepEvent::Done) == Some(record),
        Run::entered(Some(record), Some(Step::Record { stage })) matches Some(next) && next.stage
            == stage && next.guard == record.guard && next.candidate == record.candidate
            && next.current == record.current && (stage == LifecycleStage::OutcomeRecorded
            && record.outcome is None ==> next.outcome == Some(
            LifecycleOutcome::CandidatePublished,
        )) && (record.outcome is Some ==> next.outcome == record.outcome),
        run.measured(StepEvent::Measured { logical, allocated }) == Some((logical, allocated)),
        run.measured(StepEvent::Done) == run.footprint,
        run.is_foreign(StepEvent::Digest(digest)) <==> digest@ != record.candidate.sha256@,
{
}

/// What is not there is passed over where that is no loss: a staged executable with its removal,
/// a guard with its removal and the sync behind it; a missing manifest is an error.
pub proof fn only_harmless_absences_are_passed_over(step: Step, next: Option<Step>)
    ensures
        on_absent_skips(step) matches Some(count) ==> operation::on_absent(step, next) == Ok::<
            nat,
            Seq<char>,
        >(count),
        on_absent_skips(step) is None ==> operation::on_absent(step, next) is Err,
{
}

/// How many steps go with something that is not there.
pub open spec fn on_absent_skips(step: Step) -> Option<nat> {
    if step == Step::CheckStagedExecutable {
        Some(1)
    } else if step == Step::CheckGuard {
        Some(2)
    } else {
        None
    }
}

/// A recovery is classified only from a whole look: whatever could not be read refuses it, and
/// where the marker is asked for first its error comes before the others.
pub proof fn recoveries_need_a_whole_look(name: Seq<u8>, look: RecoverLook, marker_first: bool)
    ensures
        removal::look_plan(name, look, marker_first) is Ok ==> look.package is Ok
            && look.next_marker is Ok && look.record is Ok,
        look.next_marker is Err && (marker_first || look.package is Ok) ==> removal::look_plan(
            name,
            look,
            marker_first,
        ) == Err::<(RecoverMode, Seq<char>), Fault>(
            lifecycle::fault_of(look.next_marker->Err_0),
        ),
        look.package is Err && (!marker_first || look.next_marker is Ok) ==> removal::look_plan(
            name,
            look,
            marker_first,
        ) == Err::<(RecoverMode, Seq<char>), Fault>(lifecycle::fault_of(look.package->Err_0)),
{
}

/// An update opens its record with the intent alone: both images, the held package, and nothing
/// staged or decided.
pub proof fn updates_open_with_their_intent(plan: UpdatePlan, record: LifecycleRecord)
    requires
        plan.opens_with(record),
    ensures
        record.schema_version == 1,
        record.action@ == "update"@,
        record.stage == LifecycleStage::IntentRecorded,
        record.prefix_name@ == plan.leaf(),
        record.current == plan.old_image(),
        record.candidate == plan.new_image(),
        record.prefix == plan.installed().prefix,
        record.lock == plan.installed().lock,
        record.guard is None && record.staged_executable is None && record.staged_manifest is None
            && record.outcome is None,
{
}

} // verus!
