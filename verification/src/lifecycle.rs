//! The durable record of an update, and what recovery makes of it.

use crate::digest;
use crate::error::{Error, ErrorKind};
use crate::installation;
use crate::installation::{ArtifactMetadata, Held, Identity, Snapshot};
use crate::text;
use crate::version;
use vstd::prelude::*;
use vstd::string::*;

verus! {

/// How far an update is known to have come.
#[derive(Clone, Copy, Debug, PartialEq, Eq, Structural)]
pub enum LifecycleStage {
    IntentRecorded,
    StagedRecorded,
    BinaryCommitted,
    ManifestCommitted,
    OutcomeRecorded,
}

/// How an update ended.
#[derive(Clone, Copy, Debug, PartialEq, Eq, Structural)]
pub enum LifecycleOutcome {
    CandidatePublished,
    StagingAbandoned,
}

/// A file that an update made next to the package.
#[derive(Clone, Debug)]
pub struct StagedArtifactRecord {
    pub name: String,
    pub identity: Identity,
    pub bytes: u64,
    pub sha256: String,
}

/// The durable record of an update.
#[derive(Clone, Debug)]
pub struct LifecycleRecord {
    pub schema_version: u32,
    pub action: String,
    pub stage: LifecycleStage,
    pub prefix_name: Vec<u8>,
    pub prefix: Identity,
    pub lock: Identity,
    pub current: ArtifactMetadata,
    pub candidate: ArtifactMetadata,
    pub guard: Option<StagedArtifactRecord>,
    pub staged_executable: Option<StagedArtifactRecord>,
    pub staged_manifest: Option<StagedArtifactRecord>,
    pub outcome: Option<LifecycleOutcome>,
}

/// Whether a text can name a staged file: one plain component of the engine's own.
pub open spec fn is_staged_name(name: Seq<char>) -> bool {
    &&& text::has_prefix(name, ".sayaka-"@)
    &&& forall|i: int| 0 <= i < name.len() ==> #[trigger] name[i] != '/' && name[i] != '\0'
}

impl StagedArtifactRecord {
    /// Whether the name is the engine's own and the digest has the length of one.
    pub open spec fn is_shaped(self) -> bool {
        is_staged_name(self.name@) && vstd::utf8::encode_utf8(self.sha256@).len() == 64
    }
}

/// Whether a record of a staged file is one that the engine writes.
pub open spec fn staged_shaped(staged: Option<StagedArtifactRecord>) -> bool {
    staged matches Some(artifact) && artifact.is_shaped() && artifact.bytes != 0
}

impl LifecycleRecord {
    /// Whether a text can name a staged file.
    pub fn valid_staged_name(name: &str) -> (valid: bool)
        ensures
            valid == is_staged_name(name@),
    {
        let prefix: &str = ".sayaka-";
        let count: usize = name.unicode_len();
        let head: usize = prefix.unicode_len();
        if count < head {
            return false;
        }
        let mut i: usize = 0;
        while i < count
            invariant
                0 <= i <= count,
                count == name@.len(),
                head == prefix@.len(),
                head <= count,
                prefix@ == ".sayaka-"@,
                forall|j: int| 0 <= j < i ==> #[trigger] name@[j] != '/' && name@[j] != '\0',
                forall|j: int| 0 <= j < i && j < head ==> name@[j] == prefix@[j],
            decreases count - i,
        {
            let c: char = name.get_char(i);
            if c == '/' || c == '\0' {
                assert(name@[i as int] == c);
                return false;
            }
            if i < head {
                if c != prefix.get_char(i) {
                    assert(name@.subrange(0, head as int)[i as int] != prefix@[i as int]);
                    return false;
                }
            }
            i += 1;
        }
        assert(name@.subrange(0, head as int) =~= prefix@);
        true
    }

    /// Why a record is not one that the engine writes for this prefix.
    pub open spec fn shape_fault(self, prefix_name: Seq<u8>) -> Option<Seq<char>> {
        if self.schema_version != 1 || self.action@ != "update"@ || self.prefix_name@
            != prefix_name {
            Some("unsupported or mismatched lifecycle record"@)
        } else if !(staged_shaped(self.staged_executable) && staged_shaped(self.staged_manifest))
            && !(self.staged_executable is None && self.staged_manifest is None && self.stage
            == LifecycleStage::IntentRecorded) {
            Some("staged lifecycle metadata is malformed"@)
        } else if self.guard matches Some(guard) && !guard.is_shaped() {
            Some("update guard lifecycle metadata is malformed"@)
        } else if self.stage != LifecycleStage::OutcomeRecorded && self.guard is None {
            Some("update guard lifecycle metadata is missing"@)
        } else if self.stage == LifecycleStage::OutcomeRecorded && self.outcome is None {
            Some("lifecycle outcome is missing"@)
        } else {
            None
        }
    }

    fn staged_fits(staged: &Option<StagedArtifactRecord>) -> (fits: bool)
        ensures
            fits == staged_shaped(*staged),
    {
        match staged {
            Some(artifact) => LifecycleRecord::valid_staged_name(artifact.name.as_str())
                && artifact.bytes != 0 && artifact.sha256.as_str().as_bytes().len() == 64,
            None => false,
        }
    }

    /// Refuses a record that the engine does not write for this prefix. A staged stage
    /// without staged files never gets past the first test on them.
    pub fn validate_shape(&self, prefix_name: &[u8]) -> (result: Result<(), Error>)
        ensures
            match result {
                Ok(()) => self.shape_fault(prefix_name@) is None,
                Err(error) => error.kind == ErrorKind::InvalidData && self.shape_fault(prefix_name@)
                    == Some(error.message@),
            },
            result is Ok && self.stage != LifecycleStage::IntentRecorded
                ==> self.staged_executable is Some && self.staged_manifest is Some,
    {
        if self.schema_version != 1 || !text::text_eq(self.action.as_str(), "update")
            || !text::bytes_eq(self.prefix_name.as_slice(), prefix_name) {
            return Err(
                Error::new(ErrorKind::InvalidData, "unsupported or mismatched lifecycle record"),
            );
        }
        let both: bool = LifecycleRecord::staged_fits(&self.staged_executable)
            && LifecycleRecord::staged_fits(&self.staged_manifest);
        let neither: bool = self.staged_executable.is_none() && self.staged_manifest.is_none()
            && self.stage == LifecycleStage::IntentRecorded;
        if !both && !neither {
            return Err(
                Error::new(ErrorKind::InvalidData, "staged lifecycle metadata is malformed"),
            );
        }
        if let Some(guard) = &self.guard {
            if !LifecycleRecord::valid_staged_name(guard.name.as_str())
                || guard.sha256.as_str().as_bytes().len() != 64 {
                return Err(
                    Error::new(
                        ErrorKind::InvalidData,
                        "update guard lifecycle metadata is malformed",
                    ),
                );
            }
        }
        if self.stage != LifecycleStage::OutcomeRecorded && self.guard.is_none() {
            return Err(
                Error::new(ErrorKind::InvalidData, "update guard lifecycle metadata is missing"),
            );
        }
        if self.stage == LifecycleStage::OutcomeRecorded && self.outcome.is_none() {
            return Err(Error::new(ErrorKind::InvalidData, "lifecycle outcome is missing"));
        }
        Ok(())
    }
}

/// Whether a recorded file is still there, unchanged.
#[derive(Clone, Copy, Debug, PartialEq, Eq, Structural)]
pub enum StagedPresence {
    Present,
    Missing,
}

/// What is observed of a file that a record speaks of.
#[derive(Debug)]
pub struct StagedLook {
    pub held: Held,
    /// The digest of its contents, or why they could not be read.
    pub digest: Result<String, Error>,
    /// Its metadata after its contents were read.
    pub after: Snapshot,
}

/// An error as its kind and its text.
pub open spec fn fault_of(error: Error) -> (ErrorKind, Seq<char>) {
    (error.kind, error.message@)
}

/// The numbers of an identity, as a message shows them.
pub open spec fn identity_text(identity: Identity) -> Seq<char> {
    "dev="@ + version::decimal(identity.device as nat) + " ino="@ + version::decimal(
        identity.inode as nat,
    ) + " mode="@ + version::octal(identity.mode as nat) + " uid="@ + version::decimal(
        identity.uid as nat,
    ) + " gid="@ + version::decimal(identity.gid as nat)
}

fn show_identity(identity: &Identity) -> (shown: String)
    ensures
        shown@ == identity_text(*identity),
{
    let mut shown: String = "dev=".to_owned();
    shown.append(version::decimal_text(identity.device).as_str());
    shown.append(" ino=");
    shown.append(version::decimal_text(identity.inode).as_str());
    shown.append(" mode=");
    shown.append(version::octal_text(identity.mode as u64).as_str());
    shown.append(" uid=");
    shown.append(version::decimal_text(identity.uid as u64).as_str());
    shown.append(" gid=");
    shown.append(version::decimal_text(identity.gid as u64).as_str());
    shown
}

pub fn pass_on(error: &Error) -> (copy: Error)
    ensures
        copy == *error,
{
    Error { kind: error.kind, message: error.message.clone() }
}

/// Why a file that is there is not the one that was staged.
pub open spec fn staged_fault(
    look: StagedLook,
    staged: StagedArtifactRecord,
    mode: u32,
    euid: u32,
) -> Option<(ErrorKind, Seq<char>)> {
    let identity = look.held.snapshot.identity;
    if look.held.snapshot.bytes != staged.bytes {
        Some((ErrorKind::InvalidData, "staged artifact size changed"@))
    } else if installation::shape_fault(look.held, euid, false, mode) is Some {
        Some((ErrorKind::InvalidData, installation::shape_fault(look.held, euid, false, mode)->0))
    } else if identity != staged.identity {
        Some(
            (
                ErrorKind::InvalidData,
                "staged artifact identity changed: expected "@ + identity_text(staged.identity)
                    + ", observed "@ + identity_text(identity),
            ),
        )
    } else if look.digest is Err {
        Some(fault_of(look.digest->Err_0))
    } else if look.digest->Ok_0@ != staged.sha256@ || look.after != look.held.snapshot {
        Some((ErrorKind::InvalidData, "staged artifact bytes changed"@))
    } else {
        None
    }
}

/// Whether a staged file is still there, unchanged.
pub fn validate_staged_file(
    look: &Option<StagedLook>,
    staged: &StagedArtifactRecord,
    mode: u32,
    euid: u32,
) -> (result: Result<StagedPresence, Error>)
    requires
        mode < 4096,
    ensures
        match look {
            None => result == Ok::<StagedPresence, Error>(StagedPresence::Missing),
            Some(seen) => match result {
                Ok(presence) => presence == StagedPresence::Present && staged_fault(
                    *seen,
                    *staged,
                    mode,
                    euid,
                ) is None,
                Err(error) => staged_fault(*seen, *staged, mode, euid) == Some(fault_of(error)),
            },
        },
{
    let seen = match look {
        Some(seen) => seen,
        None => {
            return Ok(StagedPresence::Missing);
        },
    };
    if seen.held.snapshot.bytes != staged.bytes {
        return Err(Error::new(ErrorKind::InvalidData, "staged artifact size changed"));
    }
    let identity: Identity = match installation::check(&seen.held, euid, false, mode) {
        Ok(identity) => identity,
        Err(error) => {
            return Err(error);
        },
    };
    if identity != staged.identity {
        let mut message: String = text::concat(
            "staged artifact identity changed: expected ",
            show_identity(&staged.identity).as_str(),
        );
        message.append(", observed ");
        message.append(show_identity(&identity).as_str());
        return Err(Error { kind: ErrorKind::InvalidData, message });
    }
    match &seen.digest {
        Ok(digest) => {
            if !text::text_eq(digest.as_str(), staged.sha256.as_str()) || seen.after
                != seen.held.snapshot {
                return Err(Error::new(ErrorKind::InvalidData, "staged artifact bytes changed"));
            }
        },
        Err(error) => {
            return Err(pass_on(error));
        },
    }
    Ok(StagedPresence::Present)
}

/// The digest of the contents of a guard; an empty guard needs no read.
pub open spec fn guard_digest(look: StagedLook) -> Result<Seq<char>, (ErrorKind, Seq<char>)> {
    if look.held.snapshot.bytes == 0 {
        Ok(digest::sha256_text(Seq::<u8>::empty()))
    } else {
        match look.digest {
            Ok(digest) => Ok(digest@),
            Err(error) => Err(fault_of(error)),
        }
    }
}

/// Why a guard that is there is not the one that was recorded.
pub open spec fn guard_fault(look: StagedLook, guard: StagedArtifactRecord, euid: u32) -> Option<
    (ErrorKind, Seq<char>),
> {
    if look.held.snapshot.bytes != guard.bytes {
        Some((ErrorKind::InvalidData, "update guard size changed"@))
    } else if installation::shape_fault(look.held, euid, false, 0o600) is Some {
        Some((ErrorKind::InvalidData, installation::shape_fault(look.held, euid, false, 0o600)->0))
    } else if look.held.snapshot.identity != guard.identity {
        Some((ErrorKind::InvalidData, "update guard identity changed"@))
    } else {
        match guard_digest(look) {
            Err(fault) => Some(fault),
            Ok(digest) => if digest != guard.sha256@ || look.after != look.held.snapshot {
                Some((ErrorKind::InvalidData, "update guard bytes changed"@))
            } else {
                None
            },
        }
    }
}

/// Whether the recorded guard of an update is still there, unchanged.
pub fn validate_recorded_guard(
    look: &Option<StagedLook>,
    guard: &StagedArtifactRecord,
    euid: u32,
) -> (result: Result<StagedPresence, Error>)
    ensures
        match look {
            None => result == Ok::<StagedPresence, Error>(StagedPresence::Missing),
            Some(seen) => match result {
                Ok(presence) => presence == StagedPresence::Present && guard_fault(
                    *seen,
                    *guard,
                    euid,
                ) is None,
                Err(error) => guard_fault(*seen, *guard, euid) == Some(fault_of(error)),
            },
        },
{
    let seen = match look {
        Some(seen) => seen,
        None => {
            return Ok(StagedPresence::Missing);
        },
    };
    if seen.held.snapshot.bytes != guard.bytes {
        return Err(Error::new(ErrorKind::InvalidData, "update guard size changed"));
    }
    let identity: Identity = match installation::check(&seen.held, euid, false, 0o600) {
        Ok(identity) => identity,
        Err(error) => {
            return Err(error);
        },
    };
    if identity != guard.identity {
        return Err(Error::new(ErrorKind::InvalidData, "update guard identity changed"));
    }
    let digest: String = if seen.held.snapshot.bytes == 0 {
        let nothing: Vec<u8> = Vec::new();
        digest::sha256_hex(nothing.as_slice())
    } else {
        match &seen.digest {
            Ok(digest) => digest.clone(),
            Err(error) => {
                return Err(pass_on(error));
            },
        }
    };
    if !text::text_eq(digest.as_str(), guard.sha256.as_str()) || seen.after != seen.held.snapshot {
        return Err(Error::new(ErrorKind::InvalidData, "update guard bytes changed"));
    }
    Ok(StagedPresence::Present)
}

/// What recovery does.
#[derive(Clone, Copy, Debug, PartialEq, Eq, Structural)]
pub enum RecoverMode {
    /// There is nothing to recover.
    Nothing,
    /// The staged files are removed and the current image stays.
    AbandonStaged,
    /// The staged manifest is moved over the current one.
    FinalizeManifest,
    /// Only the outcome is recorded and the guard removed.
    ConfirmOutcome,
    /// A person has to look.
    Manual,
}

/// What is known when recovery decides, with every recorded file accounted for.
#[derive(Clone, Copy, Debug, PartialEq, Eq, Structural)]
pub struct Evidence {
    /// The record speaks of this very prefix and lock.
    pub same_package: bool,
    /// The manifest is the one from before the update.
    pub old_manifest: bool,
    /// The manifest is the one that the update brings.
    pub new_manifest: bool,
    /// The executable has the digest from before the update.
    pub executable_is_current: bool,
    /// The executable has the digest that the update brings.
    pub executable_is_candidate: bool,
    pub staged_executable: StagedPresence,
    pub staged_manifest: StagedPresence,
    pub guard: StagedPresence,
    pub stage: LifecycleStage,
    pub outcome: Option<LifecycleOutcome>,
}

impl Evidence {
    /// Nothing that the update made is left.
    pub open spec fn nothing_left(self) -> bool {
        self.staged_executable == StagedPresence::Missing && self.staged_manifest
            == StagedPresence::Missing && self.guard == StagedPresence::Missing
    }

    pub open spec fn guarded(self) -> bool {
        self.guard == StagedPresence::Present
    }

    pub open spec fn executable_staged(self) -> bool {
        self.staged_executable == StagedPresence::Present
    }

    pub open spec fn manifest_staged(self) -> bool {
        self.staged_manifest == StagedPresence::Present
    }

    /// The current image stands untouched.
    pub open spec fn untouched(self) -> bool {
        self.old_manifest && self.executable_is_current
    }

    /// The candidate image is in place with its manifest.
    pub open spec fn replaced(self) -> bool {
        self.new_manifest && self.executable_is_candidate
    }

    /// What recovery does, and what it says.
    pub open spec fn plan(self) -> (RecoverMode, Seq<char>) {
        if !self.same_package {
            if self.stage == LifecycleStage::OutcomeRecorded && self.nothing_left() {
                (
                    RecoverMode::Nothing,
                    "historical lifecycle outcome is not applicable to the current package"@,
                )
            } else {
                (
                    RecoverMode::Manual,
                    "recovery evidence does not match current package identity"@,
                )
            }
        } else {
            match self.stage {
                LifecycleStage::IntentRecorded => (
                    RecoverMode::Manual,
                    "stage identities were not durably recorded; preserve artifacts for manual recovery"@,
                ),
                LifecycleStage::StagedRecorded => self.staged_plan(),
                LifecycleStage::BinaryCommitted => self.binary_plan(),
                LifecycleStage::ManifestCommitted => if self.replaced() && !self.manifest_staged()
                    && self.guarded() {
                    (
                        RecoverMode::ConfirmOutcome,
                        "manifest committed; recover can confirm durability outcome"@,
                    )
                } else {
                    unrecognized()
                },
                LifecycleStage::OutcomeRecorded => self.outcome_plan(),
            }
        }
    }

    pub open spec fn staged_plan(self) -> (RecoverMode, Seq<char>) {
        if self.untouched() && self.manifest_staged() && self.guarded() {
            (
                RecoverMode::AbandonStaged,
                if self.executable_staged() {
                    "staged update not committed; recover can abandon staged files"@
                } else {
                    "staged executable already consumed; recover can finish abandoning staged files"@
                },
            )
        } else if self.untouched() && !self.executable_staged() && !self.manifest_staged()
            && self.guarded() {
            (
                RecoverMode::ConfirmOutcome,
                "staged files already consumed; recover can record abandoned outcome"@,
            )
        } else if self.old_manifest && self.executable_is_candidate && !self.executable_staged()
            && self.manifest_staged() && self.guarded() {
            (
                RecoverMode::FinalizeManifest,
                "binary publish committed before lifecycle marker; recover can finalize manifest"@,
            )
        } else if self.replaced() && !self.executable_staged() && !self.manifest_staged()
            && self.guarded() {
            (
                RecoverMode::ConfirmOutcome,
                "manifest already reflects candidate; recover can confirm outcome"@,
            )
        } else {
            unrecognized()
        }
    }

    pub open spec fn binary_plan(self) -> (RecoverMode, Seq<char>) {
        if self.executable_is_candidate && (self.old_manifest || self.new_manifest)
            && self.guarded() && (self.manifest_staged() || self.new_manifest) {
            if self.old_manifest {
                (
                    RecoverMode::FinalizeManifest,
                    "binary publish committed; recover can finalize manifest"@,
                )
            } else {
                (
                    RecoverMode::ConfirmOutcome,
                    "manifest already reflects candidate; recover can confirm outcome"@,
                )
            }
        } else {
            unrecognized()
        }
    }

    pub open spec fn outcome_plan(self) -> (RecoverMode, Seq<char>) {
        match self.outcome {
            Some(LifecycleOutcome::StagingAbandoned) if self.untouched()
                && !self.executable_staged() && !self.manifest_staged() => if self.guarded() {
                (
                    RecoverMode::ConfirmOutcome,
                    "lifecycle abandon outcome recorded; recover can remove retained guard"@,
                )
            } else {
                (
                    RecoverMode::Nothing,
                    "lifecycle abandon outcome already recorded; no further recovery action"@,
                )
            },
            Some(LifecycleOutcome::CandidatePublished) if self.replaced() => if self.guarded() {
                (
                    RecoverMode::ConfirmOutcome,
                    "lifecycle outcome recorded; recover can remove retained guard"@,
                )
            } else {
                (
                    RecoverMode::Nothing,
                    "lifecycle outcome already recorded; no further recovery action"@,
                )
            },
            _ => unrecognized(),
        }
    }
}

/// What recovery says of evidence that no interruption leaves.
pub open spec fn unrecognized() -> (RecoverMode, Seq<char>) {
    (
        RecoverMode::Manual,
        "recovery evidence does not match a recognized lifecycle window"@,
    )
}

/// What recovery decided.
#[derive(Debug)]
pub struct Recovery {
    pub mode: RecoverMode,
    pub can_execute: bool,
    pub decision: String,
}

fn decided(mode: RecoverMode, decision: &str) -> (recovery: Recovery)
    ensures
        recovery.mode == mode,
        recovery.can_execute == (mode != RecoverMode::Manual),
        recovery.decision@ == decision@,
{
    Recovery { mode, can_execute: mode != RecoverMode::Manual, decision: decision.to_owned() }
}

/// Decides what recovery does from complete evidence.
pub fn classify_evidence(evidence: &Evidence) -> (recovery: Recovery)
    ensures
        (recovery.mode, recovery.decision@) == evidence.plan(),
        recovery.can_execute == (recovery.mode != RecoverMode::Manual),
{
    let executable_staged: bool = evidence.staged_executable == StagedPresence::Present;
    let manifest_staged: bool = evidence.staged_manifest == StagedPresence::Present;
    let guarded: bool = evidence.guard == StagedPresence::Present;
    if !evidence.same_package {
        if evidence.stage == LifecycleStage::OutcomeRecorded && !executable_staged
            && !manifest_staged && !guarded {
            return decided(
                RecoverMode::Nothing,
                "historical lifecycle outcome is not applicable to the current package",
            );
        }
        return decided(
            RecoverMode::Manual,
            "recovery evidence does not match current package identity",
        );
    }
    let untouched: bool = evidence.old_manifest && evidence.executable_is_current;
    let replaced: bool = evidence.new_manifest && evidence.executable_is_candidate;
    match evidence.stage {
        LifecycleStage::IntentRecorded => decided(
            RecoverMode::Manual,
            "stage identities were not durably recorded; preserve artifacts for manual recovery",
        ),
        LifecycleStage::StagedRecorded => if untouched && manifest_staged && guarded {
            if executable_staged {
                decided(
                    RecoverMode::AbandonStaged,
                    "staged update not committed; recover can abandon staged files",
                )
            } else {
                decided(
                    RecoverMode::AbandonStaged,
                    "staged executable already consumed; recover can finish abandoning staged files",
                )
            }
        } else if untouched && !executable_staged && !manifest_staged && guarded {
            decided(
                RecoverMode::ConfirmOutcome,
                "staged files already consumed; recover can record abandoned outcome",
            )
        } else if evidence.old_manifest && evidence.executable_is_candidate && !executable_staged
            && manifest_staged && guarded {
            decided(
                RecoverMode::FinalizeManifest,
                "binary publish committed before lifecycle marker; recover can finalize manifest",
            )
        } else if replaced && !executable_staged && !manifest_staged && guarded {
            decided(
                RecoverMode::ConfirmOutcome,
                "manifest already reflects candidate; recover can confirm outcome",
            )
        } else {
            unrecognized_window()
        },
        LifecycleStage::BinaryCommitted => if evidence.executable_is_candidate && (
        evidence.old_manifest || evidence.new_manifest) && guarded && (manifest_staged
            || evidence.new_manifest) {
            if evidence.old_manifest {
                decided(
                    RecoverMode::FinalizeManifest,
                    "binary publish committed; recover can finalize manifest",
                )
            } else {
                decided(
                    RecoverMode::ConfirmOutcome,
                    "manifest already reflects candidate; recover can confirm outcome",
                )
            }
        } else {
            unrecognized_window()
        },
        LifecycleStage::ManifestCommitted => if replaced && !manifest_staged && guarded {
            decided(
                RecoverMode::ConfirmOutcome,
                "manifest committed; recover can confirm durability outcome",
            )
        } else {
            unrecognized_window()
        },
        LifecycleStage::OutcomeRecorded => match evidence.outcome {
            Some(LifecycleOutcome::StagingAbandoned) => if untouched && !executable_staged
                && !manifest_staged {
                if guarded {
                    decided(
                        RecoverMode::ConfirmOutcome,
                        "lifecycle abandon outcome recorded; recover can remove retained guard",
                    )
                } else {
                    decided(
                        RecoverMode::Nothing,
                        "lifecycle abandon outcome already recorded; no further recovery action",
                    )
                }
            } else {
                unrecognized_window()
            },
            Some(LifecycleOutcome::CandidatePublished) => if replaced {
                if guarded {
                    decided(
                        RecoverMode::ConfirmOutcome,
                        "lifecycle outcome recorded; recover can remove retained guard",
                    )
                } else {
                    decided(
                        RecoverMode::Nothing,
                        "lifecycle outcome already recorded; no further recovery action",
                    )
                }
            } else {
                unrecognized_window()
            },
            None => unrecognized_window(),
        },
    }
}

fn unrecognized_window() -> (recovery: Recovery)
    ensures
        (recovery.mode, recovery.decision@) == unrecognized(),
        !recovery.can_execute,
{
    decided(
        RecoverMode::Manual,
        "recovery evidence does not match a recognized lifecycle window",
    )
}

} // verus!
