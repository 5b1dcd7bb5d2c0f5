//! Explicit recovery after an interrupted update.

use crate::error::{Error, ErrorKind};
use crate::installation::ArtifactMetadata;
use crate::lifecycle;
use crate::lifecycle::{
    Evidence, LifecycleOutcome, LifecycleRecord, LifecycleStage, RecoverMode, Recovery,
    StagedArtifactRecord, StagedLook, StagedPresence,
};
use crate::package::Receipt;
use crate::text;
use vstd::prelude::*;
use vstd::string::*;

verus! {

/// What is observed of the update guard of a package.
#[derive(Debug)]
pub struct GuardLook {
    /// Whether a guard is there at all.
    pub present: Result<bool, Error>,
    /// The guard itself, if it is there.
    pub file: Result<Option<StagedLook>, Error>,
}

/// What is observed of a package before recovery decides.
#[derive(Debug)]
pub struct RecoveryLooks {
    pub executable_digest: Result<String, Error>,
    pub staged_executable: Result<Option<StagedLook>, Error>,
    pub staged_manifest: Result<Option<StagedLook>, Error>,
    pub guard: GuardLook,
}

/// A failure, as its kind and its text.
pub type Fault = (ErrorKind, Seq<char>);

/// Whether a recorded file is there unchanged; a file that was never recorded is missing.
pub open spec fn staged_state(
    look: Result<Option<StagedLook>, Error>,
    staged: Option<StagedArtifactRecord>,
    mode: u32,
    euid: u32,
) -> Result<StagedPresence, Fault> {
    match staged {
        None => Ok(StagedPresence::Missing),
        Some(artifact) => match look {
            Err(error) => Err(lifecycle::fault_of(error)),
            Ok(None) => Ok(StagedPresence::Missing),
            Ok(Some(seen)) => match lifecycle::staged_fault(seen, artifact, mode, euid) {
                Some(fault) => Err(fault),
                None => Ok(StagedPresence::Present),
            },
        },
    }
}

/// Whether the guard is there; a recorded guard also has to be unchanged.
pub open spec fn guard_state(look: GuardLook, guard: Option<StagedArtifactRecord>, euid: u32) -> Result<
    StagedPresence,
    Fault,
> {
    match guard {
        None => match look.present {
            Err(error) => Err(lifecycle::fault_of(error)),
            Ok(true) => Ok(StagedPresence::Present),
            Ok(false) => Ok(StagedPresence::Missing),
        },
        Some(artifact) => match look.file {
            Err(error) => Err(lifecycle::fault_of(error)),
            Ok(None) => Ok(StagedPresence::Missing),
            Ok(Some(seen)) => match lifecycle::guard_fault(seen, artifact, euid) {
                Some(fault) => Err(fault),
                None => Ok(StagedPresence::Present),
            },
        },
    }
}

fn look_staged(
    look: &Result<Option<StagedLook>, Error>,
    staged: &Option<StagedArtifactRecord>,
    mode: u32,
    euid: u32,
) -> (result: Result<StagedPresence, Error>)
    requires
        mode < 4096,
    ensures
        match result {
            Ok(presence) => staged_state(*look, *staged, mode, euid) == Ok::<StagedPresence, Fault>(
                presence,
            ),
            Err(error) => staged_state(*look, *staged, mode, euid) == Err::<StagedPresence, Fault>(
                lifecycle::fault_of(error),
            ),
        },
{
    match staged {
        None => Ok(StagedPresence::Missing),
        Some(artifact) => match look {
            Err(error) => Err(lifecycle::pass_on(error)),
            Ok(seen) => lifecycle::validate_staged_file(seen, artifact, mode, euid),
        },
    }
}

fn look_guard(look: &GuardLook, guard: &Option<StagedArtifactRecord>, euid: u32) -> (result: Result<
    StagedPresence,
    Error,
>)
    ensures
        match result {
            Ok(presence) => guard_state(*look, *guard, euid) == Ok::<StagedPresence, Fault>(
                presence,
            ),
            Err(error) => guard_state(*look, *guard, euid) == Err::<StagedPresence, Fault>(
                lifecycle::fault_of(error),
            ),
        },
{
    match guard {
        None => match &look.present {
            Err(error) => Err(lifecycle::pass_on(error)),
            Ok(present) => if *present {
                Ok(StagedPresence::Present)
            } else {
                Ok(StagedPresence::Missing)
            },
        },
        Some(artifact) => match &look.file {
            Err(error) => Err(lifecycle::pass_on(error)),
            Ok(seen) => lifecycle::validate_recorded_guard(seen, artifact, euid),
        },
    }
}

/// Whether a manifest describes the given image.
pub open spec fn describes(receipt: Receipt, image: ArtifactMetadata) -> bool {
    receipt.sha256@ == image.sha256@ && receipt.version@ == image.version@
}

fn is_image(receipt: &Receipt, image: &ArtifactMetadata) -> (same: bool)
    ensures
        same == describes(*receipt, *image),
{
    text::text_eq(receipt.sha256.as_str(), image.sha256.as_str()) && text::text_eq(
        receipt.version.as_str(),
        image.version.as_str(),
    )
}

/// The evidence that a record and a package give, once every file is accounted for.
pub open spec fn evidence_of(
    record: LifecycleRecord,
    receipt: Receipt,
    executable_digest: Seq<char>,
    staged_executable: StagedPresence,
    staged_manifest: StagedPresence,
    guard: StagedPresence,
) -> Evidence {
    Evidence {
        same_package: record.prefix == receipt.prefix && record.lock == receipt.lock,
        old_manifest: describes(receipt, record.current),
        new_manifest: describes(receipt, record.candidate),
        executable_is_current: executable_digest == record.current.sha256@,
        executable_is_candidate: executable_digest == record.candidate.sha256@,
        staged_executable,
        staged_manifest,
        guard,
        stage: record.stage,
        outcome: record.outcome,
    }
}

/// What recovery decides on a lifecycle record.
pub open spec fn record_plan(
    record: LifecycleRecord,
    prefix_name: Seq<u8>,
    receipt: Receipt,
    looks: RecoveryLooks,
    euid: u32,
) -> Result<(RecoverMode, Seq<char>), Fault> {
    match record.shape_fault(prefix_name) {
        Some(fault) => Err(
            (ErrorKind::InvalidData, "lifecycle evidence is malformed: "@ + fault),
        ),
        None => match looks.executable_digest {
            Err(error) => Err(lifecycle::fault_of(error)),
            Ok(digest) => match staged_state(
                looks.staged_executable,
                record.staged_executable,
                0o700,
                euid,
            ) {
                Err(fault) => Err(fault),
                Ok(executable) => match staged_state(
                    looks.staged_manifest,
                    record.staged_manifest,
                    0o600,
                    euid,
                ) {
                    Err(fault) => Err(fault),
                    Ok(manifest) => match guard_state(looks.guard, record.guard, euid) {
                        Err(fault) => Err(fault),
                        Ok(guard) => Ok(
                            evidence_of(
                                record,
                                receipt,
                                digest@,
                                executable,
                                manifest,
                                guard,
                            ).plan(),
                        ),
                    },
                },
            },
        },
    }
}

/// What recovery decides.
pub open spec fn recovery_plan(
    prefix_name: Seq<u8>,
    receipt: Receipt,
    next_marker: bool,
    record: Option<LifecycleRecord>,
    looks: RecoveryLooks,
    euid: u32,
) -> Result<(RecoverMode, Seq<char>), Fault> {
    if next_marker {
        Ok(
            (
                RecoverMode::Manual,
                "record update is partially published; manual inspection required"@,
            ),
        )
    } else {
        match record {
            Some(written) => record_plan(written, prefix_name, receipt, looks, euid),
            None => match looks.guard.present {
                Err(error) => Err(lifecycle::fault_of(error)),
                Ok(true) => Ok(
                    (
                        RecoverMode::Manual,
                        "update guard is present without lifecycle record; manual recovery is required"@,
                    ),
                ),
                Ok(false) => Ok((RecoverMode::Nothing, "no recovery record found"@)),
            },
        }
    }
}

/// The recovery of one prefix.
pub struct Recover {
    pub prefix_name: Vec<u8>,
}

impl Recover {
    /// Decides what recovery does with what is left of an update.
    pub fn classify(
        prefix_name: &[u8],
        receipt: &Receipt,
        next_marker: bool,
        record: &Option<LifecycleRecord>,
        looks: &RecoveryLooks,
        euid: u32,
    ) -> (result: Result<Recovery, Error>)
        ensures
            match result {
                Ok(recovery) => {
                    &&& recovery_plan(prefix_name@, *receipt, next_marker, *record, *looks, euid)
                        == Ok::<(RecoverMode, Seq<char>), Fault>(
                        (recovery.mode, recovery.decision@),
                    )
                    &&& recovery.can_execute == (recovery.mode != RecoverMode::Manual)
                },
                Err(error) => recovery_plan(
                    prefix_name@,
                    *receipt,
                    next_marker,
                    *record,
                    *looks,
                    euid,
                ) == Err::<(RecoverMode, Seq<char>), Fault>(lifecycle::fault_of(error)),
            },
    {
        if next_marker {
            return Ok(
                Recovery {
                    mode: RecoverMode::Manual,
                    can_execute: false,
                    decision:
                        "record update is partially published; manual inspection required".to_owned(),
                },
            );
        }
        let record = match record {
            Some(record) => record,
            None => {
                return match &looks.guard.present {
                    Err(error) => Err(lifecycle::pass_on(error)),
                    Ok(present) => if *present {
                        Ok(
                            Recovery {
                                mode: RecoverMode::Manual,
                                can_execute: false,
                                decision:
                                    "update guard is present without lifecycle record; manual recovery is required".to_owned(),
                            },
                        )
                    } else {
                        Ok(
                            Recovery {
                                mode: RecoverMode::Nothing,
                                can_execute: true,
                                decision: "no recovery record found".to_owned(),
                            },
                        )
                    },
                };
            },
        };
        if let Err(error) = record.validate_shape(prefix_name) {
            return Err(
                Error {
                    kind: ErrorKind::InvalidData,
                    message: text::concat(
                        "lifecycle evidence is malformed: ",
                        error.message.as_str(),
                    ),
                },
            );
        }
        let digest = match &looks.executable_digest {
            Ok(digest) => digest,
            Err(error) => {
                return Err(lifecycle::pass_on(error));
            },
        };
        let staged_executable: StagedPresence = match look_staged(
            &looks.staged_executable,
            &record.staged_executable,
            0o700,
            euid,
        ) {
            Ok(presence) => presence,
            Err(error) => {
                return Err(error);
            },
        };
        let staged_manifest: StagedPresence = match look_staged(
            &looks.staged_manifest,
            &record.staged_manifest,
            0o600,
            euid,
        ) {
            Ok(presence) => presence,
            Err(error) => {
                return Err(error);
            },
        };
        let guard: StagedPresence = match look_guard(&looks.guard, &record.guard, euid) {
            Ok(presence) => presence,
            Err(error) => {
                return Err(error);
            },
        };
        let evidence = Evidence {
            same_package: record.prefix == receipt.prefix && record.lock == receipt.lock,
            old_manifest: is_image(receipt, &record.current),
            new_manifest: is_image(receipt, &record.candidate),
            executable_is_current: text::text_eq(digest.as_str(), record.current.sha256.as_str()),
            executable_is_candidate: text::text_eq(
                digest.as_str(),
                record.candidate.sha256.as_str(),
            ),
            staged_executable,
            staged_manifest,
            guard,
            stage: record.stage,
            outcome: record.outcome,
        };
        Ok(lifecycle::classify_evidence(&evidence))
    }

    /// How the update ended, from the manifest that is in place.
    pub fn decide_outcome(record: &LifecycleRecord, receipt: &Receipt) -> (result: Result<
        LifecycleOutcome,
        Error,
    >)
        ensures
            match result {
                Ok(LifecycleOutcome::CandidatePublished) => describes(*receipt, record.candidate),
                Ok(LifecycleOutcome::StagingAbandoned) => !describes(*receipt, record.candidate)
                    && describes(*receipt, record.current),
                Err(error) => {
                    &&& !describes(*receipt, record.candidate)
                    &&& !describes(*receipt, record.current)
                    &&& error.says(
                        ErrorKind::InvalidData,
                        "recovered package state matches neither current nor candidate evidence"@,
                    )
                },
            },
    {
        if is_image(receipt, &record.candidate) {
            return Ok(LifecycleOutcome::CandidatePublished);
        }
        if is_image(receipt, &record.current) {
            return Ok(LifecycleOutcome::StagingAbandoned);
        }
        Err(
            Error::new(
                ErrorKind::InvalidData,
                "recovered package state matches neither current nor candidate evidence",
            ),
        )
    }
}

/// Why an operation other than recovery has to wait, if it has to.
pub open spec fn gate_plan(
    prefix_name: Seq<u8>,
    next_marker: Result<bool, Error>,
    record: Result<Option<LifecycleRecord>, Error>,
    package: Option<GuardLook>,
    euid: u32,
) -> Result<Option<Seq<char>>, Fault> {
    match next_marker {
        Err(error) => Err(lifecycle::fault_of(error)),
        Ok(true) => Ok(Some("lifecycle next marker is pending; explicit recovery is required"@)),
        Ok(false) => match record {
            Err(error) => Err(lifecycle::fault_of(error)),
            Ok(None) => match package {
                None => Ok(None),
                Some(look) => match look.present {
                    Err(error) => Err(lifecycle::fault_of(error)),
                    Ok(true) => Ok(
                        Some(
                            "update guard is present without lifecycle record; explicit recovery is required"@,
                        ),
                    ),
                    Ok(false) => Ok(None),
                },
            },
            Ok(Some(written)) => match written.shape_fault(prefix_name) {
                Some(fault) => Err(
                    (ErrorKind::InvalidData, "lifecycle evidence is malformed: "@ + fault),
                ),
                None => if written.stage != LifecycleStage::OutcomeRecorded {
                    Ok(Some("update recovery evidence is pending; run `sayaka recover` first"@))
                } else {
                    match package {
                        None => Ok(None),
                        Some(look) => match guard_state(look, written.guard, euid) {
                            Err(fault) => Err(fault),
                            Ok(StagedPresence::Present) => Ok(
                                Some(
                                    "completed lifecycle outcome still requires guard cleanup; run `sayaka recover` first"@,
                                ),
                            ),
                            Ok(StagedPresence::Missing) => Ok(None),
                        },
                    }
                },
            },
        },
    }
}

/// Why an operation other than recovery has to wait, if it has to.
pub fn lifecycle_gate_decision(
    prefix_name: &[u8],
    next_marker: &Result<bool, Error>,
    record: &Result<Option<LifecycleRecord>, Error>,
    package: &Option<GuardLook>,
    euid: u32,
) -> (result: Result<Option<String>, Error>)
    ensures
        match result {
            Ok(decision) => gate_plan(prefix_name@, *next_marker, *record, *package, euid) == Ok::<
                Option<Seq<char>>,
                Fault,
            >(text::opt_text(decision)),
            Err(error) => gate_plan(prefix_name@, *next_marker, *record, *package, euid) == Err::<
                Option<Seq<char>>,
                Fault,
            >(lifecycle::fault_of(error)),
        },
{
    match next_marker {
        Err(error) => {
            return Err(lifecycle::pass_on(error));
        },
        Ok(pending) => {
            if *pending {
                return Ok(
                    Some(
                        "lifecycle next marker is pending; explicit recovery is required".to_owned(),
                    ),
                );
            }
        },
    }
    let record = match record {
        Err(error) => {
            return Err(lifecycle::pass_on(error));
        },
        Ok(record) => record,
    };
    let record = match record {
        Some(record) => record,
        None => {
            return match package {
                None => Ok(None),
                Some(look) => match &look.present {
                    Err(error) => Err(lifecycle::pass_on(error)),
                    Ok(present) => if *present {
                        Ok(
                            Some(
                                "update guard is present without lifecycle record; explicit recovery is required".to_owned(),
                            ),
                        )
                    } else {
                        Ok(None)
                    },
                },
            };
        },
    };
    if let Err(error) = record.validate_shape(prefix_name) {
        return Err(
            Error {
                kind: ErrorKind::InvalidData,
                message: text::concat("lifecycle evidence is malformed: ", error.message.as_str()),
            },
        );
    }
    if record.stage != LifecycleStage::OutcomeRecorded {
        return Ok(
            Some("update recovery evidence is pending; run `sayaka recover` first".to_owned()),
        );
    }
    match package {
        None => Ok(None),
        Some(look) => match look_guard(look, &record.guard, euid) {
            Err(error) => Err(error),
            Ok(StagedPresence::Present) => Ok(
                Some(
                    "completed lifecycle outcome still requires guard cleanup; run `sayaka recover` first".to_owned(),
                ),
            ),
            Ok(StagedPresence::Missing) => Ok(None),
        },
    }
}

} // verus!
