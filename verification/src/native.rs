//! The candidates that a platform retains for a plan, and what a plan is told of them.

use crate::app_inventory::{RunningObservation, RunningView};
use crate::execute::{Effect, SelectionIssue};
use crate::journal::{NativePath, NativeTime};
use crate::model::{FileIdentity, ResourceKind};
use crate::path;
use vstd::prelude::*;
use vstd::string::*;

verus! {

/// What is known of a file that a candidate holds open.
#[derive(Clone, Copy, Debug, PartialEq, Eq, Structural)]
pub struct NativeFileInfo {
    pub device: u64,
    pub inode: u64,
    pub logical_bytes: u64,
    pub modified_at: NativeTime,
}

/// Whether a target was shown to lie inside its scope.
#[derive(Clone, Copy, Debug, PartialEq, Eq, Structural)]
pub enum Boundary {
    Verified,
    Unknown,
}

/// Whether a target was shown not to be protected.
#[derive(Clone, Copy, Debug, PartialEq, Eq, Structural)]
pub enum Protection {
    Clear,
    Unknown,
}

/// Whether a target can be moved to the Trash.
#[derive(Clone, Copy, Debug, PartialEq, Eq, Structural)]
pub enum Capability {
    Available,
    Unsupported,
}

/// Whether what owns a target is running.
#[derive(Clone, Copy, Debug, PartialEq, Eq, Structural)]
pub enum OwnerState {
    NotApplicable,
    Running,
    Stopped,
    Unknown,
}

/// What a plan is told of a target.
#[derive(Clone, Copy, Debug)]
pub struct Snapshot {
    pub identity: Option<FileIdentity>,
    pub kind: ResourceKind,
    pub logical_bytes: Option<u64>,
    pub modified_at: Option<NativeTime>,
    pub complete: bool,
    pub boundary: Boundary,
    pub protection: Protection,
    pub trash: Capability,
    pub owner: OwnerState,
}

/// What is told of a target that was captured. The bytes of a directory are those of its
/// own inode, not a subtree total.
pub open spec fn captured(kind: ResourceKind, info: NativeFileInfo, owner: OwnerState) -> Snapshot {
    Snapshot {
        identity: Some(FileIdentity::Unix { device: info.device, inode: info.inode }),
        kind,
        logical_bytes: Some(info.logical_bytes),
        modified_at: Some(info.modified_at),
        complete: true,
        boundary: Boundary::Verified,
        protection: Protection::Clear,
        trash: Capability::Available,
        owner,
    }
}

/// What is told of a target that could not be captured: nothing speaks for it.
pub open spec fn uncaptured() -> Snapshot {
    Snapshot {
        identity: None,
        kind: ResourceKind::Other,
        logical_bytes: None,
        modified_at: None,
        complete: false,
        boundary: Boundary::Unknown,
        protection: Protection::Unknown,
        trash: Capability::Unsupported,
        owner: OwnerState::Unknown,
    }
}

/// A target that the platform holds.
#[derive(Debug)]
pub struct Candidate {
    pub path: NativePath,
    pub info: NativeFileInfo,
}

/// Why a target could not be captured.
#[derive(Debug)]
pub struct CaptureFailure {
    pub message: String,
    pub os_code: Option<i32>,
    pub phase: Option<String>,
    pub operation: Option<String>,
}

/// The targets that the platform holds for one plan.
#[derive(Debug)]
pub struct Retained {
    pub kind: ResourceKind,
    pub candidates: Vec<Candidate>,
    pub issues: Vec<SelectionIssue>,
}

/// What is held at a path.
pub open spec fn held(candidates: Seq<Candidate>, place: Seq<u8>) -> Option<NativeFileInfo>
    decreases candidates.len(),
{
    if candidates.len() == 0 {
        None
    } else if path::same_path(candidates[0].path.bytes@, place) {
        Some(candidates[0].info)
    } else {
        held(candidates.drop_first(), place)
    }
}

/// What the plan is told when it asks of a target, or why the probe failed. A target that is
/// held is revalidated; any other is captured.
pub open spec fn told(
    kind: ResourceKind,
    candidates: Seq<Candidate>,
    place: Seq<u8>,
    revalidated: Result<(), String>,
    capture: Result<NativeFileInfo, CaptureFailure>,
    owner: OwnerState,
) -> Result<Snapshot, Seq<char>> {
    match held(candidates, place) {
        Some(info) => match revalidated {
            Ok(_) => Ok(captured(kind, info, owner)),
            Err(error) => Err(error@),
        },
        None => match capture {
            Ok(info) => Ok(captured(kind, info, owner)),
            Err(_) => Ok(uncaptured()),
        },
    }
}

/// Whether an issue says why a target could not be captured.
pub open spec fn says_why(issue: SelectionIssue, place: NativePath, failure: CaptureFailure) -> bool {
    &&& issue.path == place
    &&& issue.message == failure.message
    &&& issue.os_code == failure.os_code
    &&& issue.native_phase == failure.phase
    &&& issue.native_operation == failure.operation
}

impl Retained {
    pub fn new(kind: ResourceKind) -> (retained: Retained)
        ensures
            retained.kind == kind,
            retained.candidates@.len() == 0,
            retained.issues@.len() == 0,
    {
        Retained { kind, candidates: Vec::new(), issues: Vec::new() }
    }

    /// What is held at a path.
    pub fn find(&self, place: &[u8]) -> (info: Option<NativeFileInfo>)
        ensures
            info == held(self.candidates@, place@),
    {
        let ghost all = self.candidates@;
        let mut i: usize = 0;
        assert(all.skip(0) =~= all);
        while i < self.candidates.len()
            invariant
                0 <= i <= all.len(),
                all == self.candidates@,
                held(all, place@) == held(all.skip(i as int), place@),
            decreases all.len() - i,
        {
            if path::paths_equal(self.candidates[i].path.bytes.as_slice(), place) {
                return Some(self.candidates[i].info);
            }
            assert(all.skip(i as int).drop_first() =~= all.skip(i + 1));
            i += 1;
        }
        None
    }

    /// Answers the plan about a target. `revalidated` is what came of revalidating a target
    /// that is held, `capture` what came of capturing one that is not.
    pub fn inspect(
        &mut self,
        place: NativePath,
        revalidated: Result<(), String>,
        capture: Result<NativeFileInfo, CaptureFailure>,
        owner: OwnerState,
    ) -> (result: Result<Snapshot, String>)
        ensures
            match result {
                Ok(snapshot) => told(
                    old(self).kind,
                    old(self).candidates@,
                    place.bytes@,
                    revalidated,
                    capture,
                    owner,
                ) == Ok::<Snapshot, Seq<char>>(snapshot),
                Err(error) => told(
                    old(self).kind,
                    old(self).candidates@,
                    place.bytes@,
                    revalidated,
                    capture,
                    owner,
                ) == Err::<Snapshot, Seq<char>>(error@),
            },
            final(self).kind == old(self).kind,
            match (held(old(self).candidates@, place.bytes@), capture) {
                (None, Ok(info)) => final(self).candidates@ == old(self).candidates@.push(
                    Candidate { path: place, info },
                ) && final(self).issues@ == old(self).issues@,
                (None, Err(failure)) => {
                    &&& final(self).candidates@ == old(self).candidates@
                    &&& final(self).issues@.len() == old(self).issues@.len() + 1
                    &&& final(self).issues@.drop_last() == old(self).issues@
                    &&& says_why(final(self).issues@.last(), place, failure)
                },
                _ => *final(self) == *old(self),
            },
    {
        let info: NativeFileInfo = match self.find(place.bytes.as_slice()) {
            Some(info) => {
                if let Err(error) = revalidated {
                    return Err(error);
                }
                info
            },
            None => match capture {
                Ok(info) => {
                    self.candidates.push(Candidate { path: place, info });
                    info
                },
                Err(failure) => {
                    let ghost before = self.issues@;
                    self.issues.push(
                        SelectionIssue {
                            path: place,
                            message: failure.message,
                            os_code: failure.os_code,
                            native_phase: failure.phase,
                            native_operation: failure.operation,
                        },
                    );
                    assert(self.issues@.drop_last() =~= before);
                    return Ok(
                        Snapshot {
                            identity: None,
                            kind: ResourceKind::Other,
                            logical_bytes: None,
                            modified_at: None,
                            complete: false,
                            boundary: Boundary::Unknown,
                            protection: Protection::Unknown,
                            trash: Capability::Unsupported,
                            owner: OwnerState::Unknown,
                        },
                    );
                },
            },
        };
        Ok(
            Snapshot {
                identity: Some(FileIdentity::Unix { device: info.device, inode: info.inode }),
                kind: self.kind,
                logical_bytes: Some(info.logical_bytes),
                modified_at: Some(info.modified_at),
                complete: true,
                boundary: Boundary::Verified,
                protection: Protection::Clear,
                trash: Capability::Available,
                owner,
            },
        )
    }

    /// Answers the plan about a target that must have been captured before.
    pub fn inspect_held(&self, place: &[u8], revalidated: Result<(), String>) -> (result: Result<
        Snapshot,
        String,
    >)
        ensures
            match (held(self.candidates@, place@), revalidated, result) {
                (None, _, Err(error)) => error@ == "native cache candidate was not retained"@,
                (Some(_), Err(found), Err(error)) => error == found,
                (Some(info), Ok(_), Ok(snapshot)) => snapshot == captured(
                    self.kind,
                    info,
                    OwnerState::NotApplicable,
                ),
                _ => false,
            },
    {
        match self.find(place) {
            None => Err("native cache candidate was not retained".to_owned()),
            Some(info) => {
                if let Err(error) = revalidated {
                    return Err(error);
                }
                Ok(
                    Snapshot {
                        identity: Some(
                            FileIdentity::Unix { device: info.device, inode: info.inode },
                        ),
                        kind: self.kind,
                        logical_bytes: Some(info.logical_bytes),
                        modified_at: Some(info.modified_at),
                        complete: true,
                        boundary: Boundary::Verified,
                        protection: Protection::Clear,
                        trash: Capability::Available,
                        owner: OwnerState::NotApplicable,
                    },
                )
            },
        }
    }

    /// The effect on a target: only one that is held can be moved.
    pub fn effect(&self, place: &[u8], noun: &str, native: Effect) -> (effect: Effect)
        ensures
            match held(self.candidates@, place@) {
                Some(_) => effect == native,
                None => effect matches Effect::Refused(reason) && reason@ == "native "@ + noun@
                    + "candidate unavailable"@,
            },
    {
        match self.find(place) {
            Some(_) => native,
            None => Effect::Refused(
                crate::text::concat3("native ", noun, "candidate unavailable"),
            ),
        }
    }

    /// Whether every one of the targets is held with the identity that was seen before.
    pub fn matches_observed_identities(&self, expected: &Vec<(Vec<u8>, FileIdentity)>) -> (answer:
        bool)
        ensures
            answer == forall|i: int|
                0 <= i < expected@.len() ==> held_as(self.candidates@, #[trigger] expected@[i]),
    {
        let mut i: usize = 0;
        while i < expected.len()
            invariant
                0 <= i <= expected@.len(),
                forall|j: int|
                    0 <= j < i ==> held_as(self.candidates@, #[trigger] expected@[j]),
            decreases expected@.len() - i,
        {
            let same = match self.find(expected[i].0.as_slice()) {
                None => false,
                Some(info) => expected[i].1 == FileIdentity::Unix {
                    device: info.device,
                    inode: info.inode,
                },
            };
            if !same {
                assert(!held_as(self.candidates@, expected@[i as int]));
                return false;
            }
            i += 1;
        }
        true
    }
}

/// Whether a target is held with the identity that was seen before.
pub open spec fn held_as(
    candidates: Seq<Candidate>,
    expected: (Vec<u8>, FileIdentity),
) -> bool {
    match held(candidates, expected.0@) {
        None => false,
        Some(info) => expected.1 == (FileIdentity::Unix { device: info.device, inode: info.inode }),
    }
}

/// What is said of the owner of a bundle. A plan fails closed on it: anything but a proven
/// absence of running bundle executables refuses the item.
pub open spec fn owner_of(running: RunningView) -> OwnerState {
    match running {
        RunningView::Running(_) => OwnerState::Running,
        RunningView::NotRunning => OwnerState::Stopped,
        _ => OwnerState::Unknown,
    }
}

/// What is said of the owner of a bundle.
pub fn owner_state(running: &RunningObservation) -> (owner: OwnerState)
    ensures
        owner == owner_of(running@),
{
    match running {
        RunningObservation::Running(_) => OwnerState::Running,
        RunningObservation::NotRunning => OwnerState::Stopped,
        RunningObservation::NotAttributable(_) => OwnerState::Unknown,
        RunningObservation::Unknown => OwnerState::Unknown,
        RunningObservation::NotChecked => OwnerState::Unknown,
    }
}

/// A target that is held stays held, as it was captured, whatever is asked of it later.
pub proof fn held_targets_stay(
    candidates: Seq<Candidate>,
    place: Seq<u8>,
    added: Candidate,
)
    requires
        held(candidates, place) is Some,
    ensures
        held(candidates.push(added), place) == held(candidates, place),
    decreases candidates.len(),
{
    if !path::same_path(candidates[0].path.bytes@, place) {
        assert(candidates.push(added).drop_first() =~= candidates.drop_first().push(added));
        held_targets_stay(candidates.drop_first(), place, added);
    }
}

} // verus!
