//! A Trash session for explicitly selected developer caches.

use crate::batch;
use crate::batch::ReasonCode;
use crate::error::{Error, ErrorKind};
use crate::execute::{GuardDecision, GuardPoint, Plan, SelectionIssue, SelectionRefusal};
use crate::journal;
use crate::journal::{NativePath, MAX_ITEMS};
use crate::lifecycle;
use crate::model::FileIdentity;
use crate::native;
use crate::native::{NativeFileInfo, Retained};
use crate::path;
use crate::policy_snapshot::PolicyGuardStatus;
use crate::recover::Fault;
use crate::text;
use crate::trash_session;
use crate::trash_session::Prepared;
use vstd::prelude::*;
use vstd::string::*;

verus! {

/// A cache directory as a preview showed it.
#[derive(Debug)]
pub struct CacheSelection {
    pub path: NativePath,
    pub scope_root: NativePath,
    pub expected_identity: FileIdentity,
}

/// What came of one selected cache. Nothing is looked at behind the first failure.
#[derive(Debug)]
pub struct CacheLook {
    pub path: NativePath,
    /// Whether the preview still holds of the cache.
    pub still_valid: Result<(), String>,
    pub cancelled: bool,
    pub captured: Result<NativeFileInfo, Error>,
    /// The resource that the plan found.
    pub found: Result<u64, Error>,
}

/// Why a selection cannot be prepared on its face.
pub open spec fn face_fault(selection: CacheSelection, look: CacheLook) -> Option<Fault> {
    if !trash_session::is_plain(selection.path.bytes@) {
        Some(
            (
                ErrorKind::InvalidData,
                "cache selections must be absolute native paths without traversal"@,
            ),
        )
    } else if !trash_session::is_plain(selection.scope_root.bytes@) || !path::is_within(
        selection.path.bytes@,
        selection.scope_root.bytes@,
    ) {
        Some(
            (
                ErrorKind::InvalidData,
                "cache selections must retain a preview root at or above the cache path"@,
            ),
        )
    } else {
        match look.still_valid {
            Ok(_) => None,
            Err(error) => Some((ErrorKind::InvalidData, error@)),
        }
    }
}

/// Why the first of the selections that cannot be prepared cannot.
pub open spec fn faces_fault(selections: Seq<CacheSelection>, looks: Seq<CacheLook>) -> Option<Fault>
    decreases selections.len(),
{
    if selections.len() == 0 {
        None
    } else if face_fault(selections[0], looks[0]) is Some {
        face_fault(selections[0], looks[0])
    } else {
        faces_fault(selections.drop_first(), looks.drop_first())
    }
}

/// The directories that hold the selected caches; the root of the file system is held by
/// none.
pub open spec fn holders(selections: Seq<CacheSelection>) -> Seq<Seq<u8>>
    decreases selections.len(),
{
    if selections.len() == 0 {
        Seq::empty()
    } else {
        let before = holders(selections.drop_last());
        let names = path::steps(selections.last().path.bytes@);
        if names.len() == 0 || names.last() == seq![path::SEPARATOR] {
            before
        } else {
            before.push(path::spelled(names.drop_last()))
        }
    }
}

/// Why a cache cannot be captured as the preview showed it.
pub open spec fn capture_fault(selection: CacheSelection, look: CacheLook) -> Option<Fault> {
    if look.cancelled {
        Some((ErrorKind::Interrupted, "cancelled during preview"@))
    } else {
        match look.captured {
            Err(error) => Some(lifecycle::fault_of(error)),
            Ok(info) => match selection.expected_identity {
                FileIdentity::Windows { .. } => Some(
                    (ErrorKind::InvalidData, "developer cache preview identity is not Unix"@),
                ),
                FileIdentity::Unix { device, inode } => if device != info.device || inode
                    != info.inode {
                    Some(
                        (ErrorKind::InvalidData, "developer cache identity changed since preview"@),
                    )
                } else {
                    match look.found {
                        Err(error) => Some(lifecycle::fault_of(error)),
                        Ok(_) => None,
                    }
                },
            },
        }
    }
}

pub open spec fn captures_fault(selections: Seq<CacheSelection>, looks: Seq<CacheLook>) -> Option<
    Fault,
>
    decreases selections.len(),
{
    if selections.len() == 0 {
        None
    } else if capture_fault(selections[0], looks[0]) is Some {
        capture_fault(selections[0], looks[0])
    } else {
        captures_fault(selections.drop_first(), looks.drop_first())
    }
}

/// Why the caches cannot be prepared for a plan. `scope` is what came of opening the common
/// ancestor as a scope.
pub open spec fn cache_fault(
    selections: Seq<CacheSelection>,
    looks: Seq<CacheLook>,
    scope: Result<(), Error>,
) -> Option<Fault> {
    if selections.len() == 0 || selections.len() > MAX_ITEMS {
        Some(
            (ErrorKind::InvalidData, "select between 1 and 32 explicit cache directories"@),
        )
    } else if faces_fault(selections, looks) is Some {
        faces_fault(selections, looks)
    } else if batch::ancestor(holders(selections)) is None {
        Some((ErrorKind::InvalidData, "cache selections share no common ancestor"@))
    } else {
        match scope {
            Err(error) => Some(lifecycle::fault_of(error)),
            Ok(_) => captures_fault(selections, looks),
        }
    }
}

/// The resources that a plan is to be prepared from.
#[derive(Debug)]
pub struct CacheGathered {
    /// The directory that the plan is scoped to.
    pub scope_root: Vec<u8>,
    pub resources: Vec<u64>,
    /// The resources, each with its cache.
    pub discovered: Vec<(u64, NativePath)>,
}

/// Whether every selected cache was looked at, in order.
pub open spec fn looks_at(selections: Seq<CacheSelection>, looks: Seq<CacheLook>) -> bool {
    &&& looks.len() == selections.len()
    &&& forall|i: int|
        0 <= i < looks.len() ==> (#[trigger] looks[i]).path.bytes@ == selections[i].path.bytes@
}

/// Whether the resources are those that the plan found of the selections, in order.
pub open spec fn are_found(
    gathered: CacheGathered,
    selections: Seq<CacheSelection>,
    looks: Seq<CacheLook>,
) -> bool {
    &&& gathered.resources@.len() == selections.len()
    &&& gathered.discovered@.len() == selections.len()
    &&& forall|i: int|
        0 <= i < selections.len() ==> looks[i].found == Ok::<u64, Error>(
            #[trigger] gathered.resources@[i],
        )
    &&& forall|i: int|
        0 <= i < selections.len() ==> (#[trigger] gathered.discovered@[i]).0
            == gathered.resources@[i] && journal::same_native(
            gathered.discovered@[i].1,
            selections[i].path,
        )
}

fn copy_error(error: &Error) -> (copy: Error)
    ensures
        lifecycle::fault_of(copy) == lifecycle::fault_of(*error),
{
    Error { kind: error.kind, message: error.message.clone() }
}

fn check_face(selection: &CacheSelection, look: &CacheLook) -> (result: Result<(), Error>)
    ensures
        match result {
            Ok(_) => face_fault(*selection, *look) is None,
            Err(error) => face_fault(*selection, *look) == Some(lifecycle::fault_of(error)),
        },
{
    if !trash_session::valid_absolute_path(selection.path.bytes.as_slice()) {
        return Err(
            Error::new(
                ErrorKind::InvalidData,
                "cache selections must be absolute native paths without traversal",
            ),
        );
    }
    if !trash_session::valid_absolute_path(selection.scope_root.bytes.as_slice()) || !path::within(
        selection.path.bytes.as_slice(),
        selection.scope_root.bytes.as_slice(),
    ) {
        return Err(
            Error::new(
                ErrorKind::InvalidData,
                "cache selections must retain a preview root at or above the cache path",
            ),
        );
    }
    match &look.still_valid {
        Ok(_) => Ok(()),
        Err(error) => Err(Error::new(ErrorKind::InvalidData, error.as_str())),
    }
}

fn check_capture(selection: &CacheSelection, look: &CacheLook) -> (result: Result<u64, Error>)
    ensures
        match result {
            Ok(resource) => capture_fault(*selection, *look) is None && look.found is Ok && resource
                == look.found->Ok_0,
            Err(error) => capture_fault(*selection, *look) == Some(lifecycle::fault_of(error)),
        },
{
    if look.cancelled {
        return Err(Error::new(ErrorKind::Interrupted, "cancelled during preview"));
    }
    let info: NativeFileInfo = match &look.captured {
        Err(error) => {
            return Err(copy_error(error));
        },
        Ok(info) => *info,
    };
    match selection.expected_identity {
        FileIdentity::Windows { .. } => {
            return Err(
                Error::new(
                    ErrorKind::InvalidData,
                    "developer cache preview identity is not Unix",
                ),
            );
        },
        FileIdentity::Unix { device, inode } => {
            if device != info.device || inode != info.inode {
                return Err(
                    Error::new(
                        ErrorKind::InvalidData,
                        "developer cache identity changed since preview",
                    ),
                );
            }
        },
    }
    match &look.found {
        Err(error) => Err(copy_error(error)),
        Ok(resource) => Ok(*resource),
    }
}

fn list_holders(selections: &Vec<CacheSelection>) -> (list: Vec<Vec<u8>>)
    ensures
        path::views(list@) == holders(selections@),
{
    let mut list: Vec<Vec<u8>> = Vec::new();
    let mut i: usize = 0;
    assert(selections@.take(0) =~= Seq::empty());
    assert(path::views(list@) =~= Seq::empty());
    while i < selections.len()
        invariant
            0 <= i <= selections@.len(),
            path::views(list@) == holders(selections@.take(i as int)),
        decreases selections@.len() - i,
    {
        let ghost before = path::views(list@);
        assert(selections@.take(i + 1).drop_last() =~= selections@.take(i as int));
        let names = path::split_steps(selections[i].path.bytes.as_slice());
        assert(path::views(names@).len() == names@.len());
        let root: [u8; 1] = [path::SEPARATOR];
        assert(root@ =~= seq![path::SEPARATOR]);
        assert(names@.len() > 0 ==> path::views(names@).last() == names@[names@.len() - 1]@);
        if names.len() > 0 && !text::bytes_eq(names[names.len() - 1].as_slice(), &root) {
            let holder = path::spell(&names, 0, names.len() - 1);
            assert(path::views(names@).subrange(0, names@.len() - 1) =~= path::views(
                names@,
            ).drop_last());
            let ghost added = holder@;
            list.push(holder);
            assert(path::views(list@) =~= before.push(added));
        }
        i += 1;
    }
    assert(selections@.take(selections@.len() as int) =~= selections@);
    list
}

/// A Trash session for developer caches.
#[derive(Debug)]
pub struct CacheSession {
    pub retained: Retained,
    pub prepared: Prepared,
    pub selections: Vec<CacheSelection>,
    pub discovered: Vec<(u64, NativePath)>,
}

/// What came of looking at a selected cache again.
#[derive(Debug)]
pub struct CacheAgain {
    pub path: NativePath,
    /// Whether the preview still holds of the cache.
    pub still_valid: bool,
    /// Whether what the platform holds is unchanged.
    pub unchanged: bool,
}

/// Whether every selected cache was looked at again, in order.
pub open spec fn looks_again(selections: Seq<CacheSelection>, looks: Seq<CacheAgain>) -> bool {
    &&& looks.len() == selections.len()
    &&& forall|i: int|
        0 <= i < looks.len() ==> (#[trigger] looks[i]).path.bytes@ == selections[i].path.bytes@
}

/// Why the caches are not approved.
pub open spec fn approval_fault(retained: Retained, looks: Seq<CacheAgain>) -> Option<ReasonCode>
    decreases looks.len(),
{
    if looks.len() == 0 {
        None
    } else if !looks[0].still_valid {
        Some(ReasonCode::ResourceChanged)
    } else if native::held(retained.candidates@, looks[0].path.bytes@) is None {
        Some(ReasonCode::ProbeFailed)
    } else if !looks[0].unchanged {
        Some(ReasonCode::ResourceChanged)
    } else {
        approval_fault(retained, looks.drop_first())
    }
}

impl CacheSession {
    /// The resources that a plan is to be prepared from.
    pub fn prepare(
        selections: &Vec<CacheSelection>,
        looks: &Vec<CacheLook>,
        scope: &Result<(), Error>,
    ) -> (result: Result<CacheGathered, Error>)
        requires
            looks_at(selections@, looks@),
        ensures
            match result {
                Ok(found) => {
                    &&& cache_fault(selections@, looks@, *scope) is None
                    &&& batch::ancestor(holders(selections@)) == Some(found.scope_root@)
                    &&& are_found(found, selections@, looks@)
                },
                Err(error) => cache_fault(selections@, looks@, *scope) == Some(
                    lifecycle::fault_of(error),
                ),
            },
    {
        if selections.len() == 0 || selections.len() > MAX_ITEMS {
            return Err(
                Error::new(
                    ErrorKind::InvalidData,
                    "select between 1 and 32 explicit cache directories",
                ),
            );
        }
        let mut i: usize = 0;
        assert(selections@.skip(0) =~= selections@ && looks@.skip(0) =~= looks@);
        while i < selections.len()
            invariant
                0 <= i <= selections@.len(),
                0 < selections@.len() <= MAX_ITEMS,
                looks@.len() == selections@.len(),
                faces_fault(selections@, looks@) == faces_fault(
                    selections@.skip(i as int),
                    looks@.skip(i as int),
                ),
            decreases selections@.len() - i,
        {
            assert(selections@.skip(i as int)[0] == selections@[i as int]);
            assert(looks@.skip(i as int)[0] == looks@[i as int]);
            if let Err(error) = check_face(&selections[i], &looks[i]) {
                return Err(error);
            }
            assert(selections@.skip(i as int).drop_first() =~= selections@.skip(i + 1));
            assert(looks@.skip(i as int).drop_first() =~= looks@.skip(i + 1));
            i += 1;
        }
        let above = list_holders(selections);
        assert(path::views(above@).len() == above@.len());
        let scope_root: Vec<u8> = match batch::common_ancestor(&above) {
            None => {
                return Err(
                    Error::new(
                        ErrorKind::InvalidData,
                        "cache selections share no common ancestor",
                    ),
                );
            },
            Some(root) => root,
        };
        if let Err(error) = scope {
            return Err(copy_error(error));
        }
        let mut resources: Vec<u64> = Vec::new();
        let mut discovered: Vec<(u64, NativePath)> = Vec::new();
        let mut k: usize = 0;
        while k < selections.len()
            invariant
                0 <= k <= selections@.len(),
                0 < selections@.len() <= MAX_ITEMS,
                looks@.len() == selections@.len(),
                faces_fault(selections@, looks@) is None,
                batch::ancestor(holders(selections@)) is Some,
                *scope is Ok,
                captures_fault(selections@, looks@) == captures_fault(
                    selections@.skip(k as int),
                    looks@.skip(k as int),
                ),
                resources@.len() == k,
                discovered@.len() == k,
                forall|j: int|
                    0 <= j < k ==> looks@[j].found == Ok::<u64, Error>(#[trigger] resources@[j]),
                forall|j: int|
                    0 <= j < k ==> (#[trigger] discovered@[j]).0 == resources@[j]
                        && journal::same_native(discovered@[j].1, selections@[j].path),
            decreases selections@.len() - k,
        {
            assert(selections@.skip(k as int)[0] == selections@[k as int]);
            assert(looks@.skip(k as int)[0] == looks@[k as int]);
            match check_capture(&selections[k], &looks[k]) {
                Err(error) => {
                    return Err(error);
                },
                Ok(resource) => {
                    resources.push(resource);
                    discovered.push((resource, selections[k].path.copy()));
                },
            }
            assert(selections@.skip(k as int).drop_first() =~= selections@.skip(k + 1));
            assert(looks@.skip(k as int).drop_first() =~= looks@.skip(k + 1));
            k += 1;
        }
        Ok(CacheGathered { scope_root, resources, discovered })
    }

    pub fn preview(&self) -> (plan: &Plan)
        ensures
            *plan == self.prepared.plan,
    {
        &self.prepared.plan
    }

    pub fn issues(&self) -> (issues: &Vec<SelectionIssue>)
        ensures
            *issues == self.retained.issues,
    {
        &self.retained.issues
    }

    pub fn refusals(&self) -> (refusals: Vec<SelectionRefusal>)
        ensures
            refusals@.len() == self.prepared.rejected@.len(),
            forall|i: int|
                0 <= i < refusals@.len() ==> batch::says_batch_refusal(
                    #[trigger] refusals@[i],
                    self.discovered@,
                    self.prepared.rejected@[i],
                ),
    {
        batch::batch_refusals(&self.discovered, &self.prepared.rejected)
    }

    /// Approval looks at every selected cache again: any change refuses it. `Ok` means that
    /// the plan may be asked.
    pub fn approve(&self, looks: &Vec<CacheAgain>) -> (result: Result<(), ReasonCode>)
        requires
            looks_again(self.selections@, looks@),
        ensures
            match result {
                Ok(_) => approval_fault(self.retained, looks@) is None,
                Err(code) => approval_fault(self.retained, looks@) == Some(code),
            },
    {
        let mut i: usize = 0;
        assert(looks@.skip(0) =~= looks@);
        while i < looks.len()
            invariant
                0 <= i <= looks@.len(),
                approval_fault(self.retained, looks@) == approval_fault(
                    self.retained,
                    looks@.skip(i as int),
                ),
            decreases looks@.len() - i,
        {
            assert(looks@.skip(i as int)[0] == looks@[i as int]);
            if !looks[i].still_valid {
                return Err(ReasonCode::ResourceChanged);
            }
            if self.retained.find(looks[i].path.bytes.as_slice()).is_none() {
                return Err(ReasonCode::ProbeFailed);
            }
            if !looks[i].unchanged {
                return Err(ReasonCode::ResourceChanged);
            }
            assert(looks@.skip(i as int).drop_first() =~= looks@.skip(i + 1));
            i += 1;
        }
        Ok(())
    }
}

/// Whether a path is one of the selected caches.
pub open spec fn is_selected(selections: Seq<CacheSelection>, place: Seq<u8>) -> bool {
    exists|i: int|
        0 <= i < selections.len() && path::same_path((#[trigger] selections[i]).path.bytes@, place)
}

fn find_selected(selections: &Vec<CacheSelection>, place: &[u8]) -> (found: bool)
    ensures
        found == is_selected(selections@, place@),
{
    let mut i: usize = 0;
    while i < selections.len()
        invariant
            0 <= i <= selections@.len(),
            forall|j: int|
                0 <= j < i ==> !path::same_path((#[trigger] selections@[j]).path.bytes@, place@),
        decreases selections@.len() - i,
    {
        if path::paths_equal(selections[i].path.bytes.as_slice(), place) {
            return true;
        }
        i += 1;
    }
    false
}

/// What the guard of a cache session decides: the policy first, and immediately before the
/// native call whether the preview still holds of the cache.
pub open spec fn cache_decision(
    point: GuardPoint,
    selected: bool,
    policy: Option<Result<PolicyGuardStatus, Error>>,
    still_valid: Result<(), String>,
) -> Result<Option<Seq<char>>, Seq<char>> {
    match trash_session::policy_decision(policy) {
        Ok(None) => if point == GuardPoint::LastNative && selected && still_valid is Err {
            Ok(Some(still_valid->Err_0@))
        } else {
            Ok(None)
        },
        decision => decision,
    }
}

/// The guard of a cache session.
pub fn cache_guard(
    point: GuardPoint,
    place: &[u8],
    selections: &Vec<CacheSelection>,
    policy: Option<Result<PolicyGuardStatus, Error>>,
    still_valid: Result<(), String>,
) -> (result: Result<GuardDecision, String>)
    ensures
        trash_session::decided(result) == cache_decision(
            point,
            is_selected(selections@, place@),
            policy,
            still_valid,
        ),
{
    match trash_session::exclusion_guard(policy) {
        Ok(GuardDecision::Proceed) => {
            if point == GuardPoint::LastNative && find_selected(selections, place) {
                if let Err(error) = still_valid {
                    return Ok(GuardDecision::Refused(error));
                }
            }
            Ok(GuardDecision::Proceed)
        },
        decision => decision,
    }
}

/// An approval covers every selection: each selected cache is held, still what the preview
/// showed, and unchanged.
pub proof fn approval_covers_every_cache(
    retained: Retained,
    selections: Seq<CacheSelection>,
    looks: Seq<CacheAgain>,
    i: int,
)
    requires
        looks_again(selections, looks),
        approval_fault(retained, looks) is None,
        0 <= i < selections.len(),
    ensures
        native::held(retained.candidates@, selections[i].path.bytes@) is Some,
        looks[i].still_valid,
        looks[i].unchanged,
    decreases selections.len(),
{
    if i > 0 {
        let rest = selections.drop_first();
        let after = looks.drop_first();
        assert forall|j: int| 0 <= j < after.len() implies (#[trigger] after[j]).path.bytes@
            == rest[j].path.bytes@ by {
            assert(looks[j + 1].path.bytes@ == selections[j + 1].path.bytes@);
        }
        approval_covers_every_cache(retained, rest, after, i - 1);
    } else {
        assert(looks[0].path.bytes@ == selections[0].path.bytes@);
    }
}

/// A cache that was selected goes to the native call only if the preview still holds of it.
pub proof fn changed_cache_never_moves(
    policy: Option<Result<PolicyGuardStatus, Error>>,
    still_valid: Result<(), String>,
)
    requires
        still_valid is Err,
    ensures
        cache_decision(GuardPoint::LastNative, true, policy, still_valid) != Ok::<
            Option<Seq<char>>,
            Seq<char>,
        >(None),
{
}

} // verus!
