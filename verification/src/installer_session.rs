//! A Trash session for explicitly selected installer files.
//!
//! It binds the selections to their inspected and native identities. That a format was
//! recognized is a prerequisite, and says nothing of trust.

use crate::error::{Error, ErrorKind};
use crate::execute::{Plan, PlanItem, SelectionIssue};
use crate::journal::{NativePath, MAX_ITEMS};
use crate::lifecycle;
use crate::native;
use crate::path;
use crate::recover::Fault;
use crate::text;
use crate::trash_session;
use crate::trash_session::TrashSession;
use vstd::prelude::*;
use vstd::string::*;

verus! {

/// An installer file that a preview lists.
#[derive(Debug)]
pub struct InstallerCandidate {
    pub path: Vec<u8>,
    /// Whether the file was recognized and belongs to the current user.
    pub selectable: bool,
}

/// Whether a path is listed as selectable.
pub open spec fn is_listed(candidates: Seq<InstallerCandidate>, place: Seq<u8>) -> bool {
    exists|i: int|
        0 <= i < candidates.len() && (#[trigger] candidates[i]).selectable && path::same_path(
            candidates[i].path@,
            place,
        )
}

/// Whether a path occurs among some paths.
pub open spec fn occurs(paths: Seq<NativePath>, place: Seq<u8>) -> bool {
    exists|i: int|
        0 <= i < paths.len() && path::same_path((#[trigger] paths[i]).bytes@, place)
}

/// Why the first path that cannot be selected cannot.
pub open spec fn paths_fault(
    candidates: Seq<InstallerCandidate>,
    paths: Seq<NativePath>,
) -> Option<Fault>
    decreases paths.len(),
{
    if paths.len() == 0 {
        None
    } else {
        let before = paths_fault(candidates, paths.drop_last());
        let last = paths.last();
        if before is Some {
            before
        } else if !trash_session::is_plain(last.bytes@) || occurs(paths.drop_last(), last.bytes@) {
            Some(
                (
                    ErrorKind::InvalidInput,
                    "installer selections must be unique absolute paths without traversal"@,
                ),
            )
        } else if !is_listed(candidates, last.bytes@) {
            Some(
                (
                    ErrorKind::InvalidInput,
                    "selected path is not a recognized current-user installer candidate: "@
                        + last.display@,
                ),
            )
        } else {
            None
        }
    }
}

/// Whether a planned item is still what was inspected.
#[derive(Debug)]
pub struct Admission {
    pub path: NativePath,
    pub admitted: Result<(), Error>,
}

/// Whether the inner session is over the selected paths, and every planned item of it was
/// held against its inspection, in order.
pub open spec fn belongs_to(
    inner: TrashSession,
    paths: Seq<NativePath>,
    admissions: Seq<Admission>,
) -> bool {
    let items = inner.prepared.plan.items@;
    &&& inner.paths@ == paths
    &&& admissions.len() == items.len()
    &&& forall|i: int|
        0 <= i < items.len() ==> (#[trigger] admissions[i]).path.bytes@ == items[i].path.bytes@
}

/// Why the first planned item that is not what was inspected is not.
pub open spec fn items_fault(
    candidates: Seq<native::Candidate>,
    paths: Seq<NativePath>,
    items: Seq<PlanItem>,
    admissions: Seq<Admission>,
) -> Option<Fault>
    decreases items.len(),
{
    if items.len() == 0 {
        None
    } else if native::held(candidates, items[0].path.bytes@) is None {
        Some((ErrorKind::InvalidData, "installer native candidate missing"@))
    } else if !occurs(paths, items[0].path.bytes@) {
        Some((ErrorKind::InvalidData, "installer selection missing"@))
    } else {
        match admissions[0].admitted {
            Err(error) => Some(lifecycle::fault_of(error)),
            Ok(_) => items_fault(candidates, paths, items.drop_first(), admissions.drop_first()),
        }
    }
}

/// Why an installer session cannot be prepared. `scope` is what came of opening the scope of
/// the preview, `admissions` whether each planned item is still what was inspected.
pub open spec fn installer_fault(
    scope: Result<(), Error>,
    candidates: Seq<InstallerCandidate>,
    paths: Seq<NativePath>,
    inner: Result<TrashSession, Error>,
    admissions: Seq<Admission>,
) -> Option<Fault> {
    match scope {
        Err(error) => Some(lifecycle::fault_of(error)),
        Ok(_) => if paths.len() == 0 || paths.len() > MAX_ITEMS {
            Some((ErrorKind::InvalidInput, "select between 1 and 32 installer files"@))
        } else if paths_fault(candidates, paths) is Some {
            paths_fault(candidates, paths)
        } else {
            match inner {
                Err(error) => Some(lifecycle::fault_of(error)),
                Ok(session) => items_fault(
                    session.retained.candidates@,
                    paths,
                    session.prepared.plan.items@,
                    admissions,
                ),
            }
        },
    }
}

fn find_listed(candidates: &Vec<InstallerCandidate>, place: &[u8]) -> (found: bool)
    ensures
        found == is_listed(candidates@, place@),
{
    let mut i: usize = 0;
    while i < candidates.len()
        invariant
            0 <= i <= candidates@.len(),
            forall|j: int|
                0 <= j < i ==> !((#[trigger] candidates@[j]).selectable && path::same_path(
                    candidates@[j].path@,
                    place@,
                )),
        decreases candidates@.len() - i,
    {
        if candidates[i].selectable && path::paths_equal(candidates[i].path.as_slice(), place) {
            return true;
        }
        i += 1;
    }
    false
}

fn find_path(paths: &Vec<NativePath>, count: usize, place: &[u8]) -> (found: bool)
    requires
        count <= paths@.len(),
    ensures
        found == occurs(paths@.take(count as int), place@),
{
    let ghost first = paths@.take(count as int);
    let mut i: usize = 0;
    while i < count
        invariant
            0 <= i <= count <= paths@.len(),
            first == paths@.take(count as int),
            forall|j: int|
                0 <= j < i ==> !path::same_path((#[trigger] first[j]).bytes@, place@),
        decreases count - i,
    {
        assert(first[i as int] == paths@[i as int]);
        if path::paths_equal(paths[i].bytes.as_slice(), place) {
            return true;
        }
        i += 1;
    }
    false
}

proof fn lemma_paths_fault_stays(
    candidates: Seq<InstallerCandidate>,
    paths: Seq<NativePath>,
    n: int,
)
    requires
        0 <= n <= paths.len(),
        paths_fault(candidates, paths.take(n)) is Some,
    ensures
        paths_fault(candidates, paths) == paths_fault(candidates, paths.take(n)),
    decreases paths.len(),
{
    if n < paths.len() {
        assert(paths.drop_last().take(n) =~= paths.take(n));
        lemma_paths_fault_stays(candidates, paths.drop_last(), n);
    } else {
        assert(paths.take(n) =~= paths);
    }
}

fn check_paths(candidates: &Vec<InstallerCandidate>, paths: &Vec<NativePath>) -> (result: Result<
    (),
    Error,
>)
    ensures
        match result {
            Ok(_) => paths_fault(candidates@, paths@) is None,
            Err(error) => paths_fault(candidates@, paths@) == Some(lifecycle::fault_of(error)),
        },
{
    let mut i: usize = 0;
    assert(paths@.take(0) =~= Seq::empty());
    while i < paths.len()
        invariant
            0 <= i <= paths@.len(),
            paths_fault(candidates@, paths@.take(i as int)) is None,
        decreases paths@.len() - i,
    {
        assert(paths@.take(i + 1).drop_last() =~= paths@.take(i as int));
        assert(paths@.take(i + 1).last() == paths@[i as int]);
        let place = paths[i].bytes.as_slice();
        if !trash_session::valid_absolute_path(place) || find_path(paths, i, place) {
            proof {
                lemma_paths_fault_stays(candidates@, paths@, i + 1);
            }
            return Err(
                Error::new(
                    ErrorKind::InvalidInput,
                    "installer selections must be unique absolute paths without traversal",
                ),
            );
        }
        if !find_listed(candidates, place) {
            proof {
                lemma_paths_fault_stays(candidates@, paths@, i + 1);
            }
            let message = text::concat(
                "selected path is not a recognized current-user installer candidate: ",
                paths[i].display.as_str(),
            );
            return Err(Error { kind: ErrorKind::InvalidInput, message });
        }
        i += 1;
    }
    assert(paths@.take(paths@.len() as int) =~= paths@);
    Ok(())
}

/// A Trash session for installer files.
#[derive(Debug)]
pub struct InstallerSession {
    pub inner: TrashSession,
    pub selected_count: usize,
}

/// What came of looking at a retained candidate again.
#[derive(Debug)]
pub struct InstallerAgain {
    pub path: NativePath,
    pub unchanged: Result<(), Error>,
}

/// Whether every retained candidate was looked at again, in order.
pub open spec fn looks_at(candidates: Seq<native::Candidate>, looks: Seq<InstallerAgain>) -> bool {
    &&& looks.len() == candidates.len()
    &&& forall|i: int|
        0 <= i < looks.len() ==> (#[trigger] looks[i]).path.bytes@ == candidates[i].path.bytes@
}

/// Why the first retained candidate that changed did.
pub open spec fn changed_fault(revalidated: Seq<InstallerAgain>) -> Option<Fault>
    decreases revalidated.len(),
{
    if revalidated.len() == 0 {
        None
    } else {
        match revalidated[0].unchanged {
            Err(error) => Some(lifecycle::fault_of(error)),
            Ok(_) => changed_fault(revalidated.drop_first()),
        }
    }
}

impl InstallerSession {
    /// Prepares a session for explicitly selected installer files.
    pub fn prepare(
        scope: &Result<(), Error>,
        candidates: &Vec<InstallerCandidate>,
        paths: &Vec<NativePath>,
        inner: Result<TrashSession, Error>,
        admissions: &Vec<Admission>,
    ) -> (result: Result<InstallerSession, Error>)
        requires
            inner matches Ok(session) ==> belongs_to(session, paths@, admissions@),
        ensures
            match result {
                Ok(session) => {
                    &&& installer_fault(*scope, candidates@, paths@, inner, admissions@) is None
                    &&& inner == Ok::<TrashSession, Error>(session.inner)
                    &&& session.selected_count == paths@.len()
                },
                Err(error) => installer_fault(*scope, candidates@, paths@, inner, admissions@)
                    == Some(lifecycle::fault_of(error)),
            },
    {
        if let Err(error) = scope {
            return Err(Error { kind: error.kind, message: error.message.clone() });
        }
        if paths.len() == 0 || paths.len() > MAX_ITEMS {
            return Err(
                Error::new(ErrorKind::InvalidInput, "select between 1 and 32 installer files"),
            );
        }
        if let Err(error) = check_paths(candidates, paths) {
            return Err(error);
        }
        let session: TrashSession = match inner {
            Err(error) => {
                return Err(error);
            },
            Ok(session) => session,
        };
        let items: &Vec<PlanItem> = &session.prepared.plan.items;
        let ghost held = session.retained.candidates@;
        let mut i: usize = 0;
        assert(items@.skip(0) =~= items@ && admissions@.skip(0) =~= admissions@);
        while i < items.len()
            invariant
                0 <= i <= items@.len(),
                admissions@.len() == items@.len(),
                held == session.retained.candidates@,
                items@ == session.prepared.plan.items@,
                inner == Ok::<TrashSession, Error>(session),
                *scope is Ok,
                0 < paths@.len() <= MAX_ITEMS,
                paths_fault(candidates@, paths@) is None,
                items_fault(held, paths@, items@, admissions@) == items_fault(
                    held,
                    paths@,
                    items@.skip(i as int),
                    admissions@.skip(i as int),
                ),
            decreases items@.len() - i,
        {
            assert(items@.skip(i as int)[0] == items@[i as int]);
            assert(admissions@.skip(i as int)[0] == admissions@[i as int]);
            let place = items[i].path.bytes.as_slice();
            if session.retained.find(place).is_none() {
                return Err(
                    Error::new(ErrorKind::InvalidData, "installer native candidate missing"),
                );
            }
            assert(paths@.take(paths@.len() as int) =~= paths@);
            if !find_path(paths, paths.len(), place) {
                return Err(Error::new(ErrorKind::InvalidData, "installer selection missing"));
            }
            if let Err(error) = &admissions[i].admitted {
                return Err(Error { kind: error.kind, message: error.message.clone() });
            }
            assert(items@.skip(i as int).drop_first() =~= items@.skip(i + 1));
            assert(admissions@.skip(i as int).drop_first() =~= admissions@.skip(i + 1));
            i += 1;
        }
        Ok(InstallerSession { inner: session, selected_count: paths.len() })
    }

    pub fn preview(&self) -> (plan: &Plan)
        ensures
            *plan == self.inner.prepared.plan,
    {
        self.inner.preview()
    }

    pub fn issues(&self) -> (issues: &Vec<SelectionIssue>)
        ensures
            *issues == self.inner.retained.issues,
    {
        self.inner.issues()
    }

    pub fn refusals(&self) -> (refusals: Vec<crate::execute::SelectionRefusal>)
        requires
            self.inner.resources@.len() == self.inner.paths@.len(),
            forall|i: int|
                0 <= i < self.inner.prepared.rejected@.len() ==> self.inner.resources@.contains(
                    (#[trigger] self.inner.prepared.rejected@[i]).resource,
                ),
        ensures
            refusals@.len() == self.inner.prepared.rejected@.len(),
            forall|i: int|
                0 <= i < refusals@.len() ==> trash_session::says_refusal(
                    #[trigger] refusals@[i],
                    self.inner.paths@,
                    self.inner.resources@,
                    self.inner.prepared.rejected@[i],
                ),
    {
        self.inner.refusals()
    }

    /// Whether nothing of the batch was refused.
    pub open spec fn is_ready(self) -> bool {
        &&& self.inner.prepared.plan.items@.len() == self.selected_count
        &&& self.inner.prepared.rejected@.len() == 0
        &&& self.inner.retained.issues@.len() == 0
    }

    pub fn ready(&self) -> (ready: bool)
        ensures
            ready == self.is_ready(),
    {
        self.preview().items.len() == self.selected_count && self.inner.prepared.rejected.len()
            == 0 && self.issues().len() == 0
    }

    /// Approval is for the whole batch: a refusal of one file, or a change of one, refuses
    /// all. `Ok` means that the plan may be asked.
    pub fn approve(&self, revalidated: &Vec<InstallerAgain>) -> (result: Result<(), Error>)
        requires
            self.is_ready() ==> looks_at(self.inner.retained.candidates@, revalidated@),
        ensures
            ({
                let fault = if !self.is_ready() {
                    Some(
                        (
                            ErrorKind::PermissionDenied,
                            "installer batch contains refusals; no files can be approved"@,
                        ),
                    )
                } else {
                    changed_fault(revalidated@)
                };
                match result {
                    Ok(_) => fault is None,
                    Err(error) => fault == Some(lifecycle::fault_of(error)),
                }
            }),
    {
        if !self.ready() {
            return Err(
                Error::new(
                    ErrorKind::PermissionDenied,
                    "installer batch contains refusals; no files can be approved",
                ),
            );
        }
        let mut i: usize = 0;
        assert(revalidated@.skip(0) =~= revalidated@);
        while i < revalidated.len()
            invariant
                0 <= i <= revalidated@.len(),
                self.is_ready(),
                changed_fault(revalidated@) == changed_fault(revalidated@.skip(i as int)),
            decreases revalidated@.len() - i,
        {
            assert(revalidated@.skip(i as int)[0] == revalidated@[i as int]);
            if let Err(error) = &revalidated[i].unchanged {
                return Err(Error { kind: error.kind, message: error.message.clone() });
            }
            assert(revalidated@.skip(i as int).drop_first() =~= revalidated@.skip(i + 1));
            i += 1;
        }
        Ok(())
    }

    /// Whether the batch may be executed at all.
    pub fn execute(&self) -> (result: Result<&Plan, Error>)
        ensures
            match result {
                Ok(plan) => self.is_ready() && *plan == self.inner.prepared.plan,
                Err(error) => !self.is_ready() && error.says(
                    ErrorKind::PermissionDenied,
                    "installer batch was refused"@,
                ),
            },
    {
        if !self.ready() {
            return Err(Error::new(ErrorKind::PermissionDenied, "installer batch was refused"));
        }
        Ok(self.preview())
    }
}

/// An approval covers every retained candidate: each was seen to be unchanged.
pub proof fn approval_covers_every_candidate(
    candidates: Seq<native::Candidate>,
    looks: Seq<InstallerAgain>,
    i: int,
)
    requires
        looks_at(candidates, looks),
        changed_fault(looks) is None,
        0 <= i < candidates.len(),
    ensures
        looks[i].path.bytes@ == candidates[i].path.bytes@,
        looks[i].unchanged is Ok,
    decreases candidates.len(),
{
    assert(looks[i].path.bytes@ == candidates[i].path.bytes@);
    if i > 0 {
        let rest = candidates.drop_first();
        let after = looks.drop_first();
        assert forall|j: int| 0 <= j < after.len() implies (#[trigger] after[j]).path.bytes@
            == rest[j].path.bytes@ by {
            assert(looks[j + 1].path.bytes@ == candidates[j + 1].path.bytes@);
        }
        approval_covers_every_candidate(rest, after, i - 1);
    }
}

/// A selection that is prepared names no file twice.
pub proof fn selections_are_unique(
    candidates: Seq<InstallerCandidate>,
    paths: Seq<NativePath>,
    i: int,
    j: int,
)
    requires
        paths_fault(candidates, paths) is None,
        0 <= i < j < paths.len(),
    ensures
        !path::same_path(paths[i].bytes@, paths[j].bytes@),
    decreases paths.len(),
{
    if j < paths.len() - 1 {
        selections_are_unique(candidates, paths.drop_last(), i, j);
    } else if path::same_path(paths[i].bytes@, paths[j].bytes@) {
        assert(paths.drop_last()[i] == paths[i]);
        assert(occurs(paths.drop_last(), paths.last().bytes@));
    }
}

} // verus!
