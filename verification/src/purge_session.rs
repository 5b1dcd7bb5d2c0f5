//! A Trash session for explicitly selected project artifacts.
//!
//! Every artifact moves as one container; the marker files that bind it to its project are
//! evidence and never targets.

use crate::batch;
use crate::batch::ReasonCode;
use crate::bundle::{IoFailure, IoKind};
use crate::error::{Error, ErrorKind};
use crate::execute::{GuardDecision, GuardPoint, Plan, SelectionIssue, SelectionRefusal};
use crate::journal;
use crate::journal::{NativePath, MAX_ITEMS};
use crate::lifecycle;
use crate::model::ResourceKind;
use crate::native;
use crate::native::Retained;
use crate::path;
use crate::policy_snapshot::PolicyGuardStatus;
use crate::recover::Fault;
use crate::text;
use crate::trash_session;
use crate::trash_session::Prepared;
use vstd::prelude::*;
use vstd::string::*;
use vstd::utf8;

verus! {

/// How many markers may bind an artifact.
pub const MAX_MARKERS: usize = 4;

/// How many ancestors of an artifact are looked at.
pub const MAX_ANCESTORS: usize = 64;

/// An artifact directory, its project, and the files that show it to be one.
#[derive(Debug)]
pub struct PurgeSelection {
    pub artifact: NativePath,
    pub project_root: NativePath,
    pub markers: Vec<NativePath>,
}

/// Whether a path lies right below a directory.
pub open spec fn is_child(place: Seq<u8>, root: Seq<u8>) -> bool {
    path::steps(place).len() == path::steps(root).len() + 1 && path::is_within(place, root)
}

fn lies_right_below(place: &[u8], root: &[u8]) -> (answer: bool)
    ensures
        answer == is_child(place@, root@),
{
    let names = path::split_steps(place);
    let above = path::split_steps(root);
    assert(path::views(names@).len() == names@.len());
    assert(path::views(above@).len() == above@.len());
    names.len() > 0 && names.len() - 1 == above.len() && path::within(place, root)
}

/// Whether a marker is a file right below the project root.
pub open spec fn is_marker_of(marker: NativePath, root: NativePath) -> bool {
    trash_session::is_plain(marker.bytes@) && is_child(marker.bytes@, root.bytes@)
}

/// Why a selection cannot be prepared.
pub open spec fn selection_fault(selection: PurgeSelection) -> Option<Fault> {
    if !trash_session::is_plain(selection.artifact.bytes@) || !trash_session::is_plain(
        selection.project_root.bytes@,
    ) {
        Some(
            (
                ErrorKind::InvalidData,
                "artifacts and project roots must be absolute native paths without traversal"@,
            ),
        )
    } else if !is_child(selection.artifact.bytes@, selection.project_root.bytes@) {
        Some(
            (
                ErrorKind::InvalidData,
                "an artifact must be a direct child of its project root"@,
            ),
        )
    } else if selection.markers@.len() == 0 || selection.markers@.len() > MAX_MARKERS {
        Some(
            (ErrorKind::InvalidData, "an artifact carries between 1 and 4 binding markers"@),
        )
    } else if exists|i: int|
        0 <= i < selection.markers@.len() && !is_marker_of(
            #[trigger] selection.markers@[i],
            selection.project_root,
        ) {
        Some(
            (ErrorKind::InvalidData, "markers must be files directly at the project root"@),
        )
    } else {
        None
    }
}

pub open spec fn selections_fault(selections: Seq<PurgeSelection>) -> Option<Fault>
    decreases selections.len(),
{
    if selections.len() == 0 {
        None
    } else if selection_fault(selections[0]) is Some {
        selection_fault(selections[0])
    } else {
        selections_fault(selections.drop_first())
    }
}

fn check_purge(selection: &PurgeSelection) -> (result: Result<(), Error>)
    ensures
        match result {
            Ok(_) => selection_fault(*selection) is None,
            Err(error) => selection_fault(*selection) == Some(lifecycle::fault_of(error)),
        },
{
    if !trash_session::valid_absolute_path(selection.artifact.bytes.as_slice())
        || !trash_session::valid_absolute_path(selection.project_root.bytes.as_slice()) {
        return Err(
            Error::new(
                ErrorKind::InvalidData,
                "artifacts and project roots must be absolute native paths without traversal",
            ),
        );
    }
    if !lies_right_below(
        selection.artifact.bytes.as_slice(),
        selection.project_root.bytes.as_slice(),
    ) {
        return Err(
            Error::new(
                ErrorKind::InvalidData,
                "an artifact must be a direct child of its project root",
            ),
        );
    }
    if selection.markers.len() == 0 || selection.markers.len() > MAX_MARKERS {
        return Err(
            Error::new(
                ErrorKind::InvalidData,
                "an artifact carries between 1 and 4 binding markers",
            ),
        );
    }
    let mut sound = true;
    let mut i: usize = 0;
    while i < selection.markers.len()
        invariant
            0 <= i <= selection.markers@.len(),
            sound == forall|j: int|
                0 <= j < i ==> is_marker_of(
                    #[trigger] selection.markers@[j],
                    selection.project_root,
                ),
        decreases selection.markers@.len() - i,
    {
        let marker: &NativePath = &selection.markers[i];
        let fits = trash_session::valid_absolute_path(marker.bytes.as_slice()) && lies_right_below(
            marker.bytes.as_slice(),
            selection.project_root.bytes.as_slice(),
        );
        assert(fits == is_marker_of(selection.markers@[i as int], selection.project_root));
        if !fits {
            sound = false;
        }
        i += 1;
    }
    if !sound {
        return Err(
            Error::new(
                ErrorKind::InvalidData,
                "markers must be files directly at the project root",
            ),
        );
    }
    Ok(())
}

/// The project roots of the selections.
pub open spec fn project_roots(selections: Seq<PurgeSelection>) -> Seq<Seq<u8>> {
    Seq::new(selections.len(), |i: int| selections[i].project_root.bytes@)
}

/// What the plan made of a selected artifact.
#[derive(Debug)]
pub struct PurgeFinding {
    pub artifact: NativePath,
    pub resource: Result<u64, Error>,
}

/// Whether the plan was asked of each selected artifact, in order, up to the first that it
/// could not take.
pub open spec fn asks_of(selections: Seq<PurgeSelection>, found: Seq<PurgeFinding>) -> bool {
    &&& found.len() <= selections.len()
    &&& found.len() < selections.len() ==> found_fault(found) is Some
    &&& forall|i: int|
        0 <= i < found.len() ==> (#[trigger] found[i]).artifact.bytes@
            == selections[i].artifact.bytes@
}

/// Why the first artifact that the plan could not take could not be taken.
pub open spec fn found_fault(found: Seq<PurgeFinding>) -> Option<Fault>
    decreases found.len(),
{
    if found.len() == 0 {
        None
    } else {
        match found[0].resource {
            Err(error) => Some(lifecycle::fault_of(error)),
            Ok(_) => found_fault(found.drop_first()),
        }
    }
}

/// Why the artifacts cannot be handed to a plan. `scope` is what came of opening the common
/// ancestor as a scope.
pub open spec fn refused_selection(
    selections: Seq<PurgeSelection>,
    scope: Result<(), Error>,
    cancelled: bool,
) -> Option<Fault> {
    if selections.len() == 0 || selections.len() > MAX_ITEMS {
        Some(
            (ErrorKind::InvalidData, "select between 1 and 32 explicit artifact directories"@),
        )
    } else if selections_fault(selections) is Some {
        selections_fault(selections)
    } else {
        match scope {
            Err(error) => Some(lifecycle::fault_of(error)),
            Ok(_) => if cancelled {
                Some((ErrorKind::Interrupted, "cancelled during preview"@))
            } else {
                None
            },
        }
    }
}

/// Why the artifacts cannot be prepared for a plan. `found` is what the plan made of them.
pub open spec fn purge_fault(
    selections: Seq<PurgeSelection>,
    scope: Result<(), Error>,
    cancelled: bool,
    found: Seq<PurgeFinding>,
) -> Option<Fault> {
    match refused_selection(selections, scope, cancelled) {
        Some(fault) => Some(fault),
        None => found_fault(found),
    }
}

/// The resources that a plan is to be prepared from.
#[derive(Debug)]
pub struct PurgeGathered {
    /// The directory that the plan is scoped to. Every artifact is a strict child of its
    /// project root, so that even a single one lies strictly beneath it.
    pub scope_root: Vec<u8>,
    pub resources: Vec<u64>,
    /// The resources, each with its artifact.
    pub discovered: Vec<(u64, NativePath)>,
}

/// Whether the resources are those that the plan found of the selections, in order.
pub open spec fn are_found(
    gathered: PurgeGathered,
    selections: Seq<PurgeSelection>,
    found: Seq<PurgeFinding>,
) -> bool {
    &&& gathered.resources@.len() == selections.len()
    &&& gathered.discovered@.len() == selections.len()
    &&& forall|i: int|
        0 <= i < selections.len() ==> found[i].resource == Ok::<u64, Error>(
            #[trigger] gathered.resources@[i],
        )
    &&& forall|i: int|
        0 <= i < selections.len() ==> (#[trigger] gathered.discovered@[i]).0
            == gathered.resources@[i] && journal::same_native(
            gathered.discovered@[i].1,
            selections[i].artifact,
        )
}

/// A Trash session for project artifacts.
#[derive(Debug)]
pub struct PurgeSession {
    pub retained: Retained,
    pub prepared: Prepared,
    pub selections: Vec<PurgeSelection>,
    pub discovered: Vec<(u64, NativePath)>,
}

/// What came of looking at a selected artifact again.
#[derive(Debug)]
pub struct PurgeAgain {
    pub artifact: NativePath,
    /// Whether the artifact is seen to lie inside another one.
    pub nested: bool,
    /// Whether what the platform holds is unchanged.
    pub unchanged: bool,
}

/// Whether every selected artifact was looked at again, in order.
pub open spec fn looks_at(selections: Seq<PurgeSelection>, looks: Seq<PurgeAgain>) -> bool {
    &&& looks.len() == selections.len()
    &&& forall|i: int|
        0 <= i < looks.len() ==> (#[trigger] looks[i]).artifact.bytes@
            == selections[i].artifact.bytes@
}

/// Why the artifacts are not approved.
pub open spec fn approval_fault(retained: Retained, looks: Seq<PurgeAgain>) -> Option<ReasonCode>
    decreases looks.len(),
{
    if looks.len() == 0 {
        None
    } else if looks[0].nested {
        Some(ReasonCode::ResourceChanged)
    } else if native::held(retained.candidates@, looks[0].artifact.bytes@) is None {
        Some(ReasonCode::ProbeFailed)
    } else if !looks[0].unchanged {
        Some(ReasonCode::ResourceChanged)
    } else {
        approval_fault(retained, looks.drop_first())
    }
}

impl PurgeSession {
    /// The resources that a plan is to be prepared from. The scope is the selections' deepest
    /// common ancestor.
    pub fn prepare(
        selections: &Vec<PurgeSelection>,
        scope: &Result<(), Error>,
        cancelled: bool,
        found: &Vec<PurgeFinding>,
    ) -> (result: Result<PurgeGathered, Error>)
        requires
            refused_selection(selections@, *scope, cancelled) is None ==> asks_of(
                selections@,
                found@,
            ),
        ensures
            match result {
                Ok(gathered) => {
                    &&& purge_fault(selections@, *scope, cancelled, found@) is None
                    &&& batch::ancestor(project_roots(selections@)) == Some(gathered.scope_root@)
                    &&& are_found(gathered, selections@, found@)
                },
                Err(error) => purge_fault(selections@, *scope, cancelled, found@) == Some(
                    lifecycle::fault_of(error),
                ),
            },
    {
        if selections.len() == 0 || selections.len() > MAX_ITEMS {
            return Err(
                Error::new(
                    ErrorKind::InvalidData,
                    "select between 1 and 32 explicit artifact directories",
                ),
            );
        }
        let mut roots: Vec<Vec<u8>> = Vec::new();
        let mut i: usize = 0;
        assert(selections@.skip(0) =~= selections@);
        while i < selections.len()
            invariant
                0 <= i <= selections@.len(),
                0 < selections@.len() <= MAX_ITEMS,
                selections_fault(selections@) == selections_fault(selections@.skip(i as int)),
                roots@.len() == i,
                forall|j: int|
                    0 <= j < i ==> (#[trigger] roots@[j])@ == selections@[j].project_root.bytes@
                        && path::is_absolute(roots@[j]@),
            decreases selections@.len() - i,
        {
            assert(selections@.skip(i as int)[0] == selections@[i as int]);
            if let Err(error) = check_purge(&selections[i]) {
                return Err(error);
            }
            roots.push(text::copy_bytes(selections[i].project_root.bytes.as_slice()));
            assert(selections@.skip(i as int).drop_first() =~= selections@.skip(i + 1));
            i += 1;
        }
        assert(path::views(roots@) =~= project_roots(selections@));
        proof {
            let views = path::views(roots@);
            assert forall|j: int| 0 <= j < views.len() implies path::is_absolute(
                #[trigger] views[j],
            ) by {
                assert(views[j] == roots@[j]@);
            }
            batch::absolute_paths_share_an_ancestor(views);
        }
        let scope_root: Vec<u8> = match batch::common_ancestor(&roots) {
            None => {
                return Err(
                    Error::new(ErrorKind::InvalidData, "selections share no common ancestor"),
                );
            },
            Some(root) => root,
        };
        if let Err(error) = scope {
            return Err(Error { kind: error.kind, message: error.message.clone() });
        }
        if cancelled {
            return Err(Error::new(ErrorKind::Interrupted, "cancelled during preview"));
        }
        let mut resources: Vec<u64> = Vec::new();
        let mut discovered: Vec<(u64, NativePath)> = Vec::new();
        let mut k: usize = 0;
        assert(found@.skip(0) =~= found@);
        while k < found.len()
            invariant
                0 <= k <= found@.len(),
                refused_selection(selections@, *scope, cancelled) is None,
                asks_of(selections@, found@),
                found_fault(found@) == found_fault(found@.skip(k as int)),
                resources@.len() == k,
                discovered@.len() == k,
                forall|j: int|
                    0 <= j < k ==> found@[j].resource == Ok::<u64, Error>(
                        #[trigger] resources@[j],
                    ),
                forall|j: int|
                    0 <= j < k ==> (#[trigger] discovered@[j]).0 == resources@[j]
                        && journal::same_native(discovered@[j].1, selections@[j].artifact),
            decreases found@.len() - k,
        {
            assert(found@.skip(k as int)[0] == found@[k as int]);
            match &found[k].resource {
                Err(error) => {
                    return Err(Error { kind: error.kind, message: error.message.clone() });
                },
                Ok(resource) => {
                    resources.push(*resource);
                    discovered.push((*resource, selections[k].artifact.copy()));
                },
            }
            assert(found@.skip(k as int).drop_first() =~= found@.skip(k + 1));
            k += 1;
        }
        Ok(PurgeGathered { scope_root, resources, discovered })
    }

    pub fn preview(&self) -> (plan: &Plan)
        ensures
            *plan == self.prepared.plan,
    {
        &self.prepared.plan
    }

    pub fn issues(&self) -> (issues: &Vec<SelectionIssue>)
        ensures
            *issues == self.retained.issues,
    {
        &self.retained.issues
    }

    pub fn refusals(&self) -> (refusals: Vec<SelectionRefusal>)
        ensures
            refusals@.len() == self.prepared.rejected@.len(),
            forall|i: int|
                0 <= i < refusals@.len() ==> batch::says_batch_refusal(
                    #[trigger] refusals@[i],
                    self.discovered@,
                    self.prepared.rejected@[i],
                ),
    {
        batch::batch_refusals(&self.discovered, &self.prepared.rejected)
    }

    /// Approval re-validates every candidate (identity, ancestry, markers) and re-evaluates
    /// the nesting exclusion; any change refuses approval, never substitutes the new state.
    /// `Ok` means that the plan may be asked.
    pub fn approve(&self, looks: &Vec<PurgeAgain>) -> (result: Result<(), ReasonCode>)
        requires
            looks_at(self.selections@, looks@),
        ensures
            match result {
                Ok(_) => approval_fault(self.retained, looks@) is None,
                Err(code) => approval_fault(self.retained, looks@) == Some(code),
            },
    {
        let mut i: usize = 0;
        assert(looks@.skip(0) =~= looks@);
        while i < looks.len()
            invariant
                0 <= i <= looks@.len(),
                approval_fault(self.retained, looks@) == approval_fault(
                    self.retained,
                    looks@.skip(i as int),
                ),
            decreases looks@.len() - i,
        {
            assert(looks@.skip(i as int)[0] == looks@[i as int]);
            if looks[i].nested {
                return Err(ReasonCode::ResourceChanged);
            }
            if self.retained.find(looks[i].artifact.bytes.as_slice()).is_none() {
                return Err(ReasonCode::ProbeFailed);
            }
            if !looks[i].unchanged {
                return Err(ReasonCode::ResourceChanged);
            }
            assert(looks@.skip(i as int).drop_first() =~= looks@.skip(i + 1));
            i += 1;
        }
        Ok(())
    }
}

/// An approval covers every selection: each selected artifact is held, does not lie inside
/// another one, and is unchanged.
pub proof fn approval_covers_every_artifact(
    retained: Retained,
    selections: Seq<PurgeSelection>,
    looks: Seq<PurgeAgain>,
    i: int,
)
    requires
        looks_at(selections, looks),
        approval_fault(retained, looks) is None,
        0 <= i < selections.len(),
    ensures
        native::held(retained.candidates@, selections[i].artifact.bytes@) is Some,
        !looks[i].nested,
        looks[i].unchanged,
    decreases selections.len(),
{
    if i > 0 {
        let rest = selections.drop_first();
        let after = looks.drop_first();
        assert forall|j: int| 0 <= j < after.len() implies (#[trigger] after[j]).artifact.bytes@
            == rest[j].artifact.bytes@ by {
            assert(looks[j + 1].artifact.bytes@ == selections[j + 1].artifact.bytes@);
        }
        approval_covers_every_artifact(retained, rest, after, i - 1);
    } else {
        assert(looks[0].artifact.bytes@ == selections[0].artifact.bytes@);
    }
}

/// A file whose presence marks a project, and the names of the artifacts that it marks.
#[derive(Debug)]
pub struct ProjectMarker {
    pub file_name: String,
    pub artifacts: Vec<String>,
}

/// Whether a marker marks artifacts of the given name.
pub open spec fn marks(marker: ProjectMarker, name: Seq<u8>) -> bool {
    exists|i: int|
        0 <= i < marker.artifacts@.len() && utf8::encode_utf8((#[trigger] marker.artifacts@[i])@)
            == name
}

fn marks_name(marker: &ProjectMarker, name: &[u8]) -> (answer: bool)
    ensures
        answer == marks(*marker, name@),
{
    let mut i: usize = 0;
    while i < marker.artifacts.len()
        invariant
            0 <= i <= marker.artifacts@.len(),
            forall|j: int|
                0 <= j < i ==> utf8::encode_utf8((#[trigger] marker.artifacts@[j])@) != name@,
        decreases marker.artifacts@.len() - i,
    {
        if text::bytes_eq(marker.artifacts[i].as_str().as_bytes(), name) {
            return true;
        }
        i += 1;
    }
    false
}

/// Where the markers of one directory would lie, if its name is that of an artifact.
pub open spec fn marker_places(
    above: Seq<Seq<u8>>,
    name: Seq<u8>,
    markers: Seq<ProjectMarker>,
) -> Seq<Seq<u8>>
    decreases markers.len(),
{
    if markers.len() == 0 {
        Seq::empty()
    } else {
        let before = marker_places(above, name, markers.drop_last());
        if path::is_name(name) && marks(markers.last(), name) {
            before.push(
                path::joined(
                    path::spelled(above),
                    utf8::encode_utf8(markers.last().file_name@),
                ),
            )
        } else {
            before
        }
    }
}

/// Where the markers of the ancestors of an artifact would lie, the nearest ancestor first.
/// `names` are the components of the artifact; the ancestor with `n` components comes first.
pub open spec fn nesting_places(
    names: Seq<Seq<u8>>,
    n: nat,
    markers: Seq<ProjectMarker>,
    left: nat,
) -> Seq<Seq<u8>>
    decreases n,
{
    if n == 0 || left == 0 || n > names.len() {
        Seq::empty()
    } else {
        marker_places(names.take(n - 1), names[n - 1], markers) + nesting_places(
            names,
            (n - 1) as nat,
            markers,
            (left - 1) as nat,
        )
    }
}

/// Where markers have to be looked for to see whether an artifact lies inside another one.
pub open spec fn places_to_look(artifact: Seq<u8>, markers: Seq<ProjectMarker>) -> Seq<Seq<u8>> {
    let names = path::steps(artifact);
    if names.len() == 0 {
        Seq::empty()
    } else {
        nesting_places(names, (names.len() - 1) as nat, markers, MAX_ANCESTORS as nat)
    }
}

/// Where markers have to be looked for to see whether an artifact lies inside another one:
/// beside every strict ancestor whose name is that of an artifact.
pub fn nesting_probes(artifact: &[u8], markers: &Vec<ProjectMarker>) -> (places: Vec<Vec<u8>>)
    ensures
        path::views(places@) == places_to_look(artifact@, markers@),
{
    let mut places: Vec<Vec<u8>> = Vec::new();
    let names = path::split_steps(artifact);
    let ghost all = path::steps(artifact@);
    assert(path::views(names@).len() == names@.len());
    assert(path::views(places@) =~= Seq::empty());
    if names.len() == 0 {
        return places;
    }
    let mut n: usize = names.len() - 1;
    let mut left: usize = MAX_ANCESTORS;
    assert(path::views(places@) + nesting_places(all, n as nat, markers@, left as nat)
        =~= places_to_look(artifact@, markers@));
    while n > 0 && left > 0
        invariant
            all == path::steps(artifact@),
            all == path::views(names@),
            all.len() == names@.len(),
            n < all.len(),
            path::views(places@) + nesting_places(all, n as nat, markers@, left as nat)
                == places_to_look(artifact@, markers@),
        decreases n,
    {
        let ghost before = path::views(places@);
        let ghost here = marker_places(all.take(n - 1), all[n - 1], markers@);
        assert(all[n - 1] == names@[n - 1]@);
        let mut m: usize = 0;
        assert(markers@.take(0) =~= Seq::empty());
        assert(path::views(places@) =~= before + marker_places(
            all.take(n - 1),
            all[n - 1],
            markers@.take(0),
        ));
        while m < markers.len()
            invariant
                0 <= m <= markers@.len(),
                all == path::views(names@),
                all.len() == names@.len(),
                0 < n < all.len(),
                all[n - 1] == names@[n - 1]@,
                path::views(places@) == before + marker_places(
                    all.take(n - 1),
                    all[n - 1],
                    markers@.take(m as int),
                ),
            decreases markers@.len() - m,
        {
            let ghost so_far = path::views(places@);
            assert(markers@.take(m + 1).drop_last() =~= markers@.take(m as int));
            if path::ordinary(names[n - 1].as_slice()) && marks_name(
                &markers[m],
                names[n - 1].as_slice(),
            ) {
                let parent = path::spell(&names, 0, n - 1);
                assert(all.subrange(0, n - 1) =~= all.take(n - 1));
                let place = path::join(
                    parent.as_slice(),
                    markers[m].file_name.as_str().as_bytes(),
                );
                let ghost added = place@;
                places.push(place);
                assert(path::views(places@) =~= so_far.push(added));
                assert(so_far.push(added) =~= before + marker_places(
                    all.take(n - 1),
                    all[n - 1],
                    markers@.take(m as int),
                ).push(added));
            }
            m += 1;
        }
        assert(markers@.take(markers@.len() as int) =~= markers@);
        assert(before + (here + nesting_places(
            all,
            (n - 1) as nat,
            markers@,
            (left - 1) as nat,
        )) =~= (before + here) + nesting_places(all, (n - 1) as nat, markers@, (left - 1) as nat));
        n -= 1;
        left -= 1;
    }
    assert(path::views(places@) + Seq::empty() =~= path::views(places@));
    places
}

/// Whether something that was seen where a marker would lie shows one, or leaves it open.
pub open spec fn shows_marker(look: Result<ResourceKind, IoFailure>) -> bool {
    match look {
        Ok(kind) => kind == ResourceKind::File,
        Err(failure) => failure.kind != IoKind::NotFound,
    }
}

/// Re-evaluates the preview's nesting exclusion: if any strict ancestor of the artifact is
/// itself a marker-bound artifact directory, the selection nests inside another project's
/// artifact and must not move. An observation error is not proof of absence. `looks` holds
/// what was seen at each place of [`nesting_probes`], without following links.
pub fn purge_nesting_observed(looks: &Vec<Result<ResourceKind, IoFailure>>) -> (nested: bool)
    ensures
        nested == exists|i: int| 0 <= i < looks@.len() && shows_marker(#[trigger] looks@[i]),
{
    let mut i: usize = 0;
    while i < looks.len()
        invariant
            0 <= i <= looks@.len(),
            forall|j: int| 0 <= j < i ==> !shows_marker(#[trigger] looks@[j]),
        decreases looks@.len() - i,
    {
        let shown = match &looks[i] {
            Ok(kind) => *kind == ResourceKind::File,
            Err(failure) => failure.kind != IoKind::NotFound,
        };
        if shown {
            assert(shows_marker(looks@[i as int]));
            return true;
        }
        i += 1;
    }
    false
}

/// What the guard of a purge session decides: the policy first, and immediately before the
/// native call whether the artifact lies inside another one.
pub open spec fn purge_decision(
    point: GuardPoint,
    nested: bool,
    policy: Option<Result<PolicyGuardStatus, Error>>,
) -> Result<Option<Seq<char>>, Seq<char>> {
    match trash_session::policy_decision(policy) {
        Ok(None) => if point == GuardPoint::LastNative && nested {
            Ok(
                Some(
                    "a marker-bound ancestor artifact appeared; the selection nests and is refused"@,
                ),
            )
        } else {
            Ok(None)
        },
        decision => decision,
    }
}

/// The guard of a purge session.
pub fn purge_guard(
    point: GuardPoint,
    nested: bool,
    policy: Option<Result<PolicyGuardStatus, Error>>,
) -> (result: Result<GuardDecision, String>)
    ensures
        trash_session::decided(result) == purge_decision(point, nested, policy),
{
    match trash_session::exclusion_guard(policy) {
        Ok(GuardDecision::Proceed) => {
            if point == GuardPoint::LastNative && nested {
                return Ok(
                    GuardDecision::Refused(
                        "a marker-bound ancestor artifact appeared; the selection nests and is refused".to_owned(),
                    ),
                );
            }
            Ok(GuardDecision::Proceed)
        },
        decision => decision,
    }
}

/// An artifact that is seen inside another one never goes to the native call.
pub proof fn nested_artifact_never_moves(policy: Option<Result<PolicyGuardStatus, Error>>)
    ensures
        purge_decision(GuardPoint::LastNative, true, policy) != Ok::<
            Option<Seq<char>>,
            Seq<char>,
        >(None),
{
}

/// Every artifact of a selection that is prepared lies strictly beneath the directory that
/// the plan is scoped to.
pub proof fn artifacts_lie_beneath_the_scope(selections: Seq<PurgeSelection>, i: int)
    requires
        0 <= i < selections.len(),
        is_child(selections[i].artifact.bytes@, selections[i].project_root.bytes@),
    ensures
        batch::ancestor(project_roots(selections)) matches Some(scope) ==> path::is_within(
            selections[i].artifact.bytes@,
            scope,
        ) && !path::is_within(scope, selections[i].artifact.bytes@),
{
    let roots = project_roots(selections);
    let artifact = selections[i].artifact.bytes@;
    if let Some(scope) = batch::ancestor(roots) {
        batch::common_ancestor_is_the_deepest(roots, scope);
        assert(path::is_within(roots[i], scope));
        path::within_is_transitive(artifact, roots[i], scope);
    }
}

} // verus!
