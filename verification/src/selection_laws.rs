//! What holds of everything that is selected to be moved to the Trash.

use crate::app_inventory::RunningView;
use crate::batch;
use crate::batch::ReasonCode;
use crate::bundle::{IoFailure, IoKind};
use crate::bundle_session;
use crate::cache_session;
use crate::cache_session::{CacheAgain, CacheLook, CacheSelection};
use crate::clean_policy::UnixIdentity;
use crate::clean_session;
use crate::clean_session::Discovered;
use crate::error::{Error, ErrorKind};
use crate::execute::{GuardPoint, PlanItem};
use crate::installer_session;
use crate::installer_session::{
    Admission, InstallerAgain, InstallerCandidate, InstallerSession,
};
use crate::journal;
use crate::journal::{ItemState, NativePath, Record};
use crate::model::{FileIdentity, Host, ResourceKind};
use crate::native;
use crate::native::{
    Boundary, Candidate, Capability, CaptureFailure, NativeFileInfo, OwnerState, Protection,
    Retained,
};
use crate::path;
use crate::path_laws;
use crate::policy_snapshot::PolicyGuardStatus;
use crate::purge_session;
use crate::purge_session::{ProjectMarker, PurgeAgain, PurgeFinding, PurgeSelection};
use crate::recover::Fault;
use crate::rule_binding;
use crate::rule_binding::{NativeRuleBindingWitness, NativeWitnessInfo, RuleCandidate};
use crate::trash_session;
use crate::trash_session::{ExclusionLook, PathLook, RuleLook, TrashSession};
use vstd::prelude::*;
use vstd::string::*;
use vstd::utf8;

verus! {

/// A path is plain exactly if it starts at the root and no piece of it leads upwards.
pub proof fn plain_paths_never_lead_upwards(place: Seq<u8>)
    ensures
        trash_session::is_plain(place) <==> {
            &&& place.len() > 0 && place[0] == 0x2f
            &&& forall|at: int|
                0 <= at && at + 2 <= place.len() && (at == 0 || place[at - 1] == 0x2f) && (at + 2
                    == place.len() || place[at + 2] == 0x2f) ==> #[trigger] place.subrange(
                    at,
                    at + 2,
                ) != seq![0x2eu8, 0x2e]
        },
{
    let dots = seq![0x2eu8, 0x2e];
    assert(dots =~= seq![path::DOT, path::DOT]);
    if trash_session::is_plain(place) {
        assert forall|at: int|
            0 <= at && at + 2 <= place.len() && (at == 0 || place[at - 1] == 0x2f) && (at + 2
                == place.len() || place[at + 2] == 0x2f) implies #[trigger] place.subrange(
            at,
            at + 2,
        ) != dots by {
            if place.subrange(at, at + 2) == dots {
                assert(path::piece_at(place, dots, at));
            }
        }
    } else if place.len() > 0 && place[0] == 0x2f {
        if path::has_piece(place, dots) {
            let at = choose|at: int| path::piece_at(place, dots, at);
            assert(place.subrange(at, at + 2) == dots);
        } else {
            assert(path::piece_at(place, seq![path::DOT], 0));
            assert(place.subrange(0, 1)[0] == place[0]);
            assert(seq![path::DOT][0] == path::DOT);
        }
    }
}

/// What is held of a place is what was captured there first, and something is held exactly if
/// something was captured.
pub proof fn the_first_capture_is_held(candidates: Seq<Candidate>, place: Seq<u8>, at: int)
    requires
        0 <= at < candidates.len(),
        path::same_path(candidates[at].path.bytes@, place),
    ensures
        native::held(candidates, place) is Some,
        (forall|i: int|
            0 <= i < at ==> !path::same_path((#[trigger] candidates[i]).path.bytes@, place)) ==>
            native::held(candidates, place) == Some(candidates[at].info),
    decreases candidates.len(),
{
    if at > 0 {
        let rest = candidates.drop_first();
        assert(rest[at - 1] == candidates[at]);
        the_first_capture_is_held(rest, place, at - 1);
        if forall|i: int|
            0 <= i < at ==> !path::same_path((#[trigger] candidates[i]).path.bytes@, place) {
            assert(!path::same_path(candidates[0].path.bytes@, place));
            assert forall|i: int| 0 <= i < at - 1 implies !path::same_path(
                (#[trigger] rest[i]).path.bytes@,
                place,
            ) by {
                assert(rest[i] == candidates[i + 1]);
            }
        }
    }
}

/// Nothing is held of a place that nothing was captured at.
pub proof fn only_captured_places_are_held(candidates: Seq<Candidate>, place: Seq<u8>)
    requires
        forall|i: int|
            0 <= i < candidates.len() ==> !path::same_path(
                (#[trigger] candidates[i]).path.bytes@,
                place,
            ),
    ensures
        native::held(candidates, place) is None,
    decreases candidates.len(),
{
    if candidates.len() > 0 {
        let rest = candidates.drop_first();
        assert(!path::same_path(candidates[0].path.bytes@, place));
        assert forall|i: int| 0 <= i < rest.len() implies !path::same_path(
            (#[trigger] rest[i]).path.bytes@,
            place,
        ) by {
            assert(rest[i] == candidates[i + 1]);
        }
        only_captured_places_are_held(rest, place);
    }
}

/// What is told of a place is the identity and size of what is held or captured there; what
/// could not be captured is told as incomplete, unprotected and not to be moved, and what
/// changed is an error.
pub proof fn snapshots_tell_what_was_captured(
    kind: ResourceKind,
    candidates: Seq<Candidate>,
    place: Seq<u8>,
    revalidated: Result<(), String>,
    capture: Result<NativeFileInfo, CaptureFailure>,
    owner: OwnerState,
)
    ensures
        ({
            let told = native::told(kind, candidates, place, revalidated, capture, owner);
            &&& told is Err <==> native::held(candidates, place) is Some && revalidated is Err
            &&& told matches Ok(snapshot) ==> {
                &&& snapshot.complete <==> native::held(candidates, place) is Some || capture is Ok
                &&& snapshot.complete ==> {
                    let info = match native::held(candidates, place) {
                        Some(info) => info,
                        None => capture->Ok_0,
                    };
                    &&& snapshot.identity == Some(
                        FileIdentity::Unix { device: info.device, inode: info.inode },
                    )
                    &&& snapshot.logical_bytes == Some(info.logical_bytes)
                    &&& snapshot.modified_at == Some(info.modified_at)
                    &&& snapshot.kind == kind
                    &&& snapshot.owner == owner
                }
                &&& !snapshot.complete ==> snapshot.identity is None && snapshot.owner
                    == OwnerState::Unknown && snapshot.logical_bytes is None
            }
        }),
{
}

/// A selection can be previewed exactly if it names between one and 32 paths and at most 32
/// exclusions, each of the latter plain.
pub proof fn selections_are_bounded(paths: Seq<NativePath>, excluded: Seq<NativePath>)
    ensures
        trash_session::selection_fault(paths, excluded) is None <==> {
            &&& 1 <= paths.len() <= 32
            &&& excluded.len() <= 32
            &&& forall|i: int|
                0 <= i < excluded.len() ==> trash_session::is_plain(
                    (#[trigger] excluded[i]).bytes@,
                )
        },
{
}

/// A selected path is left out exactly if it overlaps an excluded path, or if what it leads to
/// is an excluded object; and only where nothing stopped or failed before.
pub proof fn excluded_objects_are_left_out(
    place: NativePath,
    excluded: Seq<NativePath>,
    look: PathLook,
    rule: Option<RuleLook>,
)
    ensures
        ({
            let outcome = trash_session::path_outcome(place, excluded, look, rule);
            &&& outcome is Ok ==> !look.cancelled && look.found is Ok && (rule matches Some(seen)
                ==> seen.supported && seen.captured is Ok)
            &&& outcome matches Ok((resource, left_out)) ==> {
                let finding = look.found->Ok_0;
                &&& resource == finding.resource
                &&& (exists|i: int|
                    0 <= i < excluded.len() && (path::is_within(
                        place.bytes@,
                        (#[trigger] excluded[i]).bytes@,
                    ) || path::is_within(excluded[i].bytes@, place.bytes@))) ==> left_out
                &&& left_out && !trash_session::overlaps_excluded(place.bytes@, excluded) ==>
                    finding.retained
            }
            &&& look.cancelled ==> (outcome matches Err(fault) && fault.0 == ErrorKind::Interrupted)
            &&& !look.cancelled && (rule matches Some(seen) && !seen.supported) ==> (
            outcome matches Err(fault) && fault.0 == ErrorKind::InvalidData)
        }),
{
    if exists|i: int|
        0 <= i < excluded.len() && (path::is_within(
            place.bytes@,
            (#[trigger] excluded[i]).bytes@,
        ) || path::is_within(excluded[i].bytes@, place.bytes@)) {
        let i = choose|i: int|
            0 <= i < excluded.len() && (path::is_within(
                place.bytes@,
                (#[trigger] excluded[i]).bytes@,
            ) || path::is_within(excluded[i].bytes@, place.bytes@));
        assert(path::overlap(place.bytes@, excluded[i].bytes@));
        assert(trash_session::overlaps_excluded(place.bytes@, excluded));
    }
}

/// An object is an excluded one exactly if it was found to be the same as one of the excluded;
/// a comparison that failed, or was stopped, before one matched is reported.
pub proof fn excluded_objects_are_compared_in_order(
    excluded: Seq<NativePath>,
    looks: Seq<ExclusionLook>,
    at: int,
)
    requires
        looks.len() == excluded.len(),
        0 <= at < looks.len(),
        forall|i: int|
            0 <= i < at ==> !(#[trigger] looks[i]).cancelled && looks[i].matches == Ok::<
                bool,
                Error,
            >(false),
    ensures
        !looks[at].cancelled && looks[at].matches == Ok::<bool, Error>(true) ==>
            trash_session::is_excluded_object(excluded, looks) == Ok::<bool, Fault>(true),
        looks[at].cancelled || looks[at].matches is Err ==> trash_session::is_excluded_object(
            excluded,
            looks,
        ) is Err,
        at == looks.len() - 1 && !looks[at].cancelled && looks[at].matches == Ok::<bool, Error>(
            false,
        ) ==> trash_session::is_excluded_object(excluded, looks) == Ok::<bool, Fault>(false),
    decreases looks.len(),
{
    let rest = looks.drop_first();
    if at > 0 {
        assert(!looks[0].cancelled && looks[0].matches == Ok::<bool, Error>(false));
        assert(rest[at - 1] == looks[at]);
        assert forall|i: int| 0 <= i < at - 1 implies !(#[trigger] rest[i]).cancelled
            && rest[i].matches == Ok::<bool, Error>(false) by {
            assert(rest[i] == looks[i + 1]);
        }
        excluded_objects_are_compared_in_order(excluded.drop_first(), rest, at - 1);
    } else if looks.len() == 1 {
        assert(rest.len() == 0);
        assert(trash_session::is_excluded_object(excluded.drop_first(), rest) == Ok::<bool, Fault>(
            false,
        ));
    }
}

/// The policy lets a move go on exactly if none applies or it is unchanged.
pub proof fn changed_policies_refuse(policy: Option<Result<PolicyGuardStatus, Error>>)
    ensures
        trash_session::policy_decision(policy) == Ok::<Option<Seq<char>>, Seq<char>>(None) <==>
            policy is None || policy == Some(Ok::<PolicyGuardStatus, Error>(
            PolicyGuardStatus::Unchanged,
        )),
        policy matches Some(Err(_)) ==> trash_session::policy_decision(policy) is Err,
{
}

/// The path of a resource is the last that was gathered with it, and there is one exactly if
/// any was.
pub proof fn refusals_name_the_selected_path(
    paths: Seq<NativePath>,
    resources: Seq<u64>,
    resource: u64,
    at: int,
)
    requires
        resources.len() <= paths.len(),
        0 <= at < resources.len(),
        resources[at] == resource,
        forall|i: int| at < i < resources.len() ==> #[trigger] resources[i] != resource,
    ensures
        trash_session::path_of(paths, resources, resource) == Some(paths[at]),
    decreases resources.len(),
{
    if at < resources.len() - 1 {
        let head = resources.drop_last();
        assert(resources[resources.len() - 1] != resource);
        assert(head[at] == resource);
        assert forall|i: int| at < i < head.len() implies #[trigger] head[i] != resource by {
            assert(head[i] == resources[i]);
        }
        refusals_name_the_selected_path(paths, head, resource, at);
    }
}

/// The path of a discovered resource is the first that was discovered with it.
pub proof fn refusals_name_the_discovered_path(
    discovered: Seq<(u64, NativePath)>,
    resource: u64,
    at: int,
)
    requires
        0 <= at < discovered.len(),
        discovered[at].0 == resource,
        forall|i: int| 0 <= i < at ==> (#[trigger] discovered[i]).0 != resource,
    ensures
        batch::first_path(discovered, resource) == Some(discovered[at].1),
    decreases discovered.len(),
{
    if at > 0 {
        let rest = discovered.drop_first();
        assert(discovered[0].0 != resource);
        assert(rest[at - 1] == discovered[at]);
        assert forall|i: int| 0 <= i < at - 1 implies (#[trigger] rest[i]).0 != resource by {
            assert(rest[i] == discovered[i + 1]);
        }
        refusals_name_the_discovered_path(rest, resource, at - 1);
    }
}

/// An artifact can be purged exactly as a direct child of its project root, bound by one to
/// four markers that are direct children of it too, all of them plain paths.
pub proof fn artifacts_are_bound_to_their_project(selection: PurgeSelection)
    ensures
        purge_session::selection_fault(selection) is None <==> {
            let root = path::steps(selection.project_root.bytes@);
            let artifact = path::steps(selection.artifact.bytes@);
            &&& trash_session::is_plain(selection.artifact.bytes@)
            &&& trash_session::is_plain(selection.project_root.bytes@)
            &&& artifact.len() == root.len() + 1 && artifact.take(root.len() as int) == root
            &&& 1 <= selection.markers@.len() <= 4
            &&& forall|i: int|
                0 <= i < selection.markers@.len() ==> {
                    let marker = path::steps((#[trigger] selection.markers@[i]).bytes@);
                    &&& trash_session::is_plain(selection.markers@[i].bytes@)
                    &&& marker.len() == root.len() + 1
                    &&& marker.take(root.len() as int) == root
                }
        },
{
    let root = path::steps(selection.project_root.bytes@);
    lemma_child(selection.artifact.bytes@, selection.project_root.bytes@);
    assert forall|i: int| 0 <= i < selection.markers@.len() implies ({
        let marker = path::steps((#[trigger] selection.markers@[i]).bytes@);
        purge_session::is_marker_of(selection.markers@[i], selection.project_root) <==> {
            &&& trash_session::is_plain(selection.markers@[i].bytes@)
            &&& marker.len() == root.len() + 1
            &&& marker.take(root.len() as int) == root
        }
    }) by {
        lemma_child(selection.markers@[i].bytes@, selection.project_root.bytes@);
    }
}

proof fn lemma_child(place: Seq<u8>, root: Seq<u8>)
    ensures
        purge_session::is_child(place, root) <==> path::steps(place).len() == path::steps(
            root,
        ).len() + 1 && path::steps(place).take(path::steps(root).len() as int) == path::steps(root),
{
    let p = path::steps(place);
    let r = path::steps(root);
    if p.len() >= r.len() {
        assert(p.take(r.len() as int) =~= p.subrange(0, r.len() as int));
    }
}

/// A purge is refused for the first selection that is at fault, and for none exactly if none
/// is; it takes between one and 32.
pub proof fn purges_take_every_selection(
    selections: Seq<PurgeSelection>,
    scope: Result<(), Error>,
    cancelled: bool,
)
    ensures
        purge_session::refused_selection(selections, scope, cancelled) is None <==> {
            &&& 1 <= selections.len() <= 32
            &&& forall|i: int|
                0 <= i < selections.len() ==> purge_session::selection_fault(
                    #[trigger] selections[i],
                ) is None
            &&& scope is Ok
            &&& !cancelled
        },
{
    lemma_selections(selections);
}

proof fn lemma_selections(selections: Seq<PurgeSelection>)
    ensures
        purge_session::selections_fault(selections) is None <==> forall|i: int|
            0 <= i < selections.len() ==> purge_session::selection_fault(
                #[trigger] selections[i],
            ) is None,
    decreases selections.len(),
{
    if selections.len() > 0 {
        let rest = selections.drop_first();
        lemma_selections(rest);
        if purge_session::selections_fault(selections) is None {
            assert forall|i: int| 0 <= i < selections.len() implies purge_session::selection_fault(
                #[trigger] selections[i],
            ) is None by {
                if i > 0 {
                    assert(rest[i - 1] == selections[i]);
                }
            }
        } else if forall|i: int|
            0 <= i < selections.len() ==> purge_session::selection_fault(
                #[trigger] selections[i],
            ) is None {
            assert(purge_session::selection_fault(selections[0]) is None);
            assert forall|i: int| 0 <= i < rest.len() implies purge_session::selection_fault(
                #[trigger] rest[i],
            ) is None by {
                assert(rest[i] == selections[i + 1]);
            }
        }
    }
}

/// An artifact is approved for purging exactly if every artifact is still held, unchanged and
/// not nested in another.
pub proof fn purges_are_approved_as_a_whole(retained: Retained, looks: Seq<PurgeAgain>)
    ensures
        purge_session::approval_fault(retained, looks) is None <==> forall|i: int|
            0 <= i < looks.len() ==> !(#[trigger] looks[i]).nested && looks[i].unchanged
                && native::held(retained.candidates@, looks[i].artifact.bytes@) is Some,
    decreases looks.len(),
{
    if looks.len() > 0 {
        let rest = looks.drop_first();
        purges_are_approved_as_a_whole(retained, rest);
        if purge_session::approval_fault(retained, looks) is None {
            assert forall|i: int| 0 <= i < looks.len() implies !(#[trigger] looks[i]).nested
                && looks[i].unchanged && native::held(
                retained.candidates@,
                looks[i].artifact.bytes@,
            ) is Some by {
                if i > 0 {
                    assert(rest[i - 1] == looks[i]);
                }
            }
        } else if forall|i: int|
            0 <= i < looks.len() ==> !(#[trigger] looks[i]).nested && looks[i].unchanged
                && native::held(retained.candidates@, looks[i].artifact.bytes@) is Some {
            assert(!looks[0].nested);
            assert forall|i: int| 0 <= i < rest.len() implies !(#[trigger] rest[i]).nested
                && rest[i].unchanged && native::held(
                retained.candidates@,
                rest[i].artifact.bytes@,
            ) is Some by {
                assert(rest[i] == looks[i + 1]);
            }
        }
    }
}

/// A project shows a marker exactly where a file is, or where it cannot be told that none is.
pub proof fn doubtful_markers_count(look: Result<ResourceKind, IoFailure>)
    ensures
        purge_session::shows_marker(look) <==> match look {
            Ok(kind) => kind == ResourceKind::File,
            Err(failure) => failure.kind != IoKind::NotFound,
        },
        look == Ok::<ResourceKind, IoFailure>(ResourceKind::Directory) ==>
            !purge_session::shows_marker(look),
{
}

/// A purge goes on exactly if the policy lets it and, at the last guard, nothing nests.
pub proof fn purges_go_on_unless_nested(
    point: GuardPoint,
    nested: bool,
    policy: Option<Result<PolicyGuardStatus, Error>>,
)
    ensures
        purge_session::purge_decision(point, nested, policy) == Ok::<
            Option<Seq<char>>,
            Seq<char>,
        >(None) <==> trash_session::policy_decision(policy) == Ok::<Option<Seq<char>>, Seq<char>>(
            None,
        ) && !(point == GuardPoint::LastNative && nested),
{
}

/// Everything above an artifact is looked at for the markers of a project that would own it:
/// each name on the way, for each marker that names it, in the directory that holds it.
pub proof fn owners_are_looked_for_above(
    names: Seq<Seq<u8>>,
    n: nat,
    markers: Seq<ProjectMarker>,
    left: nat,
    at: int,
    m: int,
    k: int,
)
    requires
        n <= names.len(),
        0 < at <= n,
        n - at < left,
        0 <= m < markers.len(),
        0 <= k < markers[m].artifacts@.len(),
        utf8::encode_utf8(markers[m].artifacts@[k]@) == names[at - 1],
        path::is_name(names[at - 1]),
    ensures
        purge_session::nesting_places(names, n, markers, left).contains(
            path::joined(
                path::spelled(names.take(at - 1)),
                utf8::encode_utf8(markers[m].file_name@),
            ),
        ),
    decreases n,
{
    let place = path::joined(
        path::spelled(names.take(at - 1)),
        utf8::encode_utf8(markers[m].file_name@),
    );
    let here = purge_session::marker_places(names.take(n - 1), names[n - 1], markers);
    let above = purge_session::nesting_places(names, (n - 1) as nat, markers, (left - 1) as nat);
    let all = purge_session::nesting_places(names, n, markers, left);
    assert(all == here + above);
    if at == n {
        assert(purge_session::marks(markers[m], names[at - 1]));
        lemma_marker_places(names.take(n - 1), names[n - 1], markers, m);
        let i = choose|i: int| 0 <= i < here.len() && here[i] == place;
        assert(all[i] == place);
    } else {
        owners_are_looked_for_above(
            names,
            (n - 1) as nat,
            markers,
            (left - 1) as nat,
            at,
            m,
            k,
        );
        let i = choose|i: int| 0 <= i < above.len() && above[i] == place;
        assert(all[here.len() + i] == place);
    }
}

proof fn lemma_marker_places(
    above: Seq<Seq<u8>>,
    name: Seq<u8>,
    markers: Seq<ProjectMarker>,
    m: int,
)
    requires
        0 <= m < markers.len(),
        path::is_name(name),
        purge_session::marks(markers[m], name),
    ensures
        purge_session::marker_places(above, name, markers).contains(
            path::joined(path::spelled(above), utf8::encode_utf8(markers[m].file_name@)),
        ),
    decreases markers.len(),
{
    let head = markers.drop_last();
    let before = purge_session::marker_places(above, name, head);
    let all = purge_session::marker_places(above, name, markers);
    let place = path::joined(path::spelled(above), utf8::encode_utf8(markers[m].file_name@));
    if m < head.len() {
        assert(head[m] == markers[m]);
        lemma_marker_places(above, name, head, m);
        let i = choose|i: int| 0 <= i < before.len() && before[i] == place;
        assert(all[i] == place);
    } else {
        assert(all[before.len() as int] == place);
    }
}

/// A cache can be selected exactly by a plain path at or below a plain root, while it is still
/// what was shown, and is the object that was shown.
pub proof fn selected_caches_are_the_shown_ones(selection: CacheSelection, look: CacheLook)
    ensures
        cache_session::face_fault(selection, look) is None <==> {
            &&& trash_session::is_plain(selection.path.bytes@)
            &&& trash_session::is_plain(selection.scope_root.bytes@)
            &&& path::is_within(selection.path.bytes@, selection.scope_root.bytes@)
            &&& look.still_valid is Ok
        },
        cache_session::capture_fault(selection, look) is None <==> {
            &&& !look.cancelled
            &&& look.captured matches Ok(info) && selection.expected_identity == (
            FileIdentity::Unix { device: info.device, inode: info.inode })
            &&& look.found is Ok
        },
{
}

/// Caches are gathered exactly if there are between one and 32 of them, each of them sound, and
/// a directory above them all.
pub proof fn caches_are_gathered_as_a_whole(
    selections: Seq<CacheSelection>,
    looks: Seq<CacheLook>,
    scope: Result<(), Error>,
)
    requires
        looks.len() == selections.len(),
    ensures
        cache_session::cache_fault(selections, looks, scope) is None <==> {
            &&& 1 <= selections.len() <= 32
            &&& forall|i: int|
                0 <= i < selections.len() ==> cache_session::face_fault(
                    #[trigger] selections[i],
                    looks[i],
                ) is None && cache_session::capture_fault(selections[i], looks[i]) is None
            &&& batch::ancestor(cache_session::holders(selections)) is Some
            &&& scope is Ok
        },
{
    lemma_faces(selections, looks);
    lemma_captures(selections, looks);
}

proof fn lemma_faces(selections: Seq<CacheSelection>, looks: Seq<CacheLook>)
    requires
        looks.len() == selections.len(),
    ensures
        cache_session::faces_fault(selections, looks) is None <==> forall|i: int|
            0 <= i < selections.len() ==> cache_session::face_fault(
                #[trigger] selections[i],
                looks[i],
            ) is None,
    decreases selections.len(),
{
    if selections.len() > 0 {
        let rest = selections.drop_first();
        let seen = looks.drop_first();
        lemma_faces(rest, seen);
        if cache_session::faces_fault(selections, looks) is None {
            assert forall|i: int| 0 <= i < selections.len() implies cache_session::face_fault(
                #[trigger] selections[i],
                looks[i],
            ) is None by {
                if i > 0 {
                    assert(rest[i - 1] == selections[i] && seen[i - 1] == looks[i]);
                }
            }
        } else if forall|i: int|
            0 <= i < selections.len() ==> cache_session::face_fault(
                #[trigger] selections[i],
                looks[i],
            ) is None {
            assert(cache_session::face_fault(selections[0], looks[0]) is None);
            assert forall|i: int| 0 <= i < rest.len() implies cache_session::face_fault(
                #[trigger] rest[i],
                seen[i],
            ) is None by {
                assert(rest[i] == selections[i + 1] && seen[i] == looks[i + 1]);
            }
        }
    }
}

proof fn lemma_captures(selections: Seq<CacheSelection>, looks: Seq<CacheLook>)
    requires
        looks.len() == selections.len(),
    ensures
        cache_session::captures_fault(selections, looks) is None <==> forall|i: int|
            0 <= i < selections.len() ==> cache_session::capture_fault(
                #[trigger] selections[i],
                looks[i],
            ) is None,
    decreases selections.len(),
{
    if selections.len() > 0 {
        let rest = selections.drop_first();
        let seen = looks.drop_first();
        lemma_captures(rest, seen);
        if cache_session::captures_fault(selections, looks) is None {
            assert forall|i: int| 0 <= i < selections.len() implies cache_session::capture_fault(
                #[trigger] selections[i],
                looks[i],
            ) is None by {
                if i > 0 {
                    assert(rest[i - 1] == selections[i] && seen[i - 1] == looks[i]);
                }
            }
        } else if forall|i: int|
            0 <= i < selections.len() ==> cache_session::capture_fault(
                #[trigger] selections[i],
                looks[i],
            ) is None {
            assert(cache_session::capture_fault(selections[0], looks[0]) is None);
            assert forall|i: int| 0 <= i < rest.len() implies cache_session::capture_fault(
                #[trigger] rest[i],
                seen[i],
            ) is None by {
                assert(rest[i] == selections[i + 1] && seen[i] == looks[i + 1]);
            }
        }
    }
}

/// Caches are approved exactly if every one of them is still valid, held and unchanged.
pub proof fn caches_are_approved_as_a_whole(retained: Retained, looks: Seq<CacheAgain>)
    ensures
        cache_session::approval_fault(retained, looks) is None <==> forall|i: int|
            0 <= i < looks.len() ==> (#[trigger] looks[i]).still_valid && looks[i].unchanged
                && native::held(retained.candidates@, looks[i].path.bytes@) is Some,
    decreases looks.len(),
{
    if looks.len() > 0 {
        let rest = looks.drop_first();
        caches_are_approved_as_a_whole(retained, rest);
        if cache_session::approval_fault(retained, looks) is None {
            assert forall|i: int| 0 <= i < looks.len() implies (#[trigger] looks[i]).still_valid
                && looks[i].unchanged && native::held(
                retained.candidates@,
                looks[i].path.bytes@,
            ) is Some by {
                if i > 0 {
                    assert(rest[i - 1] == looks[i]);
                }
            }
        } else if forall|i: int|
            0 <= i < looks.len() ==> (#[trigger] looks[i]).still_valid && looks[i].unchanged
                && native::held(retained.candidates@, looks[i].path.bytes@) is Some {
            assert(looks[0].still_valid);
            assert forall|i: int| 0 <= i < rest.len() implies (#[trigger] rest[i]).still_valid
                && rest[i].unchanged && native::held(
                retained.candidates@,
                rest[i].path.bytes@,
            ) is Some by {
                assert(rest[i] == looks[i + 1]);
            }
        }
    }
}

/// A cache goes on exactly if the policy lets it and, at the last guard, it is still what was
/// shown; the reason it is not is the refusal.
pub proof fn caches_go_on_while_valid(
    point: GuardPoint,
    selected: bool,
    policy: Option<Result<PolicyGuardStatus, Error>>,
    still_valid: Result<(), String>,
)
    ensures
        ({
            let decision = cache_session::cache_decision(point, selected, policy, still_valid);
            let lets = trash_session::policy_decision(policy) == Ok::<Option<Seq<char>>, Seq<char>>(
                None,
            );
            &&& decision == Ok::<Option<Seq<char>>, Seq<char>>(None) <==> lets && !(point
                == GuardPoint::LastNative && selected && still_valid is Err)
            &&& lets && point == GuardPoint::LastNative && selected && (
            still_valid matches Err(why)) ==> (still_valid matches Err(why) && decision == Ok::<
                Option<Seq<char>>,
                Seq<char>,
            >(Some(why@)))
        }),
{
}

/// Installers are selected exactly by distinct plain paths of selectable candidates.
pub proof fn installers_are_recognized_and_unique(
    candidates: Seq<InstallerCandidate>,
    paths: Seq<NativePath>,
)
    ensures
        installer_session::paths_fault(candidates, paths) is None <==> {
            &&& forall|i: int|
                0 <= i < paths.len() ==> trash_session::is_plain((#[trigger] paths[i]).bytes@)
                    && installer_session::is_listed(candidates, paths[i].bytes@)
            &&& forall|i: int, j: int|
                0 <= i < j < paths.len() ==> !path::same_path(
                    (#[trigger] paths[i]).bytes@,
                    (#[trigger] paths[j]).bytes@,
                )
        },
    decreases paths.len(),
{
    if paths.len() > 0 {
        let head = paths.drop_last();
        let last: int = paths.len() - 1;
        installers_are_recognized_and_unique(candidates, head);
        assert(paths[last] == paths.last());
        assert forall|i: int| 0 <= i < head.len() implies #[trigger] head[i] == paths[i] by {}
        if installer_session::paths_fault(candidates, paths) is None {
            assert forall|i: int| 0 <= i < paths.len() implies trash_session::is_plain(
                (#[trigger] paths[i]).bytes@,
            ) && installer_session::is_listed(candidates, paths[i].bytes@) by {
                if i < head.len() {
                    assert(head[i] == paths[i]);
                }
            }
            assert forall|i: int, j: int| 0 <= i < j < paths.len() implies !path::same_path(
                (#[trigger] paths[i]).bytes@,
                (#[trigger] paths[j]).bytes@,
            ) by {
                assert(head[i] == paths[i]);
                if j < head.len() {
                    assert(head[j] == paths[j]);
                } else {
                    assert(!installer_session::occurs(head, paths.last().bytes@));
                }
            }
        }
        if (forall|i: int|
            0 <= i < paths.len() ==> trash_session::is_plain((#[trigger] paths[i]).bytes@)
                && installer_session::is_listed(candidates, paths[i].bytes@)) && (forall|
            i: int,
            j: int,
        |
            0 <= i < j < paths.len() ==> !path::same_path(
                (#[trigger] paths[i]).bytes@,
                (#[trigger] paths[j]).bytes@,
            )) {
            assert forall|i: int| 0 <= i < head.len() implies trash_session::is_plain(
                (#[trigger] head[i]).bytes@,
            ) && installer_session::is_listed(candidates, head[i].bytes@) by {
                assert(head[i] == paths[i]);
            }
            assert forall|i: int, j: int| 0 <= i < j < head.len() implies !path::same_path(
                (#[trigger] head[i]).bytes@,
                (#[trigger] head[j]).bytes@,
            ) by {
                assert(head[i] == paths[i] && head[j] == paths[j]);
            }
            if installer_session::occurs(head, paths.last().bytes@) {
                let i = choose|i: int|
                    0 <= i < head.len() && path::same_path(
                        (#[trigger] head[i]).bytes@,
                        paths.last().bytes@,
                    );
                assert(path::same_path(paths[i].bytes@, paths[last].bytes@));
            }
            assert(trash_session::is_plain(paths[last].bytes@));
        }
    }
}

/// Planned installers are admitted exactly if each of them is held, was selected and was
/// admitted.
pub proof fn installers_are_admitted_as_a_whole(
    candidates: Seq<Candidate>,
    paths: Seq<NativePath>,
    items: Seq<PlanItem>,
    admissions: Seq<Admission>,
)
    requires
        admissions.len() == items.len(),
    ensures
        installer_session::items_fault(candidates, paths, items, admissions) is None <==> forall|
            i: int,
        |
            0 <= i < items.len() ==> native::held(
                candidates,
                (#[trigger] items[i]).path.bytes@,
            ) is Some && installer_session::occurs(paths, items[i].path.bytes@)
                && admissions[i].admitted is Ok,
    decreases items.len(),
{
    if items.len() > 0 {
        let rest = items.drop_first();
        let seen = admissions.drop_first();
        installers_are_admitted_as_a_whole(candidates, paths, rest, seen);
        if installer_session::items_fault(candidates, paths, items, admissions) is None {
            assert forall|i: int| 0 <= i < items.len() implies native::held(
                candidates,
                (#[trigger] items[i]).path.bytes@,
            ) is Some && installer_session::occurs(paths, items[i].path.bytes@)
                && admissions[i].admitted is Ok by {
                if i > 0 {
                    assert(rest[i - 1] == items[i] && seen[i - 1] == admissions[i]);
                }
            }
        } else if forall|i: int|
            0 <= i < items.len() ==> native::held(
                candidates,
                (#[trigger] items[i]).path.bytes@,
            ) is Some && installer_session::occurs(paths, items[i].path.bytes@)
                && admissions[i].admitted is Ok {
            assert(native::held(candidates, items[0].path.bytes@) is Some);
            assert forall|i: int| 0 <= i < rest.len() implies native::held(
                candidates,
                (#[trigger] rest[i]).path.bytes@,
            ) is Some && installer_session::occurs(paths, rest[i].path.bytes@)
                && seen[i].admitted is Ok by {
                assert(rest[i] == items[i + 1] && seen[i] == admissions[i + 1]);
            }
        }
    }
}

/// What was discovered at a place is the last Unix object that a rule found there.
pub proof fn discoveries_are_the_last_of_their_place(
    candidates: Seq<RuleCandidate>,
    place: Seq<u8>,
    at: int,
    device: u64,
    inode: u64,
)
    requires
        0 <= at < candidates.len(),
        path::same_path(candidates[at].target_path@, place),
        candidates[at].target_identity == (FileIdentity::Unix { device, inode }),
        forall|i: int|
            at < i < candidates.len() ==> !path::same_path(
                (#[trigger] candidates[i]).target_path@,
                place,
            ),
    ensures
        clean_session::discovery(candidates, place) == Some(
            Discovered { rule: candidates[at].rule_id@, device, inode },
        ),
    decreases candidates.len(),
{
    if at < candidates.len() - 1 {
        let head = candidates.drop_last();
        assert(candidates[candidates.len() - 1] == candidates.last());
        assert(!path::same_path(candidates.last().target_path@, place));
        assert(head[at] == candidates[at]);
        assert forall|i: int| at < i < head.len() implies !path::same_path(
            (#[trigger] head[i]).target_path@,
            place,
        ) by {
            assert(head[i] == candidates[i]);
        }
        discoveries_are_the_last_of_their_place(head, place, at, device, inode);
    }
}

/// A cleaning selects between one and 32 paths, on macOS, each of them discovered.
pub proof fn only_discovered_paths_are_cleaned(
    host: Host,
    candidates: Seq<RuleCandidate>,
    selected: Seq<NativePath>,
)
    ensures
        clean_session::refused_selection(host, candidates, selected) is None <==> {
            &&& host == Host::MacOs
            &&& 1 <= selected.len() <= 32
            &&& forall|i: int|
                0 <= i < selected.len() ==> clean_session::discovery(
                    candidates,
                    (#[trigger] selected[i]).bytes@,
                ) is Some
        },
{
}

/// A planned item is cleaned exactly if it is the discovered object, under the rule that found
/// it.
pub proof fn cleaned_items_are_the_discovered_objects(
    candidates: Seq<RuleCandidate>,
    item: PlanItem,
)
    ensures
        clean_session::item_fault(candidates, item) is None <==> {
            &&& clean_session::discovery(candidates, item.path.bytes@) matches Some(found)
                && item.identity == Some(
                FileIdentity::Unix { device: found.device, inode: found.inode },
            ) && (item.rule_binding matches Some(binding) && binding.rule_id@ == found.rule)
        },
{
}

/// A cleaning is approved, and goes on, exactly if the policy answered that nothing changed;
/// what it says otherwise is passed on with the point at which it was asked.
pub proof fn cleanings_go_on_while_the_policy_stands(
    point: GuardPoint,
    policy: Result<Option<Seq<char>>, Fault>,
    planner: Result<(), String>,
)
    ensures
        clean_session::approval_fault(policy, planner) is None <==> policy == Ok::<
            Option<Seq<char>>,
            Fault,
        >(None) && planner is Ok,
        clean_session::clean_decision(point, policy) == Ok::<Option<Seq<char>>, Seq<char>>(None)
            <==> policy == Ok::<Option<Seq<char>>, Fault>(None),
        policy matches Ok(Some(reason)) ==> clean_session::clean_decision(
            GuardPoint::AfterStarted,
            policy,
        ) == Ok::<Option<Seq<char>>, Seq<char>>(
            Some("policy_refused_after_started"@ + ":"@ + reason),
        ),
        policy matches Ok(Some(reason)) ==> clean_session::clean_decision(
            GuardPoint::LastNative,
            policy,
        ) == Ok::<Option<Seq<char>>, Seq<char>>(
            Some("policy_refused_last_native_guard"@ + ":"@ + reason),
        ),
        policy matches Ok(Some(_)) ==> (clean_session::approval_fault(
            policy,
            planner,
        ) matches Some(fault) && fault.0 == ErrorKind::PermissionDenied),
{
}

/// Witnesses are kept exactly if every time they hold has its nanoseconds within a second.
pub proof fn witnesses_have_proper_times(info: NativeWitnessInfo)
    ensures
        rule_binding::witness_fault(info) is None <==> {
            &&& 0 <= info.modified_nanoseconds < 1_000_000_000
            &&& 0 <= info.changed_nanoseconds < 1_000_000_000
            &&& 0 <= info.created_nanoseconds < 1_000_000_000
        },
{
}

/// A binding is made exactly if every witness of it can be kept: target, source, root and all
/// that lies above them.
pub proof fn bindings_need_every_witness(witness: NativeRuleBindingWitness)
    ensures
        rule_binding::binding_fault(witness) is None <==> {
            &&& rule_binding::witness_fault(witness.target) is None
            &&& rule_binding::witness_fault(witness.source) is None
            &&& rule_binding::witness_fault(witness.root) is None
            &&& forall|i: int|
                0 <= i < witness.target_ancestors@.len() ==> rule_binding::witness_fault(
                    #[trigger] witness.target_ancestors@[i],
                ) is None
            &&& forall|i: int|
                0 <= i < witness.source_ancestors@.len() ==> rule_binding::witness_fault(
                    #[trigger] witness.source_ancestors@[i],
                ) is None
        },
{
    lemma_witnesses(witness.target_ancestors@);
    lemma_witnesses(witness.source_ancestors@);
}

proof fn lemma_witnesses(list: Seq<NativeWitnessInfo>)
    ensures
        rule_binding::list_fault(list) is None <==> forall|i: int|
            0 <= i < list.len() ==> rule_binding::witness_fault(#[trigger] list[i]) is None,
    decreases list.len(),
{
    if list.len() > 0 {
        let rest = list.drop_first();
        lemma_witnesses(rest);
        if rule_binding::list_fault(list) is None {
            assert forall|i: int| 0 <= i < list.len() implies rule_binding::witness_fault(
                #[trigger] list[i],
            ) is None by {
                if i > 0 {
                    assert(rest[i - 1] == list[i]);
                }
            }
        } else if forall|i: int|
            0 <= i < list.len() ==> rule_binding::witness_fault(#[trigger] list[i]) is None {
            assert(rule_binding::witness_fault(list[0]) is None);
            assert forall|i: int| 0 <= i < rest.len() implies rule_binding::witness_fault(
                #[trigger] rest[i],
            ) is None by {
                assert(rest[i] == list[i + 1]);
            }
        }
    }
}

/// Times before the epoch are kept as the epoch, and no other time changes.
pub proof fn witness_times_are_kept(seconds: i64, nanos: i64)
    requires
        0 <= nanos < 1_000_000_000,
    ensures
        rule_binding::time_of(seconds, nanos).nanoseconds == nanos,
        seconds >= 0 ==> rule_binding::time_of(seconds, nanos).seconds == seconds,
        seconds < 0 ==> rule_binding::time_of(seconds, nanos).seconds == 0,
{
}

/// The words for kinds mean what they say, and any other word means another kind.
pub proof fn kinds_are_told_by_their_words(word: Seq<char>)
    ensures
        rule_binding::kind_of(word) == ResourceKind::File <==> word == "file"@,
        rule_binding::kind_of(word) == ResourceKind::Directory <==> word == "directory"@,
        rule_binding::kind_of(word) == ResourceKind::Link <==> word == "link"@,
{
    reveal_strlit("file");
    reveal_strlit("directory");
    reveal_strlit("link");
    assert("file"@.len() == 4 && "directory"@.len() == 9 && "link"@.len() == 4);
    assert("file"@[0] == 'f' && "link"@[0] == 'l');
}

/// A record that was interrupted while it moved something does not know what became of it;
/// every other state is what was written.
pub proof fn interrupted_moves_are_unknown(state: ItemState)
    ensures
        state == ItemState::Started ==> journal::reconciled_state(state) == ItemState::Unknown,
        state != ItemState::Started ==> journal::reconciled_state(state) == state,
        journal::reconciled_state(state) != ItemState::Started,
        journal::reconciled_state(state) == ItemState::Succeeded <==> state == ItemState::Succeeded,
{
}

/// A record is readable in each of the three layouts and in no other, and its name is letters,
/// digits and hyphens.
pub proof fn records_have_known_layouts_and_plain_names(record: Record, id: Seq<char>)
    ensures
        journal::readable(record) <==> record.schema_version == 1 || record.schema_version == 2
            || record.schema_version == 3,
        journal::is_valid_id(id) <==> id.len() > 0 && (forall|i: int|
            0 <= i < id.len() ==> {
                let c = #[trigger] id[i];
                ('a' <= c <= 'z') || ('A' <= c <= 'Z') || ('0' <= c <= '9') || c == '-'
            }),
{
    if journal::is_valid_id(id) {
        assert forall|i: int| 0 <= i < id.len() implies {
            let c = #[trigger] id[i];
            ('a' <= c <= 'z') || ('A' <= c <= 'Z') || ('0' <= c <= '9') || c == '-'
        } by {
            assert(journal::id_char(id[i]));
        }
    }
}

/// A place is held as an object exactly if what was captured there first is that object.
pub proof fn objects_are_held_by_identity(
    candidates: Seq<Candidate>,
    expected: (Vec<u8>, FileIdentity),
)
    ensures
        native::held_as(candidates, expected) <==> (native::held(
            candidates,
            expected.0@,
        ) matches Some(info) && expected.1 == (FileIdentity::Unix {
            device: info.device,
            inode: info.inode,
        })),
{
}

/// The owner of a bundle runs, is stopped, or is unknown exactly as it was observed; only a
/// captured object can be moved.
pub proof fn owners_are_known_by_observation(
    running: RunningView,
    kind: ResourceKind,
    info: NativeFileInfo,
    owner: OwnerState,
)
    ensures
        native::owner_of(running) == OwnerState::Running <==> running is Running,
        native::owner_of(running) == OwnerState::Stopped <==> running == RunningView::NotRunning,
        native::owner_of(running) != OwnerState::NotApplicable,
        native::captured(kind, info, owner).trash == Capability::Available,
        native::captured(kind, info, owner).boundary == Boundary::Verified,
        native::captured(kind, info, owner).protection == Protection::Clear,
        native::uncaptured().trash == Capability::Unsupported,
        native::uncaptured().boundary == Boundary::Unknown,
        native::uncaptured().protection == Protection::Unknown,
        bundle_session::running_fault(running) == Some(ReasonCode::OwnerRunning) <==> running
            is Running,
        bundle_session::running_fault(running) == Some(ReasonCode::OwnerUnknown) <==> !(running
            is Running) && running != RunningView::NotRunning,
{
}

/// A purge finds every artifact or says which it did not: it goes on exactly if each was found.
pub proof fn purges_find_every_artifact(found: Seq<PurgeFinding>)
    ensures
        purge_session::found_fault(found) is None <==> forall|i: int|
            0 <= i < found.len() ==> (#[trigger] found[i]).resource is Ok,
    decreases found.len(),
{
    if found.len() > 0 {
        let rest = found.drop_first();
        purges_find_every_artifact(rest);
        if purge_session::found_fault(found) is None {
            assert forall|i: int| 0 <= i < found.len() implies (
            #[trigger] found[i]).resource is Ok by {
                if i > 0 {
                    assert(rest[i - 1] == found[i]);
                }
            }
        } else if forall|i: int| 0 <= i < found.len() ==> (#[trigger] found[i]).resource is Ok {
            assert(found[0].resource is Ok);
            assert forall|i: int| 0 <= i < rest.len() implies (
            #[trigger] rest[i]).resource is Ok by {
                assert(rest[i] == found[i + 1]);
            }
        }
    }
}

/// Installers are approved exactly if each of them is unchanged.
pub proof fn installers_are_approved_as_a_whole(looks: Seq<InstallerAgain>)
    ensures
        installer_session::changed_fault(looks) is None <==> forall|i: int|
            0 <= i < looks.len() ==> (#[trigger] looks[i]).unchanged is Ok,
    decreases looks.len(),
{
    if looks.len() > 0 {
        let rest = looks.drop_first();
        installers_are_approved_as_a_whole(rest);
        if installer_session::changed_fault(looks) is None {
            assert forall|i: int| 0 <= i < looks.len() implies (
            #[trigger] looks[i]).unchanged is Ok by {
                if i > 0 {
                    assert(rest[i - 1] == looks[i]);
                }
            }
        } else if forall|i: int| 0 <= i < looks.len() ==> (#[trigger] looks[i]).unchanged is Ok {
            assert(looks[0].unchanged is Ok);
            assert forall|i: int| 0 <= i < rest.len() implies (
            #[trigger] rest[i]).unchanged is Ok by {
                assert(rest[i] == looks[i + 1]);
            }
        }
    }
}

/// A path is a recognized installer exactly if a candidate that can be selected has it, and was
/// selected exactly if one of the selected paths is the same; a session is ready exactly if all
/// that was selected is planned, with nothing rejected and no issue.
pub proof fn installers_are_selectable_candidates(
    candidates: Seq<InstallerCandidate>,
    paths: Seq<NativePath>,
    place: Seq<u8>,
    session: InstallerSession,
)
    ensures
        installer_session::is_listed(candidates, place) <==> exists|i: int|
            0 <= i < candidates.len() && (#[trigger] candidates[i]).selectable && path::steps(
                candidates[i].path@,
            ) == path::steps(place),
        installer_session::occurs(paths, place) <==> exists|i: int|
            0 <= i < paths.len() && path::steps((#[trigger] paths[i]).bytes@) == path::steps(
                place,
            ),
        session.is_ready() <==> session.inner.prepared.plan.items@.len() == session.selected_count
            && session.inner.prepared.rejected@.len() == 0 && session.inner.retained.issues@.len()
            == 0,
{
    assert forall|i: int| 0 <= i < candidates.len() implies path::same_path(
        (#[trigger] candidates[i]).path@,
        place,
    ) == (path::steps(candidates[i].path@) == path::steps(place)) by {
        path_laws::lying_within_goes_by_steps(candidates[i].path@, place);
    }
    assert forall|i: int| 0 <= i < paths.len() implies path::same_path(
        (#[trigger] paths[i]).bytes@,
        place,
    ) == (path::steps(paths[i].bytes@) == path::steps(place)) by {
        path_laws::lying_within_goes_by_steps(paths[i].bytes@, place);
    }
}

/// A cache is one of the selected exactly by its own path, and every selected cache is looked
/// for in the directory that holds it.
pub proof fn caches_are_selected_by_their_own_path(
    selections: Seq<CacheSelection>,
    place: Seq<u8>,
    at: int,
)
    requires
        0 <= at < selections.len(),
    ensures
        cache_session::is_selected(selections, place) <==> exists|i: int|
            0 <= i < selections.len() && path::steps((#[trigger] selections[i]).path.bytes@)
                == path::steps(place),
        path::steps(selections[at].path.bytes@).len() > 0 && path::steps(
            selections[at].path.bytes@,
        ).last() != seq![0x2fu8] ==> cache_session::holders(selections).contains(
            path::spelled(path::steps(selections[at].path.bytes@).drop_last()),
        ),
{
    assert forall|i: int| 0 <= i < selections.len() implies path::same_path(
        (#[trigger] selections[i]).path.bytes@,
        place,
    ) == (path::steps(selections[i].path.bytes@) == path::steps(place)) by {
        path_laws::lying_within_goes_by_steps(selections[i].path.bytes@, place);
    }
    lemma_holders(selections, at);
}

proof fn lemma_holders(selections: Seq<CacheSelection>, at: int)
    requires
        0 <= at < selections.len(),
    ensures
        path::steps(selections[at].path.bytes@).len() > 0 && path::steps(
            selections[at].path.bytes@,
        ).last() != seq![0x2fu8] ==> cache_session::holders(selections).contains(
            path::spelled(path::steps(selections[at].path.bytes@).drop_last()),
        ),
    decreases selections.len(),
{
    let head = selections.drop_last();
    let before = cache_session::holders(head);
    let all = cache_session::holders(selections);
    let names = path::steps(selections[at].path.bytes@);
    let place = path::spelled(names.drop_last());
    assert(seq![0x2fu8] =~= seq![path::SEPARATOR]);
    if names.len() > 0 && names.last() != seq![0x2fu8] {
        if at < head.len() {
            assert(head[at] == selections[at]);
            lemma_holders(head, at);
            let i = choose|i: int| 0 <= i < before.len() && before[i] == place;
            assert(all[i] == place);
        } else {
            assert(all[before.len() as int] == place);
        }
    }
}

/// A cleaning is prepared exactly if its selection was accepted, the session below it could be
/// prepared, every planned item is the discovered object, and the root could be identified.
pub proof fn cleanings_are_prepared_as_a_whole(
    host: Host,
    candidates: Seq<RuleCandidate>,
    selected: Seq<NativePath>,
    inner: Result<TrashSession, Error>,
    root_identity: Result<UnixIdentity, Error>,
)
    ensures
        clean_session::clean_fault(host, candidates, selected, inner, root_identity) is None <==> {
            &&& clean_session::refused_selection(host, candidates, selected) is None
            &&& inner matches Ok(session) && (forall|i: int|
                0 <= i < session.prepared.plan.items@.len() ==> clean_session::item_fault(
                    candidates,
                    #[trigger] session.prepared.plan.items@[i],
                ) is None)
            &&& root_identity is Ok
        },
{
    if let Ok(session) = inner {
        lemma_clean_items(candidates, session.prepared.plan.items@);
    }
}

proof fn lemma_clean_items(candidates: Seq<RuleCandidate>, items: Seq<PlanItem>)
    ensures
        clean_session::items_fault(candidates, items) is None <==> forall|i: int|
            0 <= i < items.len() ==> clean_session::item_fault(
                candidates,
                #[trigger] items[i],
            ) is None,
    decreases items.len(),
{
    if items.len() > 0 {
        let rest = items.drop_first();
        lemma_clean_items(candidates, rest);
        if clean_session::items_fault(candidates, items) is None {
            assert forall|i: int| 0 <= i < items.len() implies clean_session::item_fault(
                candidates,
                #[trigger] items[i],
            ) is None by {
                if i > 0 {
                    assert(rest[i - 1] == items[i]);
                }
            }
        } else if forall|i: int|
            0 <= i < items.len() ==> clean_session::item_fault(
                candidates,
                #[trigger] items[i],
            ) is None {
            assert(clean_session::item_fault(candidates, items[0]) is None);
            assert forall|i: int| 0 <= i < rest.len() implies clean_session::item_fault(
                candidates,
                #[trigger] rest[i],
            ) is None by {
                assert(rest[i] == items[i + 1]);
            }
        }
    }
}

/// A planned item is bound to its rule exactly if it is held and its witness can be kept.
pub proof fn bound_items_are_held_and_witnessed(
    candidates: Seq<Candidate>,
    item: PlanItem,
    witness: Option<NativeRuleBindingWitness>,
)
    ensures
        rule_binding::item_fault(candidates, item, witness) is None <==> native::held(
            candidates,
            item.path.bytes@,
        ) is Some && (witness matches Some(seen) && rule_binding::binding_fault(seen) is None),
{
}

/// What is gathered is every selected resource in order, and what is left out of it is exactly
/// what was found to be excluded.
pub proof fn gathered_resources_are_left_out_when_excluded(
    paths: Seq<NativePath>,
    excluded: Seq<NativePath>,
    looks: Seq<PathLook>,
    rules: Option<Seq<RuleLook>>,
    n: nat,
)
    requires
        n > 0,
        trash_session::gathered(paths, excluded, looks, rules, n) is Ok,
    ensures
        ({
            let (selected, left_out) = trash_session::gathered(
                paths,
                excluded,
                looks,
                rules,
                n,
            )->Ok_0;
            let (before, fewer) = trash_session::gathered(
                paths,
                excluded,
                looks,
                rules,
                (n - 1) as nat,
            )->Ok_0;
            let outcome = trash_session::path_outcome(
                paths[n - 1],
                excluded,
                looks[n - 1],
                trash_session::rule_at(rules, n - 1),
            );
            &&& outcome matches Ok((resource, found)) && selected == before.push(resource) && (found
                ==> left_out == fewer.push(resource)) && (!found ==> left_out == fewer)
        }),
{
}

} // verus!
