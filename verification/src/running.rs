//! Which applications are running.

use crate::app_inventory::{
    AppRecord, ExecutableMetadata, ExecutableView, PathStatus, RecordView, RunningObservation,
    RunningView, StringState,
};
use crate::error::{Error, ErrorKind};
use crate::model::Host;
use crate::path;
use crate::text;
use vstd::prelude::*;
use vstd::string::*;

verus! {

/// The processes of one executable.
#[derive(Debug)]
pub struct RunningPath {
    pub path: Vec<u8>,
    pub pids: Vec<u32>,
}

/// The processes of one executable, in the order in which they were listed.
pub open spec fn pids_of(listing: Seq<(u32, Vec<u8>)>, place: Seq<u8>) -> Seq<u32>
    decreases listing.len(),
{
    if listing.len() == 0 {
        Seq::empty()
    } else {
        let before = pids_of(listing.drop_last(), place);
        if path::same_path(listing.last().1@, place) {
            before.push(listing.last().0)
        } else {
            before
        }
    }
}

/// Whether a list of executables says exactly what a listing of processes says: each
/// executable once, with all of its processes.
pub open spec fn groups(list: Seq<RunningPath>, listing: Seq<(u32, Vec<u8>)>) -> bool {
    &&& forall|i: int|
        0 <= i < list.len() ==> (#[trigger] list[i]).pids@ == pids_of(listing, list[i].path@)
            && list[i].pids@.len() > 0
    &&& forall|i: int, j: int|
        0 <= i < j < list.len() ==> !path::same_path(
            (#[trigger] list[i]).path@,
            (#[trigger] list[j]).path@,
        )
    &&& forall|k: int|
        0 <= k < listing.len() ==> is_listed(list, (#[trigger] listing[k]).1@)
}

pub open spec fn is_listed(list: Seq<RunningPath>, place: Seq<u8>) -> bool {
    exists|i: int| 0 <= i < list.len() && path::same_path((#[trigger] list[i]).path@, place)
}

proof fn lemma_same(c: Seq<u8>, a: Seq<u8>, b: Seq<u8>)
    requires
        path::same_path(a, b),
    ensures
        path::same_path(c, a) == path::same_path(c, b),
        path::same_path(b, a),
{
    if path::same_path(c, a) {
        path::within_is_transitive(c, a, b);
        path::within_is_transitive(b, a, c);
    }
    if path::same_path(c, b) {
        path::within_is_transitive(c, b, a);
        path::within_is_transitive(a, b, c);
    }
}

fn find_path(list: &Vec<RunningPath>, place: &[u8]) -> (found: Option<usize>)
    ensures
        match found {
            Some(at) => at < list@.len() && path::same_path(list@[at as int].path@, place@),
            None => !is_listed(list@, place@),
        },
{
    let mut i: usize = 0;
    while i < list.len()
        invariant
            0 <= i <= list@.len(),
            forall|j: int| 0 <= j < i ==> !path::same_path((#[trigger] list@[j]).path@, place@),
        decreases list@.len() - i,
    {
        if path::paths_equal(list[i].path.as_slice(), place) {
            return Some(i);
        }
        i += 1;
    }
    None
}

proof fn lemma_pids_next(listing: Seq<(u32, Vec<u8>)>, n: int, place: Seq<u8>)
    requires
        0 <= n < listing.len(),
    ensures
        pids_of(listing.take(n + 1), place) == if path::same_path(listing[n].1@, place) {
            pids_of(listing.take(n), place).push(listing[n].0)
        } else {
            pids_of(listing.take(n), place)
        },
{
    assert(listing.take(n + 1).drop_last() =~= listing.take(n));
}

proof fn lemma_unlisted(listing: Seq<(u32, Vec<u8>)>, list: Seq<RunningPath>, place: Seq<u8>)
    requires
        forall|k: int|
            0 <= k < listing.len() ==> is_listed(list, (#[trigger] listing[k]).1@),
        !is_listed(list, place),
    ensures
        pids_of(listing, place) == Seq::<u32>::empty(),
    decreases listing.len(),
{
    if listing.len() > 0 {
        let shorter = listing.drop_last();
        assert forall|k: int| 0 <= k < shorter.len() implies is_listed(
            list,
            (#[trigger] shorter[k]).1@,
        ) by {
            assert(shorter[k] == listing[k]);
        }
        lemma_unlisted(shorter, list, place);
        if path::same_path(listing.last().1@, place) {
            assert(is_listed(list, listing[listing.len() - 1].1@));
            let i = choose|i: int|
                0 <= i < list.len() && path::same_path(
                    (#[trigger] list[i]).path@,
                    listing.last().1@,
                );
            lemma_same(list[i].path@, listing.last().1@, place);
            assert(is_listed(list, place));
        }
    }
}

/// Groups the visible processes by their executable. A listing that failed is no evidence
/// of absence.
pub fn running_process_paths(host: Host, listing: Result<Vec<(u32, Vec<u8>)>, Error>) -> (result:
    Result<Vec<RunningPath>, Error>)
    ensures
        if host != Host::MacOs {
            result matches Err(error) && error.says(
                ErrorKind::Unsupported,
                "running attribution currently requires macOS"@,
            )
        } else {
            match (listing, result) {
                (Ok(listing), Ok(list)) => groups(list@, listing@),
                (Err(found), Err(error)) => error == found,
                _ => false,
            }
        },
{
    if host != Host::MacOs {
        return Err(
            Error::new(
                ErrorKind::Unsupported,
                "running attribution currently requires macOS",
            ),
        );
    }
    let listing: Vec<(u32, Vec<u8>)> = match listing {
        Ok(listing) => listing,
        Err(error) => {
            return Err(error);
        },
    };
    let mut list: Vec<RunningPath> = Vec::new();
    let mut i: usize = 0;
    assert(listing@.take(0) =~= Seq::empty());
    while i < listing.len()
        invariant
            0 <= i <= listing@.len(),
            groups(list@, listing@.take(i as int)),
        decreases listing@.len() - i,
    {
        let ghost seen = listing@.take(i as int);
        let ghost next = listing@.take(i + 1);
        let ghost before = list@;
        let pid: u32 = listing[i].0;
        match find_path(&list, listing[i].1.as_slice()) {
            Some(at) => {
                list[at].pids.push(pid);
                proof {
                    assert forall|j: int| 0 <= j < list@.len() implies (#[trigger] list@[j]).pids@
                        == pids_of(next, list@[j].path@) && list@[j].pids@.len() > 0 by {
                        assert(before[j].path == list@[j].path);
                        lemma_pids_next(listing@, i as int, list@[j].path@);
                        if j != at {
                            if path::same_path(listing@[i as int].1@, list@[j].path@) {
                                lemma_same(
                                    before[at as int].path@,
                                    listing@[i as int].1@,
                                    list@[j].path@,
                                );
                                lemma_same(list@[j].path@, before[at as int].path@, list@[j].path@);
                                if at < j {
                                    assert(path::same_path(before[at as int].path@, before[j].path@));
                                } else {
                                    assert(path::same_path(before[j].path@, before[at as int].path@));
                                }
                                assert(false);
                            }
                        } else {
                            lemma_same(
                                listing@[i as int].1@,
                                before[at as int].path@,
                                listing@[i as int].1@,
                            );
                        }
                    }
                    assert forall|j: int, k: int|
                        0 <= j < k < list@.len() implies !path::same_path(
                        (#[trigger] list@[j]).path@,
                        (#[trigger] list@[k]).path@,
                    ) by {
                        assert(before[j].path == list@[j].path);
                        assert(before[k].path == list@[k].path);
                    }
                    assert forall|k: int| 0 <= k < next.len() implies is_listed(
                        list@,
                        (#[trigger] next[k]).1@,
                    ) by {
                        if k < i {
                            assert(seen[k] == next[k]);
                            let j = choose|j: int|
                                0 <= j < before.len() && path::same_path(
                                    (#[trigger] before[j]).path@,
                                    seen[k].1@,
                                );
                            assert(list@[j].path == before[j].path);
                        } else {
                            assert(list@[at as int].path == before[at as int].path);
                        }
                    }
                }
            },
            None => {
                let mut pids: Vec<u32> = Vec::new();
                pids.push(pid);
                list.push(
                    RunningPath { path: text::copy_bytes(listing[i].1.as_slice()), pids },
                );
                proof {
                    let place = listing@[i as int].1@;
                    lemma_unlisted(seen, before, place);
                    assert forall|j: int| 0 <= j < list@.len() implies (#[trigger] list@[j]).pids@
                        == pids_of(next, list@[j].path@) && list@[j].pids@.len() > 0 by {
                        lemma_pids_next(listing@, i as int, list@[j].path@);
                        if j < before.len() {
                            assert(list@[j] == before[j]);
                            if path::same_path(place, list@[j].path@) {
                                lemma_same(place, place, list@[j].path@);
                                assert(is_listed(before, place));
                            }
                        } else {
                            lemma_same_self(place);
                            assert(list@[j].pids@ =~= Seq::empty().push(pid));
                        }
                    }
                    assert forall|j: int, k: int|
                        0 <= j < k < list@.len() implies !path::same_path(
                        (#[trigger] list@[j]).path@,
                        (#[trigger] list@[k]).path@,
                    ) by {
                        assert(list@[j] == before[j]);
                        if k < before.len() {
                            assert(list@[k] == before[k]);
                        } else if path::same_path(before[j].path@, place) {
                            assert(is_listed(before, place));
                        }
                    }
                    assert forall|k: int| 0 <= k < next.len() implies is_listed(
                        list@,
                        (#[trigger] next[k]).1@,
                    ) by {
                        if k < i {
                            assert(seen[k] == next[k]);
                            let j = choose|j: int|
                                0 <= j < before.len() && path::same_path(
                                    (#[trigger] before[j]).path@,
                                    seen[k].1@,
                                );
                            assert(list@[j] == before[j]);
                        } else {
                            lemma_same_self(place);
                            assert(list@[before.len() as int].path@ == place);
                        }
                    }
                }
            },
        }
        i += 1;
    }
    assert(listing@.take(listing@.len() as int) =~= listing@);
    Ok(list)
}

proof fn lemma_same_self(a: Seq<u8>)
    ensures
        path::same_path(a, a),
{
    path::within_is_reflexive(a);
}

/// The processes of one executable in a list of running ones.
pub open spec fn listed_pids(list: Seq<RunningPath>, place: Seq<u8>) -> Seq<u32>
    decreases list.len(),
{
    if list.len() == 0 {
        Seq::empty()
    } else if path::same_path(list[0].path@, place) {
        list[0].pids@
    } else {
        listed_pids(list.drop_first(), place)
    }
}

/// What is said of an executable: only a declared, valid, present regular file whose path
/// resolves can be matched.
pub open spec fn observed(
    executable: ExecutableView,
    resolved: Option<Seq<u8>>,
    running: Seq<RunningPath>,
) -> RunningView {
    if executable.state != StringState::Present {
        RunningView::NotAttributable("no valid declared executable"@)
    } else if executable.status != PathStatus::PresentFile {
        RunningView::NotAttributable("executable is not a present regular file"@)
    } else if executable.declared is None {
        RunningView::NotAttributable("no declared executable value"@)
    } else {
        match resolved {
            None => RunningView::NotAttributable("executable path cannot be resolved"@),
            Some(place) => if listed_pids(running, place).len() > 0 {
                RunningView::Running(listed_pids(running, place))
            } else {
                RunningView::NotRunning
            },
        }
    }
}

fn copy_pids(pids: &Vec<u32>) -> (copy: Vec<u32>)
    ensures
        copy@ == pids@,
{
    let mut copy: Vec<u32> = Vec::new();
    let mut i: usize = 0;
    while i < pids.len()
        invariant
            0 <= i <= pids@.len(),
            copy@ == pids@.take(i as int),
        decreases pids@.len() - i,
    {
        copy.push(pids[i]);
        i += 1;
        assert(copy@ =~= pids@.take(i as int));
    }
    assert(copy@ =~= pids@);
    copy
}

/// The processes of one executable in a list of running ones.
pub fn look_up(list: &Vec<RunningPath>, place: &[u8]) -> (pids: Vec<u32>)
    ensures
        pids@ == listed_pids(list@, place@),
{
    let mut i: usize = 0;
    assert(list@.skip(0) =~= list@);
    while i < list.len()
        invariant
            0 <= i <= list@.len(),
            listed_pids(list@, place@) == listed_pids(list@.skip(i as int), place@),
        decreases list@.len() - i,
    {
        if path::paths_equal(list[i].path.as_slice(), place) {
            return copy_pids(&list[i].pids);
        }
        assert(list@.skip(i as int).drop_first() =~= list@.skip(i + 1));
        i += 1;
    }
    let none: Vec<u32> = Vec::new();
    assert(none@ =~= Seq::empty());
    none
}

/// The path of the executable to resolve, if the record declares one.
pub fn executable_candidate(record: &AppRecord) -> (candidate: Option<Vec<u8>>)
    ensures
        match candidate {
            Some(place) => {
                &&& record@.executable.declared is Some
                &&& place@ == path::joined(
                    path::joined(
                        path::joined(
                            record@.path,
                            vstd::utf8::encode_utf8("Contents"@),
                        ),
                        vstd::utf8::encode_utf8("MacOS"@),
                    ),
                    vstd::utf8::encode_utf8(record@.executable.declared->0),
                )
            },
            None => record@.executable.declared is None,
        },
{
    match &record.executable.declared_value {
        None => None,
        Some(name) => {
            let contents = path::join(record.bundle_path.as_slice(), "Contents".as_bytes());
            let macos = path::join(contents.as_slice(), "MacOS".as_bytes());
            Some(path::join(macos.as_slice(), name.as_str().as_bytes()))
        },
    }
}

/// What is said of an executable: only a declared, valid, present regular file whose path
/// resolves can be matched; everything else is explicitly not attributable.
pub fn running_observation(
    executable: &ExecutableMetadata,
    resolved: &Option<Vec<u8>>,
    running: &Vec<RunningPath>,
) -> (observation: RunningObservation)
    ensures
        observation@ == observed(
            executable@,
            match *resolved {
                Some(place) => Some(place@),
                None => None,
            },
            running@,
        ),
{
    if executable.state != StringState::Present {
        return RunningObservation::NotAttributable("no valid declared executable");
    }
    if executable.path_status != PathStatus::PresentFile {
        return RunningObservation::NotAttributable("executable is not a present regular file");
    }
    if executable.declared_value.is_none() {
        return RunningObservation::NotAttributable("no declared executable value");
    }
    match resolved {
        None => RunningObservation::NotAttributable("executable path cannot be resolved"),
        Some(place) => {
            let pids = look_up(running, place.as_slice());
            if pids.len() > 0 {
                RunningObservation::Running(pids)
            } else {
                RunningObservation::NotRunning
            }
        },
    }
}

/// The path that was resolved for a record, if any.
pub open spec fn resolved_at(resolved: Seq<Option<Vec<u8>>>, i: int) -> Option<Seq<u8>> {
    match resolved[i] {
        Some(place) => Some(place@),
        None => None,
    }
}

/// Says of each record whether it is running. A failed listing marks every record unknown
/// rather than reporting "not running" from incomplete evidence. `resolved` holds, for each
/// record, the path that its executable resolves to.
pub fn attribute_running_state(
    apps: &mut Vec<AppRecord>,
    running: &Result<Vec<RunningPath>, Error>,
    resolved: &Vec<Option<Vec<u8>>>,
)
    requires
        resolved@.len() == old(apps)@.len(),
    ensures
        final(apps)@.len() == old(apps)@.len(),
        forall|i: int|
            0 <= i < final(apps)@.len() ==> (#[trigger] final(apps)@[i])@ == (RecordView {
                running: match *running {
                    Err(_) => RunningView::Unknown,
                    Ok(list) => observed(
                        old(apps)@[i]@.executable,
                        resolved_at(resolved@, i),
                        list@,
                    ),
                },
                ..old(apps)@[i]@
            }),
{
    let ghost before = apps@;
    let mut i: usize = 0;
    while i < apps.len()
        invariant
            0 <= i <= apps@.len(),
            apps@.len() == before.len(),
            resolved@.len() == before.len(),
            forall|j: int| i <= j < apps@.len() ==> apps@[j] == before[j],
            forall|j: int|
                0 <= j < i ==> (#[trigger] apps@[j])@ == (RecordView {
                    running: match *running {
                        Err(_) => RunningView::Unknown,
                        Ok(list) => observed(
                            before[j]@.executable,
                            resolved_at(resolved@, j),
                            list@,
                        ),
                    },
                    ..before[j]@
                }),
        decreases apps@.len() - i,
    {
        let observation: RunningObservation = match running {
            Err(_) => RunningObservation::Unknown,
            Ok(list) => running_observation(&apps[i].executable, &resolved[i], list),
        };
        apps[i].running = observation;
        i += 1;
    }
}

} // verus!
