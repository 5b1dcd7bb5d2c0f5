//! What the sessions over several directories have in common.

use crate::execute::SelectionRefusal;
use crate::journal;
use crate::journal::NativePath;
use crate::path;
use crate::text;
use crate::trash_session::Rejected;
use vstd::prelude::*;
use vstd::string::*;
use vstd::utf8;

verus! {

/// Why a plan is not approved.
#[derive(Clone, Copy, Debug, PartialEq, Eq, Structural)]
pub enum ReasonCode {
    OwnerRunning,
    OwnerUnknown,
    ProbeFailed,
    ResourceChanged,
}

/// How many names two lists begin with in common.
pub open spec fn shared_len(a: Seq<Seq<u8>>, b: Seq<Seq<u8>>) -> nat
    decreases a.len(),
{
    if a.len() == 0 || b.len() == 0 || a[0] != b[0] {
        0
    } else {
        1 + shared_len(a.drop_first(), b.drop_first())
    }
}

/// The names that all of the lists begin with.
pub open spec fn shared(lists: Seq<Seq<Seq<u8>>>) -> Seq<Seq<u8>>
    decreases lists.len(),
{
    if lists.len() == 0 {
        Seq::empty()
    } else if lists.len() == 1 {
        lists[0]
    } else {
        let before = shared(lists.drop_last());
        before.take(shared_len(before, lists.last()) as int)
    }
}

/// The components of some paths.
pub open spec fn all_steps(places: Seq<Seq<u8>>) -> Seq<Seq<Seq<u8>>> {
    Seq::new(places.len(), |i: int| path::steps(places[i]))
}

/// The deepest common ancestor of some paths: there is none of no paths, and none of an
/// absolute path with relative ones behind it.
pub open spec fn ancestor(places: Seq<Seq<u8>>) -> Option<Seq<u8>> {
    let list = shared(all_steps(places));
    if places.len() == 0 || (list.len() == 0 && path::is_absolute(places[0])) {
        None
    } else {
        Some(path::spelled(list))
    }
}

proof fn lemma_shared_len(a: Seq<Seq<u8>>, b: Seq<Seq<u8>>)
    ensures
        shared_len(a, b) <= a.len(),
        shared_len(a, b) <= b.len(),
        a.take(shared_len(a, b) as int) == b.take(shared_len(a, b) as int),
        shared_len(a, b) < a.len() && shared_len(a, b) < b.len() ==> a[shared_len(a, b) as int]
            != b[shared_len(a, b) as int],
    decreases a.len(),
{
    let n = shared_len(a, b);
    if a.len() == 0 || b.len() == 0 || a[0] != b[0] {
        assert(a.take(0) =~= b.take(0));
    } else {
        let x = a.drop_first();
        let y = b.drop_first();
        lemma_shared_len(x, y);
        let m = shared_len(x, y) as int;
        assert forall|i: int| 0 <= i < n implies a[i] == b[i] by {
            if i > 0 {
                assert(x.take(m)[i - 1] == y.take(m)[i - 1]);
            }
        }
        assert(a.take(n as int) =~= b.take(n as int));
    }
}

fn count_shared(a: &Vec<Vec<u8>>, limit: usize, b: &Vec<Vec<u8>>) -> (count: usize)
    requires
        limit <= a@.len(),
    ensures
        count == shared_len(path::views(a@).take(limit as int), path::views(b@)),
        count <= limit,
{
    let ghost x = path::views(a@).take(limit as int);
    let ghost y = path::views(b@);
    let mut i: usize = 0;
    assert(x.skip(0) =~= x && y.skip(0) =~= y);
    while i < limit && i < b.len()
        invariant
            0 <= i <= limit <= a@.len(),
            i <= b@.len(),
            x == path::views(a@).take(limit as int),
            y == path::views(b@),
            x.len() == limit,
            y.len() == b@.len(),
            shared_len(x, y) == i + shared_len(x.skip(i as int), y.skip(i as int)),
        decreases limit - i,
    {
        assert(x.skip(i as int)[0] == a@[i as int]@);
        assert(y.skip(i as int)[0] == b@[i as int]@);
        if !text::bytes_eq(a[i].as_slice(), b[i].as_slice()) {
            return i;
        }
        assert(x.skip(i as int).drop_first() =~= x.skip(i + 1));
        assert(y.skip(i as int).drop_first() =~= y.skip(i + 1));
        i += 1;
    }
    i
}

/// Deepest common ancestor of the given paths.
pub fn common_ancestor(places: &Vec<Vec<u8>>) -> (result: Option<Vec<u8>>)
    ensures
        match result {
            Some(place) => ancestor(path::views(places@)) == Some(place@),
            None => ancestor(path::views(places@)) is None,
        },
{
    if places.len() == 0 {
        return None;
    }
    let ghost all = all_steps(path::views(places@));
    let first = path::split_steps(places[0].as_slice());
    assert(path::views(first@).len() == first@.len());
    let mut count: usize = first.len();
    let mut i: usize = 1;
    assert(all.take(1).len() == 1 && all.take(1)[0] == path::steps(places@[0]@));
    assert(path::views(first@).take(count as int) =~= path::views(first@));
    while i < places.len()
        invariant
            1 <= i <= places@.len(),
            all == all_steps(path::views(places@)),
            all.len() == places@.len(),
            count <= first@.len(),
            path::views(first@).len() == first@.len(),
            shared(all.take(i as int)) == path::views(first@).take(count as int),
        decreases places@.len() - i,
    {
        let next = path::split_steps(places[i].as_slice());
        let ghost before = path::views(first@).take(count as int);
        assert(all.take(i + 1).drop_last() =~= all.take(i as int));
        assert(all.take(i + 1).last() == path::steps(places@[i as int]@));
        let kept: usize = count_shared(&first, count, &next);
        assert(before.take(kept as int) =~= path::views(first@).take(kept as int));
        count = kept;
        i += 1;
    }
    assert(all.take(all.len() as int) =~= all);
    assert(path::views(places@)[0] == places@[0]@);
    if count == 0 && path::absolute(places[0].as_slice()) {
        return None;
    }
    let place = path::spell(&first, 0, count);
    assert(path::views(first@).subrange(0, count as int) =~= path::views(first@).take(
        count as int,
    ));
    Some(place)
}

/// Whether a list of components begins with another.
pub open spec fn begins_with(list: Seq<Seq<u8>>, start: Seq<Seq<u8>>) -> bool {
    start.len() <= list.len() && list.take(start.len() as int) == start
}

proof fn lemma_shared_is_longest(lists: Seq<Seq<Seq<u8>>>, other: Seq<Seq<u8>>)
    requires
        lists.len() > 0,
    ensures
        forall|i: int| 0 <= i < lists.len() ==> begins_with(#[trigger] lists[i], shared(lists)),
        (forall|i: int| 0 <= i < lists.len() ==> begins_with(#[trigger] lists[i], other))
            ==> begins_with(shared(lists), other),
    decreases lists.len(),
{
    if lists.len() == 1 {
        assert(lists[0].take(lists[0].len() as int) =~= lists[0]);
        assert(begins_with(lists[0], shared(lists)));
    } else {
        let fewer = lists.drop_last();
        lemma_shared_is_longest(fewer, other);
        let before = shared(fewer);
        let last = lists.last();
        let n = shared_len(before, last) as int;
        lemma_shared_len(before, last);
        assert forall|i: int| 0 <= i < lists.len() implies begins_with(
            #[trigger] lists[i],
            shared(lists),
        ) by {
            if i < fewer.len() {
                assert(begins_with(fewer[i], before));
                assert(lists[i].take(n) =~= lists[i].take(before.len() as int).take(n));
            } else {
                assert(last.take(n) == before.take(n));
            }
        }
        if forall|i: int| 0 <= i < lists.len() ==> begins_with(#[trigger] lists[i], other) {
            assert forall|i: int| 0 <= i < fewer.len() implies begins_with(
                #[trigger] fewer[i],
                other,
            ) by {
                assert(begins_with(lists[i], other));
            }
            assert(begins_with(before, other));
            assert(begins_with(lists[lists.len() - 1], other));
            if n < other.len() {
                assert(before[n] == before.take(other.len() as int)[n]);
                assert(last[n] == last.take(other.len() as int)[n]);
                assert(false);
            }
            assert(shared(lists).take(other.len() as int) =~= before.take(other.len() as int));
        }
    }
}

/// What some paths share are the components that their common ancestor has.
pub proof fn common_ancestor_has_the_shared_steps(places: Seq<Seq<u8>>)
    ensures
        ancestor(places) matches Some(place) ==> path::steps(place) == shared(all_steps(places)),
{
    if places.len() > 0 {
        let lists = all_steps(places);
        let list = shared(lists);
        lemma_shared_is_longest(lists, list);
        assert(begins_with(lists[0], list));
        path::steps_are_steps(places[0]);
        path::first_steps_are_steps(lists[0], list.len() as int);
        path::steps_of_spelled(list);
    }
}

/// The common ancestor lies at or above every one of the paths, and every path that does so
/// lies at or above it: there is no deeper one.
pub proof fn common_ancestor_is_the_deepest(places: Seq<Seq<u8>>, other: Seq<u8>)
    ensures
        ancestor(places) matches Some(place) ==> {
            &&& forall|i: int| 0 <= i < places.len() ==> path::is_within(#[trigger] places[i], place)
            &&& (forall|i: int|
                0 <= i < places.len() ==> path::is_within(#[trigger] places[i], other))
                ==> path::is_within(place, other)
        },
{
    if let Some(place) = ancestor(places) {
        let lists = all_steps(places);
        let list = shared(lists);
        common_ancestor_has_the_shared_steps(places);
        lemma_shared_is_longest(lists, path::steps(other));
        assert forall|i: int| 0 <= i < places.len() implies path::is_within(
            #[trigger] places[i],
            place,
        ) by {
            assert(begins_with(lists[i], list));
            assert(lists[i].subrange(0, list.len() as int) =~= lists[i].take(list.len() as int));
        }
        if forall|i: int|
            0 <= i < places.len() ==> path::is_within(#[trigger] places[i], other) {
            let n = path::steps(other).len() as int;
            assert forall|i: int| 0 <= i < lists.len() implies begins_with(
                #[trigger] lists[i],
                path::steps(other),
            ) by {
                assert(path::is_within(places[i], other));
                assert(lists[i].subrange(0, n) =~= lists[i].take(n));
            }
            assert(list.subrange(0, n) =~= list.take(n));
        }
    }
}

/// Absolute paths have a common ancestor, and it is absolute.
pub proof fn absolute_paths_share_an_ancestor(places: Seq<Seq<u8>>)
    requires
        places.len() > 0,
        forall|i: int| 0 <= i < places.len() ==> path::is_absolute(#[trigger] places[i]),
    ensures
        ancestor(places) matches Some(place) && path::is_absolute(place),
{
    let lists = all_steps(places);
    let root = seq![seq![path::SEPARATOR]];
    lemma_shared_is_longest(lists, root);
    assert forall|i: int| 0 <= i < lists.len() implies begins_with(#[trigger] lists[i], root) by {
        assert(path::is_absolute(places[i]));
        assert(lists[i].take(1) =~= root);
    }
    assert(begins_with(shared(lists), root));
    assert(shared(lists).take(1)[0] == root[0]);
}

/// The path of a resource: of the first path that has it.
pub open spec fn first_path(discovered: Seq<(u64, NativePath)>, resource: u64) -> Option<NativePath>
    decreases discovered.len(),
{
    if discovered.len() == 0 {
        None
    } else if discovered[0].0 == resource {
        Some(discovered[0].1)
    } else {
        first_path(discovered.drop_first(), resource)
    }
}

/// Whether a refusal says what a plan refuses; a resource without a path is shown as unknown.
pub open spec fn says_batch_refusal(
    refusal: SelectionRefusal,
    discovered: Seq<(u64, NativePath)>,
    rejected: Rejected,
) -> bool {
    &&& refusal.reason@ == rejected.code@
    &&& match first_path(discovered, rejected.resource) {
        Some(place) => journal::same_native(refusal.path, place),
        None => refusal.path.encoding@ == "unix_bytes"@ && refusal.path.bytes@
            == utf8::encode_utf8("(unknown)"@) && refusal.path.display@ == "\"(unknown)\""@,
    }
}

fn find_first(discovered: &Vec<(u64, NativePath)>, resource: u64) -> (found: Option<usize>)
    ensures
        match found {
            Some(at) => at < discovered@.len() && first_path(discovered@, resource) == Some(
                discovered@[at as int].1,
            ),
            None => first_path(discovered@, resource) is None,
        },
{
    let mut i: usize = 0;
    assert(discovered@.skip(0) =~= discovered@);
    while i < discovered.len()
        invariant
            0 <= i <= discovered@.len(),
            first_path(discovered@, resource) == first_path(
                discovered@.skip(i as int),
                resource,
            ),
        decreases discovered@.len() - i,
    {
        assert(discovered@.skip(i as int)[0] == discovered@[i as int]);
        if discovered[i].0 == resource {
            return Some(i);
        }
        assert(discovered@.skip(i as int).drop_first() =~= discovered@.skip(i + 1));
        i += 1;
    }
    None
}

/// What a plan refuses, by path.
pub fn batch_refusals(discovered: &Vec<(u64, NativePath)>, rejected: &Vec<Rejected>) -> (refusals:
    Vec<SelectionRefusal>)
    ensures
        refusals@.len() == rejected@.len(),
        forall|i: int|
            0 <= i < refusals@.len() ==> says_batch_refusal(
                #[trigger] refusals@[i],
                discovered@,
                rejected@[i],
            ),
{
    let mut refusals: Vec<SelectionRefusal> = Vec::new();
    let mut i: usize = 0;
    while i < rejected.len()
        invariant
            0 <= i <= rejected@.len(),
            refusals@.len() == i,
            forall|j: int|
                0 <= j < i ==> says_batch_refusal(
                    #[trigger] refusals@[j],
                    discovered@,
                    rejected@[j],
                ),
        decreases rejected@.len() - i,
    {
        let place: NativePath = match find_first(discovered, rejected[i].resource) {
            Some(at) => discovered[at].1.copy(),
            None => NativePath {
                encoding: "unix_bytes".to_owned(),
                bytes: text::copy_bytes("(unknown)".as_bytes()),
                display: "\"(unknown)\"".to_owned(),
            },
        };
        refusals.push(SelectionRefusal { path: place, reason: rejected[i].code.clone() });
        i += 1;
    }
    refusals
}

} // verus!
