//! What holds of the exclusion policy across its operations.

use crate::clean_policy;
use crate::clean_policy::{EntryView, PolicyView, RootView, UnixIdentity};
use crate::error::{Error, ErrorKind};
use crate::path;
use crate::policy_edit;
use crate::policy_edit::{AnchoredEntryState, EntryRequest, RemoveRequest};
use crate::policy_snapshot;
use crate::policy_snapshot::{FileStateView, LoadedPolicy, SnapshotLook};
use crate::recover::Fault;
use crate::text;
use crate::wire;
use crate::wire::{ShownPath, WireView};
use vstd::prelude::*;

verus! {

proof fn lemma_same_identities(a: Seq<RootView>, b: Seq<RootView>, identity: UnixIdentity)
    requires
        a.len() == b.len(),
        forall|i: int| 0 <= i < a.len() ==> (#[trigger] a[i]).identity == b[i].identity,
    ensures
        policy_edit::identity_count(a, identity) == policy_edit::identity_count(b, identity),
        policy_edit::first_identity(a, identity) == policy_edit::first_identity(b, identity),
    decreases a.len(),
{
    if a.len() > 0 {
        assert forall|i: int| 0 <= i < a.drop_last().len() implies (
        #[trigger] a.drop_last()[i]).identity == b.drop_last()[i].identity by {
            assert(a[i].identity == b[i].identity);
        }
        lemma_same_identities(a.drop_last(), b.drop_last(), identity);
        assert(a[a.len() - 1].identity == b[b.len() - 1].identity);
    }
}

proof fn lemma_first_has_identity(roots: Seq<RootView>, identity: UnixIdentity)
    requires
        policy_edit::identity_count(roots, identity) > 0,
    ensures
        0 <= policy_edit::first_identity(roots, identity) < roots.len(),
        roots[policy_edit::first_identity(roots, identity)].identity == identity,
    decreases roots.len(),
{
    if roots.len() > 0 {
        if policy_edit::identity_count(roots.drop_last(), identity) > 0 {
            lemma_first_has_identity(roots.drop_last(), identity);
        }
    }
}

/// The record that additions go to is the one that a snapshot reads.
proof fn lemma_ensured_is_selected(
    roots: Seq<RootView>,
    path: WireView,
    identity: UnixIdentity,
    now: Result<u64, Error>,
    entries: Seq<EntryView>,
)
    requires
        policy_edit::ensured(roots, path, identity, now) is Ok,
    ensures
        ({
            let (kept, at) = policy_edit::ensured(roots, path, identity, now)->Ok_0;
            let changed = kept.update(at, RootView { entries, ..kept[at] });
            &&& 0 <= at < kept.len()
            &&& kept[at].identity == identity
            &&& policy_snapshot::selected(changed, path, identity) == Ok::<
                Option<RootView>,
                Fault,
            >(Some(RootView { entries, ..kept[at] }))
        }),
{
    let (kept, at) = policy_edit::ensured(roots, path, identity, now)->Ok_0;
    let changed = kept.update(at, RootView { entries, ..kept[at] });
    if policy_edit::identity_count(roots, identity) == 1 {
        lemma_first_has_identity(roots, identity);
        assert forall|i: int| 0 <= i < roots.len() implies (#[trigger] roots[i]).identity
            == changed[i].identity by {}
        lemma_same_identities(roots, changed, identity);
    } else {
        assert(kept.drop_last() =~= roots);
        assert(changed.drop_last() =~= roots);
        assert(changed.last().identity == identity);
    }
}

proof fn lemma_readable(entries: Seq<EntryView>, i: int)
    requires
        policy_edit::unreadable(entries) is None,
        0 <= i < entries.len(),
    ensures
        wire::relative_of(entries[i].path) is Ok,
    decreases entries.len(),
{
    if i < entries.len() - 1 {
        assert(entries.drop_last()[i] == entries[i]);
        lemma_readable(entries.drop_last(), i);
    }
}

proof fn lemma_seen_after_push(entries: Seq<EntryView>, entry: EntryView, key: Seq<u8>)
    requires
        clean_policy::key_seen(entries, key),
    ensures
        clean_policy::key_seen(entries.push(entry), key),
{
    let i = choose|i: int|
        0 <= i < entries.len() && wire::relative_of((#[trigger] entries[i]).path) == Ok::<
            Seq<u8>,
            Seq<char>,
        >(key);
    assert(entries.push(entry)[i] == entries[i]);
}

/// Additions keep what is there, and record what was asked for.
proof fn lemma_grown_keys(
    entries: Seq<EntryView>,
    root: Seq<u8>,
    requests: Seq<EntryRequest>,
    key: Seq<u8>,
)
    requires
        policy_edit::grown(entries, root, requests) is Ok,
        clean_policy::key_seen(entries, key) || exists|i: int|
            0 <= i < requests.len() && path::below((#[trigger] requests[i]).absolute@, root) == key,
    ensures
        clean_policy::key_seen(policy_edit::grown(entries, root, requests)->Ok_0, key),
    decreases requests.len(),
{
    if requests.len() > 0 {
        let head = requests.drop_last();
        let last = requests.last();
        let more = policy_edit::grown(entries, root, head)->Ok_0;
        let relative = path::below(last.absolute@, root);
        if relative == key {
            if !clean_policy::key_seen(more, relative) {
                wire::relative_path_survives(relative, last.relative_display@);
                let result = policy_edit::grown(entries, root, requests)->Ok_0;
                assert(wire::relative_of(result[more.len() as int].path) == Ok::<
                    Seq<u8>,
                    Seq<char>,
                >(key));
            }
        } else {
            if !clean_policy::key_seen(entries, key) {
                let i = choose|i: int|
                    0 <= i < requests.len() && path::below(
                        (#[trigger] requests[i]).absolute@,
                        root,
                    ) == key;
                assert(head[i] == requests[i]);
                assert(path::below(head[i].absolute@, root) == key);
            }
            lemma_grown_keys(entries, root, head, key);
            if !clean_policy::key_seen(more, relative) {
                let result = policy_edit::grown(entries, root, requests)->Ok_0;
                lemma_seen_after_push(more, result.last(), key);
                assert(result =~= more.push(result.last()));
            }
        }
    }
}

proof fn lemma_latest(entries: Seq<EntryView>, i: int) -> (j: int)
    requires
        0 <= i < entries.len(),
    ensures
        policy_edit::is_latest(entries, j),
        clean_policy::key_of(entries[j]) == clean_policy::key_of(entries[i]),
    decreases entries.len() - i,
{
    if policy_edit::is_latest(entries, i) {
        i
    } else {
        let k = choose|k: int|
            i < k < entries.len() && clean_policy::key_of(#[trigger] entries[k])
                == clean_policy::key_of(entries[i]);
        lemma_latest(entries, k)
    }
}

/// Normalizing loses no key.
proof fn lemma_normalized_keys(entries: Seq<EntryView>, key: Seq<u8>)
    requires
        policy_edit::unreadable(entries) is None,
        clean_policy::key_seen(entries, key),
    ensures
        clean_policy::key_seen(policy_edit::normalized(entries), key),
{
    let i = choose|i: int|
        0 <= i < entries.len() && wire::relative_of((#[trigger] entries[i]).path) == Ok::<
            Seq<u8>,
            Seq<char>,
        >(key);
    let j = lemma_latest(entries, i);
    lemma_readable(entries, j);
    policy_edit::normalized_is_sorted_and_latest(entries);
    let result = policy_edit::normalized(entries);
    assert(policy_edit::is_latest(entries, j) && entries[j] == entries[j]);
    assert(result.contains(entries[j]));
    let k = choose|k: int| 0 <= k < result.len() && result[k] == entries[j];
    assert(wire::relative_of(result[k].path) == Ok::<Seq<u8>, Seq<char>>(key));
}

/// Where the exclusion at `k` goes: it takes effect if what is there is what was recorded, and
/// needs attention otherwise.
pub open spec fn shows_exclusion(
    entries: Seq<EntryView>,
    looks: Seq<Result<AnchoredEntryState, Error>>,
    effective: Seq<Seq<u8>>,
    missing: Seq<Seq<u8>>,
    root: Seq<u8>,
    k: int,
) -> bool {
    let place = path::joined(root, clean_policy::key_of(entries[k]));
    if policy_snapshot::still_there(
        policy_snapshot::inspected(looks, k)->Ok_0,
        entries[k].identity,
    ) {
        effective.contains(place)
    } else {
        missing.contains(place)
    }
}

/// Whether every one of the first `count` entries could be looked at.
pub open spec fn all_inspected(looks: Seq<Result<AnchoredEntryState, Error>>, count: nat) -> bool {
    forall|k: int| 0 <= k < count ==> (#[trigger] policy_snapshot::inspected(looks, k)) is Ok
}

/// A readable record can be evaluated where every one of its entries could be looked at.
proof fn lemma_evaluated(
    entries: Seq<EntryView>,
    root: Seq<u8>,
    looks: Seq<Result<AnchoredEntryState, Error>>,
)
    requires
        policy_edit::unreadable(entries) is None,
        all_inspected(looks, entries.len()),
    ensures
        policy_snapshot::evaluated(entries, root, looks) is Ok,
    decreases entries.len(),
{
    if entries.len() > 0 {
        lemma_evaluated(entries.drop_last(), root, looks);
        assert(policy_snapshot::inspected(looks, entries.len() - 1) is Ok);
    }
}

/// Evaluating a record shows each of its exclusions.
proof fn lemma_evaluated_at(
    entries: Seq<EntryView>,
    root: Seq<u8>,
    looks: Seq<Result<AnchoredEntryState, Error>>,
    k: int,
)
    requires
        policy_snapshot::evaluated(entries, root, looks) is Ok,
        0 <= k < entries.len(),
    ensures
        ({
            let (effective, missing) = policy_snapshot::evaluated(entries, root, looks)->Ok_0;
            &&& policy_snapshot::inspected(looks, k) is Ok
            &&& shows_exclusion(entries, looks, effective, missing, root, k)
        }),
    decreases entries.len(),
{
    let head = entries.drop_last();
    let (effective, missing) = policy_snapshot::evaluated(entries, root, looks)->Ok_0;
    let (before, lost) = policy_snapshot::evaluated(head, root, looks)->Ok_0;
    if k < head.len() {
        lemma_evaluated_at(head, root, looks, k);
        assert(head[k] == entries[k]);
        let place = path::joined(root, clean_policy::key_of(entries[k]));
        if before.contains(place) {
            let i = choose|i: int| 0 <= i < before.len() && before[i] == place;
            assert(effective[i] == place);
        }
        if lost.contains(place) {
            let i = choose|i: int| 0 <= i < lost.len() && lost[i] == place;
            assert(missing[i] == place);
        }
    } else if policy_snapshot::still_there(
        policy_snapshot::inspected(looks, k)->Ok_0,
        entries[k].identity,
    ) {
        assert(effective[effective.len() - 1] == path::joined(
            root,
            clean_policy::key_of(entries[k]),
        ));
    } else {
        assert(missing[missing.len() - 1] == path::joined(root, clean_policy::key_of(entries[k])));
    }
}

/// Adding keeps every exclusion that the root had.
pub proof fn adding_keeps_earlier_exclusions(
    policy: PolicyView,
    root: ShownPath,
    identity: UnixIdentity,
    requests: Seq<EntryRequest>,
    now: Result<u64, Error>,
    key: Seq<u8>,
)
    requires
        policy_edit::added(policy, root, identity, requests, now) is Ok,
        policy_edit::identity_count(policy.roots, identity) == 1,
        clean_policy::key_seen(
            policy.roots[policy_edit::first_identity(policy.roots, identity)].entries,
            key,
        ),
    ensures
        ({
            let changed = policy_edit::added(policy, root, identity, requests, now)->Ok_0;
            let at = policy_edit::first_identity(policy.roots, identity);
            &&& clean_policy::key_seen(changed.roots[at].entries, key)
            &&& changed.roots.len() == policy.roots.len()
            &&& forall|j: int|
                0 <= j < policy.roots.len() && j != at ==> #[trigger] changed.roots[j]
                    == policy.roots[j]
        }),
{
    let written = wire::wire_of(root.bytes@, root.display@);
    lemma_first_has_identity(policy.roots, identity);
    let (kept, at) = policy_edit::ensured(policy.roots, written, identity, now)->Ok_0;
    let grown = policy_edit::grown(kept[at].entries, root.bytes@, requests)->Ok_0;
    policy_edit::lemma_grown_readable(kept[at].entries, root.bytes@, requests);
    lemma_grown_keys(kept[at].entries, root.bytes@, requests, key);
    lemma_normalized_keys(grown, key);
}

/// Whether no two entries have the same key.
pub open spec fn distinct_keys(entries: Seq<EntryView>) -> bool {
    forall|i: int, j: int|
        0 <= i < j < entries.len() ==> clean_policy::key_of(#[trigger] entries[i])
            != clean_policy::key_of(#[trigger] entries[j])
}

/// The entries of a policy without fault can be read, and no two have the same key.
proof fn lemma_sound_entries(entries: Seq<EntryView>)
    requires
        clean_policy::entries_fault(entries) is None,
    ensures
        policy_edit::unreadable(entries) is None,
        distinct_keys(entries),
    decreases entries.len(),
{
    if entries.len() > 0 {
        let head = entries.drop_last();
        lemma_sound_entries(head);
        assert forall|i: int, j: int| 0 <= i < j < entries.len() implies clean_policy::key_of(
            #[trigger] entries[i],
        ) != clean_policy::key_of(#[trigger] entries[j]) by {
            assert(head[i] == entries[i]);
            if j < head.len() {
                assert(head[j] == entries[j]);
            } else {
                lemma_readable(head, i);
                if clean_policy::key_of(entries[i]) == clean_policy::key_of(entries[j]) {
                    assert(clean_policy::key_seen(head, clean_policy::key_of(entries[j])));
                }
            }
        }
    }
}

proof fn lemma_sound_root(roots: Seq<RootView>, i: int)
    requires
        clean_policy::roots_fault(roots) is None,
        0 <= i < roots.len(),
    ensures
        clean_policy::entries_fault(roots[i].entries) is None,
    decreases roots.len(),
{
    if i < roots.len() - 1 {
        assert(roots.drop_last()[i] == roots[i]);
        lemma_sound_root(roots.drop_last(), i);
    }
}

/// In a policy without fault no two roots are stored under one path.
proof fn lemma_sound_paths(roots: Seq<RootView>, path: WireView, at: int)
    requires
        clean_policy::roots_fault(roots) is None,
        0 <= at < roots.len(),
        roots[at].path == path,
    ensures
        policy_edit::path_stored(roots, path),
        policy_edit::first_path(roots, path) == at,
    decreases roots.len(),
{
    let head = roots.drop_last();
    if at < head.len() {
        assert(head[at] == roots[at]);
        lemma_sound_paths(head, path, at);
        assert(policy_edit::path_stored(head, path));
    } else {
        let bytes = wire::absolute_of(path)->Ok_0;
        if policy_edit::path_stored(head, path) {
            let i = choose|i: int| 0 <= i < head.len() && (#[trigger] head[i]).path == path;
            assert(clean_policy::path_seen(head, bytes));
        }
    }
}

/// What is recorded of a request.
pub open spec fn recorded(request: EntryRequest, root: Seq<u8>) -> EntryView {
    EntryView {
        path: wire::wire_of(path::below(request.absolute@, root), request.relative_display@),
        identity: policy_edit::admitted(request, root)->Ok_0,
        created: request.now->Ok_0,
    }
}

/// Requests only append, and every entry that they append is that of a request whose path was
/// not there.
proof fn lemma_grown_appends(entries: Seq<EntryView>, root: Seq<u8>, requests: Seq<EntryRequest>)
    requires
        policy_edit::grown(entries, root, requests) is Ok,
    ensures
        ({
            let more = policy_edit::grown(entries, root, requests)->Ok_0;
            &&& entries.len() <= more.len()
            &&& more.take(entries.len() as int) == entries
            &&& forall|n: int|
                entries.len() <= n < more.len() ==> exists|j: int|
                    0 <= j < requests.len() && #[trigger] more[n] == recorded(
                        #[trigger] requests[j],
                        root,
                    ) && policy_edit::admitted(requests[j], root) is Ok
                        && clean_policy::key_of(more[n]) == path::below(
                        requests[j].absolute@,
                        root,
                    ) && !clean_policy::key_seen(entries, clean_policy::key_of(more[n]))
        }),
    decreases requests.len(),
{
    let more = policy_edit::grown(entries, root, requests)->Ok_0;
    if requests.len() == 0 {
        assert(more.take(entries.len() as int) =~= entries);
    } else {
        let head = requests.drop_last();
        let last = requests.last();
        let before = policy_edit::grown(entries, root, head)->Ok_0;
        let relative = path::below(last.absolute@, root);
        lemma_grown_appends(entries, root, head);
        if !clean_policy::key_seen(before, relative) {
            wire::relative_path_survives(relative, last.relative_display@);
        }
        assert(more.take(entries.len() as int) =~= before.take(entries.len() as int));
        assert forall|n: int| entries.len() <= n < more.len() implies exists|j: int|
            0 <= j < requests.len() && #[trigger] more[n] == recorded(
                #[trigger] requests[j],
                root,
            ) && policy_edit::admitted(requests[j], root) is Ok && clean_policy::key_of(more[n])
                == path::below(requests[j].absolute@, root) && !clean_policy::key_seen(
                entries,
                clean_policy::key_of(more[n]),
            ) by {
            if n < before.len() {
                assert(more[n] == before[n]);
                let j = choose|j: int|
                    0 <= j < head.len() && before[n] == recorded(#[trigger] head[j], root)
                        && policy_edit::admitted(head[j], root) is Ok && clean_policy::key_of(
                        before[n],
                    ) == path::below(head[j].absolute@, root) && !clean_policy::key_seen(
                        entries,
                        clean_policy::key_of(before[n]),
                    );
                assert(requests[j] == head[j]);
            } else {
                assert(requests[requests.len() - 1] == last);
                assert(more[n] == recorded(last, root));
                if clean_policy::key_seen(entries, relative) {
                    let i = choose|i: int|
                        0 <= i < entries.len() && wire::relative_of((#[trigger] entries[i]).path)
                            == Ok::<Seq<u8>, Seq<char>>(relative);
                    assert(before.take(entries.len() as int)[i] == entries[i]);
                    assert(before[i] == entries[i]);
                }
            }
        }
    }
}

proof fn lemma_grown_distinct(entries: Seq<EntryView>, root: Seq<u8>, requests: Seq<EntryRequest>)
    requires
        policy_edit::unreadable(entries) is None,
        distinct_keys(entries),
        policy_edit::grown(entries, root, requests) is Ok,
    ensures
        distinct_keys(policy_edit::grown(entries, root, requests)->Ok_0),
    decreases requests.len(),
{
    if requests.len() > 0 {
        let head = requests.drop_last();
        let before = policy_edit::grown(entries, root, head)->Ok_0;
        let more = policy_edit::grown(entries, root, requests)->Ok_0;
        let relative = path::below(requests.last().absolute@, root);
        lemma_grown_distinct(entries, root, head);
        policy_edit::lemma_grown_readable(entries, root, head);
        if !clean_policy::key_seen(before, relative) {
            wire::relative_path_survives(relative, requests.last().relative_display@);
            assert forall|i: int, j: int| 0 <= i < j < more.len() implies clean_policy::key_of(
                #[trigger] more[i],
            ) != clean_policy::key_of(#[trigger] more[j]) by {
                assert(more[i] == before[i]);
                if j < before.len() {
                    assert(more[j] == before[j]);
                } else {
                    lemma_readable(before, i);
                }
            }
        }
    }
}

/// Normalizing entries with distinct keys only sorts them.
proof fn lemma_normalized_same(entries: Seq<EntryView>)
    requires
        distinct_keys(entries),
    ensures
        forall|e: EntryView| #[trigger]
            policy_edit::normalized(entries).contains(e) <==> entries.contains(e),
{
    policy_edit::normalized_is_sorted_and_latest(entries);
    let result = policy_edit::normalized(entries);
    assert forall|e: EntryView| #[trigger] result.contains(e) <==> entries.contains(e) by {
        if entries.contains(e) {
            let j = choose|j: int| 0 <= j < entries.len() && entries[j] == e;
            assert(policy_edit::is_latest(entries, j));
        }
    }
}

proof fn lemma_normalized_readable(entries: Seq<EntryView>)
    requires
        policy_edit::unreadable(entries) is None,
    ensures
        policy_edit::unreadable(policy_edit::normalized(entries)) is None,
{
    let result = policy_edit::normalized(entries);
    policy_edit::normalized_is_sorted_and_latest(entries);
    assert forall|k: int| 0 <= k < result.len() implies wire::relative_of(
        (#[trigger] result[k]).path,
    ) is Ok by {
        assert(result.contains(result[k]));
        let j = choose|j: int|
            #[trigger] policy_edit::is_latest(entries, j) && entries[j] == result[k];
        lemma_readable(entries, j);
    }
    lemma_all_readable(result);
}

proof fn lemma_all_readable(entries: Seq<EntryView>)
    requires
        forall|k: int|
            0 <= k < entries.len() ==> wire::relative_of((#[trigger] entries[k]).path) is Ok,
    ensures
        policy_edit::unreadable(entries) is None,
    decreases entries.len(),
{
    if entries.len() > 0 {
        let head = entries.drop_last();
        assert forall|k: int| 0 <= k < head.len() implies wire::relative_of(
            (#[trigger] head[k]).path,
        ) is Ok by {
            assert(head[k] == entries[k]);
        }
        lemma_all_readable(head);
        assert(wire::relative_of(entries[entries.len() - 1].path) is Ok);
    }
}

/// What a root had before an addition.
pub open spec fn entries_before(policy: PolicyView, identity: UnixIdentity) -> Seq<EntryView> {
    if policy_edit::identity_count(policy.roots, identity) == 1 {
        policy.roots[policy_edit::first_identity(policy.roots, identity)].entries
    } else {
        Seq::empty()
    }
}

/// Where the record of a root stands after an addition.
pub open spec fn place_after(policy: PolicyView, identity: UnixIdentity) -> int {
    if policy_edit::identity_count(policy.roots, identity) == 1 {
        policy_edit::first_identity(policy.roots, identity)
    } else {
        policy.roots.len() as int
    }
}

/// What an addition makes of the policy.
proof fn lemma_added(
    policy: PolicyView,
    root: ShownPath,
    identity: UnixIdentity,
    requests: Seq<EntryRequest>,
    now: Result<u64, Error>,
)
    requires
        policy_edit::added(policy, root, identity, requests, now) is Ok,
    ensures
        ({
            let changed = policy_edit::added(policy, root, identity, requests, now)->Ok_0;
            let at = place_after(policy, identity);
            let before = entries_before(policy, identity);
            &&& 0 <= at < changed.roots.len()
            &&& changed.roots[at].path == wire::wire_of(root.bytes@, root.display@)
            &&& changed.roots[at].identity == identity
            &&& policy_edit::unreadable(before) is None
            &&& policy_edit::grown(before, root.bytes@, requests) is Ok
            &&& changed.roots[at].entries == policy_edit::normalized(
                policy_edit::grown(before, root.bytes@, requests)->Ok_0,
            )
            &&& policy_edit::identity_count(changed.roots, identity) == 1
            &&& policy_edit::first_identity(changed.roots, identity) == at
            &&& clean_policy::policy_fault(changed) is None
            &&& forall|j: int|
                0 <= j < policy.roots.len() && j != at ==> #[trigger] changed.roots[j]
                    == policy.roots[j]
            &&& policy_edit::identity_count(policy.roots, identity) == 1 ==> changed.roots.len()
                == policy.roots.len() && changed.roots[at] == (RootView {
                path: changed.roots[at].path,
                entries: changed.roots[at].entries,
                ..policy.roots[at]
            })
        }),
{
    let written = wire::wire_of(root.bytes@, root.display@);
    let (kept, at) = policy_edit::ensured(policy.roots, written, identity, now)->Ok_0;
    let changed = policy_edit::added(policy, root, identity, requests, now)->Ok_0;
    let entries = policy_edit::normalized(
        policy_edit::grown(kept[at].entries, root.bytes@, requests)->Ok_0,
    );
    lemma_ensured_is_selected(policy.roots, written, identity, now, entries);
    if policy_edit::identity_count(policy.roots, identity) == 1 {
        lemma_first_has_identity(policy.roots, identity);
        assert forall|i: int| 0 <= i < policy.roots.len() implies (
        #[trigger] policy.roots[i]).identity == changed.roots[i].identity by {}
        lemma_same_identities(policy.roots, changed.roots, identity);
    } else {
        assert(changed.roots.drop_last() =~= policy.roots);
        assert(changed.roots.last().identity == identity);
    }
}

/// Adding changes no record of the root: every entry that it had is still there as it was, and
/// every other entry is what was recorded of a request. The other roots stay as they are.
pub proof fn adding_keeps_earlier_records(
    policy: PolicyView,
    root: ShownPath,
    identity: UnixIdentity,
    requests: Seq<EntryRequest>,
    now: Result<u64, Error>,
)
    requires
        clean_policy::policy_fault(policy) is None,
        policy_edit::added(policy, root, identity, requests, now) is Ok,
    ensures
        ({
            let changed = policy_edit::added(policy, root, identity, requests, now)->Ok_0;
            let before = entries_before(policy, identity);
            let at = place_after(policy, identity);
            let after = changed.roots[at].entries;
            &&& policy_edit::increasing(after)
            &&& forall|e: EntryView| #[trigger] before.contains(e) ==> after.contains(e)
            &&& forall|e: EntryView| #[trigger]
                after.contains(e) ==> before.contains(e) || exists|j: int|
                    0 <= j < requests.len() && e == recorded(#[trigger] requests[j], root.bytes@)
                        && !clean_policy::key_seen(before, clean_policy::key_of(e))
            &&& forall|j: int|
                0 <= j < policy.roots.len() && j != at ==> #[trigger] changed.roots[j]
                    == policy.roots[j]
        }),
{
    lemma_added(policy, root, identity, requests, now);
    let before = entries_before(policy, identity);
    let more = policy_edit::grown(before, root.bytes@, requests)->Ok_0;
    let after = policy_edit::normalized(more);
    if policy_edit::identity_count(policy.roots, identity) == 1 {
        lemma_first_has_identity(policy.roots, identity);
        lemma_sound_root(
            policy.roots,
            policy_edit::first_identity(policy.roots, identity),
        );
    }
    lemma_sound_entries(before);
    lemma_grown_distinct(before, root.bytes@, requests);
    lemma_grown_appends(before, root.bytes@, requests);
    lemma_normalized_same(more);
    policy_edit::normalized_is_sorted_and_latest(more);
    assert forall|e: EntryView| #[trigger] before.contains(e) implies after.contains(e) by {
        let i = choose|i: int| 0 <= i < before.len() && before[i] == e;
        assert(more.take(before.len() as int)[i] == before[i]);
        assert(more[i] == e);
        assert(more.contains(e));
    }
    assert forall|e: EntryView| #[trigger] after.contains(e) implies before.contains(e)
        || exists|j: int|
        0 <= j < requests.len() && e == recorded(#[trigger] requests[j], root.bytes@)
            && !clean_policy::key_seen(before, clean_policy::key_of(e)) by {
        assert(more.contains(e));
        let n = choose|n: int| 0 <= n < more.len() && more[n] == e;
        if n < before.len() {
            assert(more.take(before.len() as int)[n] == before[n]);
            assert(before[n] == e);
        } else {
            assert(more[n] == e);
        }
    }
}

proof fn lemma_grown_seen(entries: Seq<EntryView>, root: Seq<u8>, requests: Seq<EntryRequest>)
    requires
        forall|i: int|
            0 <= i < requests.len() ==> policy_edit::admitted(#[trigger] requests[i], root) is Ok
                && clean_policy::key_seen(entries, path::below(requests[i].absolute@, root)),
    ensures
        policy_edit::grown(entries, root, requests) == Ok::<Seq<EntryView>, Fault>(entries),
    decreases requests.len(),
{
    if requests.len() > 0 {
        let head = requests.drop_last();
        assert forall|i: int| 0 <= i < head.len() implies policy_edit::admitted(
            #[trigger] head[i],
            root,
        ) is Ok && clean_policy::key_seen(entries, path::below(head[i].absolute@, root)) by {
            assert(head[i] == requests[i]);
        }
        lemma_grown_seen(entries, root, head);
        assert(policy_edit::admitted(requests[requests.len() - 1], root) is Ok);
    }
}

/// Adding the same paths again changes nothing, whatever time it is and whatever they are now,
/// as long as they may be excluded at all.
pub proof fn adding_again_changes_nothing(
    policy: PolicyView,
    root: ShownPath,
    identity: UnixIdentity,
    requests: Seq<EntryRequest>,
    now: Result<u64, Error>,
    again: Seq<EntryRequest>,
    later: Result<u64, Error>,
)
    requires
        policy_edit::added(policy, root, identity, requests, now) is Ok,
        again.len() == requests.len(),
        forall|i: int|
            0 <= i < again.len() ==> (#[trigger] again[i]).absolute@ == requests[i].absolute@
                && policy_edit::admitted(again[i], root.bytes@) is Ok,
    ensures
        ({
            let changed = policy_edit::added(policy, root, identity, requests, now)->Ok_0;
            policy_edit::added(changed, root, identity, again, later) == Ok::<PolicyView, Fault>(
                changed,
            )
        }),
{
    lemma_added(policy, root, identity, requests, now);
    let changed = policy_edit::added(policy, root, identity, requests, now)->Ok_0;
    let written = wire::wire_of(root.bytes@, root.display@);
    let before = entries_before(policy, identity);
    let at = place_after(policy, identity);
    let more = policy_edit::grown(before, root.bytes@, requests)->Ok_0;
    let after = policy_edit::normalized(more);
    policy_edit::lemma_grown_readable(before, root.bytes@, requests);
    lemma_normalized_readable(more);
    assert forall|i: int| 0 <= i < again.len() implies policy_edit::admitted(
        #[trigger] again[i],
        root.bytes@,
    ) is Ok && clean_policy::key_seen(after, path::below(again[i].absolute@, root.bytes@)) by {
        let key = path::below(requests[i].absolute@, root.bytes@);
        lemma_grown_keys(before, root.bytes@, requests, key);
        lemma_normalized_keys(more, key);
    }
    lemma_grown_seen(after, root.bytes@, again);
    policy_edit::normalizing_is_idempotent(more);
    let (kept, place) = policy_edit::ensured(changed.roots, written, identity, later)->Ok_0;
    assert(kept =~= changed.roots);
    assert(kept.update(at, RootView { entries: after, ..kept[at] }) =~= changed.roots);
}

/// After an addition the policy can be read for the root, wherever every entry of its record
/// can be looked at; the snapshot shows the record as the addition left it.
pub proof fn snapshot_follows_addition(
    policy: PolicyView,
    root: ShownPath,
    identity: UnixIdentity,
    requests: Seq<EntryRequest>,
    now: Result<u64, Error>,
    file_state: FileStateView,
    looks: Seq<Result<AnchoredEntryState, Error>>,
)
    requires
        policy_edit::added(policy, root, identity, requests, now) is Ok,
        all_inspected(
            looks,
            policy_edit::added(
                policy,
                root,
                identity,
                requests,
                now,
            )->Ok_0.roots[place_after(policy, identity)].entries.len(),
        ),
    ensures
        ({
            let changed = policy_edit::added(policy, root, identity, requests, now)->Ok_0;
            let record = changed.roots[place_after(policy, identity)];
            &&& policy_snapshot::snapshot_of(
                file_state,
                changed,
                root.bytes@,
                root.display@,
                identity,
                looks,
            ) matches Ok(snapshot)
            &&& snapshot.root == Some(record)
            &&& snapshot.file_state == file_state
            &&& policy_edit::increasing(record.entries)
            &&& policy_snapshot::evaluated(record.entries, root.bytes@, looks) == Ok::<
                (Seq<Seq<u8>>, Seq<Seq<u8>>),
                Fault,
            >((snapshot.effective, snapshot.missing))
        }),
{
    lemma_added(policy, root, identity, requests, now);
    let changed = policy_edit::added(policy, root, identity, requests, now)->Ok_0;
    let record = changed.roots[place_after(policy, identity)];
    let before = entries_before(policy, identity);
    let more = policy_edit::grown(before, root.bytes@, requests)->Ok_0;
    policy_edit::lemma_grown_readable(before, root.bytes@, requests);
    lemma_normalized_readable(more);
    policy_edit::normalized_is_sorted_and_latest(more);
    lemma_evaluated(record.entries, root.bytes@, looks);
}

/// An exclusion that was added is never lost: every later snapshot of the written policy that
/// can look at the entries lists it, as effective while what lies there is what was recorded,
/// and as needing attention otherwise.
pub proof fn added_exclusion_is_shown(
    policy: PolicyView,
    root: ShownPath,
    identity: UnixIdentity,
    requests: Seq<EntryRequest>,
    now: Result<u64, Error>,
    i: int,
    file_state: FileStateView,
    looks: Seq<Result<AnchoredEntryState, Error>>,
)
    requires
        policy_edit::added(policy, root, identity, requests, now) is Ok,
        0 <= i < requests.len(),
        all_inspected(
            looks,
            policy_edit::added(
                policy,
                root,
                identity,
                requests,
                now,
            )->Ok_0.roots[place_after(policy, identity)].entries.len(),
        ),
    ensures
        policy_snapshot::snapshot_of(
            file_state,
            policy_edit::added(policy, root, identity, requests, now)->Ok_0,
            root.bytes@,
            root.display@,
            identity,
            looks,
        ) matches Ok(snapshot) && snapshot.root matches Some(record) && exists|k: int|
            0 <= k < record.entries.len() && clean_policy::key_of(#[trigger] record.entries[k])
                == path::below(requests[i].absolute@, root.bytes@) && shows_exclusion(
                record.entries,
                looks,
                snapshot.effective,
                snapshot.missing,
                root.bytes@,
                k,
            ),
{
    snapshot_follows_addition(policy, root, identity, requests, now, file_state, looks);
    lemma_added(policy, root, identity, requests, now);
    let before = entries_before(policy, identity);
    let more = policy_edit::grown(before, root.bytes@, requests)->Ok_0;
    let entries = policy_edit::normalized(more);
    let key = path::below(requests[i].absolute@, root.bytes@);
    policy_edit::lemma_grown_readable(before, root.bytes@, requests);
    lemma_grown_keys(before, root.bytes@, requests, key);
    lemma_normalized_keys(more, key);
    let k = choose|k: int|
        0 <= k < entries.len() && wire::relative_of((#[trigger] entries[k]).path) == Ok::<
            Seq<u8>,
            Seq<char>,
        >(key);
    lemma_evaluated_at(entries, root.bytes@, looks, k);
    let snapshot = policy_snapshot::snapshot_of(
        file_state,
        policy_edit::added(policy, root, identity, requests, now)->Ok_0,
        root.bytes@,
        root.display@,
        identity,
        looks,
    )->Ok_0;
    assert(clean_policy::key_of(snapshot.root->0.entries[k]) == key);
}

/// A path that was added and was not there before takes effect in every snapshot that can look
/// at the entries and finds at it what was recorded.
pub proof fn new_exclusion_takes_effect(
    policy: PolicyView,
    root: ShownPath,
    identity: UnixIdentity,
    requests: Seq<EntryRequest>,
    now: Result<u64, Error>,
    i: int,
    file_state: FileStateView,
    looks: Seq<Result<AnchoredEntryState, Error>>,
)
    requires
        policy_edit::added(policy, root, identity, requests, now) is Ok,
        0 <= i < requests.len(),
        !clean_policy::key_seen(
            entries_before(policy, identity),
            path::below(requests[i].absolute@, root.bytes@),
        ),
        ({
            let key = path::below(requests[i].absolute@, root.bytes@);
            let changed = policy_edit::added(policy, root, identity, requests, now)->Ok_0;
            let entries = changed.roots[place_after(policy, identity)].entries;
            &&& all_inspected(looks, entries.len())
            &&& forall|j: int|
                0 <= j < requests.len() && path::below(
                    (#[trigger] requests[j]).absolute@,
                    root.bytes@,
                ) == key ==> policy_edit::admitted(requests[j], root.bytes@)
                    == policy_edit::admitted(requests[i], root.bytes@)
            &&& forall|k: int|
                0 <= k < entries.len() && clean_policy::key_of(#[trigger] entries[k]) == key
                    ==> policy_snapshot::still_there(
                    policy_snapshot::inspected(looks, k)->Ok_0,
                    policy_edit::admitted(requests[i], root.bytes@)->Ok_0,
                )
        }),
    ensures
        policy_snapshot::snapshot_of(
            file_state,
            policy_edit::added(policy, root, identity, requests, now)->Ok_0,
            root.bytes@,
            root.display@,
            identity,
            looks,
        ) matches Ok(snapshot) && snapshot.effective.contains(
            path::joined(root.bytes@, path::below(requests[i].absolute@, root.bytes@)),
        ),
{
    snapshot_follows_addition(policy, root, identity, requests, now, file_state, looks);
    lemma_added(policy, root, identity, requests, now);
    let before = entries_before(policy, identity);
    let key = path::below(requests[i].absolute@, root.bytes@);
    let more = policy_edit::grown(before, root.bytes@, requests)->Ok_0;
    let entries = policy_edit::normalized(more);
    policy_edit::lemma_grown_readable(before, root.bytes@, requests);
    lemma_grown_keys(before, root.bytes@, requests, key);
    lemma_normalized_keys(more, key);
    lemma_grown_appends(before, root.bytes@, requests);
    policy_edit::normalized_is_sorted_and_latest(more);
    let k = choose|k: int|
        0 <= k < entries.len() && wire::relative_of((#[trigger] entries[k]).path) == Ok::<
            Seq<u8>,
            Seq<char>,
        >(key);
    assert(entries.contains(entries[k]));
    let n = choose|n: int| #[trigger] policy_edit::is_latest(more, n) && more[n] == entries[k];
    if n < before.len() {
        assert(more.take(before.len() as int)[n] == before[n]);
        assert(wire::relative_of(before[n].path) == Ok::<Seq<u8>, Seq<char>>(key));
    }
    let j = choose|j: int|
        0 <= j < requests.len() && more[n] == recorded(#[trigger] requests[j], root.bytes@)
            && policy_edit::admitted(requests[j], root.bytes@) is Ok && clean_policy::key_of(
            more[n],
        ) == path::below(requests[j].absolute@, root.bytes@);
    assert(entries[k].identity == policy_edit::admitted(requests[j], root.bytes@)->Ok_0);
    assert(clean_policy::key_of(entries[k]) == key);
    lemma_evaluated_at(entries, root.bytes@, looks, k);
}

/// A session that is prepared after an addition finds the policy as the addition left it: the
/// snapshot of the root succeeds wherever every entry can be looked at.
pub proof fn session_sees_addition(
    policy: PolicyView,
    root: ShownPath,
    identity: UnixIdentity,
    requests: Seq<EntryRequest>,
    now: Result<u64, Error>,
    look: SnapshotLook,
)
    requires
        policy_edit::added(policy, root, identity, requests, now) is Ok,
        policy_snapshot::existing_root(look.root, look.root_meta) == Ok::<
            (Seq<u8>, UnixIdentity),
            Fault,
        >((root.bytes@, identity)),
        look.root_display@ == root.display@,
        ({
            let changed = policy_edit::added(policy, root, identity, requests, now)->Ok_0;
            let record = changed.roots[place_after(policy, identity)];
            &&& look.policy matches Ok(LoadedPolicy::Present { policy: read, .. })
            &&& read@ == changed
            &&& all_inspected(look.entries@, record.entries.len())
        }),
    ensures
        policy_snapshot::policy_snapshot(look) matches Ok(snapshot) && snapshot.root == Some(
            policy_edit::added(
                policy,
                root,
                identity,
                requests,
                now,
            )->Ok_0.roots[place_after(policy, identity)],
        ),
{
    if let Ok(LoadedPolicy::Present { file_state, .. }) = look.policy {
        snapshot_follows_addition(
            policy,
            root,
            identity,
            requests,
            now,
            file_state@,
            look.entries@,
        );
    }
}

proof fn lemma_first_path_is_stored(roots: Seq<RootView>, path: WireView)
    requires
        policy_edit::path_stored(roots, path),
    ensures
        0 <= policy_edit::first_path(roots, path) < roots.len(),
        roots[policy_edit::first_path(roots, path)].path == path,
    decreases roots.len(),
{
    let i = choose|i: int| 0 <= i < roots.len() && (#[trigger] roots[i]).path == path;
    if policy_edit::path_stored(roots.drop_last(), path) {
        lemma_first_path_is_stored(roots.drop_last(), path);
    } else if i < roots.len() - 1 {
        assert(roots.drop_last()[i].path == path);
    }
}

/// Every entry stays or goes.
proof fn lemma_parted(entries: Seq<EntryView>, keys: Seq<Seq<u8>>)
    ensures
        entries.filter(|entry: EntryView| policy_edit::stays(entry, keys)).len() + entries.filter(
            |entry: EntryView| !policy_edit::stays(entry, keys),
        ).len() == entries.len(),
    decreases entries.len(),
{
    reveal(Seq::filter);
    if entries.len() > 0 {
        lemma_parted(entries.drop_last(), keys);
    }
}

/// What is removed is gone, and nothing else goes: other roots are untouched, and every
/// entry that stays was there before.
pub proof fn removed_exclusions_are_gone(policy: PolicyView, path: WireView, keys: Seq<Seq<u8>>)
    requires
        policy_edit::path_stored(policy.roots, path),
    ensures
        ({
            let (changed, count) = policy_edit::pruned(policy, path, keys);
            let at = policy_edit::first_path(policy.roots, path);
            let before = policy.roots[at].entries;
            let after = changed.roots[at].entries;
            &&& 0 <= at < policy.roots.len()
            &&& policy.roots[at].path == path
            &&& count == before.len() - after.len()
            &&& count == before.filter(|entry: EntryView| !policy_edit::stays(entry, keys)).len()
            &&& forall|key: Seq<u8>|
                keys.contains(key) ==> !(#[trigger] clean_policy::key_seen(after, key))
            &&& forall|entry: EntryView|
                after.contains(entry) <==> before.contains(entry) && #[trigger] policy_edit::stays(
                    entry,
                    keys,
                )
            &&& forall|j: int|
                0 <= j < policy.roots.len() && j != at ==> #[trigger] changed.roots[j]
                    == policy.roots[j]
        }),
{
    let (changed, count) = policy_edit::pruned(policy, path, keys);
    let at = policy_edit::first_path(policy.roots, path);
    let before = policy.roots[at].entries;
    let after = changed.roots[at].entries;
    lemma_first_path_is_stored(policy.roots, path);
    let keep = |entry: EntryView| policy_edit::stays(entry, keys);
    assert(after == before.filter(keep));
    lemma_parted(before, keys);
    assert forall|entry: EntryView| after.contains(entry) <==> before.contains(entry)
        && #[trigger] policy_edit::stays(entry, keys) by {
        if after.contains(entry) {
            before.lemma_filter_contains_rev(keep, entry);
            let i = choose|i: int| 0 <= i < after.len() && after[i] == entry;
            before.lemma_filter_pred(keep, i);
        }
        if before.contains(entry) && policy_edit::stays(entry, keys) {
            let i = choose|i: int| 0 <= i < before.len() && before[i] == entry;
            before.lemma_filter_contains(keep, i);
        }
    }
    assert forall|key: Seq<u8>| keys.contains(key) implies !(#[trigger] clean_policy::key_seen(
        after,
        key,
    )) by {
        if clean_policy::key_seen(after, key) {
            let i = choose|i: int|
                0 <= i < after.len() && wire::relative_of((#[trigger] after[i]).path) == Ok::<
                    Seq<u8>,
                    Seq<char>,
                >(key);
            assert(after.contains(after[i]));
            assert(policy_edit::stays(after[i], keys));
        }
    }
}

proof fn lemma_same_paths(a: Seq<RootView>, b: Seq<RootView>, path: WireView)
    requires
        a.len() == b.len(),
        forall|i: int| 0 <= i < a.len() ==> (#[trigger] a[i]).path == b[i].path,
    ensures
        policy_edit::path_stored(a, path) == policy_edit::path_stored(b, path),
        policy_edit::first_path(a, path) == policy_edit::first_path(b, path),
    decreases a.len(),
{
    if policy_edit::path_stored(a, path) {
        let i = choose|i: int| 0 <= i < a.len() && (#[trigger] a[i]).path == path;
        assert(b[i].path == path);
    }
    if policy_edit::path_stored(b, path) {
        let i = choose|i: int| 0 <= i < b.len() && (#[trigger] b[i]).path == path;
        assert(a[i].path == path);
    }
    if a.len() > 0 {
        assert forall|i: int| 0 <= i < a.drop_last().len() implies (
        #[trigger] a.drop_last()[i]).path == b.drop_last()[i].path by {
            assert(a[i].path == b[i].path);
        }
        lemma_same_paths(a.drop_last(), b.drop_last(), path);
    }
}

proof fn lemma_nothing_goes(entries: Seq<EntryView>, keys: Seq<Seq<u8>>)
    requires
        forall|i: int|
            0 <= i < entries.len() ==> policy_edit::stays(#[trigger] entries[i], keys),
    ensures
        policy_edit::without_keys(entries, keys) == entries,
    decreases entries.len(),
{
    reveal(Seq::filter);
    if entries.len() > 0 {
        let head = entries.drop_last();
        assert forall|i: int| 0 <= i < head.len() implies policy_edit::stays(
            #[trigger] head[i],
            keys,
        ) by {
            assert(head[i] == entries[i]);
        }
        lemma_nothing_goes(head, keys);
        assert(policy_edit::stays(entries[entries.len() - 1], keys));
        assert(head.push(entries.last()) =~= entries);
    }
}

proof fn lemma_without_keys_sound(entries: Seq<EntryView>, keys: Seq<Seq<u8>>)
    requires
        clean_policy::entries_fault(entries) is None,
    ensures
        clean_policy::entries_fault(policy_edit::without_keys(entries, keys)) is None,
        policy_edit::without_keys(entries, keys).len() <= entries.len(),
    decreases entries.len(),
{
    reveal(Seq::filter);
    if entries.len() > 0 {
        let keep = |entry: EntryView| policy_edit::stays(entry, keys);
        let head = entries.drop_last();
        let kept = head.filter(keep);
        lemma_without_keys_sound(head, keys);
        assert(policy_edit::without_keys(head, keys) == kept);
        if keep(entries.last()) {
            let all = kept.push(entries.last());
            let key = clean_policy::key_of(entries.last());
            assert(all.drop_last() =~= kept);
            if clean_policy::key_seen(kept, key) {
                let i = choose|i: int|
                    0 <= i < kept.len() && wire::relative_of((#[trigger] kept[i]).path) == Ok::<
                        Seq<u8>,
                        Seq<char>,
                    >(key);
                assert(kept.contains(kept[i]));
                head.lemma_filter_contains_rev(keep, kept[i]);
                let j = choose|j: int| 0 <= j < head.len() && head[j] == kept[i];
                assert(clean_policy::key_seen(head, key));
            }
        }
    }
}

/// Roots with the same paths and identities are seen alike.
proof fn lemma_seen_alike(a: Seq<RootView>, b: Seq<RootView>, bytes: Seq<u8>, identity: UnixIdentity)
    requires
        a.len() == b.len(),
        forall|i: int|
            0 <= i < a.len() ==> (#[trigger] a[i]).path == b[i].path && a[i].identity
                == b[i].identity,
    ensures
        clean_policy::path_seen(b, bytes) ==> clean_policy::path_seen(a, bytes),
        clean_policy::identity_seen(b, identity) ==> clean_policy::identity_seen(a, identity),
{
    if clean_policy::path_seen(b, bytes) {
        let i = choose|i: int|
            0 <= i < b.len() && wire::absolute_of((#[trigger] b[i]).path) == Ok::<
                Seq<u8>,
                Seq<char>,
            >(bytes);
        assert(a[i].path == b[i].path);
    }
    if clean_policy::identity_seen(b, identity) {
        let i = choose|i: int| 0 <= i < b.len() && (#[trigger] b[i]).identity == identity;
        assert(a[i].identity == b[i].identity);
    }
}

proof fn lemma_fewer_entries_sound(roots: Seq<RootView>, at: int, entries: Seq<EntryView>)
    requires
        clean_policy::roots_fault(roots) is None,
        0 <= at < roots.len(),
        clean_policy::entries_fault(entries) is None,
        entries.len() <= roots[at].entries.len(),
    ensures
        clean_policy::roots_fault(roots.update(at, RootView { entries, ..roots[at] })) is None,
    decreases roots.len(),
{
    let changed = roots.update(at, RootView { entries, ..roots[at] });
    let head = roots.drop_last();
    if at < head.len() {
        assert(head[at] == roots[at]);
        lemma_fewer_entries_sound(head, at, entries);
        let fewer = head.update(at, RootView { entries, ..head[at] });
        assert(changed.drop_last() =~= fewer);
        let last = roots.last();
        lemma_seen_alike(head, fewer, wire::absolute_of(last.path)->Ok_0, last.identity);
    } else {
        assert(changed.drop_last() =~= head);
    }
}

/// A policy without fault stays without fault when exclusions of a root are removed: the
/// removal can be written.
pub proof fn removing_keeps_the_policy_sound(policy: PolicyView, path: WireView, keys: Seq<Seq<u8>>)
    requires
        clean_policy::policy_fault(policy) is None,
    ensures
        clean_policy::policy_fault(policy_edit::pruned(policy, path, keys).0) is None,
        policy_edit::checked(policy_edit::pruned(policy, path, keys).0) == Ok::<PolicyView, Fault>(
            policy_edit::pruned(policy, path, keys).0,
        ),
{
    if policy_edit::path_stored(policy.roots, path) {
        let at = policy_edit::first_path(policy.roots, path);
        lemma_first_path_is_stored(policy.roots, path);
        lemma_sound_root(policy.roots, at);
        lemma_without_keys_sound(policy.roots[at].entries, keys);
        lemma_fewer_entries_sound(
            policy.roots,
            at,
            policy_edit::without_keys(policy.roots[at].entries, keys),
        );
    }
}

/// A path outside the root, or one that is reached through a link, is never removed: the whole
/// removal is refused, as invalid input where it is the first request that is refused.
pub proof fn paths_outside_are_never_removed(requests: Seq<RemoveRequest>, root: Seq<u8>, i: int)
    requires
        0 <= i < requests.len(),
        path::is_absolute(requests[i].value@),
        !policy_edit::strictly_below(requests[i].value@, root) || requests[i].anchored == Ok::<
            AnchoredEntryState,
            Error,
        >(AnchoredEntryState::NeedsAttention),
    ensures
        policy_edit::removed_keys(requests, root) matches Err(fault) && (policy_edit::removed_keys(
            requests.take(i),
            root,
        ) is Ok ==> fault.0 == ErrorKind::InvalidInput),
{
    assert(requests.take(i + 1).drop_last() =~= requests.take(i));
    assert(requests.take(i + 1).last() == requests[i]);
    policy_edit::lemma_removed_prefix(requests, root, i + 1);
}

proof fn lemma_fewer_roots_sound(roots: Seq<RootView>, path: WireView)
    requires
        clean_policy::roots_fault(roots) is None,
    ensures
        clean_policy::roots_fault(policy_edit::without_path(roots, path)) is None,
        policy_edit::without_path(roots, path).len() <= roots.len(),
    decreases roots.len(),
{
    reveal(Seq::filter);
    if roots.len() > 0 {
        let keep = |root: RootView| root.path != path;
        let head = roots.drop_last();
        let kept = head.filter(keep);
        let last = roots.last();
        lemma_fewer_roots_sound(head, path);
        assert(policy_edit::without_path(head, path) == kept);
        if keep(last) {
            assert(kept.push(last).drop_last() =~= kept);
            let bytes = wire::absolute_of(last.path)->Ok_0;
            if clean_policy::path_seen(kept, bytes) {
                let i = choose|i: int|
                    0 <= i < kept.len() && wire::absolute_of((#[trigger] kept[i]).path) == Ok::<
                        Seq<u8>,
                        Seq<char>,
                    >(bytes);
                assert(kept.contains(kept[i]));
                head.lemma_filter_contains_rev(keep, kept[i]);
                let j = choose|j: int| 0 <= j < head.len() && head[j] == kept[i];
                assert(clean_policy::path_seen(head, bytes));
            }
            if clean_policy::identity_seen(kept, last.identity) {
                let i = choose|i: int|
                    0 <= i < kept.len() && (#[trigger] kept[i]).identity == last.identity;
                assert(kept.contains(kept[i]));
                head.lemma_filter_contains_rev(keep, kept[i]);
                let j = choose|j: int| 0 <= j < head.len() && head[j] == kept[i];
                assert(clean_policy::identity_seen(head, last.identity));
            }
        }
    }
}

/// A policy without fault stays without fault when a root is removed.
pub proof fn removing_a_root_keeps_the_policy_sound(policy: PolicyView, path: WireView)
    requires
        clean_policy::policy_fault(policy) is None,
    ensures
        ({
            let kept = policy_edit::without_path(policy.roots, path);
            clean_policy::policy_fault(PolicyView { roots: kept, ..policy }) is None
        }),
{
    lemma_fewer_roots_sound(policy.roots, path);
}

/// Removing the same exclusions again removes none and changes nothing.
pub proof fn removing_again_removes_nothing(
    policy: PolicyView,
    path: WireView,
    keys: Seq<Seq<u8>>,
)
    ensures
        ({
            let (changed, _) = policy_edit::pruned(policy, path, keys);
            policy_edit::pruned(changed, path, keys) == (changed, 0nat)
        }),
{
    let (changed, _) = policy_edit::pruned(policy, path, keys);
    if policy_edit::path_stored(policy.roots, path) {
        let at = policy_edit::first_path(policy.roots, path);
        lemma_first_path_is_stored(policy.roots, path);
        assert forall|i: int| 0 <= i < policy.roots.len() implies (
        #[trigger] policy.roots[i]).path == changed.roots[i].path by {}
        lemma_same_paths(policy.roots, changed.roots, path);
        let before = policy.roots[at].entries;
        let after = changed.roots[at].entries;
        let keep = |entry: EntryView| policy_edit::stays(entry, keys);
        assert(after == before.filter(keep));
        assert forall|i: int| 0 <= i < after.len() implies policy_edit::stays(
            #[trigger] after[i],
            keys,
        ) by {
            before.lemma_filter_pred(keep, i);
        }
        lemma_nothing_goes(after, keys);
        assert(changed.roots.update(at, RootView { entries: after, ..changed.roots[at] })
            =~= changed.roots);
    }
}

/// Removing the one key that an insertion brought gives back what there was.
proof fn lemma_inserted_removed(sorted: Seq<EntryView>, entry: EntryView, key: Seq<u8>)
    requires
        wire::relative_of(entry.path) == Ok::<Seq<u8>, Seq<char>>(key),
        forall|i: int|
            0 <= i < sorted.len() ==> clean_policy::key_of(#[trigger] sorted[i]) != key
                && policy_edit::stays(sorted[i], seq![key]),
    ensures
        policy_edit::inserted(sorted, entry).len() == sorted.len() + 1,
        policy_edit::without_keys(policy_edit::inserted(sorted, entry), seq![key]) == sorted,
    decreases sorted.len(),
{
    reveal(Seq::filter);
    let keep = |e: EntryView| policy_edit::stays(e, seq![key]);
    let result = policy_edit::inserted(sorted, entry);
    assert(seq![key].contains(seq![key][0]));
    assert(!keep(entry));
    if sorted.len() == 0 || text::bytes_less(clean_policy::key_of(sorted.last()), key) {
        assert(result.drop_last() =~= sorted);
        lemma_nothing_goes(sorted, seq![key]);
    } else {
        let head = sorted.drop_last();
        assert(sorted[sorted.len() - 1] == sorted.last());
        assert forall|i: int| 0 <= i < head.len() implies clean_policy::key_of(
            #[trigger] head[i],
        ) != key && policy_edit::stays(head[i], seq![key]) by {
            assert(head[i] == sorted[i]);
        }
        lemma_inserted_removed(head, entry, key);
        assert(result.drop_last() =~= policy_edit::inserted(head, entry));
        assert(head.push(sorted.last()) =~= sorted);
    }
}

/// Adding one new path and removing it again takes away one exclusion, and leaves the root with
/// the entries that it had, in the order of their keys; with those very entries where they were
/// in that order.
pub proof fn removing_undoes_adding(
    policy: PolicyView,
    root: ShownPath,
    identity: UnixIdentity,
    request: EntryRequest,
    now: Result<u64, Error>,
)
    requires
        policy_edit::added(policy, root, identity, seq![request], now) is Ok,
        !clean_policy::key_seen(
            entries_before(policy, identity),
            path::below(request.absolute@, root.bytes@),
        ),
    ensures
        ({
            let changed = policy_edit::added(policy, root, identity, seq![request], now)->Ok_0;
            let key = path::below(request.absolute@, root.bytes@);
            let (restored, count) = policy_edit::pruned(
                changed,
                wire::wire_of(root.bytes@, root.display@),
                seq![key],
            );
            let before = entries_before(policy, identity);
            let at = place_after(policy, identity);
            &&& count == 1
            &&& restored.roots == changed.roots.update(
                at,
                RootView { entries: policy_edit::normalized(before), ..changed.roots[at] },
            )
            &&& policy_edit::increasing(before) ==> restored.roots[at].entries == before
        }),
{
    let requests = seq![request];
    lemma_added(policy, root, identity, requests, now);
    let changed = policy_edit::added(policy, root, identity, requests, now)->Ok_0;
    let written = wire::wire_of(root.bytes@, root.display@);
    let key = path::below(request.absolute@, root.bytes@);
    let before = entries_before(policy, identity);
    let at = place_after(policy, identity);
    assert(requests.drop_last() =~= Seq::empty());
    assert(policy_edit::grown(before, root.bytes@, requests.drop_last()) == Ok::<
        Seq<EntryView>,
        Fault,
    >(before));
    let entry = recorded(request, root.bytes@);
    wire::relative_path_survives(key, request.relative_display@);
    let more = before.push(entry);
    assert(policy_edit::grown(before, root.bytes@, requests) == Ok::<Seq<EntryView>, Fault>(more));
    assert(more.drop_last() =~= before);
    let sorted = policy_edit::normalized(before);
    policy_edit::normalized_is_sorted_and_latest(before);
    assert forall|i: int| 0 <= i < sorted.len() implies clean_policy::key_of(
        #[trigger] sorted[i],
    ) != key && policy_edit::stays(sorted[i], seq![key]) by {
        assert(sorted.contains(sorted[i]));
        let j = choose|j: int|
            #[trigger] policy_edit::is_latest(before, j) && before[j] == sorted[i];
        lemma_readable(before, j);
    }
    lemma_inserted_removed(sorted, entry, key);
    lemma_sound_paths(changed.roots, written, at);
    if policy_edit::increasing(before) {
        policy_edit::lemma_normalized_fixed(before);
    }
}

} // verus!
