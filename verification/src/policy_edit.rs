//! Changes to the clean policy: adding and removing exclusions.

use crate::clean_policy;
use crate::clean_policy::{
    EntryKind, EntryRecord, EntryView, PolicyFile, PolicyView, RootRecord, RootView, UnixEntryIdentity,
    UnixIdentity,
};
use crate::error::{Error, ErrorKind};
use crate::lifecycle;
use crate::model::Host;
use crate::path;
use crate::policy_laws;
use crate::recover::Fault;
use crate::text;
use crate::wire;
use crate::wire::{NativeWirePath, ShownPath, WireView};
use vstd::prelude::*;
use vstd::string::*;

verus! {

/// What is found at a path below a root, without following links.
#[derive(Clone, Copy, Debug, PartialEq, Eq, Structural)]
pub struct AnchoredEntryObservation {
    pub device: u64,
    pub inode: u64,
    pub nlink: u64,
    pub kind: EntryKind,
}

/// Whether there is a plain file or directory at a path below a root.
#[derive(Clone, Copy, Debug, PartialEq, Eq, Structural)]
pub enum AnchoredEntryState {
    Present(AnchoredEntryObservation),
    Missing,
    NeedsAttention,
}

/// The refusal on a system other than macOS.
pub open spec fn unsupported_text() -> Seq<char> {
    "native clean policy is currently macOS-only"@
}

pub fn unsupported() -> (error: Error)
    ensures
        error.says(ErrorKind::Unsupported, unsupported_text()),
{
    Error::new(ErrorKind::Unsupported, "native clean policy is currently macOS-only")
}

/// The entries with one more: sorted by key, where a later entry replaces an earlier one
/// with the same key.
pub open spec fn inserted(sorted: Seq<EntryView>, entry: EntryView) -> Seq<EntryView>
    decreases sorted.len(),
{
    let key = clean_policy::key_of(entry);
    if sorted.len() == 0 || text::bytes_less(clean_policy::key_of(sorted.last()), key) {
        sorted.push(entry)
    } else if clean_policy::key_of(sorted.last()) == key {
        sorted.drop_last().push(entry)
    } else {
        inserted(sorted.drop_last(), entry).push(sorted.last())
    }
}

/// The entries sorted by key, the last of each key kept.
pub open spec fn normalized(entries: Seq<EntryView>) -> Seq<EntryView>
    decreases entries.len(),
{
    if entries.len() == 0 {
        Seq::empty()
    } else {
        inserted(normalized(entries.drop_last()), entries.last())
    }
}

/// The first entry whose key cannot be read.
pub open spec fn unreadable(entries: Seq<EntryView>) -> Option<Seq<char>>
    decreases entries.len(),
{
    if entries.len() == 0 {
        None
    } else if unreadable(entries.drop_last()) is Some {
        unreadable(entries.drop_last())
    } else {
        match wire::relative_of(entries.last().path) {
            Err(message) => Some(message),
            Ok(_) => None,
        }
    }
}

/// Whether keys strictly increase.
pub open spec fn increasing(entries: Seq<EntryView>) -> bool {
    forall|i: int, j: int|
        0 <= i < j < entries.len() ==> text::bytes_less(
            clean_policy::key_of(#[trigger] entries[i]),
            clean_policy::key_of(#[trigger] entries[j]),
        )
}

proof fn lemma_inserted(sorted: Seq<EntryView>, entry: EntryView)
    requires
        increasing(sorted),
    ensures
        increasing(inserted(sorted, entry)),
        forall|e: EntryView|
            inserted(sorted, entry).contains(e) <==> e == entry || (sorted.contains(e)
                && clean_policy::key_of(e) != clean_policy::key_of(entry)),
    decreases sorted.len(),
{
    let key = clean_policy::key_of(entry);
    let result = inserted(sorted, entry);
    if sorted.len() == 0 {
        assert(result =~= seq![entry]);
        assert(result[0] == entry);
    } else {
        let last = sorted.last();
        let head = sorted.drop_last();
        let last_key = clean_policy::key_of(last);
        assert(sorted =~= head.push(last));
        assert(sorted[sorted.len() - 1] == last);
        assert forall|i: int| 0 <= i < head.len() implies text::bytes_less(
            clean_policy::key_of(#[trigger] head[i]),
            last_key,
        ) by {
            assert(sorted[i] == head[i]);
        }
        assert forall|i: int, j: int| 0 <= i < j < head.len() implies text::bytes_less(
            clean_policy::key_of(#[trigger] head[i]),
            clean_policy::key_of(#[trigger] head[j]),
        ) by {
            assert(sorted[i] == head[i] && sorted[j] == head[j]);
        }
        if text::bytes_less(last_key, key) {
            assert forall|i: int| 0 <= i < sorted.len() implies text::bytes_less(
                clean_policy::key_of(#[trigger] sorted[i]),
                key,
            ) by {
                if i < head.len() {
                    assert(sorted[i] == head[i]);
                    text::lemma_bytes_less_transitive(
                        clean_policy::key_of(sorted[i]),
                        last_key,
                        key,
                    );
                }
            }
            assert forall|e: EntryView| result.contains(e) <==> e == entry || (sorted.contains(e)
                && clean_policy::key_of(e) != key) by {
                if sorted.contains(e) {
                    let i = choose|i: int| 0 <= i < sorted.len() && sorted[i] == e;
                    assert(result[i] == e);
                    text::lemma_bytes_less_irreflexive(key);
                }
                assert(result[sorted.len() as int] == entry);
                if result.contains(e) {
                    let i = choose|i: int| 0 <= i < result.len() && result[i] == e;
                    if i < sorted.len() {
                        assert(sorted[i] == e);
                        text::lemma_bytes_less_irreflexive(key);
                    }
                }
            }
        } else if last_key == key {
            assert(result =~= head.push(entry));
            assert forall|e: EntryView| result.contains(e) <==> e == entry || (sorted.contains(e)
                && clean_policy::key_of(e) != key) by {
                assert(result[head.len() as int] == entry);
                if sorted.contains(e) && clean_policy::key_of(e) != key {
                    let i = choose|i: int| 0 <= i < sorted.len() && sorted[i] == e;
                    assert(i < head.len());
                    assert(result[i] == e);
                }
                if result.contains(e) {
                    let i = choose|i: int| 0 <= i < result.len() && result[i] == e;
                    if i < head.len() {
                        assert(sorted[i] == e);
                        text::lemma_bytes_less_irreflexive(key);
                    }
                }
            }
        } else {
            text::lemma_bytes_less_total(last_key, key);
            lemma_inserted(head, entry);
            let inner = inserted(head, entry);
            assert(result =~= inner.push(last));
            assert forall|i: int| 0 <= i < inner.len() implies text::bytes_less(
                clean_policy::key_of(#[trigger] inner[i]),
                last_key,
            ) by {
                assert(inner.contains(inner[i]));
                if inner[i] != entry {
                    let j = choose|j: int| 0 <= j < head.len() && head[j] == inner[i];
                    assert(text::bytes_less(clean_policy::key_of(head[j]), last_key));
                }
            }
            assert forall|e: EntryView| result.contains(e) <==> e == entry || (sorted.contains(e)
                && clean_policy::key_of(e) != key) by {
                assert(result[inner.len() as int] == last);
                if e == entry || (head.contains(e) && clean_policy::key_of(e) != key) {
                    assert(inner.contains(e));
                    let i = choose|i: int| 0 <= i < inner.len() && inner[i] == e;
                    assert(result[i] == e);
                }
                if sorted.contains(e) && clean_policy::key_of(e) != key {
                    let i = choose|i: int| 0 <= i < sorted.len() && sorted[i] == e;
                    if i < head.len() {
                        assert(head[i] == e);
                        assert(head.contains(e));
                    }
                }
                if result.contains(e) {
                    let i = choose|i: int| 0 <= i < result.len() && result[i] == e;
                    if i < inner.len() {
                        assert(inner[i] == e);
                        assert(inner.contains(e));
                        if e != entry {
                            let j = choose|j: int| 0 <= j < head.len() && head[j] == e;
                            assert(sorted[j] == e);
                        }
                    } else {
                        assert(sorted.contains(last));
                    }
                }
            }
        }
    }
}

/// Whether position `j` holds the last entry of its key.
pub open spec fn is_latest(entries: Seq<EntryView>, j: int) -> bool {
    &&& 0 <= j < entries.len()
    &&& forall|k: int|
        j < k < entries.len() ==> clean_policy::key_of(#[trigger] entries[k])
            != clean_policy::key_of(entries[j])
}

/// Normalized entries are sorted by key without repetition, and hold exactly the last entry
/// of each key.
pub proof fn normalized_is_sorted_and_latest(entries: Seq<EntryView>)
    ensures
        increasing(normalized(entries)),
        forall|e: EntryView|
            normalized(entries).contains(e) <==> exists|j: int|
                #[trigger] is_latest(entries, j) && entries[j] == e,
    decreases entries.len(),
{
    if entries.len() == 0 {
        assert(normalized(entries) =~= Seq::empty());
    } else {
        let head = entries.drop_last();
        let last = entries.last();
        let n = head.len() as int;
        normalized_is_sorted_and_latest(head);
        lemma_inserted(normalized(head), last);
        let result = normalized(entries);
        assert forall|e: EntryView| result.contains(e) <==> exists|j: int|
            #[trigger] is_latest(entries, j) && entries[j] == e by {
            if result.contains(e) {
                if e == last {
                    assert(is_latest(entries, n));
                } else {
                    let j = choose|j: int| #[trigger] is_latest(head, j) && head[j] == e;
                    assert forall|k: int| j < k < entries.len() implies clean_policy::key_of(
                        #[trigger] entries[k],
                    ) != clean_policy::key_of(entries[j]) by {
                        if k < n {
                            assert(head[k] == entries[k]);
                        }
                    }
                    assert(is_latest(entries, j));
                }
            }
            if exists|j: int| #[trigger] is_latest(entries, j) && entries[j] == e {
                let j = choose|j: int| #[trigger] is_latest(entries, j) && entries[j] == e;
                if j < n {
                    assert forall|k: int| j < k < head.len() implies clean_policy::key_of(
                        #[trigger] head[k],
                    ) != clean_policy::key_of(head[j]) by {
                        assert(head[k] == entries[k]);
                    }
                    assert(is_latest(head, j));
                    assert(head[j] == e);
                    assert(entries[n] == last);
                    assert(clean_policy::key_of(e) != clean_policy::key_of(last));
                }
            }
        }
    }
}

/// Normalizing twice changes nothing more.
pub proof fn normalizing_is_idempotent(entries: Seq<EntryView>)
    ensures
        normalized(normalized(entries)) == normalized(entries),
{
    normalized_is_sorted_and_latest(entries);
    lemma_normalized_fixed(normalized(entries));
}

pub proof fn lemma_normalized_fixed(entries: Seq<EntryView>)
    requires
        increasing(entries),
    ensures
        normalized(entries) == entries,
    decreases entries.len(),
{
    if entries.len() == 0 {
        assert(normalized(entries) =~= entries);
    } else {
        let head = entries.drop_last();
        assert forall|i: int, j: int| 0 <= i < j < head.len() implies text::bytes_less(
            clean_policy::key_of(#[trigger] head[i]),
            clean_policy::key_of(#[trigger] head[j]),
        ) by {
            assert(entries[i] == head[i] && entries[j] == head[j]);
        }
        lemma_normalized_fixed(head);
        if head.len() > 0 {
            assert(entries[head.len() - 1] == head.last());
            assert(entries[head.len() as int] == entries.last());
        }
        assert(head.push(entries.last()) =~= entries);
    }
}

fn insert_entry(keys: &mut Vec<Vec<u8>>, sorted: &mut Vec<EntryRecord>, key: Vec<u8>, entry: EntryRecord)
    requires
        old(keys)@.len() == old(sorted)@.len(),
        forall|i: int|
            0 <= i < old(keys)@.len() ==> (#[trigger] old(keys)@[i])@ == clean_policy::key_of(
                old(sorted)@[i]@,
            ),
        key@ == clean_policy::key_of(entry@),
    ensures
        final(keys)@.len() == final(sorted)@.len(),
        forall|i: int|
            0 <= i < final(keys)@.len() ==> (#[trigger] final(keys)@[i])@ == clean_policy::key_of(
                final(sorted)@[i]@,
            ),
        clean_policy::entry_views(final(sorted)@) == inserted(
            clean_policy::entry_views(old(sorted)@),
            entry@,
        ),
{
    let ghost before = clean_policy::entry_views(sorted@);
    let mut at: usize = sorted.len();
    assert(before.take(before.len() as int) =~= before);
    assert(before.skip(before.len() as int) =~= Seq::empty());
    assert(inserted(before, entry@) + Seq::<EntryView>::empty() =~= inserted(before, entry@));
    while at > 0 && text::bytes_before(key.as_slice(), keys[at - 1].as_slice())
        invariant
            before == clean_policy::entry_views(sorted@),
            keys@.len() == sorted@.len(),
            at <= sorted@.len(),
            forall|i: int|
                0 <= i < keys@.len() ==> (#[trigger] keys@[i])@ == clean_policy::key_of(
                    sorted@[i]@,
                ),
            key@ == clean_policy::key_of(entry@),
            inserted(before, entry@) == inserted(before.take(at as int), entry@) + before.skip(
                at as int,
            ),
        decreases at,
    {
        proof {
            let head = before.take(at as int);
            let last_key = clean_policy::key_of(head.last());
            assert(head.last() == sorted@[at - 1]@);
            assert(keys@[at - 1]@ == last_key);
            if text::bytes_less(last_key, key@) {
                text::lemma_bytes_less_transitive(key@, last_key, key@);
            }
            text::lemma_bytes_less_irreflexive(key@);
            assert(head.drop_last() =~= before.take(at - 1));
            assert(inserted(head, entry@) == inserted(head.drop_last(), entry@).push(head.last()));
            assert(inserted(head.drop_last(), entry@).push(head.last()) + before.skip(at as int)
                =~= inserted(before.take(at - 1), entry@) + before.skip(at - 1));
        }
        at -= 1;
    }
    let ghost head = before.take(at as int);
    let replaces: bool = at > 0 && text::bytes_eq(key.as_slice(), keys[at - 1].as_slice());
    proof {
        if at > 0 {
            assert(head.last() == sorted@[at - 1]@);
            assert(keys@[at - 1]@ == clean_policy::key_of(head.last()));
            text::lemma_bytes_less_irreflexive(key@);
            if !replaces {
                text::lemma_bytes_less_total(key@, keys@[at - 1]@);
            }
        }
    }
    let ghost start = sorted@;
    let ghost added = entry@;
    if replaces {
        sorted.set(at - 1, entry);
        assert(clean_policy::entry_views(sorted@) =~= head.drop_last().push(added) + before.skip(
            at as int,
        ));
    } else {
        sorted.insert(at, entry);
        keys.insert(at, key);
        assert(clean_policy::entry_views(sorted@) =~= head.push(added) + before.skip(at as int));
    }
}

proof fn lemma_unreadable_prefix(entries: Seq<EntryView>, n: int)
    requires
        0 <= n <= entries.len(),
        unreadable(entries.take(n)) is Some,
    ensures
        unreadable(entries) == unreadable(entries.take(n)),
    decreases entries.len() - n,
{
    if n < entries.len() {
        assert(entries.take(n + 1).drop_last() =~= entries.take(n));
        lemma_unreadable_prefix(entries, n + 1);
    } else {
        assert(entries.take(n) =~= entries);
    }
}

/// Sorts the entries of a root by key, keeping the last of each.
pub fn normalize_entries(entries: Vec<EntryRecord>) -> (result: Result<Vec<EntryRecord>, Error>)
    ensures
        match result {
            Ok(sorted) => {
                &&& unreadable(clean_policy::entry_views(entries@)) is None
                &&& clean_policy::entry_views(sorted@) == normalized(
                    clean_policy::entry_views(entries@),
                )
            },
            Err(error) => error.kind == ErrorKind::InvalidData && unreadable(
                clean_policy::entry_views(entries@),
            ) == Some(error.message@),
        },
{
    let ghost all = clean_policy::entry_views(entries@);
    let mut rest = entries;
    let mut keys: Vec<Vec<u8>> = Vec::new();
    let mut sorted: Vec<EntryRecord> = Vec::new();
    let ghost mut done: int = 0;
    assert(all.take(0) =~= Seq::empty());
    assert(clean_policy::entry_views(sorted@) =~= Seq::empty());
    while rest.len() > 0
        invariant
            all == clean_policy::entry_views(entries@),
            0 <= done,
            done + rest@.len() == all.len(),
            forall|j: int| 0 <= j < rest@.len() ==> (#[trigger] rest@[j])@ == all[done + j],
            unreadable(all.take(done)) is None,
            keys@.len() == sorted@.len(),
            forall|i: int|
                0 <= i < keys@.len() ==> (#[trigger] keys@[i])@ == clean_policy::key_of(
                    sorted@[i]@,
                ),
            clean_policy::entry_views(sorted@) == normalized(all.take(done)),
        decreases rest@.len(),
    {
        let entry = rest.remove(0);
        proof {
            assert(entry@ == all[done]);
            assert(all.take(done + 1).drop_last() =~= all.take(done));
            assert(all.take(done + 1).last() == all[done]);
            if unreadable(all.take(done + 1)) is Some {
                lemma_unreadable_prefix(all, done + 1);
            }
        }
        let key: Vec<u8> = match wire::decode_relative_bytes(&entry.literal_relative_path) {
            Ok(key) => key,
            Err(error) => {
                return Err(error);
            },
        };
        insert_entry(&mut keys, &mut sorted, key, entry);
        proof {
            done = done + 1;
        }
    }
    assert(all.take(all.len() as int) =~= all);
    Ok(sorted)
}


/// How many roots have an identity.
pub open spec fn identity_count(roots: Seq<RootView>, identity: UnixIdentity) -> nat
    decreases roots.len(),
{
    if roots.len() == 0 {
        0
    } else {
        identity_count(roots.drop_last(), identity) + (if roots.last().identity == identity {
            1nat
        } else {
            0nat
        })
    }
}

/// The first root with an identity.
pub open spec fn first_identity(roots: Seq<RootView>, identity: UnixIdentity) -> int
    decreases roots.len(),
{
    if roots.len() == 0 {
        0
    } else if identity_count(roots.drop_last(), identity) > 0 {
        first_identity(roots.drop_last(), identity)
    } else {
        roots.len() - 1
    }
}

/// Whether some root is stored under a path.
pub open spec fn path_stored(roots: Seq<RootView>, path: WireView) -> bool {
    exists|i: int| 0 <= i < roots.len() && (#[trigger] roots[i]).path == path
}

pub fn count_identity(roots: &Vec<RootRecord>, identity: UnixIdentity) -> (found: (usize, usize))
    ensures
        found.0 == identity_count(clean_policy::root_views(roots@), identity),
        found.0 > 0 ==> found.1 == first_identity(clean_policy::root_views(roots@), identity)
            && found.1 < roots@.len(),
{
    let ghost all = clean_policy::root_views(roots@);
    let mut count: usize = 0;
    let mut first: usize = 0;
    let mut i: usize = 0;
    assert(all.take(0) =~= Seq::empty());
    while i < roots.len()
        invariant
            0 <= i <= roots@.len(),
            all == clean_policy::root_views(roots@),
            count <= i,
            count == identity_count(all.take(i as int), identity),
            count > 0 ==> first == first_identity(all.take(i as int), identity) && first < i,
        decreases roots@.len() - i,
    {
        assert(all.take(i + 1).drop_last() =~= all.take(i as int));
        assert(all.take(i + 1).last() == roots@[i as int]@);
        if roots[i].root_identity == identity {
            if count == 0 {
                first = i;
            }
            count += 1;
        }
        i += 1;
    }
    assert(all.take(all.len() as int) =~= all);
    (count, first)
}

pub fn find_path(roots: &Vec<RootRecord>, path: &NativeWirePath) -> (found: Option<usize>)
    ensures
        match found {
            Some(i) => i < roots@.len() && clean_policy::root_views(roots@)[i as int].path == path@
                && forall|j: int|
                0 <= j < i ==> (#[trigger] clean_policy::root_views(roots@)[j]).path != path@,
            None => !path_stored(clean_policy::root_views(roots@), path@),
        },
        found is Some == path_stored(clean_policy::root_views(roots@), path@),
{
    let ghost all = clean_policy::root_views(roots@);
    let mut i: usize = 0;
    while i < roots.len()
        invariant
            0 <= i <= roots@.len(),
            all == clean_policy::root_views(roots@),
            forall|j: int| 0 <= j < i ==> (#[trigger] all[j]).path != path@,
        decreases roots@.len() - i,
    {
        if roots[i].root_path.same(path) {
            assert(all[i as int].path == path@);
            return Some(i);
        }
        assert(all[i as int].path != path@);
        i += 1;
    }
    None
}

/// The roots with a record for the given one, and where it stands.
pub open spec fn ensured(
    roots: Seq<RootView>,
    path: WireView,
    identity: UnixIdentity,
    now: Result<u64, Error>,
) -> Result<(Seq<RootView>, int), Fault> {
    if identity_count(roots, identity) > 1 {
        Err((ErrorKind::InvalidData, "ambiguous root records for same identity"@))
    } else if identity_count(roots, identity) == 1 {
        let at = first_identity(roots, identity);
        Ok((roots.update(at, RootView { path, ..roots[at] }), at))
    } else if path_stored(roots, path) {
        Err((ErrorKind::PermissionDenied, "stored root path exists with different identity"@))
    } else {
        match now {
            Err(error) => Err(lifecycle::fault_of(error)),
            Ok(created) => Ok(
                (
                    roots.push(RootView { path, identity, created, entries: Seq::empty() }),
                    roots.len() as int,
                ),
            ),
        }
    }
}

fn ensure_root_record(
    roots: Vec<RootRecord>,
    path: NativeWirePath,
    identity: UnixIdentity,
    now: &Result<u64, Error>,
) -> (result: Result<(Vec<RootRecord>, usize), Error>)
    ensures
        match result {
            Ok((kept, at)) => {
                &&& at < kept@.len()
                &&& ensured(clean_policy::root_views(roots@), path@, identity, *now) == Ok::<
                    (Seq<RootView>, int),
                    Fault,
                >((clean_policy::root_views(kept@), at as int))
            },
            Err(error) => ensured(clean_policy::root_views(roots@), path@, identity, *now) == Err::<
                (Seq<RootView>, int),
                Fault,
            >(lifecycle::fault_of(error)),
        },
{
    let ghost before = clean_policy::root_views(roots@);
    let mut kept = roots;
    let (count, first): (usize, usize) = count_identity(&kept, identity);
    if count > 1 {
        return Err(
            Error::new(ErrorKind::InvalidData, "ambiguous root records for same identity"),
        );
    }
    if count == 1 {
        let ghost stored = path@;
        kept[first].root_path = path;
        assert(clean_policy::root_views(kept@) =~= before.update(
            first as int,
            RootView { path: stored, ..before[first as int] },
        ));
        return Ok((kept, first));
    }
    if find_path(&kept, &path).is_some() {
        return Err(
            Error::new(
                ErrorKind::PermissionDenied,
                "stored root path exists with different identity",
            ),
        );
    }
    let created: u64 = match now {
        Ok(created) => *created,
        Err(error) => {
            return Err(lifecycle::pass_on(error));
        },
    };
    let at: usize = kept.len();
    let ghost stored = path@;
    kept.push(
        RootRecord {
            root_path: path,
            root_identity: identity,
            created_unix_ms: created,
            entries: Vec::new(),
        },
    );
    proof {
        assert(kept@[at as int]@.entries =~= Seq::empty());
        assert(clean_policy::root_views(kept@) =~= before.push(
            RootView { path: stored, identity, created, entries: Seq::empty() },
        ));
    }
    Ok((kept, at))
}

/// A path that the user asks to exclude, with what was observed of it.
#[derive(Debug)]
pub struct EntryRequest {
    pub absolute: Vec<u8>,
    /// How the path below the root is shown.
    pub relative_display: String,
    pub anchored: Result<AnchoredEntryState, Error>,
    pub anchored_again: Result<AnchoredEntryState, Error>,
    pub now: Result<u64, Error>,
}

/// Whether a path lies strictly below a root, without climbing.
pub open spec fn strictly_below(absolute: Seq<u8>, root: Seq<u8>) -> bool {
    &&& !path::has_piece(absolute, seq![path::DOT, path::DOT])
    &&& path::is_within(absolute, root)
    &&& !path::is_within(root, absolute)
}

/// The identity under which a requested path is excluded.
pub open spec fn admitted(request: EntryRequest, root: Seq<u8>) -> Result<
    UnixEntryIdentity,
    Fault,
> {
    if !strictly_below(request.absolute@, root) {
        Err((ErrorKind::InvalidInput, "entry must be an existing path within root"@))
    } else {
        match request.anchored {
            Err(error) => Err(lifecycle::fault_of(error)),
            Ok(AnchoredEntryState::Present(_)) => match request.anchored_again {
                Err(error) => Err(lifecycle::fault_of(error)),
                Ok(AnchoredEntryState::Present(found)) => if found.kind == EntryKind::File
                    && found.nlink != 1 {
                    Err((ErrorKind::InvalidInput, "hardlink ambiguity is not supported"@))
                } else {
                    Ok(
                        UnixEntryIdentity {
                            device: found.device,
                            inode: found.inode,
                            kind: found.kind,
                        },
                    )
                },
                Ok(_) => Err(
                    (
                        ErrorKind::InvalidInput,
                        "entry must be an existing physical path within root"@,
                    ),
                ),
            },
            Ok(_) => Err((ErrorKind::InvalidInput, "entry must be an existing path within root"@)),
        }
    }
}

/// Whether an absolute path lies strictly below a root, without climbing.
pub fn is_strictly_below(absolute: &[u8], root: &[u8]) -> (below: bool)
    ensures
        below == strictly_below(absolute@, root@),
{
    let dots: [u8; 2] = [path::DOT, path::DOT];
    assert(dots@ =~= seq![path::DOT, path::DOT]);
    !path::contains_piece(absolute, &dots) && path::within(absolute, root) && !path::within(
        root,
        absolute,
    )
}

fn take_in(request: &EntryRequest, root: &[u8]) -> (result: Result<UnixEntryIdentity, Error>)
    ensures
        match result {
            Ok(identity) => admitted(*request, root@) == Ok::<UnixEntryIdentity, Fault>(identity)
                && strictly_below(request.absolute@, root@),
            Err(error) => admitted(*request, root@) == Err::<UnixEntryIdentity, Fault>(
                lifecycle::fault_of(error),
            ),
        },
{
    if !is_strictly_below(request.absolute.as_slice(), root) {
        return Err(
            Error::new(ErrorKind::InvalidInput, "entry must be an existing path within root"),
        );
    }
    match &request.anchored {
        Err(error) => {
            return Err(lifecycle::pass_on(error));
        },
        Ok(AnchoredEntryState::Present(_)) => {},
        Ok(_) => {
            return Err(
                Error::new(ErrorKind::InvalidInput, "entry must be an existing path within root"),
            );
        },
    }
    match &request.anchored_again {
        Err(error) => Err(lifecycle::pass_on(error)),
        Ok(AnchoredEntryState::Present(found)) => if found.kind == EntryKind::File && found.nlink
            != 1 {
            Err(Error::new(ErrorKind::InvalidInput, "hardlink ambiguity is not supported"))
        } else {
            Ok(
                UnixEntryIdentity {
                    device: found.device,
                    inode: found.inode,
                    kind: found.kind,
                },
            )
        },
        Ok(_) => Err(
            Error::new(
                ErrorKind::InvalidInput,
                "entry must be an existing physical path within root",
            ),
        ),
    }
}

/// The entries after one request: a path that is already excluded changes nothing.
pub open spec fn grown_by(entries: Seq<EntryView>, root: Seq<u8>, request: EntryRequest) -> Result<
    Seq<EntryView>,
    Fault,
> {
    let relative = path::below(request.absolute@, root);
    match admitted(request, root) {
        Err(fault) => Err(fault),
        Ok(identity) => if clean_policy::key_seen(entries, relative) {
            Ok(entries)
        } else if wire::relative_fault(relative) is Some {
            Err((ErrorKind::InvalidInput, wire::relative_fault(relative)->0))
        } else {
            match request.now {
                Err(error) => Err(lifecycle::fault_of(error)),
                Ok(created) => Ok(
                    entries.push(
                        EntryView {
                            path: wire::wire_of(relative, request.relative_display@),
                            identity,
                            created,
                        },
                    ),
                ),
            }
        },
    }
}

/// The entries after all requests, in order.
pub open spec fn grown(entries: Seq<EntryView>, root: Seq<u8>, requests: Seq<EntryRequest>) -> Result<
    Seq<EntryView>,
    Fault,
>
    decreases requests.len(),
{
    if requests.len() == 0 {
        Ok(entries)
    } else {
        match grown(entries, root, requests.drop_last()) {
            Err(fault) => Err(fault),
            Ok(more) => grown_by(more, root, requests.last()),
        }
    }
}

/// The policy with the requested exclusions, or why it stays as it is.
pub open spec fn added(
    policy: PolicyView,
    root: ShownPath,
    identity: UnixIdentity,
    requests: Seq<EntryRequest>,
    now: Result<u64, Error>,
) -> Result<PolicyView, Fault> {
    if !path::is_absolute(root.bytes@) {
        Err((ErrorKind::InvalidInput, "path must be absolute"@))
    } else {
        match ensured(
            policy.roots,
            wire::wire_of(root.bytes@, root.display@),
            identity,
            now,
        ) {
            Err(fault) => Err(fault),
            Ok((roots, at)) => if unreadable(roots[at].entries) is Some {
                Err((ErrorKind::InvalidData, unreadable(roots[at].entries)->0))
            } else {
                match grown(roots[at].entries, root.bytes@, requests) {
                    Err(fault) => Err(fault),
                    Ok(entries) => checked(
                        PolicyView {
                            roots: roots.update(
                                at,
                                RootView { entries: normalized(entries), ..roots[at] },
                            ),
                            ..policy
                        },
                    ),
                }
            },
        }
    }
}

/// A policy that may be written, or its fault.
pub open spec fn checked(policy: PolicyView) -> Result<PolicyView, Fault> {
    match clean_policy::policy_fault(policy) {
        Some(message) => Err((ErrorKind::InvalidData, message)),
        None => Ok(policy),
    }
}

/// Whether a change came out as stated.
pub open spec fn comes_to(result: Result<PolicyFile, Error>, expected: Result<PolicyView, Fault>) -> bool {
    match result {
        Ok(policy) => expected == Ok::<PolicyView, Fault>(policy@),
        Err(error) => expected == Err::<PolicyView, Fault>(lifecycle::fault_of(error)),
    }
}

/// The keys of entries that can be read.
fn read_keys(entries: &Vec<EntryRecord>) -> (result: Result<Vec<Vec<u8>>, Error>)
    ensures
        match result {
            Ok(keys) => {
                &&& unreadable(clean_policy::entry_views(entries@)) is None
                &&& keys_match(clean_policy::entry_views(entries@), path::views(keys@))
            },
            Err(error) => error.kind == ErrorKind::InvalidData && unreadable(
                clean_policy::entry_views(entries@),
            ) == Some(error.message@),
        },
{
    let ghost all = clean_policy::entry_views(entries@);
    let mut keys: Vec<Vec<u8>> = Vec::new();
    let mut i: usize = 0;
    assert(all.take(0) =~= Seq::empty());
    while i < entries.len()
        invariant
            0 <= i <= entries@.len(),
            all == clean_policy::entry_views(entries@),
            unreadable(all.take(i as int)) is None,
            keys_match(all.take(i as int), path::views(keys@)),
        decreases entries@.len() - i,
    {
        proof {
            assert(all.take(i + 1).drop_last() =~= all.take(i as int));
            assert(all.take(i + 1).last() == entries@[i as int]@);
            if unreadable(all.take(i + 1)) is Some {
                lemma_unreadable_prefix(all, i + 1);
            }
        }
        let key: Vec<u8> = match wire::decode_relative_bytes(&entries[i].literal_relative_path) {
            Ok(key) => key,
            Err(error) => {
                return Err(error);
            },
        };
        let ghost before = path::views(keys@);
        let ghost read = key@;
        keys.push(key);
        assert(path::views(keys@) =~= before.push(read));
        assert(all.take(i + 1) =~= all.take(i as int).push(all[i as int]));
        i += 1;
    }
    assert(all.take(all.len() as int) =~= all);
    Ok(keys)
}

/// Whether `keys` are the keys of `entries`.
spec fn keys_match(entries: Seq<EntryView>, keys: Seq<Seq<u8>>) -> bool {
    &&& keys.len() == entries.len()
    &&& forall|i: int|
        0 <= i < entries.len() ==> wire::relative_of((#[trigger] entries[i]).path) == Ok::<
            Seq<u8>,
            Seq<char>,
        >(keys[i])
}

proof fn lemma_keys_seen(entries: Seq<EntryView>, keys: Seq<Seq<u8>>, key: Seq<u8>)
    requires
        keys_match(entries, keys),
    ensures
        keys.contains(key) == clean_policy::key_seen(entries, key),
{
    if keys.contains(key) {
        let i = choose|i: int| 0 <= i < keys.len() && keys[i] == key;
        assert(wire::relative_of(entries[i].path) == Ok::<Seq<u8>, Seq<char>>(key));
    }
    if clean_policy::key_seen(entries, key) {
        let i = choose|i: int|
            0 <= i < entries.len() && wire::relative_of((#[trigger] entries[i]).path) == Ok::<
                Seq<u8>,
                Seq<char>,
            >(key);
        assert(keys[i] == key);
    }
}

proof fn lemma_grown_prefix(entries: Seq<EntryView>, root: Seq<u8>, requests: Seq<EntryRequest>, n: int)
    requires
        0 <= n <= requests.len(),
        grown(entries, root, requests.take(n)) is Err,
    ensures
        grown(entries, root, requests) == grown(entries, root, requests.take(n)),
    decreases requests.len() - n,
{
    if n < requests.len() {
        assert(requests.take(n + 1).drop_last() =~= requests.take(n));
        lemma_grown_prefix(entries, root, requests, n + 1);
    } else {
        assert(requests.take(n) =~= requests);
    }
}

fn grow(entries: Vec<EntryRecord>, root: &[u8], requests: &Vec<EntryRequest>) -> (result: Result<
    Vec<EntryRecord>,
    Error,
>)
    ensures
        ({
            let all = clean_policy::entry_views(entries@);
            match result {
                Ok(more) => unreadable(all) is None && grown(all, root@, requests@) == Ok::<
                    Seq<EntryView>,
                    Fault,
                >(clean_policy::entry_views(more@)),
                Err(error) => if unreadable(all) is Some {
                    error.kind == ErrorKind::InvalidData && unreadable(all) == Some(error.message@)
                } else {
                    grown(all, root@, requests@) == Err::<Seq<EntryView>, Fault>(
                        lifecycle::fault_of(error),
                    )
                },
            }
        }),
{
    let ghost all = clean_policy::entry_views(entries@);
    let mut more = entries;
    let mut keys: Vec<Vec<u8>> = match read_keys(&more) {
        Ok(keys) => keys,
        Err(error) => {
            return Err(error);
        },
    };
    let mut i: usize = 0;
    assert(requests@.take(0) =~= Seq::empty());
    while i < requests.len()
        invariant
            0 <= i <= requests@.len(),
            all == clean_policy::entry_views(entries@),
            unreadable(all) is None,
            grown(all, root@, requests@.take(i as int)) == Ok::<Seq<EntryView>, Fault>(
                clean_policy::entry_views(more@),
            ),
            keys_match(clean_policy::entry_views(more@), path::views(keys@)),
        decreases requests@.len() - i,
    {
        let request = &requests[i];
        let ghost now = clean_policy::entry_views(more@);
        proof {
            assert(requests@.take(i + 1).drop_last() =~= requests@.take(i as int));
            assert(requests@.take(i + 1).last() == *request);
            if grown(all, root@, requests@.take(i + 1)) is Err {
                lemma_grown_prefix(all, root@, requests@, i + 1);
            }
        }
        let identity: UnixEntryIdentity = match take_in(request, root) {
            Ok(identity) => identity,
            Err(error) => {
                return Err(error);
            },
        };
        let relative = path::relative_to(request.absolute.as_slice(), root);
        proof {
            lemma_keys_seen(now, path::views(keys@), relative@);
        }
        if !clean_policy::holds_key(&keys, &relative) {
            let shown = ShownPath {
                bytes: text::copy_bytes(relative.as_slice()),
                display: request.relative_display.clone(),
            };
            let literal: NativeWirePath = match wire::encode_relative(&shown) {
                Ok(literal) => literal,
                Err(error) => {
                    return Err(error);
                },
            };
            let created: u64 = match &request.now {
                Ok(created) => *created,
                Err(error) => {
                    return Err(lifecycle::pass_on(error));
                },
            };
            let entry = EntryRecord {
                literal_relative_path: literal,
                entry_identity: identity,
                created_unix_ms: created,
            };
            let ghost view = entry@;
            let ghost before = path::views(keys@);
            let ghost key = relative@;
            more.push(entry);
            keys.push(relative);
            proof {
                assert(clean_policy::entry_views(more@) =~= now.push(view));
                assert(path::views(keys@) =~= before.push(key));
                wire::relative_path_survives(key, request.relative_display@);
            }
        }
        i += 1;
    }
    assert(requests@.take(requests@.len() as int) =~= requests@);
    Ok(more)
}

/// Adds exclusions to a policy; the result is what has to be written.
pub fn add_entries(
    host: Host,
    policy: PolicyFile,
    root: &ShownPath,
    identity: UnixIdentity,
    requests: &Vec<EntryRequest>,
    now: &Result<u64, Error>,
) -> (result: Result<PolicyFile, Error>)
    ensures
        if host != Host::MacOs {
            result matches Err(error) && error.says(ErrorKind::Unsupported, unsupported_text())
        } else if requests@.len() == 0 {
            result matches Err(error) && error.says(
                ErrorKind::InvalidInput,
                "at least one path is required"@,
            )
        } else {
            comes_to(result, added(policy@, *root, identity, requests@, *now))
        },
{
    if host != Host::MacOs {
        return Err(unsupported());
    }
    if requests.len() == 0 {
        return Err(Error::new(ErrorKind::InvalidInput, "at least one path is required"));
    }
    let encoded: NativeWirePath = match wire::encode_absolute(root) {
        Ok(encoded) => encoded,
        Err(error) => {
            return Err(error);
        },
    };
    let ghost before = policy@;
    let (roots, at): (Vec<RootRecord>, usize) = match ensure_root_record(
        policy.roots,
        encoded,
        identity,
        now,
    ) {
        Ok(parts) => parts,
        Err(error) => {
            return Err(error);
        },
    };
    let ghost kept = clean_policy::root_views(roots@);
    let mut roots = roots;
    let mut entries: Vec<EntryRecord> = Vec::new();
    std::mem::swap(&mut entries, &mut roots[at].entries);
    assert(clean_policy::entry_views(entries@) == kept[at as int].entries);
    let entries: Vec<EntryRecord> = match grow(entries, root.bytes.as_slice(), requests) {
        Ok(entries) => entries,
        Err(error) => {
            return Err(error);
        },
    };
    proof {
        lemma_grown_readable(kept[at as int].entries, root.bytes@, requests@);
    }
    let sorted: Vec<EntryRecord> = match normalize_entries(entries) {
        Ok(sorted) => sorted,
        Err(error) => {
            return Err(error);
        },
    };
    roots[at].entries = sorted;
    let changed = PolicyFile { schema_version: policy.schema_version, kind: policy.kind, roots };
    assert(changed@.roots =~= kept.update(
        at as int,
        RootView {
            entries: normalized(grown(kept[at as int].entries, root.bytes@, requests@)->Ok_0),
            ..kept[at as int]
        },
    ));
    match clean_policy::validate_policy(&changed) {
        Ok(()) => Ok(changed),
        Err(error) => Err(error),
    }
}

/// Requested entries can be read back.
pub proof fn lemma_grown_readable(entries: Seq<EntryView>, root: Seq<u8>, requests: Seq<EntryRequest>)
    requires
        unreadable(entries) is None,
        grown(entries, root, requests) is Ok,
    ensures
        unreadable(grown(entries, root, requests)->Ok_0) is None,
    decreases requests.len(),
{
    if requests.len() > 0 {
        lemma_grown_readable(entries, root, requests.drop_last());
        let more = grown(entries, root, requests.drop_last())->Ok_0;
        let request = requests.last();
        let relative = path::below(request.absolute@, root);
        if !clean_policy::key_seen(more, relative) {
            wire::relative_path_survives(relative, request.relative_display@);
            let result = grown(entries, root, requests)->Ok_0;
            assert(result.drop_last() =~= more);
        }
    }
}

/// Whether an entry stays when `keys` are removed.
pub open spec fn stays(entry: EntryView, keys: Seq<Seq<u8>>) -> bool {
    match wire::relative_of(entry.path) {
        Ok(key) => !keys.contains(key),
        Err(_) => !keys.contains(Seq::<u8>::empty()),
    }
}

/// The entries that stay when `keys` are removed.
pub open spec fn without_keys(entries: Seq<EntryView>, keys: Seq<Seq<u8>>) -> Seq<EntryView> {
    entries.filter(|entry: EntryView| stays(entry, keys))
}

fn retain_entries(entries: Vec<EntryRecord>, keys: &Vec<Vec<u8>>) -> (kept: Vec<EntryRecord>)
    ensures
        clean_policy::entry_views(kept@) == without_keys(
            clean_policy::entry_views(entries@),
            path::views(keys@),
        ),
{
    let ghost all = clean_policy::entry_views(entries@);
    let ghost wanted = path::views(keys@);
    let ghost test = |entry: EntryView| stays(entry, wanted);
    let mut rest = entries;
    let mut kept: Vec<EntryRecord> = Vec::new();
    let ghost mut done: int = 0;
    proof {
        reveal(Seq::filter);
        assert(all.take(0) =~= Seq::empty());
        assert(clean_policy::entry_views(kept@) =~= all.take(0).filter(test));
    }
    while rest.len() > 0
        invariant
            all == clean_policy::entry_views(entries@),
            wanted == path::views(keys@),
            test == (|entry: EntryView| stays(entry, wanted)),
            0 <= done,
            done + rest@.len() == all.len(),
            forall|j: int| 0 <= j < rest@.len() ==> (#[trigger] rest@[j])@ == all[done + j],
            clean_policy::entry_views(kept@) == all.take(done).filter(test),
        decreases rest@.len(),
    {
        let entry = rest.remove(0);
        proof {
            reveal(Seq::filter);
            assert(entry@ == all[done]);
            assert(all.take(done + 1).drop_last() =~= all.take(done));
            assert(all.take(done + 1).last() == all[done]);
        }
        let key: Vec<u8> = match wire::decode_relative_bytes(&entry.literal_relative_path) {
            Ok(key) => key,
            Err(_) => {
                let nothing: Vec<u8> = Vec::new();
                assert(nothing@ =~= Seq::<u8>::empty());
                nothing
            },
        };
        let ghost before = clean_policy::entry_views(kept@);
        if !clean_policy::holds_key(keys, &key) {
            let ghost view = entry@;
            kept.push(entry);
            assert(clean_policy::entry_views(kept@) =~= before.push(view));
        }
        proof {
            done = done + 1;
        }
    }
    assert(all.take(all.len() as int) =~= all);
    kept
}

/// A path that the user asks to stop excluding, with what was observed of it.
#[derive(Debug)]
pub struct RemoveRequest {
    /// The path as it was given: absolute, or relative to the root.
    pub value: Vec<u8>,
    /// What is at an absolute path now.
    pub anchored: Result<AnchoredEntryState, Error>,
}

/// The key that a request removes.
pub open spec fn removed_key(request: RemoveRequest, root: Seq<u8>) -> Result<Seq<u8>, Fault> {
    if path::is_absolute(request.value@) {
        if !strictly_below(request.value@, root) {
            Err((ErrorKind::InvalidInput, "entry must be within root"@))
        } else {
            match request.anchored {
                Err(error) => Err(lifecycle::fault_of(error)),
                Ok(AnchoredEntryState::NeedsAttention) => Err(
                    (ErrorKind::InvalidInput, "entry must be a physical path within root"@),
                ),
                Ok(_) => literal_key(path::below(request.value@, root)),
            }
        }
    } else {
        literal_key(request.value@)
    }
}

pub open spec fn literal_key(relative: Seq<u8>) -> Result<Seq<u8>, Fault> {
    match wire::relative_fault(relative) {
        Some(message) => Err((ErrorKind::InvalidInput, message)),
        None => Ok(relative),
    }
}

/// The key that a request removes.
pub fn normalize_remove_entry(request: &RemoveRequest, root: &[u8]) -> (result: Result<
    Vec<u8>,
    Error,
>)
    ensures
        match result {
            Ok(key) => removed_key(*request, root@) == Ok::<Seq<u8>, Fault>(key@),
            Err(error) => removed_key(*request, root@) == Err::<Seq<u8>, Fault>(
                lifecycle::fault_of(error),
            ),
        },
{
    if !path::absolute(request.value.as_slice()) {
        return wire::normalize_literal_relative(request.value.as_slice());
    }
    if !is_strictly_below(request.value.as_slice(), root) {
        return Err(Error::new(ErrorKind::InvalidInput, "entry must be within root"));
    }
    match &request.anchored {
        Err(error) => Err(lifecycle::pass_on(error)),
        Ok(AnchoredEntryState::NeedsAttention) => Err(
            Error::new(ErrorKind::InvalidInput, "entry must be a physical path within root"),
        ),
        Ok(_) => {
            let relative = path::relative_to(request.value.as_slice(), root);
            wire::normalize_literal_relative(relative.as_slice())
        },
    }
}

/// The keys that a list of requests removes, in order.
pub open spec fn removed_keys(requests: Seq<RemoveRequest>, root: Seq<u8>) -> Result<
    Seq<Seq<u8>>,
    Fault,
>
    decreases requests.len(),
{
    if requests.len() == 0 {
        Ok(Seq::empty())
    } else {
        match removed_keys(requests.drop_last(), root) {
            Err(fault) => Err(fault),
            Ok(keys) => match removed_key(requests.last(), root) {
                Err(fault) => Err(fault),
                Ok(key) => Ok(keys.push(key)),
            },
        }
    }
}

pub proof fn lemma_removed_prefix(requests: Seq<RemoveRequest>, root: Seq<u8>, n: int)
    requires
        0 <= n <= requests.len(),
        removed_keys(requests.take(n), root) is Err,
    ensures
        removed_keys(requests, root) == removed_keys(requests.take(n), root),
    decreases requests.len() - n,
{
    if n < requests.len() {
        assert(requests.take(n + 1).drop_last() =~= requests.take(n));
        lemma_removed_prefix(requests, root, n + 1);
    } else {
        assert(requests.take(n) =~= requests);
    }
}

fn collect_keys(requests: &Vec<RemoveRequest>, root: &[u8]) -> (result: Result<Vec<Vec<u8>>, Error>)
    ensures
        match result {
            Ok(keys) => removed_keys(requests@, root@) == Ok::<Seq<Seq<u8>>, Fault>(
                path::views(keys@),
            ),
            Err(error) => removed_keys(requests@, root@) == Err::<Seq<Seq<u8>>, Fault>(
                lifecycle::fault_of(error),
            ),
        },
{
    let mut keys: Vec<Vec<u8>> = Vec::new();
    let mut i: usize = 0;
    assert(requests@.take(0) =~= Seq::empty());
    assert(path::views(keys@) =~= Seq::empty());
    while i < requests.len()
        invariant
            0 <= i <= requests@.len(),
            removed_keys(requests@.take(i as int), root@) == Ok::<Seq<Seq<u8>>, Fault>(
                path::views(keys@),
            ),
        decreases requests@.len() - i,
    {
        proof {
            assert(requests@.take(i + 1).drop_last() =~= requests@.take(i as int));
            assert(requests@.take(i + 1).last() == requests@[i as int]);
            if removed_keys(requests@.take(i + 1), root@) is Err {
                lemma_removed_prefix(requests@, root@, i + 1);
            }
        }
        let key: Vec<u8> = match normalize_remove_entry(&requests[i], root) {
            Ok(key) => key,
            Err(error) => {
                return Err(error);
            },
        };
        let ghost before = path::views(keys@);
        let ghost view = key@;
        keys.push(key);
        assert(path::views(keys@) =~= before.push(view));
        i += 1;
    }
    assert(requests@.take(requests@.len() as int) =~= requests@);
    Ok(keys)
}

/// The first root stored under a path.
pub open spec fn first_path(roots: Seq<RootView>, path: WireView) -> int
    decreases roots.len(),
{
    if roots.len() == 0 {
        0
    } else if path_stored(roots.drop_last(), path) {
        first_path(roots.drop_last(), path)
    } else {
        roots.len() - 1
    }
}

pub proof fn lemma_first_path(roots: Seq<RootView>, path: WireView, at: int)
    requires
        0 <= at < roots.len(),
        roots[at].path == path,
        forall|j: int| 0 <= j < at ==> (#[trigger] roots[j]).path != path,
    ensures
        first_path(roots, path) == at,
    decreases roots.len(),
{
    let head = roots.drop_last();
    if at < head.len() {
        assert(head[at].path == path);
        assert forall|j: int| 0 <= j < at implies (#[trigger] head[j]).path != path by {
            assert(roots[j].path != path);
        }
        lemma_first_path(head, path, at);
    } else {
        assert forall|j: int| 0 <= j < head.len() implies (#[trigger] head[j]).path != path by {
            assert(roots[j].path != path);
        }
    }
}

/// The policy without the given exclusions of a root, and how many went.
pub open spec fn pruned(policy: PolicyView, path: WireView, keys: Seq<Seq<u8>>) -> (PolicyView, nat) {
    if path_stored(policy.roots, path) {
        let at = first_path(policy.roots, path);
        let root = policy.roots[at];
        let kept = without_keys(root.entries, keys);
        (
            PolicyView {
                roots: policy.roots.update(at, RootView { entries: kept, ..root }),
                ..policy
            },
            (root.entries.len() - kept.len()) as nat,
        )
    } else {
        (policy, 0)
    }
}

/// Removes exclusions from a policy; the result is what has to be written, and how many
/// exclusions went.
pub fn remove_entries(
    host: Host,
    policy: PolicyFile,
    root: &ShownPath,
    requests: &Vec<RemoveRequest>,
) -> (result: Result<(PolicyFile, usize), Error>)
    ensures
        host == Host::MacOs && requests@.len() > 0 && path::is_absolute(root.bytes@)
            && removed_keys(requests@, root.bytes@) is Ok && clean_policy::policy_fault(
            policy@,
        ) is None ==> result is Ok,
        if host != Host::MacOs {
            result matches Err(error) && error.says(ErrorKind::Unsupported, unsupported_text())
        } else if requests@.len() == 0 {
            result matches Err(error) && error.says(
                ErrorKind::InvalidInput,
                "at least one path is required"@,
            )
        } else {
            match removed_keys(requests@, root.bytes@) {
                Err(fault) => result matches Err(error) && lifecycle::fault_of(error) == fault,
                Ok(keys) => if !path::is_absolute(root.bytes@) {
                    result matches Err(error) && error.says(
                        ErrorKind::InvalidInput,
                        "path must be absolute"@,
                    )
                } else {
                    let (expected, count) = pruned(
                        policy@,
                        wire::wire_of(root.bytes@, root.display@),
                        keys,
                    );
                    match result {
                        Ok((changed, removed)) => {
                            &&& checked(expected) == Ok::<PolicyView, Fault>(changed@)
                            &&& removed == count
                        },
                        Err(error) => checked(expected) == Err::<PolicyView, Fault>(
                            lifecycle::fault_of(error),
                        ),
                    }
                },
            }
        },
{
    if host != Host::MacOs {
        return Err(unsupported());
    }
    if requests.len() == 0 {
        return Err(Error::new(ErrorKind::InvalidInput, "at least one path is required"));
    }
    let keys: Vec<Vec<u8>> = match collect_keys(requests, root.bytes.as_slice()) {
        Ok(keys) => keys,
        Err(error) => {
            return Err(error);
        },
    };
    let encoded: NativeWirePath = match wire::encode_absolute(root) {
        Ok(encoded) => encoded,
        Err(error) => {
            return Err(error);
        },
    };
    let ghost before = policy@;
    proof {
        if clean_policy::policy_fault(before) is None {
            policy_laws::removing_keeps_the_policy_sound(before, encoded@, path::views(keys@));
        }
    }
    let mut changed = policy;
    let mut removed: usize = 0;
    if let Some(at) = find_path(&changed.roots, &encoded) {
        proof {
            lemma_first_path(before.roots, encoded@, at as int);
        }
        let mut entries: Vec<EntryRecord> = Vec::new();
        std::mem::swap(&mut entries, &mut changed.roots[at].entries);
        let ghost all = clean_policy::entry_views(entries@);
        assert(all == before.roots[at as int].entries);
        let count: usize = entries.len();
        let kept = retain_entries(entries, &keys);
        proof {
            all.lemma_filter_len(|entry: EntryView| stays(entry, path::views(keys@)));
            assert(clean_policy::entry_views(kept@).len() == kept@.len());
        }
        removed = count - kept.len();
        changed.roots[at].entries = kept;
        assert(changed@.roots =~= pruned(before, encoded@, path::views(keys@)).0.roots);
    }
    match clean_policy::validate_policy(&changed) {
        Ok(()) => Ok((changed, removed)),
        Err(error) => Err(error),
    }
}

/// The roots that are not stored under a path.
pub open spec fn without_path(roots: Seq<RootView>, path: WireView) -> Seq<RootView> {
    roots.filter(|root: RootView| root.path != path)
}

/// Removes all exclusions of a root; the result is what has to be written, and whether there
/// were any.
pub fn remove_root(host: Host, policy: PolicyFile, root: &ShownPath) -> (result: Result<
    (PolicyFile, bool),
    Error,
>)
    ensures
        host == Host::MacOs && path::is_absolute(root.bytes@) && clean_policy::policy_fault(
            policy@,
        ) is None ==> result is Ok,
        if host != Host::MacOs {
            result matches Err(error) && error.says(ErrorKind::Unsupported, unsupported_text())
        } else if !path::is_absolute(root.bytes@) {
            result matches Err(error) && error.says(
                ErrorKind::InvalidInput,
                "path must be absolute"@,
            )
        } else {
            let path = wire::wire_of(root.bytes@, root.display@);
            let kept = without_path(policy@.roots, path);
            let expected = PolicyView { roots: kept, ..policy@ };
            match result {
                Ok((changed, removed)) => {
                    &&& checked(expected) == Ok::<PolicyView, Fault>(changed@)
                    &&& removed == (kept.len() != policy@.roots.len())
                },
                Err(error) => checked(expected) == Err::<PolicyView, Fault>(
                    lifecycle::fault_of(error),
                ),
            }
        },
{
    if host != Host::MacOs {
        return Err(unsupported());
    }
    let encoded: NativeWirePath = match wire::encode_absolute(root) {
        Ok(encoded) => encoded,
        Err(error) => {
            return Err(error);
        },
    };
    let ghost all = policy@.roots;
    let ghost target = encoded@;
    proof {
        if clean_policy::policy_fault(policy@) is None {
            policy_laws::removing_a_root_keeps_the_policy_sound(policy@, target);
        }
    }
    let ghost test = |root: RootView| root.path != target;
    let count: usize = policy.roots.len();
    let mut rest = policy.roots;
    let mut kept: Vec<RootRecord> = Vec::new();
    let ghost mut done: int = 0;
    proof {
        reveal(Seq::filter);
        assert(all.take(0) =~= Seq::empty());
        assert(clean_policy::root_views(kept@) =~= all.take(0).filter(test));
    }
    while rest.len() > 0
        invariant
            target == encoded@,
            test == (|root: RootView| root.path != target),
            0 <= done,
            done + rest@.len() == all.len(),
            forall|j: int| 0 <= j < rest@.len() ==> (#[trigger] rest@[j])@ == all[done + j],
            clean_policy::root_views(kept@) == all.take(done).filter(test),
        decreases rest@.len(),
    {
        let record = rest.remove(0);
        proof {
            reveal(Seq::filter);
            assert(record@ == all[done]);
            assert(all.take(done + 1).drop_last() =~= all.take(done));
            assert(all.take(done + 1).last() == all[done]);
        }
        let ghost before = clean_policy::root_views(kept@);
        if !record.root_path.same(&encoded) {
            let ghost view = record@;
            kept.push(record);
            assert(clean_policy::root_views(kept@) =~= before.push(view));
        }
        proof {
            done = done + 1;
        }
    }
    assert(all.take(all.len() as int) =~= all);
    let removed: bool = kept.len() != count;
    let changed = PolicyFile {
        schema_version: policy.schema_version,
        kind: policy.kind,
        roots: kept,
    };
    assert(changed@.roots.len() == kept@.len());
    match clean_policy::validate_policy(&changed) {
        Ok(()) => Ok((changed, removed)),
        Err(error) => Err(error),
    }
}

} // verus!
