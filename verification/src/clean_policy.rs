//! The exclusions that a user keeps out of cleaning, and their guard during execution.

use crate::error::{Error, ErrorKind};
use crate::path;
use crate::text;
use crate::wire;
use crate::wire::{NativeWirePath, WireView};
use vstd::prelude::*;
use vstd::string::*;

verus! {

pub const POLICY_FILE_NAME: &'static str = "exclusions-v1.json";

pub const POLICY_KIND: &'static str = "sayaka_clean_exclusions";

pub const POLICY_SCHEMA_VERSION: u32 = 1;

/// The largest policy file that is read or written.
pub const MAX_POLICY_BYTES: u64 = 65536;

pub const MAX_ROOTS: usize = 512;

pub const MAX_ENTRIES_PER_ROOT: usize = 512;

#[derive(Clone, Copy, Debug, PartialEq, Eq, Structural)]
pub struct UnixIdentity {
    pub device: u64,
    pub inode: u64,
}

#[derive(Clone, Copy, Debug, PartialEq, Eq, Structural)]
pub enum EntryKind {
    File,
    Directory,
}

#[derive(Clone, Copy, Debug, PartialEq, Eq, Structural)]
pub struct UnixEntryIdentity {
    pub device: u64,
    pub inode: u64,
    pub kind: EntryKind,
}

/// One excluded path below a root.
#[derive(Clone, Debug, PartialEq, Eq)]
pub struct EntryRecord {
    pub literal_relative_path: NativeWirePath,
    pub entry_identity: UnixEntryIdentity,
    pub created_unix_ms: u64,
}

/// The exclusions of one root.
#[derive(Clone, Debug, PartialEq, Eq)]
pub struct RootRecord {
    pub root_path: NativeWirePath,
    pub root_identity: UnixIdentity,
    pub created_unix_ms: u64,
    pub entries: Vec<EntryRecord>,
}

/// The whole policy file.
#[derive(Clone, Debug, PartialEq, Eq)]
pub struct PolicyFile {
    pub schema_version: u32,
    pub kind: String,
    pub roots: Vec<RootRecord>,
}

/// The mathematical value of an [`EntryRecord`].
pub struct EntryView {
    pub path: WireView,
    pub identity: UnixEntryIdentity,
    pub created: u64,
}

/// The mathematical value of a [`RootRecord`].
pub struct RootView {
    pub path: WireView,
    pub identity: UnixIdentity,
    pub created: u64,
    pub entries: Seq<EntryView>,
}

/// The mathematical value of a [`PolicyFile`].
pub struct PolicyView {
    pub schema_version: u32,
    pub kind: Seq<char>,
    pub roots: Seq<RootView>,
}

impl View for EntryRecord {
    type V = EntryView;

    open spec fn view(&self) -> EntryView {
        EntryView {
            path: self.literal_relative_path@,
            identity: self.entry_identity,
            created: self.created_unix_ms,
        }
    }
}

pub open spec fn entry_views(entries: Seq<EntryRecord>) -> Seq<EntryView> {
    Seq::new(entries.len(), |i: int| entries[i]@)
}

impl View for RootRecord {
    type V = RootView;

    open spec fn view(&self) -> RootView {
        RootView {
            path: self.root_path@,
            identity: self.root_identity,
            created: self.created_unix_ms,
            entries: entry_views(self.entries@),
        }
    }
}

pub open spec fn root_views(roots: Seq<RootRecord>) -> Seq<RootView> {
    Seq::new(roots.len(), |i: int| roots[i]@)
}

impl View for PolicyFile {
    type V = PolicyView;

    open spec fn view(&self) -> PolicyView {
        PolicyView {
            schema_version: self.schema_version,
            kind: self.kind@,
            roots: root_views(self.roots@),
        }
    }
}

impl EntryRecord {
    pub fn copy(&self) -> (copy: EntryRecord)
        ensures
            copy == *self,
    {
        EntryRecord {
            literal_relative_path: self.literal_relative_path.copy(),
            entry_identity: self.entry_identity,
            created_unix_ms: self.created_unix_ms,
        }
    }

    pub fn same(&self, other: &EntryRecord) -> (same: bool)
        ensures
            same == (self@ == other@),
    {
        self.literal_relative_path.same(&other.literal_relative_path) && self.entry_identity
            == other.entry_identity && self.created_unix_ms == other.created_unix_ms
    }
}

impl RootRecord {
    pub fn copy(&self) -> (copy: RootRecord)
        ensures
            copy@ == self@,
    {
        let mut entries: Vec<EntryRecord> = Vec::new();
        let mut i: usize = 0;
        while i < self.entries.len()
            invariant
                0 <= i <= self.entries@.len(),
                entries@ == self.entries@.take(i as int),
            decreases self.entries@.len() - i,
        {
            entries.push(self.entries[i].copy());
            i += 1;
            assert(entries@ =~= self.entries@.take(i as int));
        }
        assert(entries@ =~= self.entries@);
        RootRecord {
            root_path: self.root_path.copy(),
            root_identity: self.root_identity,
            created_unix_ms: self.created_unix_ms,
            entries,
        }
    }

    pub fn same(&self, other: &RootRecord) -> (same: bool)
        ensures
            same == (self@ == other@),
    {
        if !self.root_path.same(&other.root_path) || self.root_identity != other.root_identity
            || self.created_unix_ms != other.created_unix_ms || self.entries.len()
            != other.entries.len() {
            assert(self@.entries.len() != other@.entries.len() ==> self@ != other@);
            return false;
        }
        let mut i: usize = 0;
        while i < self.entries.len()
            invariant
                0 <= i <= self.entries@.len(),
                self.entries@.len() == other.entries@.len(),
                forall|j: int| 0 <= j < i ==> self@.entries[j] == other@.entries[j],
            decreases self.entries@.len() - i,
        {
            if !self.entries[i].same(&other.entries[i]) {
                assert(self@.entries[i as int] != other@.entries[i as int]);
                return false;
            }
            assert(self@.entries[i as int] == other@.entries[i as int]);
            i += 1;
        }
        assert(self@.entries =~= other@.entries);
        true
    }
}

/// The bytes by which an entry is found.
pub open spec fn key_of(entry: EntryView) -> Seq<u8> {
    wire::relative_of(entry.path)->Ok_0
}

/// Whether an earlier entry has the same bytes.
pub open spec fn key_seen(entries: Seq<EntryView>, key: Seq<u8>) -> bool {
    exists|i: int|
        0 <= i < entries.len() && wire::relative_of((#[trigger] entries[i]).path) == Ok::<
            Seq<u8>,
            Seq<char>,
        >(key)
}

/// The first fault among the entries of a root.
pub open spec fn entries_fault(entries: Seq<EntryView>) -> Option<Seq<char>>
    decreases entries.len(),
{
    if entries.len() == 0 {
        None
    } else if entries_fault(entries.drop_last()) is Some {
        entries_fault(entries.drop_last())
    } else {
        match wire::relative_of(entries.last().path) {
            Err(message) => Some(message),
            Ok(key) => if key_seen(entries.drop_last(), key) {
                Some("duplicate exclusion entry"@)
            } else {
                None
            },
        }
    }
}

/// Whether an earlier root has the same path.
pub open spec fn path_seen(roots: Seq<RootView>, bytes: Seq<u8>) -> bool {
    exists|i: int|
        0 <= i < roots.len() && wire::absolute_of((#[trigger] roots[i]).path) == Ok::<
            Seq<u8>,
            Seq<char>,
        >(bytes)
}

/// Whether an earlier root has the same identity.
pub open spec fn identity_seen(roots: Seq<RootView>, identity: UnixIdentity) -> bool {
    exists|i: int| 0 <= i < roots.len() && (#[trigger] roots[i]).identity == identity
}

/// The first fault of a root that stands after `before`.
pub open spec fn root_fault(before: Seq<RootView>, root: RootView) -> Option<Seq<char>> {
    if root.entries.len() > MAX_ENTRIES_PER_ROOT {
        Some("too many exclusions for one root"@)
    } else {
        match wire::absolute_of(root.path) {
            Err(message) => Some(message),
            Ok(bytes) => if path_seen(before, bytes) {
                Some("duplicate root path record"@)
            } else if identity_seen(before, root.identity) {
                Some("duplicate root identity record"@)
            } else {
                entries_fault(root.entries)
            },
        }
    }
}

/// The first fault among the roots of a policy.
pub open spec fn roots_fault(roots: Seq<RootView>) -> Option<Seq<char>>
    decreases roots.len(),
{
    if roots.len() == 0 {
        None
    } else if roots_fault(roots.drop_last()) is Some {
        roots_fault(roots.drop_last())
    } else {
        root_fault(roots.drop_last(), roots.last())
    }
}

/// The first fault of a policy.
pub open spec fn policy_fault(policy: PolicyView) -> Option<Seq<char>> {
    if policy.schema_version != POLICY_SCHEMA_VERSION || policy.kind != POLICY_KIND@ {
        Some("unsupported clean policy schema"@)
    } else if policy.roots.len() > MAX_ROOTS {
        Some("too many policy roots"@)
    } else {
        roots_fault(policy.roots)
    }
}

proof fn lemma_entries_fault_prefix(entries: Seq<EntryView>, n: int)
    requires
        0 <= n <= entries.len(),
        entries_fault(entries.take(n)) is Some,
    ensures
        entries_fault(entries) == entries_fault(entries.take(n)),
    decreases entries.len() - n,
{
    if n < entries.len() {
        assert(entries.take(n + 1).drop_last() =~= entries.take(n));
        lemma_entries_fault_prefix(entries, n + 1);
    } else {
        assert(entries.take(n) =~= entries);
    }
}

proof fn lemma_roots_fault_prefix(roots: Seq<RootView>, n: int)
    requires
        0 <= n <= roots.len(),
        roots_fault(roots.take(n)) is Some,
    ensures
        roots_fault(roots) == roots_fault(roots.take(n)),
    decreases roots.len() - n,
{
    if n < roots.len() {
        assert(roots.take(n + 1).drop_last() =~= roots.take(n));
        lemma_roots_fault_prefix(roots, n + 1);
    } else {
        assert(roots.take(n) =~= roots);
    }
}

pub fn holds_key(keys: &Vec<Vec<u8>>, key: &Vec<u8>) -> (found: bool)
    ensures
        found == path::views(keys@).contains(key@),
{
    let ghost all = path::views(keys@);
    let mut i: usize = 0;
    while i < keys.len()
        invariant
            0 <= i <= keys@.len(),
            all == path::views(keys@),
            forall|j: int| 0 <= j < i ==> all[j] != key@,
        decreases keys@.len() - i,
    {
        if text::bytes_eq(keys[i].as_slice(), key.as_slice()) {
            assert(all[i as int] == key@);
            return true;
        }
        i += 1;
    }
    false
}

/// Whether `keys` are the bytes of the first entries.
spec fn keys_of(entries: Seq<EntryView>, keys: Seq<Seq<u8>>) -> bool {
    &&& keys.len() == entries.len()
    &&& forall|i: int|
        0 <= i < entries.len() ==> wire::relative_of((#[trigger] entries[i]).path) == Ok::<
            Seq<u8>,
            Seq<char>,
        >(keys[i])
}

proof fn lemma_key_seen(entries: Seq<EntryView>, keys: Seq<Seq<u8>>, key: Seq<u8>)
    requires
        keys_of(entries, keys),
    ensures
        keys.contains(key) == key_seen(entries, key),
{
    if keys.contains(key) {
        let i = choose|i: int| 0 <= i < keys.len() && keys[i] == key;
        assert(wire::relative_of(entries[i].path) == Ok::<Seq<u8>, Seq<char>>(key));
    }
    if key_seen(entries, key) {
        let i = choose|i: int|
            0 <= i < entries.len() && wire::relative_of((#[trigger] entries[i]).path) == Ok::<
                Seq<u8>,
                Seq<char>,
            >(key);
        assert(keys[i] == key);
    }
}

fn validate_entries(entries: &Vec<EntryRecord>) -> (result: Result<(), Error>)
    ensures
        match result {
            Ok(()) => entries_fault(entry_views(entries@)) is None,
            Err(error) => error.kind == ErrorKind::InvalidData && entries_fault(
                entry_views(entries@),
            ) == Some(error.message@),
        },
{
    let ghost all = entry_views(entries@);
    let mut keys: Vec<Vec<u8>> = Vec::new();
    let mut i: usize = 0;
    assert(all.take(0) =~= Seq::empty());
    while i < entries.len()
        invariant
            0 <= i <= entries@.len(),
            all == entry_views(entries@),
            entries_fault(all.take(i as int)) is None,
            keys_of(all.take(i as int), path::views(keys@)),
        decreases entries@.len() - i,
    {
        proof {
            assert(all.take(i + 1).drop_last() =~= all.take(i as int));
            assert(all.take(i + 1).last() == entries@[i as int]@);
            if entries_fault(all.take(i + 1)) is Some {
                lemma_entries_fault_prefix(all, i + 1);
            }
        }
        let key: Vec<u8> = match wire::decode_relative_bytes(&entries[i].literal_relative_path) {
            Ok(key) => key,
            Err(error) => {
                return Err(error);
            },
        };
        proof {
            lemma_key_seen(all.take(i as int), path::views(keys@), key@);
        }
        if holds_key(&keys, &key) {
            return Err(Error::new(ErrorKind::InvalidData, "duplicate exclusion entry"));
        }
        let ghost before = path::views(keys@);
        let ghost added = key@;
        keys.push(key);
        proof {
            assert(path::views(keys@) =~= before.push(added));
            assert(all.take(i + 1) =~= all.take(i as int).push(all[i as int]));
        }
        i += 1;
    }
    assert(all.take(all.len() as int) =~= all);
    Ok(())
}

fn has_identity(roots: &Vec<RootRecord>, n: usize, identity: UnixIdentity) -> (found: bool)
    requires
        n <= roots@.len(),
    ensures
        found == identity_seen(root_views(roots@).take(n as int), identity),
{
    let ghost all = root_views(roots@);
    let mut i: usize = 0;
    while i < n
        invariant
            0 <= i <= n <= roots@.len(),
            all == root_views(roots@),
            forall|j: int| 0 <= j < i ==> (#[trigger] all[j]).identity != identity,
        decreases n - i,
    {
        if roots[i].root_identity == identity {
            assert(all.take(n as int)[i as int].identity == identity);
            return true;
        }
        i += 1;
    }
    assert forall|j: int| 0 <= j < n implies (#[trigger] all.take(n as int)[j]).identity
        != identity by {
        assert(all[j].identity != identity);
    }
    false
}

/// Refuses a policy that this engine did not write.
pub fn validate_policy(policy: &PolicyFile) -> (result: Result<(), Error>)
    ensures
        match result {
            Ok(()) => policy_fault(policy@) is None,
            Err(error) => error.kind == ErrorKind::InvalidData && policy_fault(policy@) == Some(
                error.message@,
            ),
        },
{
    if policy.schema_version != POLICY_SCHEMA_VERSION || !text::text_eq(
        policy.kind.as_str(),
        POLICY_KIND,
    ) {
        return Err(Error::new(ErrorKind::InvalidData, "unsupported clean policy schema"));
    }
    if policy.roots.len() > MAX_ROOTS {
        return Err(Error::new(ErrorKind::InvalidData, "too many policy roots"));
    }
    let ghost all = root_views(policy.roots@);
    let mut paths: Vec<Vec<u8>> = Vec::new();
    let mut i: usize = 0;
    assert(all.take(0) =~= Seq::empty());
    while i < policy.roots.len()
        invariant
            0 <= i <= policy.roots@.len(),
            policy.schema_version == POLICY_SCHEMA_VERSION,
            policy.kind@ == POLICY_KIND@,
            policy.roots@.len() <= MAX_ROOTS,
            all == root_views(policy.roots@),
            roots_fault(all.take(i as int)) is None,
            paths@.len() == i,
            forall|j: int|
                0 <= j < i ==> wire::absolute_of((#[trigger] all[j]).path) == Ok::<
                    Seq<u8>,
                    Seq<char>,
                >(path::views(paths@)[j]),
        decreases policy.roots@.len() - i,
    {
        let root = &policy.roots[i];
        let ghost before = all.take(i as int);
        proof {
            assert(all.take(i + 1).drop_last() =~= before);
            assert(all.take(i + 1).last() == root@);
            if roots_fault(all.take(i + 1)) is Some {
                lemma_roots_fault_prefix(all, i + 1);
            }
            assert(root@.entries.len() == root.entries@.len());
        }
        if root.entries.len() > MAX_ENTRIES_PER_ROOT {
            return Err(Error::new(ErrorKind::InvalidData, "too many exclusions for one root"));
        }
        let bytes: Vec<u8> = match wire::decode_absolute(&root.root_path) {
            Ok(bytes) => bytes,
            Err(error) => {
                return Err(error);
            },
        };
        proof {
            let seen = path::views(paths@);
            if seen.contains(bytes@) {
                let j = choose|j: int| 0 <= j < seen.len() && seen[j] == bytes@;
                assert(all[j].path == before[j].path);
                assert(path_seen(before, bytes@));
            }
            if path_seen(before, bytes@) {
                let j = choose|j: int|
                    0 <= j < before.len() && wire::absolute_of((#[trigger] before[j]).path)
                        == Ok::<Seq<u8>, Seq<char>>(bytes@);
                assert(all[j].path == before[j].path);
                assert(seen[j] == bytes@);
            }
        }
        if holds_key(&paths, &bytes) {
            return Err(Error::new(ErrorKind::InvalidData, "duplicate root path record"));
        }
        if has_identity(&policy.roots, i, root.root_identity) {
            return Err(Error::new(ErrorKind::InvalidData, "duplicate root identity record"));
        }
        if let Err(error) = validate_entries(&root.entries) {
            return Err(error);
        }
        let ghost earlier = path::views(paths@);
        let ghost added = bytes@;
        paths.push(bytes);
        assert(path::views(paths@) =~= earlier.push(added));
        i += 1;
    }
    assert(all.take(all.len() as int) =~= all);
    Ok(())
}

} // verus!
