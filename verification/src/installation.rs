//! Local, dedicated-prefix lifecycle; never an arbitrary deletion interface.
//!
//! Only macOS is supported. The physical parent must already exist. A private managed
//! prefix holds `bin/sayaka`, `ownership-v1.json` and `.lock`, and must remain quiescent
//! except for cooperating locked operations. Receipts are local ownership bookkeeping,
//! not signatures. Failed effects retain exact recovery locations.

use crate::error::{Error, ErrorKind};
use crate::path;
use crate::text;
use crate::version;
use vstd::prelude::*;
use vstd::string::*;

verus! {

pub const MANIFEST: &'static str = "ownership-v1.json";

pub const LOCK: &'static str = ".lock";

pub const UPDATE_GUARD: &'static str = ".sayaka-update-guard-v1";

/// The largest executable that is copied.
pub const MAX_BINARY: u64 = 268435456;

/// The largest ownership manifest that is read or written.
pub const MAX_MANIFEST: u64 = 16384;

/// The largest lifecycle record that is read or written.
pub const MAX_LIFECYCLE: u64 = 65536;

/// How much of a file is read at a time.
pub const CHUNK: usize = 65536;

#[derive(Clone, Copy, Debug, PartialEq, Eq, Structural)]
pub enum Action {
    Install,
    Update,
    Recover,
    Remove,
}

/// What is known of one image.
#[derive(Clone, Debug)]
pub struct ArtifactMetadata {
    pub version: String,
    pub sha256: String,
    pub executable_bytes: u64,
    pub target_os: String,
    pub target_arch: String,
    pub min_macos: Option<String>,
    pub ownership_layout: String,
    pub lifecycle_contract: String,
    pub source_trust: String,
}

impl ArtifactMetadata {
    /// A copy of the metadata.
    pub fn copy(&self) -> (copy: ArtifactMetadata)
        ensures
            copy == *self,
    {
        ArtifactMetadata {
            version: self.version.clone(),
            sha256: self.sha256.clone(),
            executable_bytes: self.executable_bytes,
            target_os: self.target_os.clone(),
            target_arch: self.target_arch.clone(),
            min_macos: match &self.min_macos {
                Some(value) => Some(value.clone()),
                None => None,
            },
            ownership_layout: self.ownership_layout.clone(),
            lifecycle_contract: self.lifecycle_contract.clone(),
            source_trust: self.source_trust.clone(),
        }
    }
}

/// What an operation would do.
#[derive(Clone, Debug)]
pub struct Preview {
    pub action: Action,
    pub prefix: Vec<u8>,
    pub executable: Vec<u8>,
    pub version: String,
    pub sha256: String,
    pub executable_bytes: u64,
    pub already_installed: bool,
    pub current: Option<ArtifactMetadata>,
    pub candidate: Option<ArtifactMetadata>,
    pub can_execute: bool,
    pub decision: Option<String>,
}

/// Which deliberate replacements an update may perform.
#[derive(Clone, Copy, Debug, PartialEq, Eq, Structural)]
pub struct UpdatePolicy {
    pub allow_downgrade: bool,
    pub allow_same_version_replace: bool,
}

#[derive(Clone, Copy, Debug, PartialEq, Eq, Structural)]
pub enum OutcomeState {
    Installed,
    AlreadyInstalled,
    Updated,
    Recovered,
    Removed,
    Refused,
    Incomplete,
    Cancelled,
}

/// What an operation did.
#[derive(Debug)]
pub struct Outcome {
    pub status: OutcomeState,
    pub preview: Preview,
    pub logical_bytes: Option<u64>,
    pub allocated_bytes: Option<u64>,
    /// Exact locations touched by an incomplete operation, possibly now absent.
    /// These are evidence for inspection, not authorization to delete or replay.
    pub recovery_paths: Vec<Vec<u8>>,
    pub error: Option<String>,
}

/// The process exit code of an outcome.
pub open spec fn outcome_code(status: OutcomeState) -> u8 {
    match status {
        OutcomeState::Incomplete | OutcomeState::Refused => 1,
        OutcomeState::Cancelled => 130,
        _ => 0,
    }
}

impl Outcome {
    pub fn exit_code(&self) -> (code: u8)
        ensures
            code == outcome_code(self.status),
    {
        match self.status {
            OutcomeState::Installed => 0,
            OutcomeState::AlreadyInstalled => 0,
            OutcomeState::Updated => 0,
            OutcomeState::Recovered => 0,
            OutcomeState::Removed => 0,
            OutcomeState::Incomplete => 1,
            OutcomeState::Refused => 1,
            OutcomeState::Cancelled => 130,
        }
    }
}

/// Whether a path is absolute and names every directory on the way physically.
pub open spec fn is_physical(path: Seq<u8>) -> bool {
    &&& path::is_absolute(path)
    &&& !path::has_piece(path, seq![path::DOT])
    &&& !path::has_piece(path, seq![path::DOT, path::DOT])
}

/// Refuses a path that is relative or holds `.` or `..`.
pub fn physical_absolute(path: &[u8]) -> (result: Result<(), Error>)
    ensures
        result is Ok <==> is_physical(path@),
        result matches Err(error) ==> error.says(
            ErrorKind::InvalidInput,
            "use an absolute physical path without '.' or '..'"@,
        ),
{
    let dot: [u8; 1] = [path::DOT];
    let dots: [u8; 2] = [path::DOT, path::DOT];
    proof {
        assert(dot@ =~= seq![path::DOT]);
        assert(dots@ =~= seq![path::DOT, path::DOT]);
    }
    if !path::absolute(path) || path::contains_piece(path, &dot) || path::contains_piece(
        path,
        &dots,
    ) {
        return Err(
            Error::new(
                ErrorKind::InvalidInput,
                "use an absolute physical path without '.' or '..'",
            ),
        );
    }
    Ok(())
}

/// Who a file is, and who may use it.
#[derive(Clone, Copy, Debug, PartialEq, Eq, Structural)]
pub struct Identity {
    pub device: u64,
    pub inode: u64,
    pub uid: u32,
    pub gid: u32,
    pub mode: u32,
}

/// A point in time of a file.
#[derive(Clone, Copy, Debug, PartialEq, Eq, Structural)]
pub struct Stamp {
    pub seconds: i64,
    pub nanoseconds: i64,
}

/// What the metadata of an open file says at one moment.
#[derive(Clone, Copy, Debug, PartialEq, Eq, Structural)]
pub struct Snapshot {
    pub identity: Identity,
    pub links: u64,
    pub bytes: u64,
    pub modified: Stamp,
    pub changed: Stamp,
}

/// What kind of object a descriptor is open on.
#[derive(Clone, Copy, Debug, PartialEq, Eq, Structural)]
pub enum HeldKind {
    File,
    Directory,
    Other,
}

/// What is observed of an open file before it is trusted.
#[derive(Clone, Copy, Debug, PartialEq, Eq, Structural)]
pub struct Held {
    pub kind: HeldKind,
    pub snapshot: Snapshot,
    pub extended_acl: bool,
}

/// The permission bits of a mode.
pub open spec fn permissions(mode: u32) -> u32 {
    mode & 0o7777
}

/// Whether an open file has the owner, kind, link count and permissions of an artifact.
pub open spec fn has_shape(held: Held, euid: u32, directory: bool, mode: u32) -> bool {
    &&& held.snapshot.identity.uid == euid
    &&& permissions(held.snapshot.identity.mode) == mode
    &&& if directory {
        held.kind == HeldKind::Directory
    } else {
        held.kind == HeldKind::File && held.snapshot.links == 1
    }
}

/// What a shape is called.
pub open spec fn shape_text(directory: bool) -> Seq<char> {
    if directory {
        "a physical directory"@
    } else {
        "a singly linked regular file"@
    }
}

/// The four octal digits of a mode.
pub open spec fn octal4(mode: u32) -> Seq<char> {
    seq![
        version::digit_char((mode / 512 % 8) as nat),
        version::digit_char((mode / 64 % 8) as nat),
        version::digit_char((mode / 8 % 8) as nat),
        version::digit_char((mode % 8) as nat),
    ]
}

fn octal4_text(mode: u32) -> (digits: String)
    ensures
        digits@ == octal4(mode),
{
    let mut digits: String = version::decimal_text((mode / 512 % 8) as u64);
    digits.append(version::decimal_text((mode / 64 % 8) as u64).as_str());
    digits.append(version::decimal_text((mode / 8 % 8) as u64).as_str());
    digits.append(version::decimal_text((mode % 8) as u64).as_str());
    assert(digits@ =~= octal4(mode));
    digits
}

/// Why an open file is not the artifact that it should be.
pub open spec fn shape_fault(held: Held, euid: u32, directory: bool, mode: u32) -> Option<
    Seq<char>,
> {
    if !has_shape(held, euid, directory, mode) {
        Some(
            "artifact must be user-owned, "@ + shape_text(directory) + " with mode "@ + octal4(
                mode,
            ),
        )
    } else if held.extended_acl {
        Some("extended ACLs are not permitted on managed artifacts or source"@)
    } else {
        None
    }
}

/// Takes an open file as an artifact of the given shape.
pub fn check(held: &Held, euid: u32, directory: bool, mode: u32) -> (result: Result<
    Identity,
    Error,
>)
    requires
        mode < 4096,
    ensures
        match result {
            Ok(identity) => shape_fault(*held, euid, directory, mode) is None && identity
                == held.snapshot.identity,
            Err(error) => error.kind == ErrorKind::InvalidData && shape_fault(
                *held,
                euid,
                directory,
                mode,
            ) == Some(error.message@),
        },
{
    let kind_fits: bool = if directory {
        held.kind == HeldKind::Directory
    } else {
        held.kind == HeldKind::File && held.snapshot.links == 1
    };
    if held.snapshot.identity.uid != euid || held.snapshot.identity.mode & 0o7777 != mode
        || !kind_fits {
        let shape: &str = if directory {
            "a physical directory"
        } else {
            "a singly linked regular file"
        };
        let mut message = text::concat3("artifact must be user-owned, ", shape, " with mode ");
        message.append(octal4_text(mode).as_str());
        return Err(Error { kind: ErrorKind::InvalidData, message });
    }
    if held.extended_acl {
        return Err(
            Error::new(
                ErrorKind::InvalidData,
                "extended ACLs are not permitted on managed artifacts or source",
            ),
        );
    }
    Ok(held.snapshot.identity)
}

/// What a name in a directory resolves to, without following it.
#[derive(Clone, Copy, Debug, PartialEq, Eq, Structural)]
pub struct NameEntry {
    pub device: u64,
    pub inode: u64,
    pub mode: u32,
}

/// Whether a name still leads to the file that is held open.
pub open spec fn names(entry: NameEntry, identity: Identity) -> bool {
    entry.device == identity.device && entry.inode == identity.inode && entry.mode == identity.mode
}

/// Refuses a name that no longer leads to the file that is held open.
pub fn named(entry: &NameEntry, held: &Identity) -> (result: Result<(), Error>)
    ensures
        result is Ok <==> names(*entry, *held),
        result matches Err(error) ==> error.says(
            ErrorKind::InvalidData,
            "named artifact no longer matches its held descriptor"@,
        ),
{
    if entry.device != held.device || entry.inode != held.inode || entry.mode != held.mode {
        return Err(
            Error::new(
                ErrorKind::InvalidData,
                "named artifact no longer matches its held descriptor",
            ),
        );
    }
    Ok(())
}

/// The entries of a directory without itself and its parent.
pub open spec fn listed(entries: Seq<Seq<u8>>) -> Seq<Seq<u8>> {
    entries.filter(|name: Seq<u8>| name != seq![path::DOT] && name != seq![path::DOT, path::DOT])
}

/// Whether a listing holds nothing but expected names, and no more than there are.
pub open spec fn only_expected(names: Seq<Seq<u8>>, expected: Seq<Seq<u8>>) -> bool {
    &&& names.len() <= expected.len()
    &&& forall|i: int| 0 <= i < names.len() ==> expected.contains(#[trigger] names[i])
}

fn contains_name(expected: &Vec<Vec<u8>>, name: &Vec<u8>) -> (found: bool)
    ensures
        found == path::views(expected@).contains(name@),
{
    let ghost all = path::views(expected@);
    let mut i: usize = 0;
    while i < expected.len()
        invariant
            0 <= i <= expected@.len(),
            all == path::views(expected@),
            forall|j: int| 0 <= j < i ==> all[j] != name@,
        decreases expected@.len() - i,
    {
        if text::bytes_eq(expected[i].as_slice(), name.as_slice()) {
            assert(all[i as int] == name@);
            return true;
        }
        i += 1;
    }
    false
}

/// Refuses a directory that holds anything but exactly the expected names.
pub fn inventory(entries: &Vec<Vec<u8>>, expected: &Vec<Vec<u8>>) -> (result: Result<(), Error>)
    ensures
        ({
            let names = listed(path::views(entries@));
            let wanted = path::views(expected@);
            match result {
                Ok(()) => only_expected(names, wanted) && names.len() == wanted.len(),
                Err(error) => {
                    ||| !only_expected(names, wanted) && error.says(
                        ErrorKind::InvalidData,
                        "unknown or extra artifact in dedicated installation"@,
                    )
                    ||| only_expected(names, wanted) && names.len() < wanted.len() && error.says(
                        ErrorKind::InvalidData,
                        "managed inventory is incomplete; an expected artifact is missing"@,
                    )
                },
            }
        }),
{
    let ghost all = path::views(entries@);
    let ghost wanted = path::views(expected@);
    let ghost keep = |name: Seq<u8>|
        name != seq![path::DOT] && name != seq![path::DOT, path::DOT];
    let mut seen: usize = 0;
    let mut i: usize = 0;
    proof {
        reveal(Seq::filter);
        assert(all.take(0) =~= Seq::empty());
    }
    while i < entries.len()
        invariant
            0 <= i <= entries@.len(),
            all == path::views(entries@),
            wanted == path::views(expected@),
            keep == (|name: Seq<u8>| name != seq![path::DOT] && name != seq![path::DOT, path::DOT]),
            seen == all.take(i as int).filter(keep).len(),
            only_expected(all.take(i as int).filter(keep), wanted),
        decreases entries@.len() - i,
    {
        let name = &entries[i];
        let ghost before = all.take(i as int).filter(keep);
        proof {
            assert(all.take(i + 1).drop_last() =~= all.take(i as int));
            assert(all.take(i + 1).last() == name@);
            reveal(Seq::filter);
        }
        let dot: bool = name.len() == 1 && name[0] == path::DOT;
        let dots: bool = name.len() == 2 && name[0] == path::DOT && name[1] == path::DOT;
        assert(dot == (name@ =~= seq![path::DOT]));
        assert(dots == (name@ =~= seq![path::DOT, path::DOT]));
        if !dot && !dots {
            assert(all.take(i + 1).filter(keep) == before.push(name@));
            if seen >= expected.len() || !contains_name(expected, name) {
                proof {
                    let more = all.take(i + 1).filter(keep);
                    assert(more.len() == before.len() + 1);
                    assert(more[before.len() as int] == name@);
                    assert(!only_expected(more, wanted));
                    lemma_unexpected(all, keep, wanted, i + 1);
                }
                return Err(
                    Error::new(
                        ErrorKind::InvalidData,
                        "unknown or extra artifact in dedicated installation",
                    ),
                );
            }
            seen += 1;
        } else {
            assert(all.take(i + 1).filter(keep) == before);
        }
        i += 1;
    }
    assert(all.take(all.len() as int) =~= all);
    if seen != expected.len() {
        return Err(
            Error::new(
                ErrorKind::InvalidData,
                "managed inventory is incomplete; an expected artifact is missing",
            ),
        );
    }
    Ok(())
}

/// What is unexpected among the first entries is unexpected among all.
proof fn lemma_unexpected(
    all: Seq<Seq<u8>>,
    keep: spec_fn(Seq<u8>) -> bool,
    wanted: Seq<Seq<u8>>,
    n: int,
)
    requires
        0 <= n <= all.len(),
        !only_expected(all.take(n).filter(keep), wanted),
    ensures
        !only_expected(all.filter(keep), wanted),
    decreases all.len() - n,
{
    reveal(Seq::filter);
    if n < all.len() {
        let less = all.take(n).filter(keep);
        let more = all.take(n + 1).filter(keep);
        assert(all.take(n + 1).drop_last() =~= all.take(n));
        assert(more == less || more == less.push(all[n]));
        if only_expected(more, wanted) {
            assert forall|i: int| 0 <= i < less.len() implies wanted.contains(
                #[trigger] less[i],
            ) by {
                assert(more[i] == less[i]);
            }
        }
        lemma_unexpected(all, keep, wanted, n + 1);
    } else {
        assert(all.take(n) =~= all);
    }
}

} // verus!
