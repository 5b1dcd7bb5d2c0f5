//! The managed package: its receipt, its files and their verification.

use crate::digest;
use crate::digest::Hasher;
use crate::error::{Error, ErrorKind};
use crate::installation;
use crate::installation::{Action, ArtifactMetadata, Held, HeldKind, Identity, Preview, Snapshot};
use crate::macho::TargetMetadata;
use crate::path;
use crate::text;
use crate::version;
use vstd::prelude::*;
use vstd::string::*;

verus! {

/// Refuses to go on once the user has cancelled.
pub fn cancelled(requested: bool) -> (result: Result<(), Error>)
    ensures
        result is Err <==> requested,
        result matches Err(error) ==> error.says(
            ErrorKind::Interrupted,
            "operation cancelled"@,
        ),
{
    if requested {
        Err(Error::new(ErrorKind::Interrupted, "operation cancelled"))
    } else {
        Ok(())
    }
}

/// A bounded read of an executable that hashes what it reads.
pub struct Transfer {
    hasher: Hasher,
    length: u64,
    total: u64,
}

impl Transfer {
    /// The bytes read so far.
    pub closed spec fn taken(self) -> Seq<u8> {
        digest::absorbed(self.hasher)
    }

    /// The advertised length.
    pub closed spec fn expected(self) -> u64 {
        self.length
    }

    /// What was read never exceeds what was advertised.
    pub closed spec fn wf(self) -> bool {
        digest::absorbed(self.hasher).len() == self.total && self.total <= self.length
            <= installation::MAX_BINARY
    }

    /// Starts to read a file of the given length.
    pub fn begin(length: u64) -> (result: Result<Transfer, Error>)
        ensures
            match result {
                Ok(transfer) => {
                    &&& 0 < length <= installation::MAX_BINARY
                    &&& transfer.wf()
                    &&& transfer.expected() == length
                    &&& transfer.taken() == Seq::<u8>::empty()
                },
                Err(error) => {
                    &&& length == 0 || length > installation::MAX_BINARY
                    &&& error.says(
                        ErrorKind::InvalidData,
                        "executable exceeds supported size bounds"@,
                    )
                },
            },
    {
        if length == 0 || length > installation::MAX_BINARY {
            return Err(
                Error::new(ErrorKind::InvalidData, "executable exceeds supported size bounds"),
            );
        }
        Ok(Transfer { hasher: Hasher::new(), length, total: 0 })
    }

    /// How many bytes to ask for next: one more than is left, so that growth shows.
    pub fn budget(&self) -> (bytes: usize)
        requires
            self.wf(),
        ensures
            bytes == if self.expected() - self.taken().len() + 1 < installation::CHUNK {
                self.expected() - self.taken().len() + 1
            } else {
                installation::CHUNK as int
            },
    {
        let left: u64 = self.length - self.total + 1;
        if left < installation::CHUNK as u64 {
            left as usize
        } else {
            installation::CHUNK
        }
    }

    /// Takes the next bytes of the file.
    pub fn feed(&mut self, chunk: &[u8]) -> (result: Result<(), Error>)
        requires
            old(self).wf(),
        ensures
            final(self).expected() == old(self).expected(),
            match result {
                Ok(()) => {
                    &&& final(self).wf()
                    &&& final(self).taken() == old(self).taken() + chunk@
                    &&& final(self).taken().len() <= final(self).expected()
                },
                Err(error) => {
                    &&& old(self).taken().len() + chunk@.len() > old(self).expected()
                    &&& error.says(ErrorKind::InvalidData, "executable grew during bounded read"@)
                },
            },
    {
        if chunk.len() as u64 > self.length - self.total {
            return Err(Error::new(ErrorKind::InvalidData, "executable grew during bounded read"));
        }
        self.hasher.update(chunk);
        self.total = self.total + chunk.len() as u64;
        Ok(())
    }

    /// Ends the read with the digest of the whole file.
    pub fn finish(self) -> (result: Result<String, Error>)
        requires
            self.wf(),
        ensures
            match result {
                Ok(digest) => {
                    &&& self.taken().len() == self.expected()
                    &&& digest@ == digest::sha256_text(self.taken())
                    &&& digest::is_digest_text(digest@)
                },
                Err(error) => {
                    &&& self.taken().len() != self.expected()
                    &&& error.says(
                        ErrorKind::InvalidData,
                        "executable length changed during read"@,
                    )
                },
            },
    {
        if self.total != self.length {
            return Err(Error::new(ErrorKind::InvalidData, "executable length changed during read"));
        }
        Ok(self.hasher.finish())
    }
}

/// Whether an open file can be copied as an executable.
pub open spec fn is_source(held: Held, euid: u32) -> bool {
    let mode = held.snapshot.identity.mode;
    &&& held.kind == HeldKind::File
    &&& held.snapshot.links == 1
    &&& held.snapshot.identity.uid == euid
    &&& mode & 0o7022 == 0
    &&& mode & 0o500 == 0o500
    &&& 0 < held.snapshot.bytes <= installation::MAX_BINARY
}

/// Takes an open file as the executable to copy.
pub fn accept_source(held: &Held, euid: u32) -> (result: Result<Snapshot, Error>)
    ensures
        match result {
            Ok(snapshot) => is_source(*held, euid) && !held.extended_acl && snapshot
                == held.snapshot,
            Err(error) => {
                ||| !is_source(*held, euid) && error.says(
                    ErrorKind::InvalidData,
                    "source must be a nonempty, bounded, user-owned, singly linked executable without special bits or group/other write permission"@,
                )
                ||| is_source(*held, euid) && held.extended_acl && error.says(
                    ErrorKind::InvalidData,
                    "extended ACLs are not permitted on managed artifacts or source"@,
                )
            },
        },
{
    let mode: u32 = held.snapshot.identity.mode;
    if held.kind != HeldKind::File || held.snapshot.links != 1 || held.snapshot.identity.uid
        != euid || mode & 0o7022 != 0 || mode & 0o500 != 0o500 || held.snapshot.bytes == 0
        || held.snapshot.bytes > installation::MAX_BINARY {
        return Err(
            Error::new(
                ErrorKind::InvalidData,
                "source must be a nonempty, bounded, user-owned, singly linked executable without special bits or group/other write permission",
            ),
        );
    }
    if held.extended_acl {
        return Err(
            Error::new(
                ErrorKind::InvalidData,
                "extended ACLs are not permitted on managed artifacts or source",
            ),
        );
    }
    Ok(held.snapshot)
}

/// What is observed of an accepted source when it is read again.
#[derive(Debug)]
pub struct SourceLook {
    pub before: Snapshot,
    pub extended_acl: bool,
    pub digest: Result<String, Error>,
    pub after: Snapshot,
}

/// Why a source is no longer the one that was previewed.
pub open spec fn source_fault(
    look: SourceLook,
    snapshot: Snapshot,
    expected: Seq<char>,
) -> Option<(ErrorKind, Seq<char>)> {
    if look.before != snapshot {
        Some(
            (ErrorKind::InvalidData, "source identity or metadata changed since preview"@),
        )
    } else if look.extended_acl {
        Some(
            (
                ErrorKind::InvalidData,
                "extended ACLs are not permitted on managed artifacts or source"@,
            ),
        )
    } else {
        match look.digest {
            Err(error) => Some((error.kind, error.message@)),
            Ok(digest) => if digest@ != expected || look.after != snapshot {
                Some((ErrorKind::InvalidData, "source content or metadata changed during copy"@))
            } else {
                None
            },
        }
    }
}

/// Refuses a source that is no longer the one that was previewed.
pub fn source_unchanged(look: SourceLook, snapshot: &Snapshot, expected: &str) -> (result: Result<
    (),
    Error,
>)
    ensures
        match result {
            Ok(()) => source_fault(look, *snapshot, expected@) is None,
            Err(error) => source_fault(look, *snapshot, expected@) == Some(
                (error.kind, error.message@),
            ),
        },
{
    if look.before != *snapshot {
        return Err(
            Error::new(
                ErrorKind::InvalidData,
                "source identity or metadata changed since preview",
            ),
        );
    }
    if look.extended_acl {
        return Err(
            Error::new(
                ErrorKind::InvalidData,
                "extended ACLs are not permitted on managed artifacts or source",
            ),
        );
    }
    match look.digest {
        Err(error) => Err(error),
        Ok(digest) => if !text::text_eq(digest.as_str(), expected) || look.after != *snapshot {
            Err(
                Error::new(
                    ErrorKind::InvalidData,
                    "source content or metadata changed during copy",
                ),
            )
        } else {
            Ok(())
        },
    }
}

/// The ownership manifest of a package.
#[derive(Clone, Debug)]
pub struct Receipt {
    pub schema_version: u32,
    pub profile: String,
    pub version: String,
    pub sha256: String,
    pub executable_bytes: u64,
    pub prefix: Identity,
    pub bin: Identity,
    pub executable: Identity,
    pub manifest: Identity,
    pub lock: Identity,
    pub target_os: Option<String>,
    pub target_arch: Option<String>,
    pub min_macos: Option<String>,
    pub ownership_layout: Option<String>,
    pub lifecycle_contract: Option<String>,
}

/// Whether a text is a digest as the manifest spells it.
pub fn digest_valid(digest: &str) -> (valid: bool)
    ensures
        valid == digest::is_digest_text(digest@),
{
    let count: usize = digest.unicode_len();
    let mut i: usize = 0;
    while i < count
        invariant
            0 <= i <= count,
            count == digest@.len(),
            forall|j: int| 0 <= j < i ==> digest::is_hex_digit(#[trigger] digest@[j]),
        decreases count - i,
    {
        let c: char = digest.get_char(i);
        if !(('0' <= c && c <= '9') || ('a' <= c && c <= 'f')) {
            assert(!digest::is_hex_digit(digest@[i as int]));
            return false;
        }
        i += 1;
    }
    count == 64
}

impl Receipt {
    /// Whether the fields that belong to the manifest's layout are there.
    pub open spec fn layout_fits(self) -> bool {
        if self.schema_version == 1 {
            self.profile@ == "dedicated-macos-v1"@
        } else if self.schema_version == 2 {
            &&& self.profile@ == "dedicated-macos-v2"@
            &&& text::opt_text(self.target_os) == Some("macos"@)
            &&& self.target_arch is Some
            &&& self.min_macos is Some
            &&& text::opt_text(self.ownership_layout) == Some("dedicated-macos-v2"@)
            &&& text::opt_text(self.lifecycle_contract) == Some("local-update-recover-v1"@)
        } else {
            false
        }
    }

    /// Whether this is a manifest that the engine wrote.
    pub open spec fn is_valid(self) -> bool {
        &&& version::is_version(self.version@)
        &&& digest::is_digest_text(self.sha256@)
        &&& 0 < self.executable_bytes <= installation::MAX_BINARY
        &&& self.layout_fits()
    }

    pub fn validate(&self) -> (result: Result<(), Error>)
        ensures
            result is Ok <==> self.is_valid(),
            result matches Err(error) ==> error.says(
                ErrorKind::InvalidData,
                "unsupported or malformed ownership manifest"@,
            ),
    {
        let common: bool = version::version_valid(self.version.as_str()) && digest_valid(
            self.sha256.as_str(),
        ) && self.executable_bytes != 0 && self.executable_bytes <= installation::MAX_BINARY;
        let schema_ok: bool = if self.schema_version == 1 {
            text::text_eq(self.profile.as_str(), "dedicated-macos-v1")
        } else if self.schema_version == 2 {
            text::text_eq(self.profile.as_str(), "dedicated-macos-v2") && text::opt_text_is(
                &self.target_os,
                "macos",
            ) && self.target_arch.is_some() && self.min_macos.is_some() && text::opt_text_is(
                &self.ownership_layout,
                "dedicated-macos-v2",
            ) && text::opt_text_is(&self.lifecycle_contract, "local-update-recover-v1")
        } else {
            false
        };
        if !common || !schema_ok {
            return Err(
                Error::new(ErrorKind::InvalidData, "unsupported or malformed ownership manifest"),
            );
        }
        Ok(())
    }

    /// Whether `metadata` is what the manifest says of the installed image; an old manifest
    /// leaves the target to the running program.
    pub open spec fn is_shown_as(
        self,
        source_trust: Seq<char>,
        running_arch: Seq<char>,
        metadata: ArtifactMetadata,
    ) -> bool {
        &&& metadata.version == self.version
        &&& metadata.sha256 == self.sha256
        &&& metadata.executable_bytes == self.executable_bytes
        &&& metadata.target_os@ == or_text(self.target_os, "macos"@)
        &&& metadata.target_arch@ == or_text(self.target_arch, running_arch)
        &&& metadata.min_macos == self.min_macos
        &&& metadata.ownership_layout@ == or_text(self.ownership_layout, "dedicated-macos-v1"@)
        &&& metadata.lifecycle_contract@ == or_text(self.lifecycle_contract, "local-install-v1"@)
        &&& metadata.source_trust@ == source_trust
    }

    /// What the manifest says of the installed image.
    pub fn metadata(&self, source_trust: &str, running_arch: &str) -> (metadata: ArtifactMetadata)
        ensures
            self.is_shown_as(source_trust@, running_arch@, metadata),
    {
        ArtifactMetadata {
            version: self.version.clone(),
            sha256: self.sha256.clone(),
            executable_bytes: self.executable_bytes,
            target_os: text_or(&self.target_os, "macos"),
            target_arch: text_or(&self.target_arch, running_arch),
            min_macos: match &self.min_macos {
                Some(value) => Some(value.clone()),
                None => None,
            },
            ownership_layout: text_or(&self.ownership_layout, "dedicated-macos-v1"),
            lifecycle_contract: text_or(&self.lifecycle_contract, "local-install-v1"),
            source_trust: source_trust.to_owned(),
        }
    }

    /// What an operation on the installed image would do.
    pub fn preview(&self, prefix: &[u8], action: Action, running_arch: &str) -> (preview: Preview)
        ensures
            preview.action == action,
            preview.prefix@ == prefix@,
            preview.executable@ == path::joined(prefix@, executable_name()),
            preview.version == self.version,
            preview.sha256 == self.sha256,
            preview.executable_bytes == self.executable_bytes,
            !preview.already_installed,
            preview.current matches Some(current) && self.is_shown_as(
                "owned installed manifest"@,
                running_arch@,
                current,
            ),
            preview.candidate is None,
            preview.can_execute,
            preview.decision is None,
    {
        Preview {
            action,
            prefix: text::copy_bytes(prefix),
            executable: executable_below(prefix),
            version: self.version.clone(),
            sha256: self.sha256.clone(),
            executable_bytes: self.executable_bytes,
            already_installed: false,
            current: Some(self.metadata("owned installed manifest", running_arch)),
            candidate: None,
            can_execute: true,
            decision: None,
        }
    }
}

/// `bin/sayaka`.
pub open spec fn executable_name() -> Seq<u8> {
    seq![98u8, 105u8, 110u8, 47u8, 115u8, 97u8, 121u8, 97u8, 107u8, 97u8]
}

/// The executable of a package below its prefix.
pub fn executable_below(prefix: &[u8]) -> (path: Vec<u8>)
    ensures
        path@ == path::joined(prefix@, executable_name()),
{
    let name: [u8; 10] = [98, 105, 110, 47, 115, 97, 121, 97, 107, 97];
    assert(name@ =~= executable_name());
    path::join(prefix, &name)
}

/// The text of a field, or what stands in for it.
pub open spec fn or_text(value: Option<String>, other: Seq<char>) -> Seq<char> {
    match value {
        Some(text) => text@,
        None => other,
    }
}

fn copy_text(value: &Option<String>) -> (copy: Option<String>)
    ensures
        copy == *value,
{
    match value {
        Some(text) => Some(text.clone()),
        None => None,
    }
}

fn text_or(value: &Option<String>, other: &str) -> (text: String)
    ensures
        text@ == or_text(*value, other@),
{
    match value {
        Some(text) => text.clone(),
        None => other.to_owned(),
    }
}

/// The manifest of a fresh installation: only a verified Mach-O image for this machine
/// gets the layout that updates rely on.
pub open spec fn writes_second_layout(target: TargetMetadata, running_arch: Seq<char>) -> bool {
    &&& target.verified_macho
    &&& target.target_os@ == "macos"@
    &&& target.target_arch@ == running_arch
    &&& target.min_macos is Some
}

/// The identities of a package's files.
#[derive(Clone, Copy, Debug, PartialEq, Eq, Structural)]
pub struct PackageIdentities {
    pub prefix: Identity,
    pub bin: Identity,
    pub executable: Identity,
    pub manifest: Identity,
    pub lock: Identity,
}

impl Receipt {
    /// A copy of the manifest.
    pub fn copy(&self) -> (copy: Receipt)
        ensures
            copy == *self,
    {
        Receipt {
            schema_version: self.schema_version,
            profile: self.profile.clone(),
            version: self.version.clone(),
            sha256: self.sha256.clone(),
            executable_bytes: self.executable_bytes,
            prefix: self.prefix,
            bin: self.bin,
            executable: self.executable,
            manifest: self.manifest,
            lock: self.lock,
            target_os: copy_text(&self.target_os),
            target_arch: copy_text(&self.target_arch),
            min_macos: copy_text(&self.min_macos),
            ownership_layout: copy_text(&self.ownership_layout),
            lifecycle_contract: copy_text(&self.lifecycle_contract),
        }
    }

    pub open spec fn identities(self) -> PackageIdentities {
        PackageIdentities {
            prefix: self.prefix,
            bin: self.bin,
            executable: self.executable,
            manifest: self.manifest,
            lock: self.lock,
        }
    }
}

/// The manifest that a fresh installation writes.
pub fn new_receipt(
    preview: &Preview,
    target: &TargetMetadata,
    running_arch: &str,
    identities: &PackageIdentities,
) -> (receipt: Receipt)
    ensures
        receipt.version == preview.version,
        receipt.sha256 == preview.sha256,
        receipt.executable_bytes == preview.executable_bytes,
        receipt.identities() == *identities,
        receipt.layout_fits(),
        receipt.schema_version == if writes_second_layout(*target, running_arch@) {
            2u32
        } else {
            1u32
        },
        receipt.schema_version == 2 ==> text::opt_text(receipt.target_arch) == Some(
            target.target_arch@,
        ) && receipt.min_macos == target.min_macos,
        receipt.schema_version == 1 ==> receipt.target_os is None && receipt.target_arch is None
            && receipt.min_macos is None && receipt.ownership_layout is None
            && receipt.lifecycle_contract is None,
        receipt.is_valid() <==> version::is_version(preview.version@) && digest::is_digest_text(
            preview.sha256@,
        ) && 0 < preview.executable_bytes <= installation::MAX_BINARY,
{
    let second: bool = target.verified_macho && text::text_eq(target.target_os.as_str(), "macos")
        && text::text_eq(target.target_arch.as_str(), running_arch) && target.min_macos.is_some();
    if second {
        Receipt {
            schema_version: 2,
            profile: "dedicated-macos-v2".to_owned(),
            version: preview.version.clone(),
            sha256: preview.sha256.clone(),
            executable_bytes: preview.executable_bytes,
            prefix: identities.prefix,
            bin: identities.bin,
            executable: identities.executable,
            manifest: identities.manifest,
            lock: identities.lock,
            target_os: Some(target.target_os.clone()),
            target_arch: Some(target.target_arch.clone()),
            min_macos: match &target.min_macos {
                Some(value) => Some(value.clone()),
                None => None,
            },
            ownership_layout: Some("dedicated-macos-v2".to_owned()),
            lifecycle_contract: Some("local-update-recover-v1".to_owned()),
        }
    } else {
        Receipt {
            schema_version: 1,
            profile: "dedicated-macos-v1".to_owned(),
            version: preview.version.clone(),
            sha256: preview.sha256.clone(),
            executable_bytes: preview.executable_bytes,
            prefix: identities.prefix,
            bin: identities.bin,
            executable: identities.executable,
            manifest: identities.manifest,
            lock: identities.lock,
            target_os: None,
            target_arch: None,
            min_macos: None,
            ownership_layout: None,
            lifecycle_contract: None,
        }
    }
}

/// The manifest that an update writes over the current one.
pub fn updated_receipt(
    current: &Receipt,
    candidate: &ArtifactMetadata,
    executable: Identity,
    manifest: Identity,
) -> (receipt: Receipt)
    ensures
        receipt.schema_version == 2,
        receipt.profile@ == "dedicated-macos-v2"@,
        receipt.version == candidate.version,
        receipt.sha256 == candidate.sha256,
        receipt.executable_bytes == candidate.executable_bytes,
        receipt.prefix == current.prefix,
        receipt.bin == current.bin,
        receipt.lock == current.lock,
        receipt.executable == executable,
        receipt.manifest == manifest,
        receipt.target_os == Some(candidate.target_os),
        receipt.target_arch == Some(candidate.target_arch),
        receipt.min_macos == candidate.min_macos,
        text::opt_text(receipt.ownership_layout) == Some("dedicated-macos-v2"@),
        text::opt_text(receipt.lifecycle_contract) == Some("local-update-recover-v1"@),
        receipt.is_valid() <==> version::is_version(candidate.version@) && digest::is_digest_text(
            candidate.sha256@,
        ) && 0 < candidate.executable_bytes <= installation::MAX_BINARY && candidate.target_os@
            == "macos"@ && candidate.min_macos is Some,
{
    Receipt {
        schema_version: 2,
        profile: "dedicated-macos-v2".to_owned(),
        version: candidate.version.clone(),
        sha256: candidate.sha256.clone(),
        executable_bytes: candidate.executable_bytes,
        prefix: current.prefix,
        bin: current.bin,
        executable,
        manifest,
        lock: current.lock,
        target_os: Some(candidate.target_os.clone()),
        target_arch: Some(candidate.target_arch.clone()),
        min_macos: match &candidate.min_macos {
            Some(value) => Some(value.clone()),
            None => None,
        },
        ownership_layout: Some("dedicated-macos-v2".to_owned()),
        lifecycle_contract: Some("local-update-recover-v1".to_owned()),
    }
}

/// Length and blocks of one managed file.
#[derive(Clone, Copy, Debug, PartialEq, Eq, Structural)]
pub struct FileSize {
    pub bytes: u64,
    pub blocks: u64,
}

/// Which sum is too large once a file is added to the sums so far: first its length, then
/// its blocks of 512 bytes.
pub open spec fn size_fault(logical: int, allocated: int, size: FileSize) -> Option<Seq<char>> {
    if logical + size.bytes > u64::MAX {
        Some("logical footprint overflow"@)
    } else if allocated + 512 * size.blocks > u64::MAX {
        Some("allocated footprint overflow"@)
    } else {
        None
    }
}

/// Why the space that the three managed files take cannot be told.
pub open spec fn footprint_fault(executable: FileSize, manifest: FileSize, lock: FileSize) -> Option<
    Seq<char>,
> {
    if let Some(message) = size_fault(0, 0, executable) {
        Some(message)
    } else if let Some(message) = size_fault(
        executable.bytes as int,
        512 * executable.blocks,
        manifest,
    ) {
        Some(message)
    } else {
        size_fault(
            executable.bytes + manifest.bytes,
            512 * (executable.blocks + manifest.blocks),
            lock,
        )
    }
}

/// The space that the three managed files take: their lengths and their blocks of 512
/// bytes.
pub fn footprint(executable: FileSize, manifest: FileSize, lock: FileSize) -> (result: Result<
    (u64, u64),
    Error,
>)
    ensures
        match result {
            Ok((logical, allocated)) => {
                &&& footprint_fault(executable, manifest, lock) is None
                &&& logical == executable.bytes + manifest.bytes + lock.bytes
                &&& allocated == 512 * (executable.blocks + manifest.blocks + lock.blocks)
            },
            Err(error) => error.kind == ErrorKind::InvalidData && footprint_fault(
                executable,
                manifest,
                lock,
            ) == Some(error.message@),
        },
{
    let (logical, allocated): (u64, u64) = match add_size(0, 0, executable) {
        Ok(sums) => sums,
        Err(error) => {
            return Err(error);
        },
    };
    let (logical, allocated): (u64, u64) = match add_size(logical, allocated, manifest) {
        Ok(sums) => sums,
        Err(error) => {
            return Err(error);
        },
    };
    add_size(logical, allocated, lock)
}

fn add_size(logical: u64, allocated: u64, size: FileSize) -> (result: Result<(u64, u64), Error>)
    ensures
        match result {
            Ok(sums) => {
                &&& size_fault(logical as int, allocated as int, size) is None
                &&& sums.0 == logical + size.bytes
                &&& sums.1 == allocated + 512 * size.blocks
            },
            Err(error) => error.kind == ErrorKind::InvalidData && size_fault(
                logical as int,
                allocated as int,
                size,
            ) == Some(error.message@),
        },
{
    let sum: u64 = match logical.checked_add(size.bytes) {
        Some(sum) => sum,
        None => {
            return Err(Error::new(ErrorKind::InvalidData, "logical footprint overflow"));
        },
    };
    let blocks: u64 = match size.blocks.checked_mul(512) {
        Some(blocks) => blocks,
        None => {
            return Err(Error::new(ErrorKind::InvalidData, "allocated footprint overflow"));
        },
    };
    match allocated.checked_add(blocks) {
        Some(total) => Ok((sum, total)),
        None => Err(Error::new(ErrorKind::InvalidData, "allocated footprint overflow")),
    }
}

} // verus!
