//! What is held open of a managed package while it is read, locked and hashed.

use crate::error::{Error, ErrorKind};
use crate::installation;
use crate::installation::{Held, Identity, Snapshot};
use crate::lifecycle;
use crate::lifecycle::LifecycleRecord;
use crate::macho::TargetMetadata;
use crate::package;
use crate::package::Receipt;
use crate::path;
use crate::plan;
use crate::plan::SourceImage;
use crate::recover::Fault;
use crate::verify;
use crate::verify::{HeldPackage, PackageLook};
use vstd::prelude::*;
use vstd::string::*;

verus! {

/// Why a directory is not the one that was opened: neither its name nor its handle may lead
/// elsewhere.
pub open spec fn moved_fault(
    recorded: Identity,
    named: Result<Identity, Error>,
    held: Result<Identity, Error>,
) -> Option<Fault> {
    match (named, held) {
        (Err(error), _) => Some(lifecycle::fault_of(error)),
        (Ok(named), _) if named != recorded => verify::invalid(
            "prefix parent changed since preparation"@,
        ),
        (_, Err(error)) => Some(lifecycle::fault_of(error)),
        (_, Ok(held)) => if held != recorded {
            verify::invalid("prefix parent changed since preparation"@)
        } else {
            None
        },
    }
}

/// Refuses a parent directory that is no longer the one that was opened.
pub fn parent_unchanged(
    recorded: Identity,
    named: &Result<Identity, Error>,
    held: &Result<Identity, Error>,
) -> (result: Result<(), Error>)
    ensures
        verify::reports(result, moved_fault(recorded, *named, *held)),
{
    match named {
        Err(error) => {
            return Err(lifecycle::pass_on(error));
        },
        Ok(named) => {
            if *named != recorded {
                return Err(
                    Error::new(ErrorKind::InvalidData, "prefix parent changed since preparation"),
                );
            }
        },
    }
    match held {
        Err(error) => Err(lifecycle::pass_on(error)),
        Ok(held) => if *held != recorded {
            Err(Error::new(ErrorKind::InvalidData, "prefix parent changed since preparation"))
        } else {
            Ok(())
        },
    }
}

/// Refuses a name that is taken. `named` says whether the name leads anywhere.
pub fn require_absent(named: &Result<bool, Error>) -> (result: Result<(), Error>)
    ensures
        match *named {
            Err(error) => result == Err::<(), Error>(error),
            Ok(true) => result matches Err(error) && error.says(
                ErrorKind::AlreadyExists,
                "prefix or recovery location already exists; never overwritten"@,
            ),
            Ok(false) => result is Ok,
        },
{
    match named {
        Err(error) => Err(lifecycle::pass_on(error)),
        Ok(taken) => if *taken {
            Err(
                Error::new(
                    ErrorKind::AlreadyExists,
                    "prefix or recovery location already exists; never overwritten",
                ),
            )
        } else {
            Ok(())
        },
    }
}

/// What is observed of an executable that is to be copied.
#[derive(Debug)]
pub struct SourceOpenLook {
    pub target: Result<TargetMetadata, Error>,
    pub held: Result<Held, Error>,
    pub digest: Result<String, Error>,
    /// Its metadata after it was read.
    pub after: Result<Snapshot, Error>,
}

/// Why an executable is not accepted for copying.
pub open spec fn source_open_fault(look: SourceOpenLook, euid: u32) -> Option<Fault> {
    match (look.target, look.held) {
        (Err(error), _) => Some(lifecycle::fault_of(error)),
        (_, Err(error)) => Some(lifecycle::fault_of(error)),
        (Ok(_), Ok(held)) => if !package::is_source(held, euid) {
            verify::invalid(
                "source must be a nonempty, bounded, user-owned, singly linked executable without special bits or group/other write permission"@,
            )
        } else if held.extended_acl {
            verify::invalid("extended ACLs are not permitted on managed artifacts or source"@)
        } else {
            match (look.digest, look.after) {
                (Err(error), _) => Some(lifecycle::fault_of(error)),
                (_, Err(error)) => Some(lifecycle::fault_of(error)),
                (Ok(_), Ok(after)) => if after != held.snapshot {
                    verify::invalid("source metadata changed while hashing"@)
                } else {
                    None
                },
            }
        },
    }
}

/// Takes an executable for copying: its shape, its digest and where it runs.
pub fn open_source(look: SourceOpenLook, euid: u32, shown: &str) -> (result: Result<
    SourceImage,
    Error,
>)
    ensures
        match result {
            Ok(source) => {
                &&& source_open_fault(look, euid) is None
                &&& look.digest == Ok::<String, Error>(source.digest)
                &&& look.target == Ok::<TargetMetadata, Error>(source.target)
                &&& look.held matches Ok(held) && source.bytes == held.snapshot.bytes
                &&& source.display@ == shown@
            },
            Err(error) => source_open_fault(look, euid) == Some(lifecycle::fault_of(error)),
        },
{
    let target: TargetMetadata = match look.target {
        Ok(target) => target,
        Err(error) => {
            return Err(error);
        },
    };
    let held: Held = match look.held {
        Ok(held) => held,
        Err(error) => {
            return Err(error);
        },
    };
    let snapshot: Snapshot = match package::accept_source(&held, euid) {
        Ok(snapshot) => snapshot,
        Err(error) => {
            return Err(error);
        },
    };
    let digest: String = match look.digest {
        Ok(digest) => digest,
        Err(error) => {
            return Err(error);
        },
    };
    match look.after {
        Err(error) => Err(error),
        Ok(after) => if after != snapshot {
            Err(Error::new(ErrorKind::InvalidData, "source metadata changed while hashing"))
        } else {
            Ok(
                SourceImage {
                    digest,
                    bytes: snapshot.bytes,
                    target,
                    display: shown.to_owned(),
                },
            )
        },
    }
}

/// What is observed of a small private file that is read whole.
#[derive(Debug)]
pub struct FileRead {
    pub held: Held,
    /// How many bytes were read; at most one more than the bound.
    pub length: Result<u64, Error>,
    /// Its metadata after it was read.
    pub after: Result<Snapshot, Error>,
}

/// Why a small private file cannot be taken as it was read.
pub open spec fn read_fault(
    read: FileRead,
    euid: u32,
    bound: u64,
    too_large: Seq<char>,
    changed: Seq<char>,
) -> Option<Fault> {
    match installation::shape_fault(read.held, euid, false, 0o600) {
        Some(message) => verify::invalid(message),
        None => if read.held.snapshot.bytes > bound {
            verify::invalid(too_large)
        } else {
            match (read.length, read.after) {
                (Err(error), _) => Some(lifecycle::fault_of(error)),
                (Ok(length), _) if length > bound => verify::invalid(changed),
                (_, Err(error)) => Some(lifecycle::fault_of(error)),
                (_, Ok(after)) => if after != read.held.snapshot {
                    verify::invalid(changed)
                } else {
                    None
                },
            }
        },
    }
}

fn take_read(read: &FileRead, euid: u32, bound: u64, too_large: &str, changed: &str) -> (result:
    Result<(), Error>)
    ensures
        verify::reports(result, read_fault(*read, euid, bound, too_large@, changed@)),
{
    if let Err(error) = installation::check(&read.held, euid, false, 0o600) {
        return Err(error);
    }
    if read.held.snapshot.bytes > bound {
        return Err(Error::new(ErrorKind::InvalidData, too_large));
    }
    match &read.length {
        Err(error) => {
            return Err(lifecycle::pass_on(error));
        },
        Ok(length) => {
            if *length > bound {
                return Err(Error::new(ErrorKind::InvalidData, changed));
            }
        },
    }
    match &read.after {
        Err(error) => Err(lifecycle::pass_on(error)),
        Ok(after) => if *after != read.held.snapshot {
            Err(Error::new(ErrorKind::InvalidData, changed))
        } else {
            Ok(())
        },
    }
}

/// What is observed of a lifecycle record.
#[derive(Debug)]
pub struct LifecycleRead {
    pub file: Result<FileRead, Error>,
    /// The bytes as a record.
    pub parsed: Result<LifecycleRecord, Error>,
}

/// Why a lifecycle record cannot be taken; one that is not there is no fault.
pub open spec fn lifecycle_fault(read: LifecycleRead, euid: u32) -> Option<Fault> {
    match read.file {
        Err(error) => if error.kind == ErrorKind::NotFound {
            None
        } else {
            Some(lifecycle::fault_of(error))
        },
        Ok(file) => verify::first(
            read_fault(
                file,
                euid,
                installation::MAX_LIFECYCLE,
                "lifecycle record exceeds size bound"@,
                "lifecycle record changed during read"@,
            ),
            verify::fault(read.parsed),
        ),
    }
}

/// The lifecycle record, if there is one.
pub fn read_lifecycle(read: LifecycleRead, euid: u32) -> (result: Result<
    Option<LifecycleRecord>,
    Error,
>)
    ensures
        match result {
            Ok(None) => read.file matches Err(error) && error.kind == ErrorKind::NotFound,
            Ok(Some(record)) => {
                &&& read.file is Ok
                &&& lifecycle_fault(read, euid) is None
                &&& read.parsed == Ok::<LifecycleRecord, Error>(record)
            },
            Err(error) => lifecycle_fault(read, euid) == Some(lifecycle::fault_of(error)),
        },
{
    match read.file {
        Err(error) => if error.kind == ErrorKind::NotFound {
            Ok(None)
        } else {
            Err(error)
        },
        Ok(file) => {
            if let Err(error) = take_read(
                &file,
                euid,
                installation::MAX_LIFECYCLE,
                "lifecycle record exceeds size bound",
                "lifecycle record changed during read",
            ) {
                return Err(error);
            }
            match read.parsed {
                Ok(record) => Ok(Some(record)),
                Err(error) => Err(error),
            }
        },
    }
}

/// Refuses to write a lifecycle record over an unfinished one, or one that no reader would
/// take. `marker` says whether an unfinished record is there.
pub fn admit_lifecycle(marker: &Result<bool, Error>, length: &Result<u64, Error>) -> (result: Result<
    (),
    Error,
>)
    ensures
        verify::reports(
            result,
            match (*marker, *length) {
                (Err(error), _) => Some(lifecycle::fault_of(error)),
                (Ok(true), _) => verify::invalid(
                    "lifecycle next marker already exists; explicit recovery is required"@,
                ),
                (_, Err(error)) => Some(lifecycle::fault_of(error)),
                (_, Ok(length)) => if length > installation::MAX_LIFECYCLE {
                    verify::invalid("lifecycle record exceeds size bound"@)
                } else {
                    None
                },
            },
        ),
{
    match marker {
        Err(error) => {
            return Err(lifecycle::pass_on(error));
        },
        Ok(there) => {
            if *there {
                return Err(
                    Error::new(
                        ErrorKind::InvalidData,
                        "lifecycle next marker already exists; explicit recovery is required",
                    ),
                );
            }
        },
    }
    match length {
        Err(error) => Err(lifecycle::pass_on(error)),
        Ok(length) => if *length > installation::MAX_LIFECYCLE {
            Err(Error::new(ErrorKind::InvalidData, "lifecycle record exceeds size bound"))
        } else {
            Ok(())
        },
    }
}

/// Refuses to write a manifest that no reader would take.
pub fn fit_manifest(length: u64, update: bool) -> (result: Result<(), Error>)
    ensures
        verify::reports(
            result,
            if length <= installation::MAX_MANIFEST {
                None
            } else if update {
                verify::invalid("generated update manifest exceeds size bound"@)
            } else {
                verify::invalid("generated manifest exceeds size bound"@)
            },
        ),
{
    if length <= installation::MAX_MANIFEST {
        Ok(())
    } else if update {
        Err(Error::new(ErrorKind::InvalidData, "generated update manifest exceeds size bound"))
    } else {
        Err(Error::new(ErrorKind::InvalidData, "generated manifest exceeds size bound"))
    }
}

/// The digest of the installed executable, if it did not change while it was read.
pub fn executable_digest(
    before: Snapshot,
    digest: Result<String, Error>,
    after: Result<Snapshot, Error>,
) -> (result: Result<String, Error>)
    ensures
        match (digest, after) {
            (Err(error), _) => result == Err::<String, Error>(error),
            (_, Err(error)) => result == Err::<String, Error>(error),
            (Ok(digest), Ok(after)) => if after == before {
                result == Ok::<String, Error>(digest)
            } else {
                result matches Err(error) && error.says(
                    ErrorKind::InvalidData,
                    "installed executable changed while collecting recovery evidence"@,
                )
            },
        },
{
    let digest: String = match digest {
        Ok(digest) => digest,
        Err(error) => {
            return Err(error);
        },
    };
    match after {
        Err(error) => Err(error),
        Ok(after) => if after != before {
            Err(
                Error::new(
                    ErrorKind::InvalidData,
                    "installed executable changed while collecting recovery evidence",
                ),
            )
        } else {
            Ok(digest)
        },
    }
}

/// What is observed while a package is opened, in the order in which it is looked at.
#[derive(Debug)]
pub struct OpenLook {
    pub root: Result<Held, Error>,
    /// Whether the package holds an update guard.
    pub guard_named: Result<bool, Error>,
    pub root_entries: Result<Vec<Vec<u8>>, Error>,
    pub lock: Result<Held, Error>,
    /// What came of locking the package.
    pub locked: Result<(), String>,
    pub bin: Result<Held, Error>,
    pub executable: Result<Held, Error>,
    pub guard: Result<Held, Error>,
    pub manifest: Result<FileRead, Error>,
    /// The manifest's bytes as a manifest.
    pub parsed: Result<Receipt, Error>,
    /// The metadata of the guard, the executable and the lock, once all are open.
    pub guard_now: Result<Snapshot, Error>,
    pub executable_now: Result<Snapshot, Error>,
    pub lock_now: Result<Snapshot, Error>,
    /// What the verification of the whole package sees.
    pub package: PackageLook,
}

/// Why an open file is not the artifact that it should be.
pub open spec fn held_fault(held: Result<Held, Error>, euid: u32, directory: bool, mode: u32) -> Option<
    Fault,
> {
    match held {
        Err(error) => Some(lifecycle::fault_of(error)),
        Ok(held) => match installation::shape_fault(held, euid, directory, mode) {
            Some(message) => verify::invalid(message),
            None => None,
        },
    }
}

/// Why the directory of a package, or its lock, cannot be taken.
pub open spec fn claim_fault(look: OpenLook, euid: u32) -> Option<Fault> {
    verify::first(
        held_fault(look.root, euid, true, 0o700),
        verify::first(
            verify::fault(look.guard_named),
            verify::first(
                verify::listing_fault(
                    look.root_entries,
                    verify::expected_names(0, look.guard_named->Ok_0),
                ),
                verify::first(
                    held_fault(look.lock, euid, false, 0o600),
                    match look.locked {
                        Ok(_) => None,
                        Err(reason) => Some(
                            (
                                ErrorKind::WouldBlock,
                                "installation is busy or cannot be locked: "@ + reason@,
                            ),
                        ),
                    },
                ),
            ),
        ),
    )
}

/// Why the update guard of a package cannot be taken; a package may have none.
pub open spec fn guard_open_fault(guard: Result<Held, Error>, euid: u32) -> Option<Fault> {
    match guard {
        Err(error) if error.kind == ErrorKind::NotFound => None,
        _ => held_fault(guard, euid, false, 0o600),
    }
}

/// Why the manifest of a package cannot be taken.
pub open spec fn manifest_fault(look: OpenLook, euid: u32) -> Option<Fault> {
    verify::first(
        match look.manifest {
            Err(error) => Some(lifecycle::fault_of(error)),
            Ok(read) => read_fault(
                read,
                euid,
                installation::MAX_MANIFEST,
                "ownership manifest exceeds size bound"@,
                "ownership manifest changed during read"@,
            ),
        },
        match look.parsed {
            Err(error) => Some(lifecycle::fault_of(error)),
            Ok(receipt) => if receipt.is_valid() {
                None
            } else {
                verify::invalid("unsupported or malformed ownership manifest"@)
            },
        },
    )
}

/// Why the files of a package cannot be taken.
pub open spec fn files_fault(look: OpenLook, euid: u32) -> Option<Fault> {
    verify::first(
        held_fault(look.bin, euid, true, 0o700),
        verify::first(
            held_fault(look.executable, euid, false, 0o700),
            verify::first(
                guard_open_fault(look.guard, euid),
                verify::first(
                    manifest_fault(look, euid),
                    verify::first(
                        if look.guard is Ok {
                            verify::fault(look.guard_now)
                        } else {
                            None
                        },
                        verify::first(
                            verify::fault(look.executable_now),
                            verify::fault(look.lock_now),
                        ),
                    ),
                ),
            ),
        ),
    )
}

/// What is held of a package that could be opened.
pub open spec fn held_of(look: OpenLook) -> HeldPackage {
    HeldPackage {
        executable: look.executable_now->Ok_0,
        manifest: look.manifest->Ok_0.held.snapshot,
        lock: look.lock_now->Ok_0,
        guard: if look.guard is Ok {
            Some(look.guard_now->Ok_0)
        } else {
            None
        },
    }
}

/// The first fault of opening a package: it is claimed, read and verified, in this order.
pub open spec fn open_fault(look: OpenLook, require_payload_match: bool, euid: u32) -> Option<
    Fault,
> {
    verify::first(
        claim_fault(look, euid),
        verify::first(
            files_fault(look, euid),
            verify::package_fault(
                look.package,
                look.parsed->Ok_0,
                held_of(look),
                0,
                require_payload_match,
                euid,
            ),
        ),
    )
}

fn take_held(held: &Result<Held, Error>, euid: u32, directory: bool, mode: u32) -> (result: Result<
    (),
    Error,
>)
    requires
        mode < 4096,
    ensures
        verify::reports(result, held_fault(*held, euid, directory, mode)),
{
    match held {
        Err(error) => Err(lifecycle::pass_on(error)),
        Ok(held) => match installation::check(held, euid, directory, mode) {
            Err(error) => Err(error),
            Ok(_) => Ok(()),
        },
    }
}

fn claim(look: &OpenLook, euid: u32) -> (result: Result<(), Error>)
    ensures
        verify::reports(result, claim_fault(*look, euid)),
{
    if let Err(error) = take_held(&look.root, euid, true, 0o700) {
        return Err(error);
    }
    let guarded: bool = match &look.guard_named {
        Err(error) => {
            return Err(lifecycle::pass_on(error));
        },
        Ok(guarded) => *guarded,
    };
    if let Err(error) = verify::verify_listing(
        &look.root_entries,
        &verify::names_expected(0, guarded),
    ) {
        return Err(error);
    }
    if let Err(error) = take_held(&look.lock, euid, false, 0o600) {
        return Err(error);
    }
    match &look.locked {
        Ok(_) => Ok(()),
        Err(reason) => Err(plan::busy(reason.as_str())),
    }
}

fn read_manifest(look: &OpenLook, euid: u32) -> (result: Result<(), Error>)
    ensures
        verify::reports(result, manifest_fault(*look, euid)),
{
    match &look.manifest {
        Err(error) => {
            return Err(lifecycle::pass_on(error));
        },
        Ok(read) => {
            if let Err(error) = take_read(
                read,
                euid,
                installation::MAX_MANIFEST,
                "ownership manifest exceeds size bound",
                "ownership manifest changed during read",
            ) {
                return Err(error);
            }
        },
    }
    match &look.parsed {
        Err(error) => Err(lifecycle::pass_on(error)),
        Ok(receipt) => receipt.validate(),
    }
}

fn take_files(look: &OpenLook, euid: u32) -> (result: Result<HeldPackage, Error>)
    ensures
        match result {
            Ok(held) => files_fault(*look, euid) is None && held == held_of(*look),
            Err(error) => files_fault(*look, euid) == Some(lifecycle::fault_of(error)),
        },
{
    if let Err(error) = take_held(&look.bin, euid, true, 0o700) {
        return Err(error);
    }
    if let Err(error) = take_held(&look.executable, euid, false, 0o700) {
        return Err(error);
    }
    let guarded: bool = match &look.guard {
        Ok(_) => true,
        Err(error) => if error.kind == ErrorKind::NotFound {
            false
        } else {
            return Err(lifecycle::pass_on(error));
        },
    };
    if guarded {
        if let Err(error) = take_held(&look.guard, euid, false, 0o600) {
            return Err(error);
        }
    }
    if let Err(error) = read_manifest(look, euid) {
        return Err(error);
    }
    let manifest: Snapshot = match &look.manifest {
        Ok(read) => read.held.snapshot,
        Err(error) => {
            return Err(lifecycle::pass_on(error));
        },
    };
    let guard: Option<Snapshot> = if guarded {
        match &look.guard_now {
            Ok(snapshot) => Some(*snapshot),
            Err(error) => {
                return Err(lifecycle::pass_on(error));
            },
        }
    } else {
        None
    };
    let executable: Snapshot = match &look.executable_now {
        Ok(snapshot) => *snapshot,
        Err(error) => {
            return Err(lifecycle::pass_on(error));
        },
    };
    let lock: Snapshot = match &look.lock_now {
        Ok(snapshot) => *snapshot,
        Err(error) => {
            return Err(lifecycle::pass_on(error));
        },
    };
    Ok(HeldPackage { executable, manifest, lock, guard })
}

/// Opens a package: claims it, takes its files, and verifies it whole. A relaxed opening
/// does not ask that the executable is the recorded one.
pub fn open_package(look: OpenLook, require_payload_match: bool, euid: u32) -> (result: Result<
    (Receipt, HeldPackage),
    Error,
>)
    ensures
        match result {
            Ok(opened) => {
                &&& open_fault(look, require_payload_match, euid) is None
                &&& look.parsed == Ok::<Receipt, Error>(opened.0)
                &&& opened.0.is_valid()
                &&& opened.1 == held_of(look)
            },
            Err(error) => open_fault(look, require_payload_match, euid) == Some(
                lifecycle::fault_of(error),
            ),
        },
{
    if let Err(error) = claim(&look, euid) {
        return Err(error);
    }
    let held: HeldPackage = match take_files(&look, euid) {
        Ok(held) => held,
        Err(error) => {
            return Err(error);
        },
    };
    let receipt: Receipt = match look.parsed {
        Ok(receipt) => receipt,
        Err(error) => {
            return Err(error);
        },
    };
    if let Err(error) = verify::verify(
        &look.package,
        &receipt,
        &held,
        0,
        require_payload_match,
        euid,
    ) {
        return Err(error);
    }
    Ok((receipt, held))
}

/// An opened package is locked, described by a valid manifest, and exactly what that
/// manifest says.
pub proof fn opened_package_is_claimed_and_exact(look: OpenLook, euid: u32)
    requires
        open_fault(look, true, euid) is None,
    ensures
        look.locked is Ok,
        look.parsed is Ok,
        look.parsed->Ok_0.is_valid(),
        look.package.payload matches Ok(digest) && digest@ == look.parsed->Ok_0.sha256@,
        held_of(look).lock.bytes == 0,
        look.guard_named is Ok,
        look.root_entries matches Ok(entries) && installation::only_expected(
            installation::listed(path::views(entries@)),
            verify::expected_names(0, look.guard_named->Ok_0),
        ),
{
    verify::verified_package_is_exact(look.package, look.parsed->Ok_0, held_of(look), euid);
}

} // verus!
