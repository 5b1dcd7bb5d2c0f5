//! The verification of a whole managed package.

use crate::error::{Error, ErrorKind};
use crate::installation;
use crate::installation::{Held, Identity, NameEntry, Snapshot};
use crate::lifecycle;
use crate::package;
use crate::package::Receipt;
use crate::path;
use crate::recover::Fault;
use crate::text;
use vstd::prelude::*;
use vstd::string::*;

verus! {

/// What is observed of one managed file or directory.
#[derive(Debug)]
pub struct ArtifactLook {
    /// What its name leads to.
    pub entry: Result<NameEntry, Error>,
    /// What is open on it.
    pub held: Result<Held, Error>,
}

/// What is observed of a whole package.
#[derive(Debug)]
pub struct PackageLook {
    pub cancelled_before: bool,
    /// Whether the parent directory is still the one that was opened.
    pub parent_unchanged: Result<bool, Error>,
    pub root: ArtifactLook,
    pub root_entries: Result<Vec<Vec<u8>>, Error>,
    pub bin: ArtifactLook,
    pub bin_entries: Result<Vec<Vec<u8>>, Error>,
    pub executable: ArtifactLook,
    pub manifest: ArtifactLook,
    pub lock: ArtifactLook,
    pub guard: ArtifactLook,
    pub guard_present: Result<bool, Error>,
    /// The digest of the executable, and its metadata after it was read.
    pub payload: Result<String, Error>,
    pub executable_after: Snapshot,
    pub cancelled_after: bool,
}

/// The metadata of a package's files when it was opened.
#[derive(Clone, Copy, Debug)]
pub struct HeldPackage {
    pub executable: Snapshot,
    pub manifest: Snapshot,
    pub lock: Snapshot,
    pub guard: Option<Snapshot>,
}

/// The first of two faults.
pub open spec fn first(a: Option<Fault>, b: Option<Fault>) -> Option<Fault> {
    if a is Some {
        a
    } else {
        b
    }
}

pub open spec fn invalid(message: Seq<char>) -> Option<Fault> {
    Some((ErrorKind::InvalidData, message))
}

/// The fault that a result carries.
pub open spec fn fault<T>(result: Result<T, Error>) -> Option<Fault> {
    match result {
        Ok(_) => None,
        Err(error) => Some(lifecycle::fault_of(error)),
    }
}

/// The fault of a user who cancelled.
pub open spec fn cancel_fault(requested: bool) -> Option<Fault> {
    if requested {
        Some((ErrorKind::Interrupted, "operation cancelled"@))
    } else {
        None
    }
}

/// Why a name does not lead to an artifact of the given shape.
pub open spec fn artifact_fault(look: ArtifactLook, euid: u32, directory: bool, mode: u32) -> Option<
    Fault,
> {
    match (look.entry, look.held) {
        (Err(error), _) => Some(lifecycle::fault_of(error)),
        (_, Err(error)) => Some(lifecycle::fault_of(error)),
        (Ok(entry), Ok(held)) => if !installation::names(entry, held.snapshot.identity) {
            invalid("named artifact no longer matches its held descriptor"@)
        } else {
            match installation::shape_fault(held, euid, directory, mode) {
                Some(message) => invalid(message),
                None => None,
            }
        },
    }
}

/// Why a directory is not the recorded one.
pub open spec fn directory_fault(
    look: ArtifactLook,
    euid: u32,
    identity: Identity,
    message: Seq<char>,
) -> Option<Fault> {
    first(
        artifact_fault(look, euid, true, 0o700),
        if look.held->Ok_0.snapshot.identity != identity {
            invalid(message)
        } else {
            None
        },
    )
}

/// Why a file is not the recorded one; a relaxed check asks only for its shape.
pub open spec fn file_fault(
    look: ArtifactLook,
    euid: u32,
    mode: u32,
    strict: bool,
    identity: Identity,
    snapshot: Snapshot,
    message: Seq<char>,
) -> Option<Fault> {
    let held = look.held->Ok_0.snapshot;
    first(
        artifact_fault(look, euid, false, mode),
        if strict && (held.identity != identity || held != snapshot) {
            invalid(message)
        } else {
            None
        },
    )
}

/// Why a listing is not exactly the expected one.
pub open spec fn listing_fault(entries: Result<Vec<Vec<u8>>, Error>, expected: Seq<Seq<u8>>) -> Option<
    Fault,
> {
    match entries {
        Err(error) => Some(lifecycle::fault_of(error)),
        Ok(list) => {
            let names = installation::listed(path::views(list@));
            if !installation::only_expected(names, expected) {
                invalid("unknown or extra artifact in dedicated installation"@)
            } else if names.len() < expected.len() {
                invalid("managed inventory is incomplete; an expected artifact is missing"@)
            } else {
                None
            }
        },
    }
}

/// The names that a package's directory holds, by how much of it was removed. Removal goes
/// executable, `bin`, lock, manifest, and nothing else is accepted as missing.
pub open spec fn expected_names(removed: int, guarded: bool) -> Seq<Seq<u8>> {
    if removed <= 1 && guarded {
        seq![
            "bin".spec_bytes(),
            installation::MANIFEST.spec_bytes(),
            installation::LOCK.spec_bytes(),
            installation::UPDATE_GUARD.spec_bytes(),
        ]
    } else if removed <= 1 {
        seq![
            "bin".spec_bytes(),
            installation::MANIFEST.spec_bytes(),
            installation::LOCK.spec_bytes(),
        ]
    } else if removed == 2 {
        seq![installation::MANIFEST.spec_bytes(), installation::LOCK.spec_bytes()]
    } else if removed == 3 {
        seq![installation::MANIFEST.spec_bytes()]
    } else {
        seq![]
    }
}

/// The names that a package's `bin` holds.
pub open spec fn expected_bin(removed: int) -> Seq<Seq<u8>> {
    if removed == 0 {
        seq!["sayaka".spec_bytes()]
    } else {
        seq![]
    }
}

/// Why the guard is not the one that was opened, or is there though none was.
pub open spec fn guard_fault(look: PackageLook, held: Option<Snapshot>, euid: u32) -> Option<
    Fault,
> {
    match held {
        Some(snapshot) => file_fault(
            look.guard,
            euid,
            0o600,
            true,
            snapshot.identity,
            snapshot,
            "managed update guard identity or metadata changed"@,
        ),
        None => match look.guard_present {
            Err(error) => Some(lifecycle::fault_of(error)),
            Ok(true) => invalid("unexpected update guard without tracked descriptor"@),
            Ok(false) => None,
        },
    }
}

/// Why the executable is not the one that the manifest describes.
pub open spec fn payload_fault(look: PackageLook, held: HeldPackage, receipt: Receipt) -> Option<
    Fault,
> {
    if held.executable.bytes != receipt.executable_bytes {
        invalid("installed executable does not match ownership digest"@)
    } else {
        match look.payload {
            Err(error) => Some(lifecycle::fault_of(error)),
            Ok(digest) => if digest@ != receipt.sha256@ || look.executable_after
                != held.executable {
                invalid("installed executable does not match ownership digest"@)
            } else {
                None
            },
        }
    }
}

pub open spec fn when(condition: bool, fault: Option<Fault>) -> Option<Fault> {
    if condition {
        fault
    } else {
        None
    }
}

/// The first fault of the package around its files.
pub open spec fn frame_fault(
    look: PackageLook,
    receipt: Receipt,
    held: HeldPackage,
    removed: int,
    euid: u32,
) -> Option<Fault> {
    first(
        cancel_fault(look.cancelled_before),
        first(
            match look.parent_unchanged {
                Err(error) => Some(lifecycle::fault_of(error)),
                Ok(false) => invalid("prefix parent changed since preparation"@),
                Ok(true) => None,
            },
            first(
                directory_fault(look.root, euid, receipt.prefix, "prefix identity changed"@),
                first(
                    when(removed > 4, invalid("invalid removal progress"@)),
                    first(
                        listing_fault(
                            look.root_entries,
                            expected_names(removed, held.guard is Some),
                        ),
                        when(
                            removed < 2,
                            first(
                                directory_fault(
                                    look.bin,
                                    euid,
                                    receipt.bin,
                                    "bin identity changed"@,
                                ),
                                listing_fault(look.bin_entries, expected_bin(removed)),
                            ),
                        ),
                    ),
                ),
            ),
        ),
    )
}

/// The first fault among the files of a package.
pub open spec fn content_fault(
    look: PackageLook,
    receipt: Receipt,
    held: HeldPackage,
    removed: int,
    require_payload_match: bool,
    euid: u32,
) -> Option<Fault> {
    first(
        when(
            removed == 0,
            file_fault(
                look.executable,
                euid,
                0o700,
                require_payload_match,
                receipt.executable,
                held.executable,
                "managed sayaka identity or metadata changed"@,
            ),
        ),
        first(
            when(
                removed < 4,
                file_fault(
                    look.manifest,
                    euid,
                    0o600,
                    true,
                    receipt.manifest,
                    held.manifest,
                    "managed ownership-v1.json identity or metadata changed"@,
                ),
            ),
            first(
                when(
                    removed < 3,
                    file_fault(
                        look.lock,
                        euid,
                        0o600,
                        true,
                        receipt.lock,
                        held.lock,
                        "managed .lock identity or metadata changed"@,
                    ),
                ),
                first(
                    when(removed < 2, guard_fault(look, held.guard, euid)),
                    first(
                        when(
                            removed == 0 && require_payload_match,
                            payload_fault(look, held, receipt),
                        ),
                        first(
                            when(
                                removed < 3 && held.lock.bytes != 0,
                                invalid("managed lock must be empty"@),
                            ),
                            cancel_fault(look.cancelled_after),
                        ),
                    ),
                ),
            ),
        ),
    )
}

/// The first fault of a package, in the order in which it is verified.
pub open spec fn package_fault(
    look: PackageLook,
    receipt: Receipt,
    held: HeldPackage,
    removed: int,
    require_payload_match: bool,
    euid: u32,
) -> Option<Fault> {
    first(
        frame_fault(look, receipt, held, removed, euid),
        content_fault(look, receipt, held, removed, require_payload_match, euid),
    )
}

/// Whether a result reports exactly the given fault.
pub open spec fn reports(result: Result<(), Error>, expected: Option<Fault>) -> bool {
    fault(result) == expected
}

fn verify_artifact(look: &ArtifactLook, euid: u32, directory: bool, mode: u32) -> (result: Result<
    Snapshot,
    Error,
>)
    requires
        mode < 4096,
    ensures
        fault(result) == artifact_fault(*look, euid, directory, mode),
        result matches Ok(snapshot) ==> look.held matches Ok(held) && snapshot == held.snapshot,
{
    let entry: NameEntry = match &look.entry {
        Ok(entry) => *entry,
        Err(error) => {
            return Err(lifecycle::pass_on(error));
        },
    };
    let held: Held = match &look.held {
        Ok(held) => *held,
        Err(error) => {
            return Err(lifecycle::pass_on(error));
        },
    };
    if let Err(error) = installation::named(&entry, &held.snapshot.identity) {
        return Err(error);
    }
    if let Err(error) = installation::check(&held, euid, directory, mode) {
        return Err(error);
    }
    Ok(held.snapshot)
}

fn verify_directory(look: &ArtifactLook, euid: u32, identity: Identity, message: &str) -> (result:
    Result<(), Error>)
    ensures
        reports(result, directory_fault(*look, euid, identity, message@)),
{
    match verify_artifact(look, euid, true, 0o700) {
        Err(error) => Err(error),
        Ok(snapshot) => if snapshot.identity != identity {
            Err(Error::new(ErrorKind::InvalidData, message))
        } else {
            Ok(())
        },
    }
}

fn verify_file(
    look: &ArtifactLook,
    euid: u32,
    mode: u32,
    strict: bool,
    identity: Identity,
    snapshot: Snapshot,
    message: &str,
) -> (result: Result<(), Error>)
    requires
        mode < 4096,
    ensures
        reports(result, file_fault(*look, euid, mode, strict, identity, snapshot, message@)),
{
    match verify_artifact(look, euid, false, mode) {
        Err(error) => Err(error),
        Ok(seen) => if strict && (seen.identity != identity || seen != snapshot) {
            Err(Error::new(ErrorKind::InvalidData, message))
        } else {
            Ok(())
        },
    }
}

pub fn verify_listing(entries: &Result<Vec<Vec<u8>>, Error>, expected: &Vec<Vec<u8>>) -> (result:
    Result<(), Error>)
    ensures
        reports(result, listing_fault(*entries, path::views(expected@))),
{
    match entries {
        Err(error) => Err(lifecycle::pass_on(error)),
        Ok(list) => installation::inventory(list, expected),
    }
}

fn name_bytes(name: &str) -> (bytes: Vec<u8>)
    ensures
        bytes@ == name.spec_bytes(),
{
    text::copy_bytes(name.as_bytes())
}

pub fn names_expected(removed: usize, guarded: bool) -> (names: Vec<Vec<u8>>)
    ensures
        path::views(names@) == expected_names(removed as int, guarded),
{
    let mut names: Vec<Vec<u8>> = Vec::new();
    if removed <= 1 {
        names.push(name_bytes("bin"));
    }
    if removed <= 3 {
        names.push(name_bytes(installation::MANIFEST));
    }
    if removed <= 2 {
        names.push(name_bytes(installation::LOCK));
    }
    if removed <= 1 && guarded {
        names.push(name_bytes(installation::UPDATE_GUARD));
    }
    assert(path::views(names@) =~= expected_names(removed as int, guarded));
    names
}

fn bin_expected(removed: usize) -> (names: Vec<Vec<u8>>)
    ensures
        path::views(names@) == expected_bin(removed as int),
{
    let mut names: Vec<Vec<u8>> = Vec::new();
    if removed == 0 {
        names.push(name_bytes("sayaka"));
    }
    assert(path::views(names@) =~= expected_bin(removed as int));
    names
}

fn verify_frame(
    look: &PackageLook,
    receipt: &Receipt,
    held: &HeldPackage,
    removed: usize,
    euid: u32,
) -> (result: Result<(), Error>)
    ensures
        reports(result, frame_fault(*look, *receipt, *held, removed as int, euid)),
{
    if let Err(error) = package::cancelled(look.cancelled_before) {
        return Err(error);
    }
    match &look.parent_unchanged {
        Err(error) => {
            return Err(lifecycle::pass_on(error));
        },
        Ok(unchanged) => {
            if !*unchanged {
                return Err(
                    Error::new(ErrorKind::InvalidData, "prefix parent changed since preparation"),
                );
            }
        },
    }
    if let Err(error) = verify_directory(
        &look.root,
        euid,
        receipt.prefix,
        "prefix identity changed",
    ) {
        return Err(error);
    }
    if removed > 4 {
        return Err(Error::new(ErrorKind::InvalidData, "invalid removal progress"));
    }
    if let Err(error) = verify_listing(
        &look.root_entries,
        &names_expected(removed, held.guard.is_some()),
    ) {
        return Err(error);
    }
    if removed < 2 {
        if let Err(error) = verify_directory(&look.bin, euid, receipt.bin, "bin identity changed") {
            return Err(error);
        }
        if let Err(error) = verify_listing(&look.bin_entries, &bin_expected(removed)) {
            return Err(error);
        }
    }
    Ok(())
}

fn verify_guard(look: &PackageLook, held: &HeldPackage, euid: u32) -> (result: Result<(), Error>)
    ensures
        reports(result, guard_fault(*look, held.guard, euid)),
{
    match held.guard {
        Some(snapshot) => verify_file(
            &look.guard,
            euid,
            0o600,
            true,
            snapshot.identity,
            snapshot,
            "managed update guard identity or metadata changed",
        ),
        None => match &look.guard_present {
            Err(error) => Err(lifecycle::pass_on(error)),
            Ok(present) => if *present {
                Err(
                    Error::new(
                        ErrorKind::InvalidData,
                        "unexpected update guard without tracked descriptor",
                    ),
                )
            } else {
                Ok(())
            },
        },
    }
}

fn verify_payload(look: &PackageLook, held: &HeldPackage, receipt: &Receipt) -> (result: Result<
    (),
    Error,
>)
    ensures
        reports(result, payload_fault(*look, *held, *receipt)),
{
    let message: &str = "installed executable does not match ownership digest";
    if held.executable.bytes != receipt.executable_bytes {
        return Err(Error::new(ErrorKind::InvalidData, message));
    }
    match &look.payload {
        Err(error) => Err(lifecycle::pass_on(error)),
        Ok(digest) => if !text::text_eq(digest.as_str(), receipt.sha256.as_str())
            || look.executable_after != held.executable {
            Err(Error::new(ErrorKind::InvalidData, message))
        } else {
            Ok(())
        },
    }
}

/// Verifies a package of which the first `removed` of executable, `bin`, lock and manifest
/// were taken away by this operation.
pub fn verify(
    look: &PackageLook,
    receipt: &Receipt,
    held: &HeldPackage,
    removed: usize,
    require_payload_match: bool,
    euid: u32,
) -> (result: Result<(), Error>)
    ensures
        reports(
            result,
            package_fault(*look, *receipt, *held, removed as int, require_payload_match, euid),
        ),
{
    if let Err(error) = verify_frame(look, receipt, held, removed, euid) {
        return Err(error);
    }
    if removed == 0 {
        if let Err(error) = verify_file(
            &look.executable,
            euid,
            0o700,
            require_payload_match,
            receipt.executable,
            held.executable,
            "managed sayaka identity or metadata changed",
        ) {
            return Err(error);
        }
    }
    if removed < 4 {
        if let Err(error) = verify_file(
            &look.manifest,
            euid,
            0o600,
            true,
            receipt.manifest,
            held.manifest,
            "managed ownership-v1.json identity or metadata changed",
        ) {
            return Err(error);
        }
    }
    if removed < 3 {
        if let Err(error) = verify_file(
            &look.lock,
            euid,
            0o600,
            true,
            receipt.lock,
            held.lock,
            "managed .lock identity or metadata changed",
        ) {
            return Err(error);
        }
    }
    if removed < 2 {
        if let Err(error) = verify_guard(look, held, euid) {
            return Err(error);
        }
    }
    if removed == 0 && require_payload_match {
        if let Err(error) = verify_payload(look, held, receipt) {
            return Err(error);
        }
    }
    if removed < 3 && held.lock.bytes != 0 {
        return Err(Error::new(ErrorKind::InvalidData, "managed lock must be empty"));
    }
    package::cancelled(look.cancelled_after)
}

/// A verified package is exactly what its manifest says: the executable has the recorded
/// digest, every file is the recorded one, and nothing else is there.
pub proof fn verified_package_is_exact(
    look: PackageLook,
    receipt: Receipt,
    held: HeldPackage,
    euid: u32,
)
    requires
        package_fault(look, receipt, held, 0, true, euid) is None,
    ensures
        look.payload matches Ok(digest) && digest@ == receipt.sha256@,
        look.executable_after == held.executable,
        held.executable.bytes == receipt.executable_bytes,
        held.executable.identity == receipt.executable,
        held.manifest.identity == receipt.manifest,
        held.lock.identity == receipt.lock,
        held.lock.bytes == 0,
        look.root.held matches Ok(root) && root.snapshot.identity == receipt.prefix
            && !root.extended_acl,
        look.bin.held matches Ok(bin) && bin.snapshot.identity == receipt.bin && !bin.extended_acl,
        look.root_entries matches Ok(entries) && installation::only_expected(
            installation::listed(path::views(entries@)),
            expected_names(0, held.guard is Some),
        ),
        !look.cancelled_before && !look.cancelled_after,
{
}

} // verus!
