//! What the engine accepts of the files that hold the clean policy.

use crate::clean_policy;
use crate::clean_policy::{EntryKind, EntryView, PolicyFile, RootRecord, UnixIdentity};
use crate::digest;
use crate::error::{Error, ErrorKind};
use crate::hex;
use crate::journal::{
    CleanPolicyContextRecord, CleanPolicyFileRecord, CleanPolicyIdentityRecord,
    CleanPolicyPathRecord, NativePath,
};
use crate::lifecycle;
use crate::model::Host;
use crate::path;
use crate::policy_edit;
use crate::policy_edit::{AnchoredEntryObservation, AnchoredEntryState};
use crate::policy_snapshot;
use crate::policy_snapshot::{
    ConfigPath, ExclusionEntryStatus, FileStateView, GivenPath, LoadedPolicy, PolicyFileState,
    PolicySnapshot, SnapshotView,
};
use crate::recover::Fault;
use crate::text;
use crate::wire;
use crate::wire::{NativeWirePath, ShownPath};
use vstd::prelude::*;
use vstd::string::*;

verus! {

/// What is observed of a file that should be the user's own.
#[derive(Debug)]
pub struct PrivateMeta {
    pub regular: bool,
    pub links: u64,
    pub uid: u32,
    pub mode: u32,
    pub identity: UnixIdentity,
    pub length: u64,
    pub modified_unix_ms: Option<u64>,
    /// Whether the file and each directory above it is a link, from the file up.
    pub ancestors: Vec<Result<bool, Error>>,
}

/// The first directory on the way that is a link or cannot be seen.
pub open spec fn link_fault(ancestors: Seq<Result<bool, Error>>) -> Option<Fault>
    decreases ancestors.len(),
{
    if ancestors.len() == 0 {
        None
    } else if link_fault(ancestors.drop_last()) is Some {
        link_fault(ancestors.drop_last())
    } else {
        match ancestors.last() {
            Err(error) => Some(lifecycle::fault_of(error)),
            Ok(true) => Some(
                (ErrorKind::PermissionDenied, "config path must not traverse symlinks"@),
            ),
            Ok(false) => None,
        }
    }
}

/// Why a file is not a private regular file.
pub open spec fn private_fault(meta: PrivateMeta, euid: u32) -> Option<Fault> {
    if !meta.regular || meta.links != 1 {
        Some((ErrorKind::PermissionDenied, "clean policy must be a private regular file"@))
    } else if meta.uid != euid || meta.mode & 0o077 != 0 {
        Some(
            (
                ErrorKind::PermissionDenied,
                "clean policy must be 0600 and owned by current user"@,
            ),
        )
    } else {
        link_fault(meta.ancestors@)
    }
}

proof fn lemma_link_prefix(ancestors: Seq<Result<bool, Error>>, n: int)
    requires
        0 <= n <= ancestors.len(),
        link_fault(ancestors.take(n)) is Some,
    ensures
        link_fault(ancestors) == link_fault(ancestors.take(n)),
    decreases ancestors.len() - n,
{
    if n < ancestors.len() {
        assert(ancestors.take(n + 1).drop_last() =~= ancestors.take(n));
        lemma_link_prefix(ancestors, n + 1);
    } else {
        assert(ancestors.take(n) =~= ancestors);
    }
}

/// Refuses a file that is not the user's own private regular file.
pub fn verify_private_regular_file(meta: &PrivateMeta, euid: u32) -> (result: Result<(), Error>)
    ensures
        match result {
            Ok(()) => private_fault(*meta, euid) is None,
            Err(error) => private_fault(*meta, euid) == Some(lifecycle::fault_of(error)),
        },
{
    if !meta.regular || meta.links != 1 {
        return Err(
            Error::new(ErrorKind::PermissionDenied, "clean policy must be a private regular file"),
        );
    }
    if meta.uid != euid || meta.mode & 0o077 != 0 {
        return Err(
            Error::new(
                ErrorKind::PermissionDenied,
                "clean policy must be 0600 and owned by current user",
            ),
        );
    }
    let ancestors = &meta.ancestors;
    let mut i: usize = 0;
    assert(ancestors@.take(0) =~= Seq::empty());
    while i < ancestors.len()
        invariant
            0 <= i <= ancestors@.len(),
            *ancestors == meta.ancestors,
            meta.regular && meta.links == 1 && meta.uid == euid && meta.mode & 0o077 == 0,
            link_fault(ancestors@.take(i as int)) is None,
        decreases ancestors@.len() - i,
    {
        proof {
            assert(ancestors@.take(i + 1).drop_last() =~= ancestors@.take(i as int));
            assert(ancestors@.take(i + 1).last() == ancestors@[i as int]);
            if link_fault(ancestors@.take(i + 1)) is Some {
                lemma_link_prefix(ancestors@, i + 1);
            }
        }
        match &ancestors[i] {
            Err(error) => {
                return Err(lifecycle::pass_on(error));
            },
            Ok(link) => {
                if *link {
                    return Err(
                        Error::new(
                            ErrorKind::PermissionDenied,
                            "config path must not traverse symlinks",
                        ),
                    );
                }
            },
        }
        i += 1;
    }
    assert(ancestors@.take(ancestors@.len() as int) =~= ancestors@);
    Ok(())
}

/// What is observed of the directory that holds the policy.
#[derive(Clone, Copy, Debug, PartialEq, Eq, Structural)]
pub struct DirectoryMeta {
    pub physical_directory: bool,
    pub uid: u32,
    pub mode: u32,
}

/// What is observed of the configuration directory and of what lies above it.
#[derive(Debug)]
pub struct ConfigDirLook {
    /// Whether the directory above exists; none lies above the root.
    pub parent_exists: Option<bool>,
    /// What came of making the directory private, where it did not exist yet.
    pub made: Result<(), Error>,
    pub meta: Result<DirectoryMeta, Error>,
}

/// Why a configuration directory cannot hold a policy.
pub open spec fn config_dir_fault(look: ConfigDirLook, euid: u32) -> Option<Fault> {
    match look.parent_exists {
        None => Some((ErrorKind::InvalidInput, "config directory has no parent"@)),
        Some(false) => Some((ErrorKind::NotFound, "config parent does not exist"@)),
        Some(true) => match (look.made, look.meta) {
            (Err(error), _) => Some(lifecycle::fault_of(error)),
            (_, Err(error)) => Some(lifecycle::fault_of(error)),
            (Ok(_), Ok(meta)) => if !meta.physical_directory {
                Some(
                    (
                        ErrorKind::PermissionDenied,
                        "config directory must be a private directory"@,
                    ),
                )
            } else if meta.uid != euid || meta.mode & 0o077 != 0 {
                Some(
                    (
                        ErrorKind::PermissionDenied,
                        "config directory must be 0700 and owned by current user"@,
                    ),
                )
            } else {
                None
            },
        },
    }
}

/// Refuses a configuration directory that is not the user's own private directory.
pub fn ensure_private_config_dir(look: ConfigDirLook, euid: u32) -> (result: Result<(), Error>)
    ensures
        match result {
            Ok(()) => config_dir_fault(look, euid) is None,
            Err(error) => config_dir_fault(look, euid) == Some(lifecycle::fault_of(error)),
        },
{
    match look.parent_exists {
        None => {
            return Err(Error::new(ErrorKind::InvalidInput, "config directory has no parent"));
        },
        Some(exists) => {
            if !exists {
                return Err(Error::new(ErrorKind::NotFound, "config parent does not exist"));
            }
        },
    }
    if let Err(error) = look.made {
        return Err(error);
    }
    let meta: DirectoryMeta = match look.meta {
        Ok(meta) => meta,
        Err(error) => {
            return Err(error);
        },
    };
    if !meta.physical_directory {
        return Err(
            Error::new(ErrorKind::PermissionDenied, "config directory must be a private directory"),
        );
    }
    if meta.uid != euid || meta.mode & 0o077 != 0 {
        return Err(
            Error::new(
                ErrorKind::PermissionDenied,
                "config directory must be 0700 and owned by current user",
            ),
        );
    }
    Ok(())
}

/// The error of a policy that another update holds.
pub fn lock_busy(reason: &str) -> (error: Error)
    ensures
        error.says(ErrorKind::WouldBlock, "clean policy lock busy: "@ + reason@),
{
    Error {
        kind: ErrorKind::WouldBlock,
        message: text::concat("clean policy lock busy: ", reason),
    }
}

/// Refuses to stage a policy that no reader would take, or over what an interrupted update
/// left behind.
pub fn admit_stage(length: u64, stage_exists: bool) -> (result: Result<(), Error>)
    ensures
        match result {
            Ok(()) => length <= clean_policy::MAX_POLICY_BYTES && !stage_exists,
            Err(error) => if length > clean_policy::MAX_POLICY_BYTES {
                error.says(ErrorKind::InvalidData, "clean policy exceeds 64 KiB"@)
            } else {
                stage_exists && error.says(
                    ErrorKind::AlreadyExists,
                    "stale clean policy staging file exists"@,
                )
            },
        },
{
    if length > clean_policy::MAX_POLICY_BYTES {
        return Err(Error::new(ErrorKind::InvalidData, "clean policy exceeds 64 KiB"));
    }
    if stage_exists {
        return Err(
            Error::new(ErrorKind::AlreadyExists, "stale clean policy staging file exists"),
        );
    }
    Ok(())
}

/// Refuses a policy file that does not read back as it was written.
pub fn confirm_readback(written: &[u8], bytes: &[u8]) -> (result: Result<(), Error>)
    ensures
        match result {
            Ok(()) => digest::sha256_text(written@) == digest::sha256_text(bytes@),
            Err(error) => {
                &&& digest::sha256_text(written@) != digest::sha256_text(bytes@)
                &&& error.says(ErrorKind::Other, "clean policy readback hash mismatch"@)
            },
        },
{
    let found: String = digest::sha256_hex(written);
    let expected: String = digest::sha256_hex(bytes);
    if text::text_eq(found.as_str(), expected.as_str()) {
        Ok(())
    } else {
        Err(Error::new(ErrorKind::Other, "clean policy readback hash mismatch"))
    }
}

/// Refuses a root whose name and open handle lead to different directories.
pub fn anchor_root(named: UnixIdentity, held: UnixIdentity) -> (result: Result<(), Error>)
    ensures
        match result {
            Ok(()) => named == held,
            Err(error) => named != held && error.says(
                ErrorKind::PermissionDenied,
                "root identity changed during policy operation"@,
            ),
        },
{
    if named == held {
        Ok(())
    } else {
        Err(
            Error::new(
                ErrorKind::PermissionDenied,
                "root identity changed during policy operation",
            ),
        )
    }
}

/// One directory above a path, as far as it can be seen.
#[derive(Debug)]
pub enum AncestorLook {
    Found(UnixIdentity),
    NotFound,
    Failed(Error),
}

/// The nearest directory above that exists, with its identity.
pub open spec fn nearest(looks: Seq<(Vec<u8>, AncestorLook)>) -> Result<
    Option<(Seq<u8>, UnixIdentity)>,
    Fault,
>
    decreases looks.len(),
{
    if looks.len() == 0 {
        Ok(None)
    } else {
        match looks[0].1 {
            AncestorLook::Found(identity) => Ok(Some((looks[0].0@, identity))),
            AncestorLook::NotFound => nearest(looks.drop_first()),
            AncestorLook::Failed(error) => Err(lifecycle::fault_of(error)),
        }
    }
}

/// The nearest directory above that exists, with its identity; `looks` go from the parent
/// up.
pub fn nearest_existing_parent(looks: &Vec<(Vec<u8>, AncestorLook)>) -> (result: Result<
    (Option<Vec<u8>>, Option<UnixIdentity>),
    Error,
>)
    ensures
        match result {
            Ok((parent, identity)) => nearest(looks@) == Ok::<
                Option<(Seq<u8>, UnixIdentity)>,
                Fault,
            >(
                match parent {
                    Some(bytes) => Some((bytes@, identity->0)),
                    None => None,
                },
            ) && (parent is Some == identity is Some),
            Err(error) => nearest(looks@) == Err::<Option<(Seq<u8>, UnixIdentity)>, Fault>(
                lifecycle::fault_of(error),
            ),
        },
{
    let mut i: usize = 0;
    assert(looks@.skip(0) =~= looks@);
    while i < looks.len()
        invariant
            0 <= i <= looks@.len(),
            nearest(looks@) == nearest(looks@.skip(i as int)),
        decreases looks@.len() - i,
    {
        match &looks[i].1 {
            AncestorLook::Found(identity) => {
                return Ok((Some(text::copy_bytes(looks[i].0.as_slice())), Some(*identity)));
            },
            AncestorLook::NotFound => {},
            AncestorLook::Failed(error) => {
                return Err(lifecycle::pass_on(error));
            },
        }
        assert(looks@.skip(i as int).drop_first() =~= looks@.skip(i + 1));
        i += 1;
    }
    Ok((None, None))
}

/// What is observed of the policy file.
#[derive(Debug)]
pub enum PolicyFileLook {
    NotFound { error: Error, above: Vec<(Vec<u8>, AncestorLook)> },
    Failed(Error),
    Found {
        meta: PrivateMeta,
        bytes: Result<Vec<u8>, Error>,
        /// The bytes as a policy.
        parsed: Result<PolicyFile, Error>,
    },
}

/// What the policy file holds.
pub open spec fn load_result(file: Seq<u8>, look: PolicyFileLook, euid: u32) -> Result<
    (FileStateView, Option<clean_policy::PolicyView>),
    Fault,
> {
    match look {
        PolicyFileLook::NotFound { above, .. } => match nearest(above@) {
            Err(fault) => Err(fault),
            Ok(None) => Ok(
                (FileStateView::Absent { path: file, parent: None, parent_identity: None }, None),
            ),
            Ok(Some((parent, identity))) => Ok(
                (
                    FileStateView::Absent {
                        path: file,
                        parent: Some(parent),
                        parent_identity: Some(identity),
                    },
                    None,
                ),
            ),
        },
        PolicyFileLook::Failed(error) => Err(
            (
                ErrorKind::PermissionDenied,
                "cannot inspect clean policy file: "@ + error.message@,
            ),
        ),
        PolicyFileLook::Found { meta, bytes, parsed } => if private_fault(meta, euid) is Some {
            Err(private_fault(meta, euid)->0)
        } else {
            match (bytes, parsed) {
                (Err(error), _) => Err(lifecycle::fault_of(error)),
                (Ok(content), _) if content@.len() > clean_policy::MAX_POLICY_BYTES => Err(
                    (ErrorKind::InvalidData, "clean policy exceeds 64 KiB"@),
                ),
                (Ok(content), Err(error)) => Err(lifecycle::fault_of(error)),
                (Ok(content), Ok(policy)) => Ok(
                    (
                        FileStateView::Present {
                            path: file,
                            identity: meta.identity,
                            length: meta.length,
                            modified: meta.modified_unix_ms,
                            sha256: digest::sha256_text(content@),
                        },
                        Some(policy@),
                    ),
                ),
            }
        },
    }
}

/// What a loaded policy holds.
pub open spec fn loaded_view(loaded: LoadedPolicy) -> (
    FileStateView,
    Option<clean_policy::PolicyView>,
) {
    match loaded {
        LoadedPolicy::Absent(state) => (state@, None),
        LoadedPolicy::Present { file_state, policy } => (file_state@, Some(policy@)),
    }
}

/// Reads the policy file.
pub fn load_policy_readonly(config: &ConfigPath, look: PolicyFileLook, euid: u32) -> (result: Result<
    LoadedPolicy,
    Error,
>)
    ensures
        match result {
            Ok(loaded) => load_result(config.file@, look, euid) == Ok::<
                (FileStateView, Option<clean_policy::PolicyView>),
                Fault,
            >(loaded_view(loaded)),
            Err(error) => load_result(config.file@, look, euid) == Err::<
                (FileStateView, Option<clean_policy::PolicyView>),
                Fault,
            >(lifecycle::fault_of(error)),
        },
{
    match look {
        PolicyFileLook::NotFound { above, .. } => match nearest_existing_parent(&above) {
            Err(error) => Err(error),
            Ok((parent, identity)) => Ok(
                LoadedPolicy::Absent(
                    PolicyFileState::Absent {
                        expected_path: text::copy_bytes(config.file.as_slice()),
                        nearest_existing_parent: parent,
                        nearest_existing_parent_identity: identity,
                    },
                ),
            ),
        },
        PolicyFileLook::Failed(error) => Err(
            Error {
                kind: ErrorKind::PermissionDenied,
                message: text::concat(
                    "cannot inspect clean policy file: ",
                    error.message.as_str(),
                ),
            },
        ),
        PolicyFileLook::Found { meta, bytes, parsed } => {
            if let Err(error) = verify_private_regular_file(&meta, euid) {
                return Err(error);
            }
            let content: Vec<u8> = match bytes {
                Ok(content) => content,
                Err(error) => {
                    return Err(error);
                },
            };
            if content.len() as u64 > clean_policy::MAX_POLICY_BYTES {
                return Err(Error::new(ErrorKind::InvalidData, "clean policy exceeds 64 KiB"));
            }
            let policy: PolicyFile = match parsed {
                Ok(policy) => policy,
                Err(error) => {
                    return Err(error);
                },
            };
            Ok(
                LoadedPolicy::Present {
                    file_state: PolicyFileState::Present {
                        path: text::copy_bytes(config.file.as_slice()),
                        identity: meta.identity,
                        length: meta.length,
                        modified_unix_ms: meta.modified_unix_ms,
                        sha256: digest::sha256_hex(content.as_slice()),
                    },
                    policy,
                },
            )
        },
    }
}

/// The policy that an update starts from.
pub fn starting_policy(loaded: LoadedPolicy) -> (policy: PolicyFile)
    ensures
        match loaded {
            LoadedPolicy::Absent(_) => {
                &&& policy.schema_version == clean_policy::POLICY_SCHEMA_VERSION
                &&& policy.kind@ == clean_policy::POLICY_KIND@
                &&& policy.roots@.len() == 0
                &&& clean_policy::policy_fault(policy@) is None
            },
            LoadedPolicy::Present { policy: stored, .. } => policy == stored,
        },
{
    match loaded {
        LoadedPolicy::Absent(_) => PolicyFile {
            schema_version: clean_policy::POLICY_SCHEMA_VERSION,
            kind: clean_policy::POLICY_KIND.to_owned(),
            roots: Vec::new(),
        },
        LoadedPolicy::Present { policy, .. } => policy,
    }
}

/// Why the policy file is no longer the one that an update started from.
pub open spec fn publish_fault(
    expected: FileStateView,
    look: PolicyFileLook,
    euid: u32,
) -> Option<Fault> {
    match expected {
        FileStateView::Absent { parent, parent_identity, .. } => match look {
            PolicyFileLook::Found { .. } => Some(
                (ErrorKind::AlreadyExists, "clean policy changed while updating (now present)"@),
            ),
            PolicyFileLook::Failed(error) => Some(
                (
                    ErrorKind::PermissionDenied,
                    "cannot inspect clean policy before publish: "@ + error.message@,
                ),
            ),
            PolicyFileLook::NotFound { above, .. } => match nearest(above@) {
                Err(fault) => Some(fault),
                Ok(found) => {
                    let (now, identity): (Option<Seq<u8>>, Option<UnixIdentity>) = match found {
                        Some(pair) => (Some(pair.0), Some(pair.1)),
                        None => (None, None),
                    };
                    if !policy_snapshot::same_opt_path(now, parent) || identity
                        != parent_identity {
                        Some(
                            (
                                ErrorKind::PermissionDenied,
                                "clean policy parent changed while updating"@,
                            ),
                        )
                    } else {
                        None
                    }
                },
            },
        },
        FileStateView::Present { identity, length, sha256, .. } => match look {
            PolicyFileLook::NotFound { error, .. } => Some(lifecycle::fault_of(error)),
            PolicyFileLook::Failed(error) => Some(lifecycle::fault_of(error)),
            PolicyFileLook::Found { meta, bytes, .. } => if private_fault(meta, euid) is Some {
                private_fault(meta, euid)
            } else {
                match bytes {
                    Err(error) => Some(lifecycle::fault_of(error)),
                    Ok(content) => if meta.identity != identity || meta.length != length
                        || digest::sha256_text(content@) != sha256 {
                        Some((ErrorKind::AlreadyExists, "clean policy changed while updating"@))
                    } else {
                        None
                    },
                }
            },
        },
    }
}

/// Refuses to replace a policy file that is no longer the one an update started from.
pub fn ensure_expected_observed_state(
    expected: &PolicyFileState,
    look: &PolicyFileLook,
    euid: u32,
) -> (result: Result<(), Error>)
    ensures
        match result {
            Ok(()) => publish_fault(expected@, *look, euid) is None,
            Err(error) => publish_fault(expected@, *look, euid) == Some(
                lifecycle::fault_of(error),
            ),
        },
{
    match expected {
        PolicyFileState::Absent {
            nearest_existing_parent: parent,
            nearest_existing_parent_identity: parent_identity,
            ..
        } => match look {
            PolicyFileLook::Found { .. } => Err(
                Error::new(
                    ErrorKind::AlreadyExists,
                    "clean policy changed while updating (now present)",
                ),
            ),
            PolicyFileLook::Failed(error) => Err(
                Error {
                    kind: ErrorKind::PermissionDenied,
                    message: text::concat(
                        "cannot inspect clean policy before publish: ",
                        error.message.as_str(),
                    ),
                },
            ),
            PolicyFileLook::NotFound { above, .. } => match nearest_existing_parent(above) {
                Err(error) => Err(error),
                Ok((now, identity)) => if !policy_snapshot::opt_paths_equal(&now, parent)
                    || !policy_snapshot::opt_identity_eq(&identity, parent_identity) {
                    Err(
                        Error::new(
                            ErrorKind::PermissionDenied,
                            "clean policy parent changed while updating",
                        ),
                    )
                } else {
                    Ok(())
                },
            },
        },
        PolicyFileState::Present { identity, length, sha256, .. } => match look {
            PolicyFileLook::NotFound { error, .. } => Err(lifecycle::pass_on(error)),
            PolicyFileLook::Failed(error) => Err(lifecycle::pass_on(error)),
            PolicyFileLook::Found { meta, bytes, .. } => {
                if let Err(error) = verify_private_regular_file(meta, euid) {
                    return Err(error);
                }
                match bytes {
                    Err(error) => Err(lifecycle::pass_on(error)),
                    Ok(content) => {
                        let now = digest::sha256_hex(content.as_slice());
                        if meta.identity != *identity || meta.length != *length
                            || !text::text_eq(now.as_str(), sha256.as_str()) {
                            Err(
                                Error::new(
                                    ErrorKind::AlreadyExists,
                                    "clean policy changed while updating",
                                ),
                            )
                        } else {
                            Ok(())
                        }
                    },
                }
            },
        },
    }
}

/// What looking up one component of a relative path gave.
#[derive(Clone, Copy, Debug, PartialEq, Eq, Structural)]
pub enum Lookup {
    /// A directory above the last component was opened.
    Opened,
    /// The last component was found.
    Found { device: u64, inode: u64, nlink: u64, kind: Option<EntryKind> },
    NotFound,
    Failed,
}

/// What walking a relative path gave: the first lookup that does not open a directory
/// decides.
pub open spec fn walked(lookups: Seq<Lookup>, require_exists: bool) -> Result<
    AnchoredEntryState,
    Fault,
>
    decreases lookups.len(),
{
    if lookups.len() == 0 {
        Ok(AnchoredEntryState::Missing)
    } else {
        match lookups[0] {
            Lookup::Opened => walked(lookups.drop_first(), require_exists),
            Lookup::NotFound => if require_exists {
                Err((ErrorKind::InvalidInput, "entry must be an existing path within root"@))
            } else {
                Ok(AnchoredEntryState::Missing)
            },
            Lookup::Failed => Ok(AnchoredEntryState::NeedsAttention),
            Lookup::Found { device, inode, nlink, kind } => match kind {
                Some(kind) => Ok(
                    AnchoredEntryState::Present(
                        AnchoredEntryObservation { device, inode, nlink, kind },
                    ),
                ),
                None => Ok(AnchoredEntryState::NeedsAttention),
            },
        }
    }
}

/// The components of a relative path that can be walked below a root.
pub fn anchored_components(relative: &[u8]) -> (result: Result<Vec<Vec<u8>>, Error>)
    ensures
        match result {
            Ok(parts) => {
                &&& !path::is_absolute(relative@)
                &&& !wire::wanders(relative@)
                &&& parts@.len() > 0
                &&& path::views(parts@) == path::components(relative@)
            },
            Err(error) => {
                ||| (path::is_absolute(relative@) || wire::wanders(relative@)) && error.says(
                    ErrorKind::InvalidInput,
                    "entry must be a clean relative path"@,
                )
                ||| !path::is_absolute(relative@) && !wire::wanders(relative@) && path::components(
                    relative@,
                ).len() == 0 && error.says(
                    ErrorKind::InvalidInput,
                    "entry must not be the root itself"@,
                )
            },
        },
{
    if path::absolute(relative) || wire::find_wandering(relative) {
        return Err(Error::new(ErrorKind::InvalidInput, "entry must be a clean relative path"));
    }
    let parts = path::split(relative);
    assert(path::views(parts@).len() == parts@.len());
    if parts.len() == 0 {
        return Err(Error::new(ErrorKind::InvalidInput, "entry must not be the root itself"));
    }
    Ok(parts)
}

/// What is at a path below a root, from looking up its components one by one.
pub fn inspect_anchored(lookups: &Vec<Lookup>, require_exists: bool) -> (result: Result<
    AnchoredEntryState,
    Error,
>)
    ensures
        match result {
            Ok(state) => walked(lookups@, require_exists) == Ok::<AnchoredEntryState, Fault>(state),
            Err(error) => walked(lookups@, require_exists) == Err::<AnchoredEntryState, Fault>(
                lifecycle::fault_of(error),
            ),
        },
{
    let mut i: usize = 0;
    assert(lookups@.skip(0) =~= lookups@);
    while i < lookups.len()
        invariant
            0 <= i <= lookups@.len(),
            walked(lookups@, require_exists) == walked(lookups@.skip(i as int), require_exists),
        decreases lookups@.len() - i,
    {
        match lookups[i] {
            Lookup::Opened => {},
            Lookup::NotFound => {
                return if require_exists {
                    Err(
                        Error::new(
                            ErrorKind::InvalidInput,
                            "entry must be an existing path within root",
                        ),
                    )
                } else {
                    Ok(AnchoredEntryState::Missing)
                };
            },
            Lookup::Failed => {
                return Ok(AnchoredEntryState::NeedsAttention);
            },
            Lookup::Found { device, inode, nlink, kind } => {
                return match kind {
                    Some(kind) => Ok(
                        AnchoredEntryState::Present(
                            AnchoredEntryObservation { device, inode, nlink, kind },
                        ),
                    ),
                    None => Ok(AnchoredEntryState::NeedsAttention),
                };
            },
        }
        assert(lookups@.skip(i as int).drop_first() =~= lookups@.skip(i + 1));
        i += 1;
    }
    Ok(AnchoredEntryState::Missing)
}

/// The wire form of a path that is shown to the user.
pub open spec fn shows(wire: NativePath, record: CleanPolicyPathRecord) -> bool {
    &&& record.encoding == wire.encoding
    &&& record.bytes_hex@ == hex::encoded(wire.bytes@)
    &&& record.display == wire.display
}

/// A path as the journal holds it.
pub fn display_path_record(wire: &NativePath) -> (record: CleanPolicyPathRecord)
    ensures
        shows(*wire, record),
{
    CleanPolicyPathRecord {
        encoding: wire.encoding.clone(),
        bytes_hex: hex::encode_hex(wire.bytes.as_slice()),
        display: wire.display.clone(),
    }
}

/// The paths of a snapshot, as they are shown.
#[derive(Debug)]
pub struct ShownSnapshot {
    pub root: NativePath,
    pub file: NativePath,
    pub nearest_existing_parent: Option<NativePath>,
    pub effective_exclusions: Vec<NativePath>,
}

/// Whether paths are those of a snapshot.
pub open spec fn is_shown(shown: ShownSnapshot, snapshot: SnapshotView) -> bool {
    &&& match snapshot.file_state {
        FileStateView::Absent { path, parent, .. } => {
            &&& shown.file.bytes@ == path
            &&& match (shown.nearest_existing_parent, parent) {
                (Some(wire), Some(place)) => wire.bytes@ == place,
                (None, None) => true,
                _ => false,
            }
        },
        FileStateView::Present { path, .. } => shown.file.bytes@ == path,
    }
    &&& shown.effective_exclusions@.len() == snapshot.effective.len()
    &&& forall|i: int|
        0 <= i < snapshot.effective.len() ==> (
        #[trigger] shown.effective_exclusions@[i]).bytes@ == snapshot.effective[i]
}

fn identity_record(identity: UnixIdentity) -> (record: CleanPolicyIdentityRecord)
    ensures
        record.device == identity.device,
        record.inode == identity.inode,
{
    CleanPolicyIdentityRecord { device: identity.device, inode: identity.inode }
}

/// Whether a record says under which policy an operation runs.
pub open spec fn records_context(
    record: CleanPolicyContextRecord,
    shown: ShownSnapshot,
    root_identity: UnixIdentity,
    state: PolicyFileState,
) -> bool {
    &&& record.schema_version == 1
    &&& record.kind@ == "sayaka_clean_policy_context"@
    &&& shows(shown.root, record.root_path)
    &&& record.root_identity.device == root_identity.device
    &&& record.root_identity.inode == root_identity.inode
    &&& record.effective_exclusions@.len() == shown.effective_exclusions@.len()
    &&& forall|i: int|
        0 <= i < shown.effective_exclusions@.len() ==> shows(
            shown.effective_exclusions@[i],
            #[trigger] record.effective_exclusions@[i],
        )
    &&& match (state, record.file_state) {
        (
            PolicyFileState::Absent { nearest_existing_parent_identity: identity, .. },
            CleanPolicyFileRecord::Absent {
                expected_path,
                nearest_existing_parent,
                nearest_existing_parent_identity,
            },
        ) => {
            &&& shows(shown.file, expected_path)
            &&& match (shown.nearest_existing_parent, nearest_existing_parent) {
                (Some(wire), Some(written)) => shows(wire, written),
                (None, None) => true,
                _ => false,
            }
            &&& match (identity, nearest_existing_parent_identity) {
                (Some(found), Some(written)) => written.device == found.device && written.inode
                    == found.inode,
                (None, None) => true,
                _ => false,
            }
        },
        (
            PolicyFileState::Present { identity, length, modified_unix_ms, sha256, .. },
            CleanPolicyFileRecord::Present {
                path: written_path,
                identity: written_identity,
                length: written_length,
                modified_unix_ms: written_modified,
                sha256: written_sha256,
            },
        ) => {
            &&& shows(shown.file, written_path)
            &&& written_identity.device == identity.device
            &&& written_identity.inode == identity.inode
            &&& written_length == length
            &&& written_modified == modified_unix_ms
            &&& written_sha256 == sha256
        },
        _ => false,
    }
}

/// The clean policy that an operation is journaled under. `root_identity` is what came of
/// looking at the root.
pub fn clean_policy_context_record(
    shown: &ShownSnapshot,
    root_identity: Result<UnixIdentity, Error>,
    snapshot: &PolicySnapshot,
) -> (result: Result<CleanPolicyContextRecord, Error>)
    requires
        is_shown(*shown, snapshot@),
    ensures
        match result {
            Ok(record) => root_identity matches Ok(identity) && records_context(
                record,
                *shown,
                identity,
                snapshot.file_state,
            ),
            Err(error) => root_identity == Err::<UnixIdentity, Error>(error),
        },
{
    let root_identity: UnixIdentity = match root_identity {
        Ok(identity) => identity,
        Err(error) => {
            return Err(error);
        },
    };
    let state: &PolicyFileState = &snapshot.file_state;
    let mut effective_exclusions: Vec<CleanPolicyPathRecord> = Vec::new();
    let mut i: usize = 0;
    while i < shown.effective_exclusions.len()
        invariant
            0 <= i <= shown.effective_exclusions@.len(),
            effective_exclusions@.len() == i,
            forall|j: int|
                0 <= j < i ==> shows(
                    shown.effective_exclusions@[j],
                    #[trigger] effective_exclusions@[j],
                ),
        decreases shown.effective_exclusions@.len() - i,
    {
        effective_exclusions.push(display_path_record(&shown.effective_exclusions[i]));
        i += 1;
    }
    let file_state: CleanPolicyFileRecord = match state {
        PolicyFileState::Absent { nearest_existing_parent_identity, .. } => {
            CleanPolicyFileRecord::Absent {
                expected_path: display_path_record(&shown.file),
                nearest_existing_parent: match &shown.nearest_existing_parent {
                    Some(wire) => Some(display_path_record(wire)),
                    None => None,
                },
                nearest_existing_parent_identity: match nearest_existing_parent_identity {
                    Some(identity) => Some(identity_record(*identity)),
                    None => None,
                },
            }
        },
        PolicyFileState::Present { identity, length, modified_unix_ms, sha256, .. } => {
            CleanPolicyFileRecord::Present {
                path: display_path_record(&shown.file),
                identity: identity_record(*identity),
                length: *length,
                modified_unix_ms: *modified_unix_ms,
                sha256: sha256.clone(),
            }
        },
    };
    Ok(
        CleanPolicyContextRecord {
            schema_version: 1,
            kind: "sayaka_clean_policy_context".to_owned(),
            root_path: display_path_record(&shown.root),
            root_identity: identity_record(root_identity),
            file_state,
            effective_exclusions,
        },
    )
}

/// What is observed before the exclusions of a root are listed.
#[derive(Debug)]
pub struct ListLook {
    pub root: GivenPath,
    pub root_display: String,
    /// The identity of the root, if it is there.
    pub root_identity: Option<UnixIdentity>,
    pub policy: Result<LoadedPolicy, Error>,
    /// What is at each entry, in order, when exclusions are evaluated.
    pub entries: Vec<Result<AnchoredEntryState, Error>>,
    /// What is at each entry, in order, when their state is shown.
    pub shown: Vec<Result<AnchoredEntryState, Error>>,
}

/// Whether an entry needs attention: whatever is not plainly the recorded object does.
pub open spec fn needs_attention(entry: EntryView, look: Result<AnchoredEntryState, Fault>) -> bool {
    !(look matches Ok(state) && policy_snapshot::still_there(state, entry.identity))
}

/// The state of every entry that can be read.
pub open spec fn statuses(
    entries: Seq<EntryView>,
    looks: Seq<Result<AnchoredEntryState, Error>>,
) -> Seq<(Seq<u8>, bool)>
    decreases entries.len(),
{
    if entries.len() == 0 {
        Seq::empty()
    } else {
        let before = statuses(entries.drop_last(), looks);
        match wire::relative_of(entries.last().path) {
            Err(_) => before,
            Ok(relative) => before.push(
                (
                    relative,
                    needs_attention(
                        entries.last(),
                        policy_snapshot::inspected(looks, entries.len() - 1),
                    ),
                ),
            ),
        }
    }
}

pub open spec fn status_views(list: Seq<ExclusionEntryStatus>) -> Seq<(Seq<u8>, bool)> {
    Seq::new(list.len(), |i: int| (list[i].relative_path@, list[i].missing_attention))
}

/// Every entry that can be read, below a root.
pub open spec fn all_below(entries: Seq<EntryView>, root: Seq<u8>) -> Seq<Seq<u8>>
    decreases entries.len(),
{
    if entries.len() == 0 {
        Seq::empty()
    } else {
        let before = all_below(entries.drop_last(), root);
        match wire::relative_of(entries.last().path) {
            Err(_) => before,
            Ok(relative) => before.push(path::joined(root, relative)),
        }
    }
}

fn list_below(entries: &Vec<clean_policy::EntryRecord>, root: &[u8]) -> (paths: Vec<Vec<u8>>)
    ensures
        path::views(paths@) == all_below(clean_policy::entry_views(entries@), root@),
{
    let ghost all = clean_policy::entry_views(entries@);
    let mut paths: Vec<Vec<u8>> = Vec::new();
    let mut i: usize = 0;
    assert(all.take(0) =~= Seq::empty());
    assert(path::views(paths@) =~= Seq::empty());
    while i < entries.len()
        invariant
            0 <= i <= entries@.len(),
            all == clean_policy::entry_views(entries@),
            path::views(paths@) == all_below(all.take(i as int), root@),
        decreases entries@.len() - i,
    {
        assert(all.take(i + 1).drop_last() =~= all.take(i as int));
        assert(all.take(i + 1).last() == entries@[i as int]@);
        if let Ok(relative) = wire::decode_relative_bytes(&entries[i].literal_relative_path) {
            let ghost before = path::views(paths@);
            let absolute = path::join(root, relative.as_slice());
            let ghost view = absolute@;
            paths.push(absolute);
            assert(path::views(paths@) =~= before.push(view));
        }
        i += 1;
    }
    assert(all.take(all.len() as int) =~= all);
    paths
}

fn list_statuses(
    entries: &Vec<clean_policy::EntryRecord>,
    looks: &Vec<Result<AnchoredEntryState, Error>>,
) -> (list: Vec<ExclusionEntryStatus>)
    ensures
        status_views(list@) == statuses(clean_policy::entry_views(entries@), looks@),
{
    let ghost all = clean_policy::entry_views(entries@);
    let mut list: Vec<ExclusionEntryStatus> = Vec::new();
    let mut i: usize = 0;
    assert(all.take(0) =~= Seq::empty());
    assert(status_views(list@) =~= Seq::empty());
    while i < entries.len()
        invariant
            0 <= i <= entries@.len(),
            all == clean_policy::entry_views(entries@),
            status_views(list@) == statuses(all.take(i as int), looks@),
        decreases entries@.len() - i,
    {
        assert(all.take(i + 1).drop_last() =~= all.take(i as int));
        assert(all.take(i + 1).last() == entries@[i as int]@);
        if let Ok(relative) = wire::decode_relative_bytes(&entries[i].literal_relative_path) {
            let missing_attention: bool = match policy_snapshot::look_at(looks, i) {
                Ok(state) => !policy_snapshot::is_still_there(state, entries[i].entry_identity),
                Err(_) => true,
            };
            let ghost before = status_views(list@);
            let ghost view = (relative@, missing_attention);
            list.push(ExclusionEntryStatus { relative_path: relative, missing_attention });
            assert(status_views(list@) =~= before.push(view));
        }
        i += 1;
    }
    assert(all.take(all.len() as int) =~= all);
    list
}

/// The snapshot of a root for the user who manages it: found by path alone.
pub open spec fn listed(look: ListLook) -> Result<SnapshotView, Fault> {
    match policy_snapshot::root_of(look.root) {
        Err(fault) => Err(fault),
        Ok(root) => match look.policy {
            Err(error) => Err(lifecycle::fault_of(error)),
            Ok(LoadedPolicy::Absent(state)) => Ok(policy_snapshot::empty_snapshot(state@)),
            Ok(LoadedPolicy::Present { file_state, policy }) => {
                let wire = wire::wire_of(root, look.root_display@);
                match clean_policy::policy_fault(policy@) {
                    Some(message) => Err((ErrorKind::InvalidData, message)),
                    None => if !policy_edit::path_stored(policy@.roots, wire) {
                        Ok(policy_snapshot::empty_snapshot(file_state@))
                    } else {
                        let record = policy@.roots[policy_edit::first_path(policy@.roots, wire)];
                        match look.root_identity {
                            None => Ok(
                                SnapshotView {
                                    file_state: file_state@,
                                    root: Some(record),
                                    effective: Seq::empty(),
                                    missing: all_below(record.entries, root),
                                },
                            ),
                            Some(identity) => if record.identity != identity {
                                Err(
                                    (
                                        ErrorKind::PermissionDenied,
                                        "stored root identity does not match current root identity"@,
                                    ),
                                )
                            } else {
                                match policy_snapshot::evaluated(
                                    record.entries,
                                    root,
                                    look.entries@,
                                ) {
                                    Err(fault) => Err(fault),
                                    Ok((effective, missing)) => Ok(
                                        SnapshotView {
                                            file_state: file_state@,
                                            root: Some(record),
                                            effective,
                                            missing,
                                        },
                                    ),
                                }
                            },
                        }
                    },
                }
            },
        },
    }
}

fn list_snapshot(look: &ListLook) -> (result: Result<PolicySnapshot, Error>)
    ensures
        match result {
            Ok(snapshot) => listed(*look) == Ok::<SnapshotView, Fault>(snapshot@),
            Err(error) => listed(*look) == Err::<SnapshotView, Fault>(lifecycle::fault_of(error)),
        },
{
    let bytes: Vec<u8> = match policy_snapshot::normalize_root_like_input(&look.root) {
        Ok(bytes) => bytes,
        Err(error) => {
            return Err(error);
        },
    };
    let root = ShownPath { bytes, display: look.root_display.clone() };
    let (file_state, policy) = match &look.policy {
        Err(error) => {
            return Err(lifecycle::pass_on(error));
        },
        Ok(LoadedPolicy::Absent(state)) => {
            return Ok(policy_snapshot::empty(state));
        },
        Ok(LoadedPolicy::Present { file_state, policy }) => (file_state, policy),
    };
    if let Err(error) = clean_policy::validate_policy(policy) {
        return Err(error);
    }
    let encoded: NativeWirePath = match wire::encode_absolute(&root) {
        Ok(encoded) => encoded,
        Err(error) => {
            return Err(error);
        },
    };
    let at: usize = match policy_edit::find_path(&policy.roots, &encoded) {
        Some(at) => at,
        None => {
            return Ok(policy_snapshot::empty(file_state));
        },
    };
    proof {
        policy_edit::lemma_first_path(policy@.roots, encoded@, at as int);
    }
    let record: RootRecord = policy.roots[at].copy();
    let (effective, missing): (Vec<Vec<u8>>, Vec<Vec<u8>>) = match look.root_identity {
        Some(identity) => match policy_snapshot::evaluate_entries(
            &record,
            root.bytes.as_slice(),
            identity,
            &look.entries,
        ) {
            Ok(lists) => lists,
            Err(error) => {
                return Err(error);
            },
        },
        None => {
            let nothing: Vec<Vec<u8>> = Vec::new();
            assert(path::views(nothing@) =~= Seq::empty());
            (nothing, list_below(&record.entries, root.bytes.as_slice()))
        },
    };
    Ok(
        PolicySnapshot {
            file_state: file_state.copy(),
            root: Some(record),
            effective_exclusions: effective,
            missing_attention_entries: missing,
        },
    )
}

/// The exclusions of a root, and the state of each.
pub fn list_root_entries(host: Host, look: &ListLook) -> (result: Result<
    (PolicySnapshot, Vec<ExclusionEntryStatus>),
    Error,
>)
    ensures
        if host != Host::MacOs {
            result matches Err(error) && error.says(
                ErrorKind::Unsupported,
                policy_edit::unsupported_text(),
            )
        } else {
            match result {
                Ok((snapshot, list)) => {
                    &&& listed(*look) == Ok::<SnapshotView, Fault>(snapshot@)
                    &&& status_views(list@) == match snapshot@.root {
                        Some(record) => statuses(record.entries, look.shown@),
                        None => Seq::empty(),
                    }
                },
                Err(error) => listed(*look) == Err::<SnapshotView, Fault>(
                    lifecycle::fault_of(error),
                ),
            }
        },
{
    if host != Host::MacOs {
        return Err(policy_edit::unsupported());
    }
    let snapshot: PolicySnapshot = match list_snapshot(look) {
        Ok(snapshot) => snapshot,
        Err(error) => {
            return Err(error);
        },
    };
    let list: Vec<ExclusionEntryStatus> = match &snapshot.root {
        Some(record) => list_statuses(&record.entries, &look.shown),
        None => {
            let nothing: Vec<ExclusionEntryStatus> = Vec::new();
            assert(status_views(nothing@) =~= Seq::empty());
            nothing
        },
    };
    Ok((snapshot, list))
}

/// Every exclusion of a snapshot is accounted for: it takes effect or needs attention, and
/// none is both or lost.
pub proof fn every_exclusion_is_accounted_for(
    entries: Seq<EntryView>,
    root: Seq<u8>,
    looks: Seq<Result<AnchoredEntryState, Error>>,
)
    requires
        policy_snapshot::evaluated(entries, root, looks) is Ok,
    ensures
        ({
            let (effective, missing) = policy_snapshot::evaluated(entries, root, looks)->Ok_0;
            effective.len() + missing.len() == entries.len()
        }),
    decreases entries.len(),
{
    if entries.len() > 0 {
        every_exclusion_is_accounted_for(entries.drop_last(), root, looks);
    }
}

/// Every path that an evaluated policy excludes lies below the root.
pub proof fn exclusions_stay_below_root(
    entries: Seq<EntryView>,
    root: Seq<u8>,
    looks: Seq<Result<AnchoredEntryState, Error>>,
)
    requires
        path::is_absolute(root),
        policy_snapshot::evaluated(entries, root, looks) is Ok,
    ensures
        ({
            let (effective, missing) = policy_snapshot::evaluated(entries, root, looks)->Ok_0;
            &&& forall|i: int|
                0 <= i < effective.len() ==> path::is_within(#[trigger] effective[i], root)
            &&& forall|i: int|
                0 <= i < missing.len() ==> path::is_within(#[trigger] missing[i], root)
        }),
    decreases entries.len(),
{
    if entries.len() > 0 {
        exclusions_stay_below_root(entries.drop_last(), root, looks);
        wire::relative_path_stays_below(entries.last().path, root);
    }
}

} // verus!
