//! Reading the clean policy: what it excludes now, and whether that changed.

use crate::clean_policy;
use crate::clean_policy::{
    EntryView, PolicyFile, PolicyView, RootRecord, RootView, UnixEntryIdentity, UnixIdentity,
};
use crate::error::{Error, ErrorKind};
use crate::lifecycle;
use crate::model::Host;
use crate::path;
use crate::policy_edit;
use crate::policy_edit::AnchoredEntryState;
use crate::recover::Fault;
use crate::text;
use crate::wire;
use crate::wire::{NativeWirePath, ShownPath, WireView};
use vstd::prelude::*;
use vstd::string::*;

verus! {

/// Where the policy is kept.
#[derive(Clone, Debug)]
pub struct ConfigPath {
    pub directory: Vec<u8>,
    pub file: Vec<u8>,
}

/// A path as it was given, and as the system makes it absolute.
#[derive(Debug)]
pub struct GivenPath {
    pub raw: Vec<u8>,
    pub absolute: Result<Vec<u8>, Error>,
}

/// The places that name a configuration directory.
#[derive(Debug)]
pub struct ConfigEnv {
    pub chosen: Option<GivenPath>,
    pub sayaka_config_dir: Option<GivenPath>,
    pub xdg_config_home: Option<GivenPath>,
    pub home: Option<GivenPath>,
}

/// An absolute path without a null byte, or why it is none.
pub open spec fn directory_of(given: GivenPath) -> Result<Seq<u8>, Fault> {
    match given.absolute {
        Err(error) => Err(lifecycle::fault_of(error)),
        Ok(absolute) => if !path::is_absolute(absolute@) || absolute@.contains(0u8) {
            Err((ErrorKind::InvalidInput, "config directory must be an absolute path"@))
        } else {
            Ok(absolute@)
        },
    }
}

fn has_null(bytes: &[u8]) -> (found: bool)
    ensures
        found == bytes@.contains(0u8),
{
    let mut i: usize = 0;
    while i < bytes.len()
        invariant
            0 <= i <= bytes@.len(),
            forall|j: int| 0 <= j < i ==> bytes@[j] != 0u8,
        decreases bytes@.len() - i,
    {
        if bytes[i] == 0 {
            assert(bytes@[i as int] == 0u8);
            return true;
        }
        i += 1;
    }
    false
}

/// An absolute path without a null byte.
pub fn normalize_abs_dir(given: &GivenPath) -> (result: Result<Vec<u8>, Error>)
    ensures
        match result {
            Ok(directory) => directory_of(*given) == Ok::<Seq<u8>, Fault>(directory@),
            Err(error) => directory_of(*given) == Err::<Seq<u8>, Fault>(
                lifecycle::fault_of(error),
            ),
        },
{
    match &given.absolute {
        Err(error) => Err(lifecycle::pass_on(error)),
        Ok(absolute) => if !path::absolute(absolute.as_slice()) || has_null(absolute.as_slice()) {
            Err(Error::new(ErrorKind::InvalidInput, "config directory must be an absolute path"))
        } else {
            Ok(text::copy_bytes(absolute.as_slice()))
        },
    }
}

/// Whether a place is set to something.
pub open spec fn is_set(place: Option<GivenPath>) -> bool {
    place matches Some(given) && given.raw@.len() > 0
}

fn set(place: &Option<GivenPath>) -> (answer: bool)
    ensures
        answer == is_set(*place),
{
    match place {
        Some(given) => given.raw.len() > 0,
        None => false,
    }
}

/// The configuration directory: what was chosen, then the engine's own variable, then the
/// general one, then the home directory.
pub open spec fn config_directory(env: ConfigEnv) -> Result<Seq<u8>, Fault> {
    if env.chosen is Some {
        directory_of(env.chosen->0)
    } else if is_set(env.sayaka_config_dir) {
        directory_of(env.sayaka_config_dir->0)
    } else if is_set(env.xdg_config_home) {
        match directory_of(env.xdg_config_home->0) {
            Err(fault) => Err(fault),
            Ok(directory) => Ok(path::joined(directory, "sayaka".spec_bytes())),
        }
    } else if is_set(env.home) {
        match directory_of(env.home->0) {
            Err(fault) => Err(fault),
            Ok(directory) => Ok(path::joined(directory, ".config/sayaka".spec_bytes())),
        }
    } else {
        Err((ErrorKind::InvalidInput, "HOME is unavailable"@))
    }
}

fn find_directory(env: &ConfigEnv) -> (result: Result<Vec<u8>, Error>)
    ensures
        match result {
            Ok(directory) => config_directory(*env) == Ok::<Seq<u8>, Fault>(directory@),
            Err(error) => config_directory(*env) == Err::<Seq<u8>, Fault>(
                lifecycle::fault_of(error),
            ),
        },
{
    if let Some(given) = &env.chosen {
        return normalize_abs_dir(given);
    }
    if set(&env.sayaka_config_dir) {
        if let Some(given) = &env.sayaka_config_dir {
            return normalize_abs_dir(given);
        }
    }
    if set(&env.xdg_config_home) {
        if let Some(given) = &env.xdg_config_home {
            return match normalize_abs_dir(given) {
                Err(error) => Err(error),
                Ok(directory) => Ok(path::join(directory.as_slice(), "sayaka".as_bytes())),
            };
        }
    }
    if set(&env.home) {
        if let Some(given) = &env.home {
            return match normalize_abs_dir(given) {
                Err(error) => Err(error),
                Ok(directory) => Ok(path::join(directory.as_slice(), ".config/sayaka".as_bytes())),
            };
        }
    }
    Err(Error::new(ErrorKind::InvalidInput, "HOME is unavailable"))
}

/// Where the policy is kept.
pub fn resolve_config_path(host: Host, env: &ConfigEnv) -> (result: Result<ConfigPath, Error>)
    ensures
        if host != Host::MacOs {
            result matches Err(error) && error.says(
                ErrorKind::Unsupported,
                policy_edit::unsupported_text(),
            )
        } else {
            match result {
                Ok(config) => {
                    &&& config_directory(*env) == Ok::<Seq<u8>, Fault>(config.directory@)
                    &&& config.file@ == path::joined(
                        config.directory@,
                        clean_policy::POLICY_FILE_NAME.spec_bytes(),
                    )
                },
                Err(error) => config_directory(*env) == Err::<Seq<u8>, Fault>(
                    lifecycle::fault_of(error),
                ),
            }
        },
{
    if host != Host::MacOs {
        return Err(policy_edit::unsupported());
    }
    match find_directory(env) {
        Err(error) => Err(error),
        Ok(directory) => {
            let file = path::join(
                directory.as_slice(),
                clean_policy::POLICY_FILE_NAME.as_bytes(),
            );
            Ok(ConfigPath { directory, file })
        },
    }
}

/// A root that the user gave, or why it is none.
pub open spec fn root_of(given: GivenPath) -> Result<Seq<u8>, Fault> {
    if path::has_piece(given.raw@, seq![path::DOT, path::DOT]) {
        Err((ErrorKind::InvalidInput, "parent traversal is not accepted"@))
    } else {
        match given.absolute {
            Err(error) => Err(lifecycle::fault_of(error)),
            Ok(absolute) => if !path::is_absolute(absolute@) || path::components(absolute@).len()
                == 0 || absolute@.contains(0u8) {
                Err((ErrorKind::InvalidInput, "root must be a non-root absolute path"@))
            } else {
                Ok(absolute@)
            },
        }
    }
}

/// A root that the user gave: absolute, not the root of the file system, and without
/// climbing.
pub fn normalize_root_like_input(given: &GivenPath) -> (result: Result<Vec<u8>, Error>)
    ensures
        match result {
            Ok(root) => root_of(*given) == Ok::<Seq<u8>, Fault>(root@),
            Err(error) => root_of(*given) == Err::<Seq<u8>, Fault>(lifecycle::fault_of(error)),
        },
{
    let dots: [u8; 2] = [path::DOT, path::DOT];
    assert(dots@ =~= seq![path::DOT, path::DOT]);
    if path::contains_piece(given.raw.as_slice(), &dots) {
        return Err(Error::new(ErrorKind::InvalidInput, "parent traversal is not accepted"));
    }
    match &given.absolute {
        Err(error) => Err(lifecycle::pass_on(error)),
        Ok(absolute) => if !path::absolute(absolute.as_slice()) || path::split(
            absolute.as_slice(),
        ).len() == 0 || has_null(absolute.as_slice()) {
            Err(Error::new(ErrorKind::InvalidInput, "root must be a non-root absolute path"))
        } else {
            Ok(text::copy_bytes(absolute.as_slice()))
        },
    }
}

/// What a path without following links is.
#[derive(Clone, Copy, Debug, PartialEq, Eq, Structural)]
pub struct RootMeta {
    pub physical_directory: bool,
    pub identity: UnixIdentity,
}

/// The state of the policy file.
#[derive(Clone, Debug)]
pub enum PolicyFileState {
    Absent {
        expected_path: Vec<u8>,
        nearest_existing_parent: Option<Vec<u8>>,
        nearest_existing_parent_identity: Option<UnixIdentity>,
    },
    Present {
        path: Vec<u8>,
        identity: UnixIdentity,
        length: u64,
        modified_unix_ms: Option<u64>,
        sha256: String,
    },
}

/// The mathematical value of a [`PolicyFileState`].
pub enum FileStateView {
    Absent { path: Seq<u8>, parent: Option<Seq<u8>>, parent_identity: Option<UnixIdentity> },
    Present {
        path: Seq<u8>,
        identity: UnixIdentity,
        length: u64,
        modified: Option<u64>,
        sha256: Seq<char>,
    },
}

pub open spec fn opt_bytes(value: Option<Vec<u8>>) -> Option<Seq<u8>> {
    match value {
        Some(bytes) => Some(bytes@),
        None => None,
    }
}

impl View for PolicyFileState {
    type V = FileStateView;

    open spec fn view(&self) -> FileStateView {
        match *self {
            PolicyFileState::Absent {
                expected_path,
                nearest_existing_parent,
                nearest_existing_parent_identity,
            } => FileStateView::Absent {
                path: expected_path@,
                parent: opt_bytes(nearest_existing_parent),
                parent_identity: nearest_existing_parent_identity,
            },
            PolicyFileState::Present { path, identity, length, modified_unix_ms, sha256 } => {
                FileStateView::Present {
                    path: path@,
                    identity,
                    length,
                    modified: modified_unix_ms,
                    sha256: sha256@,
                }
            },
        }
    }
}

/// Whether two optional paths are the same path, component by component.
pub open spec fn same_opt_path(a: Option<Seq<u8>>, b: Option<Seq<u8>>) -> bool {
    match (a, b) {
        (Some(x), Some(y)) => path::same_path(x, y),
        (None, None) => true,
        _ => false,
    }
}

pub fn opt_paths_equal(a: &Option<Vec<u8>>, b: &Option<Vec<u8>>) -> (same: bool)
    ensures
        same == same_opt_path(opt_bytes(*a), opt_bytes(*b)),
{
    match (a, b) {
        (Some(x), Some(y)) => path::paths_equal(x.as_slice(), y.as_slice()),
        (None, None) => true,
        _ => false,
    }
}

pub fn opt_identity_eq(a: &Option<UnixIdentity>, b: &Option<UnixIdentity>) -> (same: bool)
    ensures
        same == (a == b),
{
    match (a, b) {
        (Some(x), Some(y)) => *x == *y,
        (None, None) => true,
        _ => false,
    }
}

fn opt_u64_eq(a: &Option<u64>, b: &Option<u64>) -> (same: bool)
    ensures
        same == (a == b),
{
    match (a, b) {
        (Some(x), Some(y)) => *x == *y,
        (None, None) => true,
        _ => false,
    }
}

impl FileStateView {
    /// Whether two states are equal, paths compared by their components.
    pub open spec fn same(self, other: FileStateView) -> bool {
        match (self, other) {
            (
                FileStateView::Absent { path: a, parent: b, parent_identity: c },
                FileStateView::Absent { path: x, parent: y, parent_identity: z },
            ) => path::same_path(a, x) && same_opt_path(b, y) && c == z,
            (
                FileStateView::Present { path: a, identity: b, length: c, modified: d, sha256: e },
                FileStateView::Present { path: v, identity: w, length: x, modified: y, sha256: z },
            ) => path::same_path(a, v) && b == w && c == x && d == y && e == z,
            _ => false,
        }
    }
}

impl PolicyFileState {
    pub fn same(&self, other: &PolicyFileState) -> (same: bool)
        ensures
            same == self@.same(other@),
    {
        match (self, other) {
            (
                PolicyFileState::Absent {
                    expected_path: a,
                    nearest_existing_parent: b,
                    nearest_existing_parent_identity: c,
                },
                PolicyFileState::Absent {
                    expected_path: x,
                    nearest_existing_parent: y,
                    nearest_existing_parent_identity: z,
                },
            ) => path::paths_equal(a.as_slice(), x.as_slice()) && opt_paths_equal(b, y)
                && opt_identity_eq(c, z),
            (
                PolicyFileState::Present {
                    path: a,
                    identity: b,
                    length: c,
                    modified_unix_ms: d,
                    sha256: e,
                },
                PolicyFileState::Present {
                    path: v,
                    identity: w,
                    length: x,
                    modified_unix_ms: y,
                    sha256: z,
                },
            ) => path::paths_equal(a.as_slice(), v.as_slice()) && *b == *w && *c == *x
                && opt_u64_eq(d, y) && text::text_eq(e.as_str(), z.as_str()),
            _ => false,
        }
    }

    pub fn copy(&self) -> (copy: PolicyFileState)
        ensures
            copy@ == self@,
    {
        match self {
            PolicyFileState::Absent {
                expected_path,
                nearest_existing_parent,
                nearest_existing_parent_identity,
            } => PolicyFileState::Absent {
                expected_path: text::copy_bytes(expected_path.as_slice()),
                nearest_existing_parent: match nearest_existing_parent {
                    Some(parent) => Some(text::copy_bytes(parent.as_slice())),
                    None => None,
                },
                nearest_existing_parent_identity: *nearest_existing_parent_identity,
            },
            PolicyFileState::Present { path, identity, length, modified_unix_ms, sha256 } => {
                PolicyFileState::Present {
                    path: text::copy_bytes(path.as_slice()),
                    identity: *identity,
                    length: *length,
                    modified_unix_ms: *modified_unix_ms,
                    sha256: sha256.clone(),
                }
            },
        }
    }
}

/// What reading the policy file gave.
#[derive(Debug)]
pub enum LoadedPolicy {
    Absent(PolicyFileState),
    Present { file_state: PolicyFileState, policy: PolicyFile },
}

/// Whether an excluded entry still is what it was.
#[derive(Clone, Debug)]
pub struct ExclusionEntryStatus {
    pub relative_path: Vec<u8>,
    pub missing_attention: bool,
}

/// What the policy excludes below a root.
#[derive(Clone, Debug)]
pub struct PolicySnapshot {
    pub file_state: PolicyFileState,
    pub root: Option<RootRecord>,
    pub effective_exclusions: Vec<Vec<u8>>,
    pub missing_attention_entries: Vec<Vec<u8>>,
}

/// The mathematical value of a [`PolicySnapshot`].
pub struct SnapshotView {
    pub file_state: FileStateView,
    pub root: Option<RootView>,
    pub effective: Seq<Seq<u8>>,
    pub missing: Seq<Seq<u8>>,
}

pub open spec fn opt_root(value: Option<RootRecord>) -> Option<RootView> {
    match value {
        Some(root) => Some(root@),
        None => None,
    }
}

impl View for PolicySnapshot {
    type V = SnapshotView;

    open spec fn view(&self) -> SnapshotView {
        SnapshotView {
            file_state: self.file_state@,
            root: opt_root(self.root),
            effective: path::views(self.effective_exclusions@),
            missing: path::views(self.missing_attention_entries@),
        }
    }
}

/// Whether two lists hold the same paths in the same order.
pub open spec fn same_paths(a: Seq<Seq<u8>>, b: Seq<Seq<u8>>) -> bool {
    &&& a.len() == b.len()
    &&& forall|i: int| 0 <= i < a.len() ==> path::same_path(#[trigger] a[i], b[i])
}

fn lists_equal(a: &Vec<Vec<u8>>, b: &Vec<Vec<u8>>) -> (same: bool)
    ensures
        same == same_paths(path::views(a@), path::views(b@)),
{
    let ghost left = path::views(a@);
    let ghost right = path::views(b@);
    if a.len() != b.len() {
        assert(left.len() != right.len());
        return false;
    }
    let mut i: usize = 0;
    while i < a.len()
        invariant
            0 <= i <= a@.len(),
            a@.len() == b@.len(),
            left == path::views(a@),
            right == path::views(b@),
            forall|j: int| 0 <= j < i ==> path::same_path(#[trigger] left[j], right[j]),
        decreases a@.len() - i,
    {
        if !path::paths_equal(a[i].as_slice(), b[i].as_slice()) {
            assert(!path::same_path(left[i as int], right[i as int]));
            return false;
        }
        i += 1;
    }
    true
}

impl SnapshotView {
    /// Whether two snapshots are equal, paths compared by their components.
    pub open spec fn same(self, other: SnapshotView) -> bool {
        &&& self.file_state.same(other.file_state)
        &&& self.root == other.root
        &&& same_paths(self.effective, other.effective)
        &&& same_paths(self.missing, other.missing)
    }
}

impl PolicySnapshot {
    pub fn same(&self, other: &PolicySnapshot) -> (same: bool)
        ensures
            same == self@.same(other@),
    {
        let roots: bool = match (&self.root, &other.root) {
            (Some(a), Some(b)) => a.same(b),
            (None, None) => true,
            _ => false,
        };
        self.file_state.same(&other.file_state) && roots && lists_equal(
            &self.effective_exclusions,
            &other.effective_exclusions,
        ) && lists_equal(&self.missing_attention_entries, &other.missing_attention_entries)
    }
}

/// The record of a root that a session runs under: found by identity, and refused where only
/// the path fits.
pub open spec fn selected(roots: Seq<RootView>, path: WireView, identity: UnixIdentity) -> Result<
    Option<RootView>,
    Fault,
> {
    if policy_edit::identity_count(roots, identity) > 1 {
        Err((ErrorKind::InvalidData, "ambiguous clean policy root identity"@))
    } else if policy_edit::identity_count(roots, identity) == 1 {
        Ok(Some(roots[policy_edit::first_identity(roots, identity)]))
    } else if policy_edit::path_stored(roots, path) {
        Err(
            (
                ErrorKind::PermissionDenied,
                "clean policy root record is stale and requires explicit repair"@,
            ),
        )
    } else {
        Ok(None)
    }
}

fn select_root_for_execution(
    roots: &Vec<RootRecord>,
    root: &ShownPath,
    identity: UnixIdentity,
) -> (result: Result<Option<RootRecord>, Error>)
    requires
        path::is_absolute(root.bytes@),
    ensures
        match result {
            Ok(record) => selected(
                clean_policy::root_views(roots@),
                wire::wire_of(root.bytes@, root.display@),
                identity,
            ) == Ok::<Option<RootView>, Fault>(opt_root(record)),
            Err(error) => selected(
                clean_policy::root_views(roots@),
                wire::wire_of(root.bytes@, root.display@),
                identity,
            ) == Err::<Option<RootView>, Fault>(lifecycle::fault_of(error)),
        },
{
    let (count, first): (usize, usize) = policy_edit::count_identity(roots, identity);
    if count > 1 {
        return Err(Error::new(ErrorKind::InvalidData, "ambiguous clean policy root identity"));
    }
    if count == 1 {
        return Ok(Some(roots[first].copy()));
    }
    let encoded: NativeWirePath = match wire::encode_absolute(root) {
        Ok(encoded) => encoded,
        Err(error) => {
            return Err(error);
        },
    };
    if policy_edit::find_path(roots, &encoded).is_some() {
        return Err(
            Error::new(
                ErrorKind::PermissionDenied,
                "clean policy root record is stale and requires explicit repair",
            ),
        );
    }
    Ok(None)
}

/// What inspecting an entry told; an entry that was not inspected tells nothing.
pub open spec fn inspected(looks: Seq<Result<AnchoredEntryState, Error>>, i: int) -> Result<
    AnchoredEntryState,
    Fault,
> {
    if i < looks.len() {
        match looks[i] {
            Ok(state) => Ok(state),
            Err(error) => Err(lifecycle::fault_of(error)),
        }
    } else {
        Err((ErrorKind::Other, "an exclusion entry was not inspected"@))
    }
}

/// Whether an entry still is the recorded file or directory.
pub open spec fn still_there(state: AnchoredEntryState, identity: UnixEntryIdentity) -> bool {
    &&& state matches AnchoredEntryState::Present(found)
    &&& (UnixEntryIdentity { device: found.device, inode: found.inode, kind: found.kind })
        == identity
}

/// The exclusions that take effect, and those that need attention.
pub open spec fn evaluated(
    entries: Seq<EntryView>,
    root: Seq<u8>,
    looks: Seq<Result<AnchoredEntryState, Error>>,
) -> Result<(Seq<Seq<u8>>, Seq<Seq<u8>>), Fault>
    decreases entries.len(),
{
    if entries.len() == 0 {
        Ok((Seq::empty(), Seq::empty()))
    } else {
        match evaluated(entries.drop_last(), root, looks) {
            Err(fault) => Err(fault),
            Ok((effective, missing)) => match wire::relative_of(entries.last().path) {
                Err(message) => Err((ErrorKind::InvalidData, message)),
                Ok(relative) => match inspected(looks, entries.len() - 1) {
                    Err(fault) => Err(fault),
                    Ok(state) => {
                        let absolute = path::joined(root, relative);
                        if still_there(state, entries.last().identity) {
                            Ok((effective.push(absolute), missing))
                        } else {
                            Ok((effective, missing.push(absolute)))
                        }
                    },
                },
            },
        }
    }
}

proof fn lemma_evaluated_prefix(
    entries: Seq<EntryView>,
    root: Seq<u8>,
    looks: Seq<Result<AnchoredEntryState, Error>>,
    n: int,
)
    requires
        0 <= n <= entries.len(),
        evaluated(entries.take(n), root, looks) is Err,
    ensures
        evaluated(entries, root, looks) == evaluated(entries.take(n), root, looks),
    decreases entries.len() - n,
{
    if n < entries.len() {
        assert(entries.take(n + 1).drop_last() =~= entries.take(n));
        lemma_evaluated_prefix(entries, root, looks, n + 1);
    } else {
        assert(entries.take(n) =~= entries);
    }
}

pub fn look_at(looks: &Vec<Result<AnchoredEntryState, Error>>, i: usize) -> (result: Result<
    AnchoredEntryState,
    Error,
>)
    ensures
        match result {
            Ok(state) => inspected(looks@, i as int) == Ok::<AnchoredEntryState, Fault>(state),
            Err(error) => inspected(looks@, i as int) == Err::<AnchoredEntryState, Fault>(
                lifecycle::fault_of(error),
            ),
        },
{
    if i >= looks.len() {
        return Err(Error::new(ErrorKind::Other, "an exclusion entry was not inspected"));
    }
    match &looks[i] {
        Ok(state) => Ok(*state),
        Err(error) => Err(lifecycle::pass_on(error)),
    }
}

pub fn is_still_there(state: AnchoredEntryState, identity: UnixEntryIdentity) -> (there: bool)
    ensures
        there == still_there(state, identity),
{
    match state {
        AnchoredEntryState::Present(found) => found.device == identity.device && found.inode
            == identity.inode && found.kind == identity.kind,
        _ => false,
    }
}

/// Sorts the exclusions of a root into those that take effect and those that need
/// attention.
pub fn evaluate_entries(
    record: &RootRecord,
    root: &[u8],
    identity: UnixIdentity,
    looks: &Vec<Result<AnchoredEntryState, Error>>,
) -> (result: Result<(Vec<Vec<u8>>, Vec<Vec<u8>>), Error>)
    ensures
        if record.root_identity != identity {
            result matches Err(error) && error.says(
                ErrorKind::PermissionDenied,
                "stored root identity does not match current root identity"@,
            )
        } else {
            match result {
                Ok((effective, missing)) => evaluated(record@.entries, root@, looks@) == Ok::<
                    (Seq<Seq<u8>>, Seq<Seq<u8>>),
                    Fault,
                >((path::views(effective@), path::views(missing@))),
                Err(error) => evaluated(record@.entries, root@, looks@) == Err::<
                    (Seq<Seq<u8>>, Seq<Seq<u8>>),
                    Fault,
                >(lifecycle::fault_of(error)),
            }
        },
{
    if record.root_identity != identity {
        return Err(
            Error::new(
                ErrorKind::PermissionDenied,
                "stored root identity does not match current root identity",
            ),
        );
    }
    let ghost all = record@.entries;
    let mut effective: Vec<Vec<u8>> = Vec::new();
    let mut missing: Vec<Vec<u8>> = Vec::new();
    let mut i: usize = 0;
    proof {
        assert(all.take(0) =~= Seq::empty());
        assert(path::views(effective@) =~= Seq::empty());
        assert(path::views(missing@) =~= Seq::empty());
    }
    while i < record.entries.len()
        invariant
            0 <= i <= record.entries@.len(),
            all == record@.entries,
            record.root_identity == identity,
            evaluated(all.take(i as int), root@, looks@) == Ok::<
                (Seq<Seq<u8>>, Seq<Seq<u8>>),
                Fault,
            >((path::views(effective@), path::views(missing@))),
        decreases record.entries@.len() - i,
    {
        let entry = &record.entries[i];
        proof {
            assert(all.take(i + 1).drop_last() =~= all.take(i as int));
            assert(all.take(i + 1).last() == entry@);
            if evaluated(all.take(i + 1), root@, looks@) is Err {
                lemma_evaluated_prefix(all, root@, looks@, i + 1);
            }
        }
        let relative: Vec<u8> = match wire::decode_relative_bytes(&entry.literal_relative_path) {
            Ok(relative) => relative,
            Err(error) => {
                return Err(error);
            },
        };
        let absolute = path::join(root, relative.as_slice());
        let state: AnchoredEntryState = match look_at(looks, i) {
            Ok(state) => state,
            Err(error) => {
                return Err(error);
            },
        };
        let ghost kept = path::views(effective@);
        let ghost lost = path::views(missing@);
        let ghost view = absolute@;
        if is_still_there(state, entry.entry_identity) {
            effective.push(absolute);
            assert(path::views(effective@) =~= kept.push(view));
        } else {
            missing.push(absolute);
            assert(path::views(missing@) =~= lost.push(view));
        }
        i += 1;
    }
    assert(all.take(all.len() as int) =~= all);
    Ok((effective, missing))
}

/// What is observed before a session asks the policy.
#[derive(Debug)]
pub struct SnapshotLook {
    pub root: GivenPath,
    /// How the absolute root is shown.
    pub root_display: String,
    pub root_meta: Result<RootMeta, Error>,
    pub policy: Result<LoadedPolicy, Error>,
    /// What is at each entry of the selected record, in order.
    pub entries: Vec<Result<AnchoredEntryState, Error>>,
}

/// The snapshot of a policy without anything for the root.
pub open spec fn empty_snapshot(file_state: FileStateView) -> SnapshotView {
    SnapshotView { file_state, root: None, effective: Seq::empty(), missing: Seq::empty() }
}

/// The existing physical root that was given, with its identity.
pub open spec fn existing_root(root: GivenPath, meta: Result<RootMeta, Error>) -> Result<
    (Seq<u8>, UnixIdentity),
    Fault,
> {
    match root_of(root) {
        Err(fault) => Err(fault),
        Ok(root) => match meta {
            Err(error) => Err(lifecycle::fault_of(error)),
            Ok(meta) => if !meta.physical_directory {
                Err((ErrorKind::InvalidInput, "root must be an existing physical directory"@))
            } else {
                Ok((root, meta.identity))
            },
        },
    }
}

/// Takes a root that exists as a physical directory.
pub fn normalize_existing_root(root: &GivenPath, meta: &Result<RootMeta, Error>) -> (result: Result<
    (Vec<u8>, UnixIdentity),
    Error,
>)
    ensures
        match result {
            Ok(found) => existing_root(*root, *meta) == Ok::<(Seq<u8>, UnixIdentity), Fault>(
                (found.0@, found.1),
            ),
            Err(error) => existing_root(*root, *meta) == Err::<(Seq<u8>, UnixIdentity), Fault>(
                lifecycle::fault_of(error),
            ),
        },
{
    let bytes: Vec<u8> = match normalize_root_like_input(root) {
        Ok(bytes) => bytes,
        Err(error) => {
            return Err(error);
        },
    };
    match meta {
        Err(error) => Err(lifecycle::pass_on(error)),
        Ok(meta) => if !meta.physical_directory {
            Err(Error::new(ErrorKind::InvalidInput, "root must be an existing physical directory"))
        } else {
            Ok((bytes, meta.identity))
        },
    }
}

/// The snapshot of a readable policy for a root.
pub open spec fn snapshot_of(
    file_state: FileStateView,
    policy: PolicyView,
    root: Seq<u8>,
    display: Seq<char>,
    identity: UnixIdentity,
    looks: Seq<Result<AnchoredEntryState, Error>>,
) -> Result<SnapshotView, Fault> {
    match clean_policy::policy_fault(policy) {
        Some(message) => Err((ErrorKind::InvalidData, message)),
        None => match selected(policy.roots, wire::wire_of(root, display), identity) {
            Err(fault) => Err(fault),
            Ok(None) => Ok(empty_snapshot(file_state)),
            Ok(Some(record)) => if record.identity != identity {
                Err(
                    (
                        ErrorKind::PermissionDenied,
                        "stored root identity does not match current root identity"@,
                    ),
                )
            } else {
                match evaluated(record.entries, root, looks) {
                    Err(fault) => Err(fault),
                    Ok((effective, missing)) => Ok(
                        SnapshotView { file_state, root: Some(record), effective, missing },
                    ),
                }
            },
        },
    }
}

/// What the policy excludes below a root, or why that is not known.
pub open spec fn policy_snapshot(look: SnapshotLook) -> Result<SnapshotView, Fault> {
    match existing_root(look.root, look.root_meta) {
        Err(fault) => Err(fault),
        Ok((root, identity)) => match look.policy {
            Err(error) => Err(lifecycle::fault_of(error)),
            Ok(LoadedPolicy::Absent(state)) => Ok(empty_snapshot(state@)),
            Ok(LoadedPolicy::Present { file_state, policy }) => snapshot_of(
                file_state@,
                policy@,
                root,
                look.root_display@,
                identity,
                look.entries@,
            ),
        },
    }
}

pub fn empty(file_state: &PolicyFileState) -> (snapshot: PolicySnapshot)
    ensures
        snapshot@ == empty_snapshot(file_state@),
{
    let snapshot = PolicySnapshot {
        file_state: file_state.copy(),
        root: None,
        effective_exclusions: Vec::new(),
        missing_attention_entries: Vec::new(),
    };
    assert(snapshot@.effective =~= Seq::empty());
    assert(snapshot@.missing =~= Seq::empty());
    snapshot
}

/// What the policy excludes below a root.
pub fn snapshot_for_root(host: Host, look: &SnapshotLook) -> (result: Result<PolicySnapshot, Error>)
    ensures
        if host != Host::MacOs {
            result matches Err(error) && error.says(
                ErrorKind::Unsupported,
                policy_edit::unsupported_text(),
            )
        } else {
            match result {
                Ok(snapshot) => policy_snapshot(*look) == Ok::<SnapshotView, Fault>(snapshot@),
                Err(error) => policy_snapshot(*look) == Err::<SnapshotView, Fault>(
                    lifecycle::fault_of(error),
                ),
            }
        },
{
    if host != Host::MacOs {
        return Err(policy_edit::unsupported());
    }
    let (bytes, identity): (Vec<u8>, UnixIdentity) = match normalize_existing_root(
        &look.root,
        &look.root_meta,
    ) {
        Ok(found) => found,
        Err(error) => {
            return Err(error);
        },
    };
    let root = ShownPath { bytes, display: look.root_display.clone() };
    match &look.policy {
        Err(error) => Err(lifecycle::pass_on(error)),
        Ok(LoadedPolicy::Absent(state)) => Ok(empty(state)),
        Ok(LoadedPolicy::Present { file_state, policy }) => {
            if let Err(error) = clean_policy::validate_policy(policy) {
                return Err(error);
            }
            let record: RootRecord = match select_root_for_execution(
                &policy.roots,
                &root,
                identity,
            ) {
                Err(error) => {
                    return Err(error);
                },
                Ok(None) => {
                    return Ok(empty(file_state));
                },
                Ok(Some(record)) => record,
            };
            let (effective, missing): (Vec<Vec<u8>>, Vec<Vec<u8>>) = match evaluate_entries(
                &record,
                root.bytes.as_slice(),
                identity,
                &look.entries,
            ) {
                Ok(lists) => lists,
                Err(error) => {
                    return Err(error);
                },
            };
            Ok(
                PolicySnapshot {
                    file_state: file_state.copy(),
                    root: Some(record),
                    effective_exclusions: effective,
                    missing_attention_entries: missing,
                },
            )
        },
    }
}

/// Whether the policy is still what a session was approved under.
#[derive(Clone, Debug)]
pub enum PolicyGuardStatus {
    Unchanged,
    Refused(String),
}

/// How a policy changed.
pub open spec fn change_reason(expected: FileStateView, current: FileStateView) -> Seq<char> {
    match (expected, current) {
        (FileStateView::Absent { .. }, FileStateView::Present { .. }) => {
            "policy_created_after_approval"@
        },
        (FileStateView::Present { .. }, FileStateView::Absent { .. }) => {
            "policy_removed_after_approval"@
        },
        (
            FileStateView::Present { sha256: a, identity: b, .. },
            FileStateView::Present { sha256: x, identity: y, .. },
        ) => if a != x || b != y {
            "policy_content_changed_after_approval"@
        } else {
            "policy_snapshot_changed_after_approval"@
        },
        _ => "policy_snapshot_changed_after_approval"@,
    }
}

fn policy_change_reason(expected: &PolicySnapshot, current: &PolicySnapshot) -> (reason: String)
    ensures
        reason@ == change_reason(expected@.file_state, current@.file_state),
{
    match (&expected.file_state, &current.file_state) {
        (PolicyFileState::Absent { .. }, PolicyFileState::Present { .. }) => {
            "policy_created_after_approval".to_owned()
        },
        (PolicyFileState::Present { .. }, PolicyFileState::Absent { .. }) => {
            "policy_removed_after_approval".to_owned()
        },
        (
            PolicyFileState::Present { sha256: a, identity: b, .. },
            PolicyFileState::Present { sha256: x, identity: y, .. },
        ) => if !text::text_eq(a.as_str(), x.as_str()) || *b != *y {
            "policy_content_changed_after_approval".to_owned()
        } else {
            "policy_snapshot_changed_after_approval".to_owned()
        },
        _ => "policy_snapshot_changed_after_approval".to_owned(),
    }
}

/// What a guard says of the policy: nothing where it is unchanged, how it changed where it did,
/// or why that is not known.
pub open spec fn guard_answer(
    host: Host,
    look: SnapshotLook,
    expected: SnapshotView,
) -> Result<Option<Seq<char>>, Fault> {
    if host != Host::MacOs {
        Err((ErrorKind::Unsupported, policy_edit::unsupported_text()))
    } else {
        match policy_snapshot(look) {
            Err(fault) => Err(fault),
            Ok(current) => if current.same(expected) {
                Ok(None)
            } else {
                Ok(Some(change_reason(expected.file_state, current.file_state)))
            },
        }
    }
}

/// What the status of a guard says.
pub open spec fn status_answer(status: Result<PolicyGuardStatus, Error>) -> Result<
    Option<Seq<char>>,
    Fault,
> {
    match status {
        Ok(PolicyGuardStatus::Unchanged) => Ok(None),
        Ok(PolicyGuardStatus::Refused(reason)) => Ok(Some(reason@)),
        Err(error) => Err(lifecycle::fault_of(error)),
    }
}

/// Whether the policy is still what a session was approved under.
pub fn guard_snapshot(host: Host, look: &SnapshotLook, expected: &PolicySnapshot) -> (result: Result<
    PolicyGuardStatus,
    Error,
>)
    ensures
        status_answer(result) == guard_answer(host, *look, expected@),
{
    match snapshot_for_root(host, look) {
        Err(error) => Err(error),
        Ok(current) => if current.same(expected) {
            Ok(PolicyGuardStatus::Unchanged)
        } else {
            Ok(PolicyGuardStatus::Refused(policy_change_reason(expected, &current)))
        },
    }
}

} // verus!
