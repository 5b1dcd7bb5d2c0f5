//! What holds of every exclusion policy: where it lies, when it is read, and what it excludes.

use crate::clean_policy;
use crate::clean_policy::{EntryKind, EntryView, PolicyView, RootView, UnixEntryIdentity, UnixIdentity};
use crate::error::{Error, ErrorKind};
use crate::model::Host;
use crate::path;
use crate::policy_edit;
use crate::policy_edit::{AnchoredEntryState, EntryRequest};
use crate::policy_snapshot;
use crate::policy_snapshot::{
    ConfigEnv, FileStateView, GivenPath, RootMeta, SnapshotLook, SnapshotView,
};
use crate::policy_store;
use crate::policy_store::{
    AncestorLook, ConfigDirLook, ListLook, Lookup, PolicyFileLook, PrivateMeta,
};
use crate::recover::Fault;
use crate::wire;
use crate::wire::WireView;
use vstd::prelude::*;
use vstd::string::*;

verus! {

/// The configuration lies where it was asked to, or else where the first of three variables that
/// is set says: the engine's own, the one for all configuration, and the home directory.
pub proof fn the_first_setting_decides(env: ConfigEnv)
    ensures
        ({
            let found = policy_snapshot::config_directory(env);
            let own = env.sayaka_config_dir matches Some(given) && given.raw@.len() > 0;
            let common = env.xdg_config_home matches Some(given) && given.raw@.len() > 0;
            let home = env.home matches Some(given) && given.raw@.len() > 0;
            &&& env.chosen matches Some(given) ==> found == policy_snapshot::directory_of(given)
            &&& env.chosen is None && own ==> found == policy_snapshot::directory_of(
                env.sayaka_config_dir->0,
            )
            &&& env.chosen is None && !own && common && found is Ok ==> found->Ok_0
                == path::joined(
                policy_snapshot::directory_of(env.xdg_config_home->0)->Ok_0,
                "sayaka".spec_bytes(),
            )
            &&& env.chosen is None && !own && !common && home && found is Ok ==> found->Ok_0
                == path::joined(
                policy_snapshot::directory_of(env.home->0)->Ok_0,
                ".config/sayaka".spec_bytes(),
            )
            &&& env.chosen is None && !own && !common && !home ==> found is Err
        }),
{
}

/// A configuration directory is accepted exactly as an absolute path without a null byte.
pub proof fn configuration_directories_are_absolute(given: GivenPath)
    ensures
        policy_snapshot::directory_of(given) is Ok <==> {
            &&& given.absolute matches Ok(place) && place@.len() > 0 && place@[0] == 0x2f
                && !place@.contains(0u8)
        },
        policy_snapshot::directory_of(given) matches Ok(place) ==> given.absolute->Ok_0@ == place,
{
}

/// A root is accepted exactly if the path that was given leads nowhere upwards and stands for an
/// absolute path below the root of the file system, without a null byte.
pub proof fn policy_roots_are_proper(given: GivenPath)
    ensures
        policy_snapshot::root_of(given) is Ok <==> {
            &&& !path::has_piece(given.raw@, seq![0x2eu8, 0x2e])
            &&& given.absolute matches Ok(place) && place@.len() > 0 && place@[0] == 0x2f
                && path::components(place@).len() > 0 && !place@.contains(0u8)
        },
        policy_snapshot::root_of(given) matches Ok(place) ==> given.absolute->Ok_0@ == place,
{
    assert(seq![0x2eu8, 0x2e] =~= seq![path::DOT, path::DOT]);
}

/// A policy file is read exactly if it is a regular file with a single name, of the user and for
/// the user alone, with no link on the way to it.
pub proof fn policy_files_are_private(meta: PrivateMeta, euid: u32)
    ensures
        policy_store::private_fault(meta, euid) is None <==> {
            &&& meta.regular
            &&& meta.links == 1
            &&& meta.uid == euid
            &&& meta.mode & 0o077 == 0
            &&& forall|i: int|
                0 <= i < meta.ancestors@.len() ==> #[trigger] meta.ancestors@[i] == Ok::<
                    bool,
                    Error,
                >(false)
        },
        !meta.regular || meta.links != 1 || meta.uid != euid || meta.mode & 0o077 != 0 ==> (
        policy_store::private_fault(meta, euid) matches Some(fault) && fault.0
            == ErrorKind::PermissionDenied),
{
    lemma_links(meta.ancestors@);
}

proof fn lemma_links(ancestors: Seq<Result<bool, Error>>)
    ensures
        policy_store::link_fault(ancestors) is None <==> forall|i: int|
            0 <= i < ancestors.len() ==> #[trigger] ancestors[i] == Ok::<bool, Error>(false),
    decreases ancestors.len(),
{
    if ancestors.len() > 0 {
        let head = ancestors.drop_last();
        lemma_links(head);
        assert(ancestors[ancestors.len() - 1] == ancestors.last());
        if policy_store::link_fault(ancestors) is None {
            assert forall|i: int| 0 <= i < ancestors.len() implies #[trigger] ancestors[i] == Ok::<
                bool,
                Error,
            >(false) by {
                if i < head.len() {
                    assert(head[i] == ancestors[i]);
                }
            }
        } else if forall|i: int|
            0 <= i < ancestors.len() ==> #[trigger] ancestors[i] == Ok::<bool, Error>(false) {
            assert forall|i: int| 0 <= i < head.len() implies #[trigger] head[i] == Ok::<
                bool,
                Error,
            >(false) by {
                assert(head[i] == ancestors[i]);
            }
        }
    }
}

/// A configuration directory is used exactly if its parent is there and it is, or was made, a
/// directory of its own, of the user and for the user alone.
pub proof fn configuration_directories_are_private(look: ConfigDirLook, euid: u32)
    ensures
        policy_store::config_dir_fault(look, euid) is None <==> {
            &&& look.parent_exists == Some(true)
            &&& look.made is Ok
            &&& look.meta matches Ok(meta) && meta.physical_directory && meta.uid == euid
                && meta.mode & 0o077 == 0
        },
{
}

/// The nearest directory above a missing file is the first that was found going up.
pub proof fn the_nearest_parent_is_the_first_found(looks: Seq<(Vec<u8>, AncestorLook)>, at: int)
    requires
        0 <= at < looks.len(),
        forall|i: int| 0 <= i < at ==> (#[trigger] looks[i]).1 == AncestorLook::NotFound,
    ensures
        looks[at].1 matches AncestorLook::Found(identity) ==> policy_store::nearest(looks) == Ok::<
            Option<(Seq<u8>, UnixIdentity)>,
            Fault,
        >(Some((looks[at].0@, identity))),
        looks[at].1 is Failed ==> policy_store::nearest(looks) is Err,
        at == looks.len() - 1 && looks[at].1 == AncestorLook::NotFound ==> policy_store::nearest(
            looks,
        ) == Ok::<Option<(Seq<u8>, UnixIdentity)>, Fault>(None),
    decreases looks.len(),
{
    let rest = looks.drop_first();
    if at > 0 {
        assert(looks[0].1 == AncestorLook::NotFound);
        assert(rest[at - 1] == looks[at]);
        assert forall|i: int| 0 <= i < at - 1 implies (#[trigger] rest[i]).1
            == AncestorLook::NotFound by {
            assert(rest[i] == looks[i + 1]);
        }
        the_nearest_parent_is_the_first_found(rest, at - 1);
    } else if looks.len() == 1 {
        assert(policy_store::nearest(rest) == Ok::<Option<(Seq<u8>, UnixIdentity)>, Fault>(None));
    }
}

/// A policy is read exactly from a private file of at most 64 KiB that can be parsed; a missing
/// file is no policy, and anything else is an error.
pub proof fn only_private_policies_are_read(file: Seq<u8>, look: PolicyFileLook, euid: u32)
    ensures
        ({
            let loaded = policy_store::load_result(file, look, euid);
            &&& look matches PolicyFileLook::Found { meta, bytes, parsed } ==> {
                &&& loaded is Ok <==> policy_store::private_fault(meta, euid) is None && (
                bytes matches Ok(content) && content@.len() <= 65_536) && parsed is Ok
                &&& loaded matches Ok((state, policy)) ==> policy == Some(parsed->Ok_0@) && state
                    == (FileStateView::Present {
                    path: file,
                    identity: meta.identity,
                    length: meta.length,
                    modified: meta.modified_unix_ms,
                    sha256: crate::digest::sha256_text(bytes->Ok_0@),
                })
            }
            &&& look is Failed ==> loaded is Err
            &&& look matches PolicyFileLook::NotFound { above, .. } ==> {
                &&& loaded is Ok <==> policy_store::nearest(above@) is Ok
                &&& loaded matches Ok((state, policy)) ==> policy is None && (
                state matches FileStateView::Absent { path, .. } && path == file)
            }
        }),
{
}

/// A policy is written only over what was read: no file where there was none, below the same
/// directory, or the same private file with the same bytes.
pub proof fn changed_policies_are_not_overwritten(
    expected: FileStateView,
    look: PolicyFileLook,
    euid: u32,
)
    ensures
        policy_store::publish_fault(expected, look, euid) is None ==> match expected {
            FileStateView::Absent { parent, parent_identity, .. } => {
                &&& look is NotFound
                &&& policy_store::nearest(look->above@) matches Ok(found) && match found {
                    Some((place, identity)) => parent_identity == Some(identity) && (
                    parent matches Some(other) && path::same_path(place, other)),
                    None => parent is None && parent_identity is None,
                }
            },
            FileStateView::Present { identity, length, sha256, .. } => {
                &&& look matches PolicyFileLook::Found { meta, bytes, .. } && meta.identity
                    == identity && meta.length == length && policy_store::private_fault(
                    meta,
                    euid,
                ) is None && (bytes matches Ok(content) && crate::digest::sha256_text(content@)
                    == sha256)
            },
        },
        expected is Absent && look is Found ==> (policy_store::publish_fault(
            expected,
            look,
            euid,
        ) matches Some(fault) && fault.0 == ErrorKind::AlreadyExists),
{
}

/// The way to an entry goes on through what could be opened; what it ends at is the entry, and
/// nothing is said of it where the way could not be followed.
pub proof fn entries_are_found_at_the_end_of_the_way(
    lookups: Seq<Lookup>,
    require_exists: bool,
    at: int,
)
    requires
        0 <= at < lookups.len(),
        forall|i: int| 0 <= i < at ==> (#[trigger] lookups[i]) is Opened,
    ensures
        lookups[at] matches Lookup::Found { device, inode, nlink, kind } ==> match kind {
            Some(kind) => policy_store::walked(lookups, require_exists) == Ok::<
                AnchoredEntryState,
                Fault,
            >(
                AnchoredEntryState::Present(
                    policy_edit::AnchoredEntryObservation { device, inode, nlink, kind },
                ),
            ),
            None => policy_store::walked(lookups, require_exists) == Ok::<
                AnchoredEntryState,
                Fault,
            >(AnchoredEntryState::NeedsAttention),
        },
        lookups[at] is Failed ==> policy_store::walked(lookups, require_exists) == Ok::<
            AnchoredEntryState,
            Fault,
        >(AnchoredEntryState::NeedsAttention),
        lookups[at] is NotFound ==> if require_exists {
            policy_store::walked(lookups, require_exists) is Err
        } else {
            policy_store::walked(lookups, require_exists) == Ok::<AnchoredEntryState, Fault>(
                AnchoredEntryState::Missing,
            )
        },
    decreases lookups.len(),
{
    if at > 0 {
        let rest = lookups.drop_first();
        assert(lookups[0] is Opened);
        assert(rest[at - 1] == lookups[at]);
        assert forall|i: int| 0 <= i < at - 1 implies (#[trigger] rest[i]) is Opened by {
            assert(rest[i] == lookups[i + 1]);
        }
        entries_are_found_at_the_end_of_the_way(rest, require_exists, at - 1);
    }
}

/// A stored exclusion takes effect exactly while the object that was excluded is still at its
/// place, of the same kind; it needs attention otherwise, and is never dropped.
pub proof fn exclusions_follow_their_object(
    entries: Seq<EntryView>,
    root: Seq<u8>,
    looks: Seq<Result<AnchoredEntryState, Error>>,
    at: int,
)
    requires
        policy_snapshot::evaluated(entries, root, looks) is Ok,
        0 <= at < entries.len(),
    ensures
        wire::relative_of(entries[at].path) is Ok,
        at < looks.len() && looks[at] is Ok,
        ({
            let (effective, missing) = policy_snapshot::evaluated(entries, root, looks)->Ok_0;
            let place = path::joined(root, wire::relative_of(entries[at].path)->Ok_0);
            let stays = looks[at]->Ok_0 matches AnchoredEntryState::Present(found) && found.device
                == entries[at].identity.device && found.inode == entries[at].identity.inode
                && found.kind == entries[at].identity.kind;
            &&& stays ==> effective.contains(place)
            &&& !stays ==> missing.contains(place)
        }),
    decreases entries.len(),
{
    let head = entries.drop_last();
    let (effective, missing) = policy_snapshot::evaluated(entries, root, looks)->Ok_0;
    let (before, lost) = policy_snapshot::evaluated(head, root, looks)->Ok_0;
    let place = path::joined(root, wire::relative_of(entries[at].path)->Ok_0);
    if at < head.len() {
        assert(head[at] == entries[at]);
        exclusions_follow_their_object(head, root, looks, at);
        if before.contains(place) {
            let i = choose|i: int| 0 <= i < before.len() && before[i] == place;
            assert(effective[i] == place);
        }
        if lost.contains(place) {
            let i = choose|i: int| 0 <= i < lost.len() && lost[i] == place;
            assert(missing[i] == place);
        }
    } else {
        assert(entries[at] == entries.last());
        let state = looks[at]->Ok_0;
        if policy_snapshot::still_there(state, entries.last().identity) {
            assert(effective[before.len() as int] == place);
        } else {
            assert(missing[lost.len() as int] == place);
        }
    }
}

/// The record of a root is found by the root's identity alone; a record of its path with another
/// identity is an error, and so are two of one identity.
pub proof fn roots_are_known_by_identity(
    roots: Seq<RootView>,
    place: WireView,
    identity: UnixIdentity,
    at: int,
)
    requires
        0 <= at < roots.len(),
        roots[at].identity == identity,
        forall|i: int| 0 <= i < roots.len() && i != at ==> (#[trigger] roots[i]).identity != identity,
    ensures
        policy_snapshot::selected(roots, place, identity) == Ok::<Option<RootView>, Fault>(
            Some(roots[at]),
        ),
{
    lemma_one_identity(roots, identity, at);
}

proof fn lemma_no_identity(roots: Seq<RootView>, identity: UnixIdentity)
    requires
        forall|i: int| 0 <= i < roots.len() ==> (#[trigger] roots[i]).identity != identity,
    ensures
        policy_edit::identity_count(roots, identity) == 0,
    decreases roots.len(),
{
    if roots.len() > 0 {
        let head = roots.drop_last();
        assert(roots[roots.len() - 1].identity != identity);
        assert forall|i: int| 0 <= i < head.len() implies (#[trigger] head[i]).identity
            != identity by {
            assert(head[i] == roots[i]);
        }
        lemma_no_identity(head, identity);
    }
}

proof fn lemma_one_identity(roots: Seq<RootView>, identity: UnixIdentity, at: int)
    requires
        0 <= at < roots.len(),
        roots[at].identity == identity,
        forall|i: int| 0 <= i < roots.len() && i != at ==> (#[trigger] roots[i]).identity != identity,
    ensures
        policy_edit::identity_count(roots, identity) == 1,
        policy_edit::first_identity(roots, identity) == at,
    decreases roots.len(),
{
    let head = roots.drop_last();
    assert forall|i: int| 0 <= i < head.len() && i != at implies (#[trigger] head[i]).identity
        != identity by {
        assert(head[i] == roots[i]);
    }
    if at < head.len() {
        assert(head[at] == roots[at]);
        assert(roots[roots.len() - 1].identity != identity);
        lemma_one_identity(head, identity, at);
    } else {
        lemma_no_identity(head, identity);
    }
}

/// A root that is not stored is excluded nothing, but a root stored under its path alone is an
/// error.
pub proof fn unknown_roots_exclude_nothing(
    roots: Seq<RootView>,
    place: WireView,
    identity: UnixIdentity,
)
    requires
        forall|i: int| 0 <= i < roots.len() ==> (#[trigger] roots[i]).identity != identity,
    ensures
        policy_snapshot::selected(roots, place, identity) is Err <==> exists|i: int|
            0 <= i < roots.len() && (#[trigger] roots[i]).path == place,
        policy_snapshot::selected(roots, place, identity) is Ok ==> policy_snapshot::selected(
            roots,
            place,
            identity,
        ) == Ok::<Option<RootView>, Fault>(None),
{
    lemma_no_identity(roots, identity);
}

/// The policy stands exactly if a new look at it gives what was approved: the same file with the
/// same bytes, the same record and the same exclusions; what differs is the refusal.
pub proof fn approved_policies_must_stand(host: Host, look: SnapshotLook, expected: SnapshotView)
    ensures
        ({
            let answer = policy_snapshot::guard_answer(host, look, expected);
            &&& answer == Ok::<Option<Seq<char>>, Fault>(None) ==> {
                &&& host == Host::MacOs
                &&& policy_snapshot::policy_snapshot(look) matches Ok(now) && now.root
                    == expected.root && now.effective.len() == expected.effective.len()
                    && now.missing.len() == expected.missing.len() && (forall|i: int|
                    0 <= i < now.effective.len() ==> path::same_path(
                        #[trigger] now.effective[i],
                        expected.effective[i],
                    )) && match (now.file_state, expected.file_state) {
                    (
                        FileStateView::Present { identity, length, modified, sha256, .. },
                        FileStateView::Present {
                            identity: identity2,
                            length: length2,
                            modified: modified2,
                            sha256: sha256_2,
                            ..
                        },
                    ) => identity == identity2 && length == length2 && modified == modified2
                        && sha256 == sha256_2,
                    (FileStateView::Absent { .. }, FileStateView::Absent { .. }) => true,
                    _ => false,
                }
            }
            &&& host != Host::MacOs || policy_snapshot::policy_snapshot(look) is Err ==> answer
                is Err
        }),
{
}

/// A refusal says how the policy changed: that it appeared, that it went, that its content
/// changed, or that something else did.
pub proof fn policy_changes_are_named(expected: FileStateView, current: FileStateView)
    ensures
        ({
            let reason = policy_snapshot::change_reason(expected, current);
            &&& expected is Absent && current is Present ==> reason
                == "policy_created_after_approval"@
            &&& expected is Present && current is Absent ==> reason
                == "policy_removed_after_approval"@
            &&& expected is Present && current is Present && (expected->Present_sha256
                != current->Present_sha256 || expected->Present_identity
                != current->Present_identity) ==> reason
                == "policy_content_changed_after_approval"@
            &&& expected is Present && current is Present && expected->Present_sha256
                == current->Present_sha256 && expected->Present_identity
                == current->Present_identity ==> reason
                == "policy_snapshot_changed_after_approval"@
            &&& expected is Absent && current is Absent ==> reason
                == "policy_snapshot_changed_after_approval"@
        }),
{
}

/// A policy is sound exactly if it has the known layout and at most 512 roots, no two of one
/// path or one identity, each with at most 512 entries under distinct clean relative paths.
pub proof fn sound_policies_name_everything_once(policy: PolicyView)
    ensures
        clean_policy::policy_fault(policy) is None <==> {
            &&& policy.schema_version == 1
            &&& policy.kind == "sayaka_clean_exclusions"@
            &&& policy.roots.len() <= 512
            &&& forall|i: int|
                0 <= i < policy.roots.len() ==> (#[trigger] policy.roots[i]).entries.len() <= 512
                    && wire::absolute_of(policy.roots[i].path) is Ok && distinct_keys(
                    policy.roots[i].entries,
                )
            &&& forall|i: int, j: int|
                0 <= i < j < policy.roots.len() ==> (#[trigger] policy.roots[i]).identity != (
                #[trigger] policy.roots[j]).identity && wire::absolute_of(policy.roots[i].path)
                    != wire::absolute_of(policy.roots[j].path)
        },
{
    lemma_roots(policy.roots);
}

/// Whether every entry has a clean relative path, and no two the same.
pub open spec fn distinct_keys(entries: Seq<EntryView>) -> bool {
    &&& forall|i: int|
        0 <= i < entries.len() ==> wire::relative_of((#[trigger] entries[i]).path) is Ok
    &&& forall|i: int, j: int|
        0 <= i < j < entries.len() ==> wire::relative_of((#[trigger] entries[i]).path)
            != wire::relative_of((#[trigger] entries[j]).path)
}

proof fn lemma_entries(entries: Seq<EntryView>)
    ensures
        clean_policy::entries_fault(entries) is None <==> distinct_keys(entries),
    decreases entries.len(),
{
    if entries.len() > 0 {
        let head = entries.drop_last();
        let last: int = entries.len() - 1;
        lemma_entries(head);
        assert(entries[last] == entries.last());
        assert forall|i: int| 0 <= i < head.len() implies #[trigger] head[i] == entries[i] by {}
        if clean_policy::entries_fault(entries) is None {
            let key = wire::relative_of(entries.last().path)->Ok_0;
            assert(!clean_policy::key_seen(head, key));
            assert forall|i: int| 0 <= i < entries.len() implies wire::relative_of(
                (#[trigger] entries[i]).path,
            ) is Ok by {
                if i < head.len() {
                    assert(head[i] == entries[i]);
                }
            }
            assert forall|i: int, j: int| 0 <= i < j < entries.len() implies wire::relative_of(
                (#[trigger] entries[i]).path,
            ) != wire::relative_of((#[trigger] entries[j]).path) by {
                assert(head[i] == entries[i]);
                if j < head.len() {
                    assert(head[j] == entries[j]);
                }
            }
        }
        if distinct_keys(entries) {
            assert forall|i: int| 0 <= i < head.len() implies wire::relative_of(
                (#[trigger] head[i]).path,
            ) is Ok by {
                assert(head[i] == entries[i]);
            }
            assert forall|i: int, j: int| 0 <= i < j < head.len() implies wire::relative_of(
                (#[trigger] head[i]).path,
            ) != wire::relative_of((#[trigger] head[j]).path) by {
                assert(head[i] == entries[i] && head[j] == entries[j]);
            }
            assert(wire::relative_of(entries[last].path) is Ok);
            let key = wire::relative_of(entries.last().path)->Ok_0;
            if clean_policy::key_seen(head, key) {
                let i = choose|i: int|
                    0 <= i < head.len() && wire::relative_of((#[trigger] head[i]).path) == Ok::<
                        Seq<u8>,
                        Seq<char>,
                    >(key);
                assert(entries[i] == head[i]);
                assert(wire::relative_of(entries[i].path) != wire::relative_of(
                    entries[last].path,
                ));
            }
        }
    }
}

/// Whether every root of a list is sound and told apart from the others.
pub open spec fn distinct_roots(roots: Seq<RootView>) -> bool {
    &&& forall|i: int|
        0 <= i < roots.len() ==> (#[trigger] roots[i]).entries.len() <= 512 && wire::absolute_of(
            roots[i].path,
        ) is Ok && distinct_keys(roots[i].entries)
    &&& forall|i: int, j: int|
        0 <= i < j < roots.len() ==> (#[trigger] roots[i]).identity != (
        #[trigger] roots[j]).identity && wire::absolute_of(roots[i].path) != wire::absolute_of(
            roots[j].path,
        )
}

proof fn lemma_roots(roots: Seq<RootView>)
    ensures
        clean_policy::roots_fault(roots) is None <==> distinct_roots(roots),
    decreases roots.len(),
{
    if roots.len() > 0 {
        let head = roots.drop_last();
        let last: int = roots.len() - 1;
        lemma_roots(head);
        lemma_entries(roots.last().entries);
        assert(roots[last] == roots.last());
        assert forall|i: int| 0 <= i < head.len() implies #[trigger] head[i] == roots[i] by {}
        if clean_policy::roots_fault(roots) is None {
            let bytes = wire::absolute_of(roots.last().path)->Ok_0;
            assert(!clean_policy::path_seen(head, bytes));
            assert(!clean_policy::identity_seen(head, roots.last().identity));
            assert forall|i: int| 0 <= i < roots.len() implies (#[trigger] roots[i]).entries.len()
                <= 512 && wire::absolute_of(roots[i].path) is Ok && distinct_keys(
                roots[i].entries,
            ) by {
                if i < head.len() {
                    assert(head[i] == roots[i]);
                }
            }
            assert forall|i: int, j: int| 0 <= i < j < roots.len() implies (
            #[trigger] roots[i]).identity != (#[trigger] roots[j]).identity && wire::absolute_of(
                roots[i].path,
            ) != wire::absolute_of(roots[j].path) by {
                assert(head[i] == roots[i]);
                if j < head.len() {
                    assert(head[j] == roots[j]);
                }
            }
        }
        if distinct_roots(roots) {
            assert forall|i: int| 0 <= i < head.len() implies (#[trigger] head[i]).entries.len()
                <= 512 && wire::absolute_of(head[i].path) is Ok && distinct_keys(
                head[i].entries,
            ) by {
                assert(head[i] == roots[i]);
            }
            assert forall|i: int, j: int| 0 <= i < j < head.len() implies (
            #[trigger] head[i]).identity != (#[trigger] head[j]).identity && wire::absolute_of(
                head[i].path,
            ) != wire::absolute_of(head[j].path) by {
                assert(head[i] == roots[i] && head[j] == roots[j]);
            }
            assert(wire::absolute_of(roots[last].path) is Ok);
            let bytes = wire::absolute_of(roots.last().path)->Ok_0;
            if clean_policy::path_seen(head, bytes) {
                let i = choose|i: int|
                    0 <= i < head.len() && wire::absolute_of((#[trigger] head[i]).path) == Ok::<
                        Seq<u8>,
                        Seq<char>,
                    >(bytes);
                assert(roots[i] == head[i]);
                assert(wire::absolute_of(roots[i].path) != wire::absolute_of(roots[last].path));
            }
            if clean_policy::identity_seen(head, roots.last().identity) {
                let i = choose|i: int|
                    0 <= i < head.len() && (#[trigger] head[i]).identity == roots.last().identity;
                assert(roots[i] == head[i]);
                assert(roots[i].identity != roots[last].identity);
            }
        }
    }
}

/// An entry is admitted exactly if it lies strictly below the root, leads nowhere upwards, is
/// there both times it is looked at, and is not a file with several names; it is kept as the
/// object that was seen the second time.
pub proof fn admitted_entries_are_single_objects(request: EntryRequest, root: Seq<u8>)
    ensures
        ({
            let admitted = policy_edit::admitted(request, root);
            &&& admitted is Ok <==> {
                &&& !path::has_piece(request.absolute@, seq![0x2eu8, 0x2e])
                &&& path::is_within(request.absolute@, root)
                &&& !path::is_within(root, request.absolute@)
                &&& request.anchored matches Ok(AnchoredEntryState::Present(_))
                &&& request.anchored_again matches Ok(AnchoredEntryState::Present(found)) && (
                found.kind == EntryKind::Directory || found.nlink == 1)
            }
            &&& admitted matches Ok(identity) ==> (
            request.anchored_again matches Ok(AnchoredEntryState::Present(found)) && identity == (
            UnixEntryIdentity { device: found.device, inode: found.inode, kind: found.kind }))
        }),
{
    assert(seq![0x2eu8, 0x2e] =~= seq![path::DOT, path::DOT]);
}

/// A wire path stands for bytes exactly in the one encoding, and is relative or absolute as its
/// bytes are.
pub proof fn wire_paths_are_told_apart(written: WireView)
    ensures
        wire::absolute_of(written) matches Ok(bytes) ==> bytes.len() > 0 && bytes[0] == 0x2f
            && written.encoding == "unix_bytes"@,
        wire::relative_of(written) matches Ok(bytes) ==> bytes.len() > 0 && bytes[0] != 0x2f
            && written.encoding == "unix_bytes"@ && !path::has_piece(bytes, seq![0x2eu8, 0x2e]),
        !(wire::absolute_of(written) is Ok && wire::relative_of(written) is Ok),
        written.encoding != "unix_bytes"@ ==> wire::wire_bytes(written) is Err,
{
    assert(seq![0x2eu8, 0x2e] =~= seq![path::DOT, path::DOT]);
}

/// A root is there exactly if its path is proper and leads to a directory of its own; it is
/// known by what was seen there.
pub proof fn existing_roots_are_directories(given: GivenPath, meta: Result<RootMeta, Error>)
    ensures
        policy_snapshot::existing_root(given, meta) is Ok <==> policy_snapshot::root_of(given)
            is Ok && (meta matches Ok(seen) && seen.physical_directory),
        policy_snapshot::existing_root(given, meta) matches Ok((root, identity)) ==>
            policy_snapshot::root_of(given) == Ok::<Seq<u8>, Fault>(root)
            && meta->Ok_0.identity == identity,
{
}

/// A stored exclusion needs attention exactly if it could not be looked at or is not the object
/// that was excluded.
pub proof fn changed_exclusions_need_attention(
    entry: EntryView,
    look: Result<AnchoredEntryState, Fault>,
)
    ensures
        policy_store::needs_attention(entry, look) <==> !(look matches Ok(
            AnchoredEntryState::Present(found),
        ) && found.device == entry.identity.device && found.inode == entry.identity.inode
            && found.kind == entry.identity.kind),
{
}

/// A root that cannot be seen now keeps its stored exclusions, each of them needing attention.
pub proof fn unseen_roots_keep_their_exclusions(entries: Seq<EntryView>, root: Seq<u8>, at: int)
    requires
        0 <= at < entries.len(),
        wire::relative_of(entries[at].path) is Ok,
    ensures
        policy_store::all_below(entries, root).contains(
            path::joined(root, wire::relative_of(entries[at].path)->Ok_0),
        ),
    decreases entries.len(),
{
    let head = entries.drop_last();
    let before = policy_store::all_below(head, root);
    let all = policy_store::all_below(entries, root);
    let place = path::joined(root, wire::relative_of(entries[at].path)->Ok_0);
    if at < head.len() {
        assert(head[at] == entries[at]);
        unseen_roots_keep_their_exclusions(head, root, at);
        let i = choose|i: int| 0 <= i < before.len() && before[i] == place;
        assert(all[i] == place);
    } else {
        assert(all[before.len() as int] == place);
    }
}

/// What is listed of a stored root that cannot be seen is all that is stored below it, and none
/// of it takes effect.
pub proof fn listings_of_unseen_roots_take_no_effect(look: ListLook)
    requires
        look.root_identity is None,
        policy_store::listed(look) is Ok,
    ensures
        policy_store::listed(look)->Ok_0.effective.len() == 0,
        policy_store::listed(look)->Ok_0.root matches Some(record) ==> policy_store::listed(
            look,
        )->Ok_0.missing == policy_store::all_below(
            record.entries,
            policy_snapshot::root_of(look.root)->Ok_0,
        ),
{
}

/// Storing a root that is known by its identity moves its record to the path it has now and
/// keeps what it excludes; a new root starts with nothing.
pub proof fn stored_roots_follow_their_identity(
    roots: Seq<RootView>,
    place: WireView,
    identity: UnixIdentity,
    now: Result<u64, Error>,
    at: int,
)
    requires
        0 <= at < roots.len(),
        roots[at].identity == identity,
        forall|i: int| 0 <= i < roots.len() && i != at ==> (#[trigger] roots[i]).identity != identity,
    ensures
        policy_edit::ensured(roots, place, identity, now) == Ok::<(Seq<RootView>, int), Fault>(
            (roots.update(at, RootView { path: place, ..roots[at] }), at),
        ),
{
    lemma_one_identity(roots, identity, at);
}

/// A root that is not stored is added behind the others with nothing below it, unless another
/// object is stored under its path.
pub proof fn new_roots_start_empty(
    roots: Seq<RootView>,
    place: WireView,
    identity: UnixIdentity,
    created: u64,
)
    requires
        forall|i: int| 0 <= i < roots.len() ==> (#[trigger] roots[i]).identity != identity,
    ensures
        (exists|i: int| 0 <= i < roots.len() && (#[trigger] roots[i]).path == place) ==>
            policy_edit::ensured(roots, place, identity, Ok(created)) is Err,
        !(exists|i: int| 0 <= i < roots.len() && (#[trigger] roots[i]).path == place) ==>
            policy_edit::ensured(roots, place, identity, Ok(created)) == Ok::<
            (Seq<RootView>, int),
            Fault,
        >(
            (
                roots.push(
                    RootView { path: place, identity, created, entries: Seq::empty() },
                ),
                roots.len() as int,
            ),
        ),
{
    lemma_no_identity(roots, identity);
}

} // verus!
