//! What holds of every look at what applications leave behind, at what would be uninstalled and
//! at what tools keep.

use crate::ai_footprint;
use crate::ai_footprint::{Documentation, RuleView, ScanTree, Tool, TreeSummary};
use crate::app_inventory::{AppInventory, AppRecord, RunningView, ScanEntry, StringState};
use crate::app_orphans;
use crate::app_orphans::RowView;
use crate::app_uninstall;
use crate::app_uninstall::{
    ExecutablesLook, MacosEntry, PreviewView, TargetLook, UninstallRefusalCode,
};
use crate::bundle::{IoFailure, IoKind};
use crate::candidates;
use crate::model::{Host, ResourceKind};
use crate::path;
use crate::unicode;
use crate::version;
use vstd::prelude::*;
use vstd::string::*;
use vstd::utf8;

verus! {

/// A cache directory is named like a bundle exactly if its name is letters, digits and hyphens
/// with dots between, never a dot first, last or beside another, and at least two of them.
pub proof fn bundle_names_have_three_labels(name: Seq<u8>)
    ensures
        app_orphans::is_bundle_name(name) <==> {
            &&& forall|i: int|
                0 <= i < name.len() ==> {
                    let b = #[trigger] name[i];
                    ||| (0x30 <= b <= 0x39)
                    ||| (0x41 <= b <= 0x5a)
                    ||| (0x61 <= b <= 0x7a)
                    ||| b == 0x2d
                    ||| b == 0x2e && 0 < i < name.len() - 1 && name[i - 1] != 0x2e
                }
            &&& exists|i: int, j: int|
                0 <= i < j < name.len() && #[trigger] name[i] == 0x2e && #[trigger] name[j] == 0x2e
        },
{
    lemma_two_separators(name);
    if app_orphans::is_bundle_name(name) {
        assert forall|i: int| 0 <= i < name.len() implies {
            let b = #[trigger] name[i];
            ||| (0x30 <= b <= 0x39)
            ||| (0x41 <= b <= 0x5a)
            ||| (0x61 <= b <= 0x7a)
            ||| b == 0x2d
            ||| b == 0x2e && 0 < i < name.len() - 1 && name[i - 1] != 0x2e
        } by {
            assert(app_orphans::fits_at(name, i));
        }
    }
    if forall|i: int|
        0 <= i < name.len() ==> {
            let b = #[trigger] name[i];
            ||| (0x30 <= b <= 0x39)
            ||| (0x41 <= b <= 0x5a)
            ||| (0x61 <= b <= 0x7a)
            ||| b == 0x2d
            ||| b == 0x2e && 0 < i < name.len() - 1 && name[i - 1] != 0x2e
        } {
        assert forall|i: int| 0 <= i < name.len() implies app_orphans::fits_at(name, i) by {
            assert(name[i] == name[i]);
        }
    }
}

proof fn lemma_one_separator(name: Seq<u8>)
    ensures
        app_orphans::separators(name) >= 1 <==> exists|i: int|
            0 <= i < name.len() && #[trigger] name[i] == 0x2e,
    decreases name.len(),
{
    if name.len() > 0 {
        let head = name.drop_last();
        lemma_one_separator(head);
        assert(name[name.len() - 1] == name.last());
        if exists|i: int| 0 <= i < head.len() && #[trigger] head[i] == 0x2e {
            let i = choose|i: int| 0 <= i < head.len() && #[trigger] head[i] == 0x2e;
            assert(name[i] == 0x2e);
        }
        if exists|i: int| 0 <= i < name.len() && #[trigger] name[i] == 0x2e {
            let i = choose|i: int| 0 <= i < name.len() && #[trigger] name[i] == 0x2e;
            if i < head.len() {
                assert(head[i] == 0x2e);
            }
        }
    }
}

proof fn lemma_two_separators(name: Seq<u8>)
    ensures
        app_orphans::separators(name) >= 2 <==> exists|i: int, j: int|
            0 <= i < j < name.len() && #[trigger] name[i] == 0x2e && #[trigger] name[j] == 0x2e,
    decreases name.len(),
{
    if name.len() > 0 {
        let head = name.drop_last();
        lemma_two_separators(head);
        lemma_one_separator(head);
        let last: int = name.len() - 1;
        assert(name[last] == name.last());
        if exists|i: int, j: int|
            0 <= i < j < head.len() && #[trigger] head[i] == 0x2e && #[trigger] head[j] == 0x2e {
            let (i, j): (int, int) = choose|i: int, j: int|
                0 <= i < j < head.len() && #[trigger] head[i] == 0x2e && #[trigger] head[j] == 0x2e;
            assert(name[i] == 0x2e && name[j] == 0x2e);
        }
        if name.last() == 0x2e && exists|i: int| 0 <= i < head.len() && #[trigger] head[i] == 0x2e {
            let i = choose|i: int| 0 <= i < head.len() && #[trigger] head[i] == 0x2e;
            assert(name[i] == 0x2e && name[last] == 0x2e);
        }
        if exists|i: int, j: int|
            0 <= i < j < name.len() && #[trigger] name[i] == 0x2e && #[trigger] name[j] == 0x2e {
            let (i, j): (int, int) = choose|i: int, j: int|
                0 <= i < j < name.len() && #[trigger] name[i] == 0x2e && #[trigger] name[j] == 0x2e;
            assert(head[i] == 0x2e);
            if j < head.len() {
                assert(head[j] == 0x2e);
            }
        }
    }
}

/// A cache belongs to a root exactly if the root is a `Library/Caches` that holds it directly,
/// under a bundle's name that is text; the first such root is the one it is shown under.
pub proof fn caches_lie_directly_below_their_root(place: Seq<u8>, roots: Seq<Seq<u8>>)
    ensures
        app_orphans::owner(place, roots) is None <==> forall|i: int|
            0 <= i < roots.len() ==> app_orphans::cache_name(place, #[trigger] roots[i]) is None,
        app_orphans::owner(place, roots) matches Some((root, name)) ==> {
            let names = path::components(place);
            let above = path::components(root);
            &&& roots.contains(root)
            &&& path::is_within(place, root)
            &&& names.len() == above.len() + 1
            &&& names.last() == name
            &&& above.len() >= 2
            &&& above[above.len() - 1] == utf8::encode_utf8("Caches"@)
            &&& above[above.len() - 2] == utf8::encode_utf8("Library"@)
            &&& app_orphans::is_bundle_name(name)
            &&& utf8::valid_utf8(name)
        },
    decreases roots.len(),
{
    if roots.len() > 0 {
        let rest = roots.drop_first();
        caches_lie_directly_below_their_root(place, rest);
        if app_orphans::cache_name(place, roots[0]) is None {
            if app_orphans::owner(place, roots) is None {
                assert forall|i: int| 0 <= i < roots.len() implies app_orphans::cache_name(
                    place,
                    #[trigger] roots[i],
                ) is None by {
                    if i > 0 {
                        assert(rest[i - 1] == roots[i]);
                    }
                }
            } else {
                let (root, name) = app_orphans::owner(place, rest)->0;
                let i = choose|i: int| 0 <= i < rest.len() && rest[i] == root;
                assert(roots[i + 1] == root);
                if forall|i: int|
                    0 <= i < roots.len() ==> app_orphans::cache_name(
                        place,
                        #[trigger] roots[i],
                    ) is None {
                    assert forall|i: int| 0 <= i < rest.len() implies app_orphans::cache_name(
                        place,
                        #[trigger] rest[i],
                    ) is None by {
                        assert(rest[i] == roots[i + 1]);
                    }
                }
            }
        } else {
            assert(roots[0] == roots[0]);
            assert(roots.contains(roots[0]));
        }
    }
}

/// A cache is a possible orphan exactly if no application that was found declares its name and
/// the name is neither a group's nor the system's; a protected name is protected whatever was
/// found.
pub proof fn orphans_are_claimed_by_nobody(
    inventory: AppInventory,
    scan_complete: bool,
    root: Seq<u8>,
    name: Seq<u8>,
)
    requires
        utf8::valid_utf8(name),
    ensures
        ({
            let row = app_orphans::row(inventory, scan_complete, root, name);
            let id = utf8::decode_utf8(name);
            let claimed = exists|i: int|
                0 <= i < inventory.apps@.len() && (#[trigger] inventory.apps@[i]).bundle_id.state
                    == StringState::Present && inventory.apps@[i]@.bundle_id.value == Some(id);
            let shared = app_orphans::is_protected(name);
            &&& row.disposition == "possible_orphan_review_only"@ <==> !shared && !claimed
            &&& row.disposition == "protected_shared_or_system"@ <==> shared
            &&& row.disposition == "installed_app_observed"@ <==> !shared && claimed
            &&& row.matching > 0 <==> claimed
            &&& row.hint == id
            &&& row.path == unicode::lossy_text(path::joined(root, name))
            &&& !row.selected
            &&& row.action is None
            &&& row.matching_paths.len() <= 8
            &&& row.uncertainty.contains("app_inventory_incomplete"@) <== !inventory.complete
            &&& row.uncertainty.contains("library_scan_incomplete"@) <== !scan_complete
            &&& row.uncertainty.contains("app_inventory_covers_explicit_roots_only"@)
            &&& row.uncertainty.contains("matching_app_paths_truncated"@) <== row.matching
                > row.matching_paths.len()
        }),
{
    reveal_strlit("possible_orphan_review_only");
    reveal_strlit("protected_shared_or_system");
    reveal_strlit("installed_app_observed");
    assert("possible_orphan_review_only"@.len() == 27 && "protected_shared_or_system"@.len() == 26
        && "installed_app_observed"@.len() == 22);
    let id = utf8::decode_utf8(name);
    lemma_claimed(inventory.apps@, id);
    let row = app_orphans::row(inventory, scan_complete, root, name);
    let first = seq!["app_inventory_covers_explicit_roots_only"@];
    assert(first[0] == "app_inventory_covers_explicit_roots_only"@);
    let second = app_orphans::noted(first, !inventory.complete, "app_inventory_incomplete"@);
    let third = app_orphans::noted(second, !scan_complete, "library_scan_incomplete"@);
    let fourth = app_orphans::noted(
        third,
        app_orphans::is_protected(name),
        "shared_or_system_identifier"@,
    );
    let fifth = app_orphans::noted(
        fourth,
        row.matching > row.matching_paths.len(),
        "matching_app_paths_truncated"@,
    );
    assert(row.uncertainty == fifth);
    assert(fifth[0] == first[0]);
    if !inventory.complete {
        assert(fifth[1] == "app_inventory_incomplete"@);
    }
    if !scan_complete {
        assert(fifth[second.len() as int] == "library_scan_incomplete"@);
    }
    if row.matching > row.matching_paths.len() {
        assert(fifth[fourth.len() as int] == "matching_app_paths_truncated"@);
    }
}

proof fn lemma_claimed(apps: Seq<AppRecord>, id: Seq<char>)
    ensures
        app_orphans::declaring(apps, id) > 0 <==> exists|i: int|
            0 <= i < apps.len() && (#[trigger] apps[i]).bundle_id.state == StringState::Present
                && apps[i]@.bundle_id.value == Some(id),
    decreases apps.len(),
{
    if apps.len() > 0 {
        let head = apps.drop_last();
        lemma_claimed(head, id);
        assert(apps[apps.len() - 1] == apps.last());
        if exists|i: int|
            0 <= i < head.len() && (#[trigger] head[i]).bundle_id.state == StringState::Present
                && head[i]@.bundle_id.value == Some(id) {
            let i = choose|i: int|
                0 <= i < head.len() && (#[trigger] head[i]).bundle_id.state == StringState::Present
                    && head[i]@.bundle_id.value == Some(id);
            assert(apps[i] == head[i]);
        }
        if exists|i: int|
            0 <= i < apps.len() && (#[trigger] apps[i]).bundle_id.state == StringState::Present
                && apps[i]@.bundle_id.value == Some(id) {
            let i = choose|i: int|
                0 <= i < apps.len() && (#[trigger] apps[i]).bundle_id.state == StringState::Present
                    && apps[i]@.bundle_id.value == Some(id);
            if i < head.len() {
                assert(head[i] == apps[i]);
            }
        }
    }
}

/// Names of groups and of the system are told by how they begin.
pub proof fn shared_names_are_told_by_their_beginning(name: Seq<u8>)
    ensures
        app_orphans::is_protected(name) <==> {
            ||| name.len() >= 6 && name.take(6) == seq![0x67u8, 0x72, 0x6f, 0x75, 0x70, 0x2e]
            ||| name.len() >= 10 && name.take(10) == seq![
                0x63u8,
                0x6f,
                0x6d,
                0x2e,
                0x61,
                0x70,
                0x70,
                0x6c,
                0x65,
                0x2e,
            ]
        },
{
    reveal_strlit("group.");
    reveal_strlit("com.apple.");
    utf8::is_ascii_chars_encode_utf8("group."@);
    utf8::is_ascii_chars_encode_utf8("com.apple."@);
    let group = seq![0x67u8, 0x72, 0x6f, 0x75, 0x70, 0x2e];
    let apple = seq![0x63u8, 0x6f, 0x6d, 0x2e, 0x61, 0x70, 0x70, 0x6c, 0x65, 0x2e];
    assert(utf8::encode_utf8("group."@) =~= group);
    assert(utf8::encode_utf8("com.apple."@) =~= apple);
    if name.len() >= 6 {
        assert(name.take(6) =~= name.subrange(0, 6));
    }
    if name.len() >= 10 {
        assert(name.take(10) =~= name.subrange(0, 10));
    }
}

/// Every cache that belongs to a root is listed, unless the list says that it was cut short.
pub proof fn caches_are_listed_or_the_list_is_cut(
    inventory: AppInventory,
    scan_complete: bool,
    roots: Seq<Seq<u8>>,
    entries: Seq<ScanEntry>,
    at: int,
)
    requires
        0 <= at < entries.len(),
        entries[at].kind == ResourceKind::Directory,
        !entries[at].dataless,
        app_orphans::owner(entries[at].path@, roots) is Some,
    ensures
        ({
            let found = app_orphans::projected(inventory, scan_complete, roots, entries);
            let (root, name) = app_orphans::owner(entries[at].path@, roots)->0;
            found.truncated || found.rows.contains(
                app_orphans::row(inventory, scan_complete, root, name),
            )
        }),
    decreases entries.len(),
{
    let head = entries.drop_last();
    let before = app_orphans::projected(inventory, scan_complete, roots, head);
    let found = app_orphans::projected(inventory, scan_complete, roots, entries);
    let (root, name) = app_orphans::owner(entries[at].path@, roots)->0;
    let row = app_orphans::row(inventory, scan_complete, root, name);
    lemma_stopped_is_truncated(inventory, scan_complete, roots, head);
    if at < head.len() {
        assert(head[at] == entries[at]);
        caches_are_listed_or_the_list_is_cut(inventory, scan_complete, roots, head, at);
        if let Some((r, n)) = app_orphans::owner(entries.last().path@, roots) {
            let added = app_orphans::row(inventory, scan_complete, r, n);
            lemma_with_row_keeps(before.rows, added, row);
        }
    } else {
        lemma_with_row_keeps(before.rows, row, row);
    }
}

proof fn lemma_stopped_is_truncated(
    inventory: AppInventory,
    scan_complete: bool,
    roots: Seq<Seq<u8>>,
    entries: Seq<ScanEntry>,
)
    ensures
        ({
            let found = app_orphans::projected(inventory, scan_complete, roots, entries);
            found.stopped ==> found.truncated
        }),
    decreases entries.len(),
{
    if entries.len() > 0 {
        lemma_stopped_is_truncated(inventory, scan_complete, roots, entries.drop_last());
    }
}

proof fn lemma_with_row_keeps(rows: Seq<RowView>, added: RowView, row: RowView)
    ensures
        app_orphans::with_row(rows, added).contains(row) <==> rows.contains(row) || row == added,
        app_orphans::with_row(rows, added).len() == rows.len() + 1,
    decreases rows.len(),
{
    let all = app_orphans::with_row(rows, added);
    if rows.len() == 0 || !crate::order::text_less(added.path, rows.last().path) {
        assert(all == rows.push(added));
        assert(all[rows.len() as int] == added);
        if rows.contains(row) {
            let i = choose|i: int| 0 <= i < rows.len() && rows[i] == row;
            assert(all[i] == row);
        }
        if all.contains(row) {
            let i = choose|i: int| 0 <= i < all.len() && all[i] == row;
            if i < rows.len() {
                assert(rows[i] == row);
            }
        }
    } else {
        let head = rows.drop_last();
        lemma_with_row_keeps(head, added, row);
        let inner = app_orphans::with_row(head, added);
        assert(all == inner.push(rows.last()));
        assert(all[inner.len() as int] == rows.last());
        assert(rows[rows.len() - 1] == rows.last());
        if rows.contains(row) {
            let i = choose|i: int| 0 <= i < rows.len() && rows[i] == row;
            if i < head.len() {
                assert(head[i] == row);
            }
        }
        if head.contains(row) {
            let i = choose|i: int| 0 <= i < head.len() && head[i] == row;
            assert(rows[i] == row);
        }
        if inner.contains(row) {
            let i = choose|i: int| 0 <= i < inner.len() && inner[i] == row;
            assert(all[i] == row);
        }
        if all.contains(row) {
            let i = choose|i: int| 0 <= i < all.len() && all[i] == row;
            if i < inner.len() {
                assert(inner[i] == row);
            }
        }
    }
}

/// Every listed cache is a directory that was scanned, is not in the cloud only, and belongs to
/// the root that it is shown under.
pub proof fn listed_caches_were_scanned(
    inventory: AppInventory,
    scan_complete: bool,
    roots: Seq<Seq<u8>>,
    entries: Seq<ScanEntry>,
    row: RowView,
)
    requires
        app_orphans::projected(inventory, scan_complete, roots, entries).rows.contains(row),
    ensures
        exists|i: int|
            0 <= i < entries.len() && (#[trigger] entries[i]).kind == ResourceKind::Directory
                && !entries[i].dataless && entries[i].path@.len() <= 1024 && (app_orphans::owner(
                entries[i].path@,
                roots,
            ) matches Some((root, name)) && row == app_orphans::row(
                inventory,
                scan_complete,
                root,
                name,
            )),
    decreases entries.len(),
{
    if entries.len() > 0 {
        let head = entries.drop_last();
        let before = app_orphans::projected(inventory, scan_complete, roots, head);
        let found = app_orphans::projected(inventory, scan_complete, roots, entries);
        if let Some((r, n)) = app_orphans::owner(entries.last().path@, roots) {
            lemma_with_row_keeps(
                before.rows,
                app_orphans::row(inventory, scan_complete, r, n),
                row,
            );
        }
        if before.rows.contains(row) {
            listed_caches_were_scanned(inventory, scan_complete, roots, head, row);
            let i = choose|i: int|
                0 <= i < head.len() && (#[trigger] head[i]).kind == ResourceKind::Directory
                    && !head[i].dataless && head[i].path@.len() <= 1024 && (app_orphans::owner(
                    head[i].path@,
                    roots,
                ) matches Some((root, name)) && row == app_orphans::row(
                    inventory,
                    scan_complete,
                    root,
                    name,
                ));
            assert(entries[i] == head[i]);
        } else {
            assert(entries[entries.len() - 1] == entries.last());
        }
    }
}

/// A bundle is looked into exactly if its path leads to a directory; a link is never followed,
/// and a directory without the suffix is refused by its name.
pub proof fn uninstall_targets_are_directories(
    before: PreviewView,
    look: Result<TargetLook, IoFailure>,
)
    ensures
        ({
            let after = app_uninstall::after_target(before, look);
            let n = before.refusals.len() as int;
            &&& !app_uninstall::target_ends(look) <==> look is Ok && look->Ok_0.kind
                == ResourceKind::Directory
            &&& after.refusals.take(n) == before.refusals
            &&& after.path == before.path
            &&& look matches Err(failure) ==> after.refusals.len() == n + 1
                && after.refusals[n].code == if failure.kind == IoKind::NotFound {
                UninstallRefusalCode::NotFound
            } else {
                UninstallRefusalCode::Internal
            }
            &&& look matches Ok(target) ==> {
                &&& target.kind == ResourceKind::Link ==> after.refusals.len() == n + 1
                    && after.refusals[n].code == UninstallRefusalCode::SymlinkBundle
                &&& target.kind != ResourceKind::Link && target.kind != ResourceKind::Directory
                    ==> after.refusals.len() == n + 1 && after.refusals[n].code
                    == UninstallRefusalCode::NotDirectory
                &&& target.kind == ResourceKind::Directory && candidates::named_like_app(
                    before.path,
                ) ==> after.refusals == before.refusals
                &&& target.kind == ResourceKind::Directory && !candidates::named_like_app(
                    before.path,
                ) ==> after.refusals.len() == n + 1 && after.refusals[n].code
                    == UninstallRefusalCode::NotAppBundle
                &&& target.kind == ResourceKind::Directory ==> (after.identity matches Some(seen)
                    && seen.device == target.device && seen.inode == target.inode
                    && seen.logical_bytes == target.logical_bytes && (
                target.modified matches Some(time) ==> seen.modified == time))
                &&& target.kind != ResourceKind::Directory ==> after.identity == before.identity
            }
        }),
{
    let after = app_uninstall::after_target(before, look);
    assert(after.refusals.take(before.refusals.len() as int) =~= before.refusals);
}

/// Whatever lies below `/System` is a system location, and nothing else is.
pub proof fn system_locations_lie_below_system(place: Seq<u8>)
    ensures
        app_uninstall::is_system_location(place) <==> {
            let steps = path::steps(place);
            &&& steps.len() >= 2
            &&& steps[0] == seq![0x2fu8]
            &&& steps[1] == seq![0x53u8, 0x79, 0x73, 0x74, 0x65, 0x6d]
        },
{
    reveal_strlit("/System");
    utf8::is_ascii_chars_encode_utf8("/System"@);
    let system = seq![0x2fu8, 0x53, 0x79, 0x73, 0x74, 0x65, 0x6d];
    assert(utf8::encode_utf8("/System"@) =~= system);
    let name = seq![0x53u8, 0x79, 0x73, 0x74, 0x65, 0x6d];
    let list = seq![seq![0x2fu8], name];
    assert(path::is_piece(name)) by {
        assert(forall|i: int| 0 <= i < name.len() ==> name[i] != 0x2f);
    }
    assert(name.len() == 6);
    assert(name != seq![path::DOT]) by {
        assert(seq![path::DOT].len() == 1);
    }
    assert(path::are_steps(list)) by {
        assert(list[0] =~= seq![path::SEPARATOR]);
    }
    path::steps_of_spelled(list);
    assert(list.skip(1) =~= seq![name]);
    assert(path::spelled(list) =~= system) by {
        assert(path::with_separators(seq![name]) == name);
        assert(seq![path::SEPARATOR] + name =~= system);
    }
    assert(path::steps(system) == list);
    let steps = path::steps(place);
    if app_uninstall::is_system_location(place) {
        let start = steps.subrange(0, 2);
        assert(start == list);
        assert(start[0] == steps[0] && start[1] == steps[1]);
    }
    if steps.len() >= 2 && steps[0] == seq![0x2fu8] && steps[1] == name {
        assert(steps.subrange(0, 2) =~= list);
    }
}

/// The volume passes exactly where it was verified to be local, and the property list exactly
/// where it is a regular file; each failure has a code of its own.
pub proof fn only_local_bundles_with_a_list_pass(
    host: Host,
    local: Result<bool, IoFailure>,
    plist: Result<ResourceKind, IoFailure>,
)
    ensures
        app_uninstall::volume_refusal(host, local) is None <==> host == Host::MacOs && local == Ok::<
            bool,
            IoFailure,
        >(true),
        host == Host::MacOs && local == Ok::<bool, IoFailure>(false) ==> (
        app_uninstall::volume_refusal(host, local) matches Some(refusal) && refusal.code
            == UninstallRefusalCode::NonLocalVolume),
        app_uninstall::plist_refusal(plist) is None <==> plist == Ok::<ResourceKind, IoFailure>(
            ResourceKind::File,
        ),
        plist matches Ok(kind) && kind != ResourceKind::File ==> (app_uninstall::plist_refusal(
            plist,
        ) matches Some(refusal) && refusal.code == UninstallRefusalCode::InfoPlistNotRegularFile),
        plist matches Err(failure) ==> (app_uninstall::plist_refusal(plist) matches Some(refusal)
            && refusal.code == if failure.kind == IoKind::NotFound {
            UninstallRefusalCode::MissingInfoPlist
        } else {
            UninstallRefusalCode::Internal
        }),
{
}

/// Whether a bundle runs is unknown wherever an executable could not be looked at or the
/// processes could not be listed, and is not said where there is no executable or one of them
/// leads nowhere.
pub proof fn doubtful_bundles_are_not_called_stopped(look: ExecutablesLook)
    ensures
        ({
            let seen = app_uninstall::bundle_observation(look);
            &&& look.entries matches Err(failure) ==> if failure.kind == IoKind::NotFound {
                seen is NotAttributable
            } else {
                seen == RunningView::Unknown
            }
            &&& look.entries matches Ok(entries) ==> {
                &&& (exists|i: int|
                    0 <= i < entries@.len() && ((#[trigger] entries@[i]) is Unreadable
                        || entries@[i] is UnknownKind)) ==> seen == RunningView::Unknown
                &&& (forall|i: int| 0 <= i < entries@.len() ==> (#[trigger] entries@[i]) is Other)
                    ==> seen is NotAttributable
                &&& look.running is Err ==> !(seen is Running) && !(seen is NotRunning)
                &&& (exists|i: int|
                    0 <= i < entries@.len() && #[trigger] entries@[i] == (MacosEntry::File {
                        resolved: None,
                    })) ==> !(seen is Running) && !(seen is NotRunning)
            }
        }),
{
    if let Ok(entries) = look.entries {
        let list = entries@;
        if exists|i: int|
            0 <= i < list.len() && ((#[trigger] list[i]) is Unreadable || list[i] is UnknownKind) {
            let i = choose|i: int|
                0 <= i < list.len() && ((#[trigger] list[i]) is Unreadable
                    || list[i] is UnknownKind);
            lemma_trouble(list, i);
        }
        if forall|i: int| 0 <= i < list.len() ==> (#[trigger] list[i]) is Other {
            lemma_no_files(list);
            lemma_no_trouble(list);
        }
        if exists|i: int|
            0 <= i < list.len() && #[trigger] list[i] == (MacosEntry::File { resolved: None }) {
            let i = choose|i: int|
                0 <= i < list.len() && #[trigger] list[i] == (MacosEntry::File { resolved: None });
            lemma_unresolved(list, i);
        }
    }
}

proof fn lemma_trouble(list: Seq<MacosEntry>, i: int)
    requires
        0 <= i < list.len(),
        list[i] is Unreadable || list[i] is UnknownKind,
    ensures
        app_uninstall::first_trouble(list) is Some,
    decreases list.len(),
{
    if i > 0 {
        assert(list.drop_first()[i - 1] == list[i]);
        lemma_trouble(list.drop_first(), i - 1);
    }
}

proof fn lemma_no_trouble(list: Seq<MacosEntry>)
    requires
        forall|i: int| 0 <= i < list.len() ==> (#[trigger] list[i]) is Other,
    ensures
        app_uninstall::first_trouble(list) is None,
    decreases list.len(),
{
    if list.len() > 0 {
        let rest = list.drop_first();
        assert(list[0] is Other);
        assert forall|i: int| 0 <= i < rest.len() implies (#[trigger] rest[i]) is Other by {
            assert(rest[i] == list[i + 1]);
        }
        lemma_no_trouble(rest);
    }
}

proof fn lemma_no_files(list: Seq<MacosEntry>)
    requires
        forall|i: int| 0 <= i < list.len() ==> (#[trigger] list[i]) is Other,
    ensures
        app_uninstall::files(list).len() == 0,
    decreases list.len(),
{
    if list.len() > 0 {
        let head = list.drop_last();
        assert(list[list.len() - 1] is Other);
        assert forall|i: int| 0 <= i < head.len() implies (#[trigger] head[i]) is Other by {
            assert(head[i] == list[i]);
        }
        lemma_no_files(head);
    }
}

proof fn lemma_unresolved(list: Seq<MacosEntry>, i: int)
    requires
        0 <= i < list.len(),
        list[i] == (MacosEntry::File { resolved: None }),
    ensures
        app_uninstall::has_unresolved(app_uninstall::files(list)),
        app_uninstall::files(list).len() > 0,
    decreases list.len(),
{
    let all = app_uninstall::files(list);
    let head = list.drop_last();
    let before = app_uninstall::files(head);
    if i < head.len() {
        assert(head[i] == list[i]);
        lemma_unresolved(head, i);
        let k = choose|k: int| 0 <= k < before.len() && (#[trigger] before[k]) is None;
        assert(all[k] is None);
    } else {
        assert(all[before.len() as int] is None);
    }
}

/// Everything that an uninstallation leaves alone is said, and that it is not carried out here.
pub proof fn previews_never_act(place: Seq<u8>)
    ensures
        ({
            let preview = app_uninstall::base_view(place);
            &&& preview.path == place
            &&& preview.execution == "deferred_contract"@
            &&& preview.running == RunningView::NotChecked
            &&& preview.identity is None
            &&& preview.refusals.len() == 0
            &&& preview.protections.len() == 5
            &&& preview.protections.contains(
                "a running bundle is refused, never signaled or terminated"@,
            )
        }),
{
    let preview = app_uninstall::base_view(place);
    assert(preview.protections[2] == "a running bundle is refused, never signaled or terminated"@);
}

/// A directory is recognized as a tool's exactly if it holds one of the tool's markers, under
/// the marker's name and of the marker's kind.
pub proof fn tools_are_recognized_by_their_markers(
    tree: ScanTree,
    ids: Seq<usize>,
    rules: Seq<RuleView>,
)
    ensures
        ai_footprint::is_recognized(tree, ids, rules) <==> exists|r: int, i: int|
            #![trigger rules[r], ids[i]]
            0 <= r < rules.len() && rules[r].marker && 0 <= i < ids.len() && ids[i]
                < tree.report.entries@.len() && path::file_name(
                tree.report.entries@[ids[i] as int].path@,
            ) == Some(utf8::encode_utf8(rules[r].name)) && tree.report.entries@[ids[i] as int].kind
                == ai_footprint::expected_kind(rules[r].name),
{
    if ai_footprint::is_recognized(tree, ids, rules) {
        let r = choose|r: int|
            0 <= r < rules.len() && (#[trigger] rules[r]).marker && ai_footprint::has_documented(
                tree,
                ids,
                rules[r].name,
            );
        let i = choose|i: int|
            0 <= i < ids.len() && (tree.entry_at(#[trigger] ids[i]) matches Some(entry)
                && ai_footprint::is_documented(entry, rules[r].name));
        assert(rules[r].marker && ids[i] < tree.report.entries@.len());
    }
    if exists|r: int, i: int|
        #![trigger rules[r], ids[i]]
        0 <= r < rules.len() && rules[r].marker && 0 <= i < ids.len() && ids[i]
            < tree.report.entries@.len() && path::file_name(
            tree.report.entries@[ids[i] as int].path@,
        ) == Some(utf8::encode_utf8(rules[r].name)) && tree.report.entries@[ids[i] as int].kind
            == ai_footprint::expected_kind(rules[r].name) {
        let (r, i): (int, int) = choose|r: int, i: int|
            #![trigger rules[r], ids[i]]
            0 <= r < rules.len() && rules[r].marker && 0 <= i < ids.len() && ids[i]
                < tree.report.entries@.len() && path::file_name(
                tree.report.entries@[ids[i] as int].path@,
            ) == Some(utf8::encode_utf8(rules[r].name)) && tree.report.entries@[ids[i] as int].kind
                == ai_footprint::expected_kind(rules[r].name);
        assert(ai_footprint::is_documented(
            tree.report.entries@[ids[i] as int],
            rules[r].name,
        ));
        assert(tree.entry_at(ids[i]) is Some);
        assert(ai_footprint::has_documented(tree, ids, rules[r].name));
    }
}

/// Every part that a rule names and that is there is listed, with what the rule says of it and
/// with the size of the first that was found under its name.
pub proof fn documented_parts_are_listed(
    tree: ScanTree,
    ids: Seq<usize>,
    rules: Seq<RuleView>,
    r: int,
)
    requires
        ai_footprint::parts(tree, ids, rules) is Some,
        0 <= r < rules.len(),
        ai_footprint::first_documented(tree, ids, rules[r].name) is Some,
    ensures
        ai_footprint::parts(tree, ids, rules)->0.contains(
            ai_footprint::part(
                tree,
                rules[r],
                ai_footprint::first_documented(tree, ids, rules[r].name)->0,
            ),
        ),
    decreases rules.len(),
{
    let head = rules.drop_last();
    let before = ai_footprint::parts(tree, ids, head)->0;
    let all = ai_footprint::parts(tree, ids, rules)->0;
    let part = ai_footprint::part(
        tree,
        rules[r],
        ai_footprint::first_documented(tree, ids, rules[r].name)->0,
    );
    if r < head.len() {
        assert(head[r] == rules[r]);
        documented_parts_are_listed(tree, ids, head, r);
        let i = choose|i: int| 0 <= i < before.len() && before[i] == part;
        assert(all[i] == part);
    } else {
        assert(all[before.len() as int] == part);
    }
}

/// The first that is found under a name is found exactly if any is, and has the name and the
/// kind that are asked for.
pub proof fn the_first_under_a_name_is_taken(
    tree: ScanTree,
    ids: Seq<usize>,
    name: Seq<char>,
    at: int,
)
    requires
        0 <= at < ids.len(),
        ids[at] < tree.report.entries@.len(),
        path::file_name(tree.report.entries@[ids[at] as int].path@) == Some(
            utf8::encode_utf8(name),
        ),
        tree.report.entries@[ids[at] as int].kind == ai_footprint::expected_kind(name),
    ensures
        ai_footprint::first_documented(tree, ids, name) is Some,
        (forall|i: int|
            0 <= i < at ==> !(tree.entry_at(#[trigger] ids[i]) matches Some(entry)
                && path::file_name(entry.path@) == Some(utf8::encode_utf8(name)))) ==>
            ai_footprint::first_documented(tree, ids, name) == Some(ids[at]),
    decreases ids.len(),
{
    if at > 0 {
        let rest = ids.drop_first();
        assert(rest[at - 1] == ids[at]);
        the_first_under_a_name_is_taken(tree, rest, name, at - 1);
        if forall|i: int|
            0 <= i < at ==> !(tree.entry_at(#[trigger] ids[i]) matches Some(entry)
                && path::file_name(entry.path@) == Some(utf8::encode_utf8(name))) {
            assert(!(tree.entry_at(ids[0]) matches Some(entry) && path::file_name(entry.path@)
                == Some(utf8::encode_utf8(name))));
            assert forall|i: int| 0 <= i < at - 1 implies !(tree.entry_at(
                #[trigger] rest[i],
            ) matches Some(entry) && path::file_name(entry.path@) == Some(
                utf8::encode_utf8(name),
            )) by {
                assert(rest[i] == ids[i + 1]);
            }
        }
    } else {
        assert(tree.entry_at(ids[0]) is Some);
    }
}

/// A part's size is that of its directory as it was added up, or that of the file itself; a
/// file of unknown size is counted as one. A part is in the cloud exactly if something below it
/// is.
pub proof fn sizes_are_what_was_scanned(tree: ScanTree, rule: RuleView, id: usize)
    requires
        id < tree.report.entries@.len(),
        ai_footprint::size_of(tree, id) is Some,
    ensures
        ({
            let entry = tree.report.entries@[id as int];
            let part = ai_footprint::part(tree, rule, id);
            &&& entry.kind == ResourceKind::Directory ==> tree.summary_at(id) == Some(part.size)
            &&& entry.kind != ResourceKind::Directory ==> part.size.complete
                == tree.report.complete && (entry.logical_bytes matches Some(bytes) ==> part.size
                == (TreeSummary {
                logical_bytes_known: bytes,
                logical_bytes_unknown_files: 0,
                complete: tree.report.complete,
            })) && (entry.logical_bytes is None ==> part.size.logical_bytes_known == 0
                && part.size.logical_bytes_unknown_files == 1)
            &&& part.cloud <==> exists|i: int|
                0 <= i < tree.report.entries@.len() && (#[trigger] tree.report.entries@[i]).dataless
                    && path::is_within(tree.report.entries@[i].path@, entry.path@)
            &&& part.name == rule.name && part.role == rule.role && part.consequence
                == rule.consequence
        }),
{
}

proof fn lemma_part_names()
    ensures
        "projects"@.len() == 8 && "projects"@[0] == 'p',
        "history.jsonl"@.len() == 13 && "history.jsonl"@[0] == 'h',
        "file-history"@.len() == 12 && "file-history"@[0] == 'f',
        "agent-memory"@.len() == 12 && "agent-memory"@[0] == 'a',
        "debug"@.len() == 5 && "debug"@[0] == 'd',
        "cache"@.len() == 5 && "cache"@[0] == 'c',
        "settings.json"@.len() == 13 && "settings.json"@[0] == 's' && "settings.json"@[2] == 't',
        ".credentials.json"@.len() == 17 && ".credentials.json"@[0] == '.',
        "sessions"@.len() == 8 && "sessions"@[0] == 's',
        "archived_sessions"@.len() == 17 && "archived_sessions"@[0] == 'a',
        "log"@.len() == 3 && "log"@[0] == 'l',
        "memories"@.len() == 8 && "memories"@[0] == 'm',
        "config.toml"@.len() == 11 && "config.toml"@[0] == 'c' && "config.toml"@[7] == 't',
        "auth.json"@.len() == 9 && "auth.json"@[0] == 'a',
        "logs"@.len() == 4 && "logs"@[0] == 'l',
        "session-state"@.len() == 13 && "session-state"@[0] == 's' && "session-state"@[2] == 's',
        "command-history-state"@.len() == 21 && "command-history-state"@[0] == 'c',
        "session-store.db"@.len() == 16 && "session-store.db"@[0] == 's',
        "plugin-data"@.len() == 11 && "plugin-data"@[0] == 'p',
        "config.json"@.len() == 11 && "config.json"@[0] == 'c' && "config.json"@[7] == 'j',
        "mcp-secrets"@.len() == 11 && "mcp-secrets"@[0] == 'm',
        "folder_paths.py"@.len() == 15 && "folder_paths.py"@[0] == 'f',
        "output"@.len() == 6 && "output"@[0] == 'o',
        "input"@.len() == 5 && "input"@[0] == 'i',
        "models"@.len() == 6 && "models"@[0] == 'm',
        "user"@.len() == 4 && "user"@[0] == 'u',
        "temp"@.len() == 4 && "temp"@[0] == 't',
        forall|i: int| 0 <= i < 8 ==> #[trigger] "projects"@[i] != '.',
        "history.jsonl"@[7] == '.',
        forall|i: int| 0 <= i < 12 ==> #[trigger] "file-history"@[i] != '.',
        forall|i: int| 0 <= i < 12 ==> #[trigger] "agent-memory"@[i] != '.',
        forall|i: int| 0 <= i < 5 ==> #[trigger] "debug"@[i] != '.',
        forall|i: int| 0 <= i < 5 ==> #[trigger] "cache"@[i] != '.',
        "settings.json"@[8] == '.',
        ".credentials.json"@[0] == '.',
        forall|i: int| 0 <= i < 8 ==> #[trigger] "sessions"@[i] != '.',
        forall|i: int| 0 <= i < 17 ==> #[trigger] "archived_sessions"@[i] != '.',
        forall|i: int| 0 <= i < 3 ==> #[trigger] "log"@[i] != '.',
        forall|i: int| 0 <= i < 8 ==> #[trigger] "memories"@[i] != '.',
        "config.toml"@[6] == '.',
        "auth.json"@[4] == '.',
        forall|i: int| 0 <= i < 4 ==> #[trigger] "logs"@[i] != '.',
        forall|i: int| 0 <= i < 13 ==> #[trigger] "session-state"@[i] != '.',
        forall|i: int| 0 <= i < 21 ==> #[trigger] "command-history-state"@[i] != '.',
        "session-store.db"@[13] == '.',
        forall|i: int| 0 <= i < 11 ==> #[trigger] "plugin-data"@[i] != '.',
        "config.json"@[6] == '.',
        forall|i: int| 0 <= i < 11 ==> #[trigger] "mcp-secrets"@[i] != '.',
        "folder_paths.py"@[12] == '.',
        forall|i: int| 0 <= i < 6 ==> #[trigger] "output"@[i] != '.',
        forall|i: int| 0 <= i < 5 ==> #[trigger] "input"@[i] != '.',
        forall|i: int| 0 <= i < 6 ==> #[trigger] "models"@[i] != '.',
        forall|i: int| 0 <= i < 4 ==> #[trigger] "user"@[i] != '.',
        forall|i: int| 0 <= i < 4 ==> #[trigger] "temp"@[i] != '.',
{
    reveal_strlit("projects");
    reveal_strlit("history.jsonl");
    reveal_strlit("file-history");
    reveal_strlit("agent-memory");
    reveal_strlit("debug");
    reveal_strlit("cache");
    reveal_strlit("settings.json");
    reveal_strlit(".credentials.json");
    reveal_strlit("sessions");
    reveal_strlit("archived_sessions");
    reveal_strlit("log");
    reveal_strlit("memories");
    reveal_strlit("config.toml");
    reveal_strlit("auth.json");
    reveal_strlit("logs");
    reveal_strlit("session-state");
    reveal_strlit("command-history-state");
    reveal_strlit("session-store.db");
    reveal_strlit("plugin-data");
    reveal_strlit("config.json");
    reveal_strlit("mcp-secrets");
    reveal_strlit("folder_paths.py");
    reveal_strlit("output");
    reveal_strlit("input");
    reveal_strlit("models");
    reveal_strlit("user");
    reveal_strlit("temp");
}

/// What is lost with a part of a tool is told by what it is: settings and secrets are protected,
/// logs and caches can be made again, assets are the user's own, and the rest is state.
pub open spec fn role_of(name: Seq<char>) -> Seq<char> {
    if name == "settings.json"@ || name == ".credentials.json"@ || name == "config.toml"@ || name == "auth.json"@ || name == "config.json"@ || name == "mcp-secrets"@ {
        "protected_configuration"@
    } else if name == "debug"@ || name == "cache"@ || name == "log"@ || name == "logs"@ || name == "temp"@ {
        "logs_or_cache"@
    } else if name == "agent-memory"@ || name == "memories"@ || name == "plugin-data"@ || name == "output"@ || name == "input"@ || name == "models"@ {
        "user_asset"@
    } else if name == "folder_paths.py"@ {
        "tool_marker"@
    } else {
        "recoverable_state"@
    }
}

/// Every part of a tool has the role that its name tells, is documented where the tool is, and
/// is expected to be a file exactly if its name has a dot in it.
pub proof fn parts_have_the_role_of_their_name(tool: Tool, r: int)
    requires
        0 <= r < tool.known().len(),
    ensures
        ({
            let rule = tool.known()[r];
            &&& rule.role == role_of(rule.name)
            &&& tool == Tool::Claude ==> rule.evidence == Documentation::Claude
            &&& tool == Tool::Codex ==> rule.evidence == Documentation::Codex
            &&& tool == Tool::Copilot ==> rule.evidence == Documentation::Copilot
            &&& tool == Tool::ComfyUI ==> rule.evidence == Documentation::ComfyUI
        }),
{
    lemma_part_names();
    match tool {
        Tool::Claude => {},
        Tool::Codex => {},
        Tool::Copilot => {},
        Tool::ComfyUI => {},
    }
}

/// A part is expected to be a file exactly if its name has a dot in it.
pub proof fn parts_with_a_dot_are_files(tool: Tool, r: int)
    requires
        0 <= r < tool.known().len(),
    ensures
        ai_footprint::expected_kind(tool.known()[r].name) == ResourceKind::File <==>
            tool.known()[r].name.contains('.'),
{
    lemma_part_names();
    let name = tool.known()[r].name;
    if name.contains('.') {
        let i = choose|i: int| 0 <= i < name.len() && name[i] == '.';
        assert(name[i] == '.');
    } else {
        assert forall|i: int| 0 <= i < name.len() implies #[trigger] name[i] != '.' by {
            assert(name.contains(name[i]));
        }
    }
}

/// Each tool is recognized by its own markers and by nothing else.
pub proof fn tools_have_their_own_markers(tool: Tool, r: int)
    requires
        0 <= r < tool.known().len(),
    ensures
        ({
            let rule = tool.known()[r];
            &&& tool == Tool::Claude ==> (rule.marker <==> rule.name == "projects"@ || rule.name == "history.jsonl"@ || rule.name == "settings.json"@)
            &&& tool == Tool::Codex ==> (rule.marker <==> rule.name == "sessions"@ || rule.name == "config.toml"@)
            &&& tool == Tool::Copilot ==> (rule.marker <==> rule.name == "logs"@ || rule.name == "session-state"@ || rule.name == "settings.json"@ || rule.name == "config.json"@)
            &&& tool == Tool::ComfyUI ==> (rule.marker <==> rule.name == "folder_paths.py"@)
        }),
{
    lemma_part_names();
}

/// A tree is looked at exactly if it has one root, a directory that was added up.
pub proof fn footprints_have_one_root(tree: ScanTree)
    ensures
        ai_footprint::only_root(tree) is Some <==> {
            &&& tree.roots@.len() == 1
            &&& tree.roots@[0] < tree.report.entries@.len()
            &&& tree.report.entries@[tree.roots@[0] as int].kind == ResourceKind::Directory
            &&& tree.roots@[0] < tree.summaries@.len()
            &&& tree.summaries@[tree.roots@[0] as int] is Some
            &&& tree.roots@[0] < tree.children@.len()
        },
        ai_footprint::only_root(tree) matches Some(root) ==> root == tree.roots@[0],
{
}

/// An application that declares an identifier is named by its path, unless the path is longer
/// than a kilobyte; at most eight are named, the first ones.
pub proof fn declaring_applications_are_named(apps: Seq<AppRecord>, id: Seq<char>, at: int)
    requires
        0 <= at < apps.len(),
    ensures
        apps[at]@.bundle_id.state == StringState::Present && apps[at]@.bundle_id.value == Some(id)
            && apps[at]@.path.len() <= 1024 ==> app_orphans::declaring_paths(apps, id).contains(
            unicode::lossy_text(apps[at]@.path),
        ),
        app_orphans::first_paths(app_orphans::declaring_paths(apps, id)).len() <= 8,
        app_orphans::declaring_paths(apps, id).len() <= 8 ==> app_orphans::first_paths(
            app_orphans::declaring_paths(apps, id),
        ) == app_orphans::declaring_paths(apps, id),
    decreases apps.len(),
{
    let head = apps.drop_last();
    let before = app_orphans::declaring_paths(head, id);
    let all = app_orphans::declaring_paths(apps, id);
    let place = unicode::lossy_text(apps[at]@.path);
    if app_orphans::declares(apps[at], id) && apps[at]@.path.len() <= 1024 {
        if at < head.len() {
            assert(head[at] == apps[at]);
            declaring_applications_are_named(head, id, at);
            let i = choose|i: int| 0 <= i < before.len() && before[i] == place;
            assert(all[i] == place);
        } else {
            assert(all[before.len() as int] == place);
        }
    }
}

/// Every named path is that of an application that declares the identifier, in at most a
/// kilobyte.
pub proof fn named_applications_declare_the_identifier(
    apps: Seq<AppRecord>,
    id: Seq<char>,
    at: int,
) -> (from: int)
    requires
        0 <= at < app_orphans::declaring_paths(apps, id).len(),
    ensures
        0 <= from < apps.len(),
        apps[from]@.bundle_id.state == StringState::Present,
        apps[from]@.bundle_id.value == Some(id),
        apps[from]@.path.len() <= 1024,
        app_orphans::declaring_paths(apps, id)[at] == unicode::lossy_text(apps[from]@.path),
    decreases apps.len(),
{
    let head = apps.drop_last();
    let before = app_orphans::declaring_paths(head, id);
    if at < before.len() {
        let from = named_applications_declare_the_identifier(head, id, at);
        assert(head[from] == apps[from]);
        from
    } else {
        apps.len() - 1
    }
}

/// A bundle is shown under its name without the extension; `(unknown)` stands for a name that
/// is missing or no text.
pub proof fn bundles_are_shown_by_their_stem(place: Seq<u8>)
    ensures
        path::file_name(place) is None ==> app_uninstall::shown_name(place) == "(unknown)"@,
        path::file_name(place) matches Some(name) ==> app_uninstall::shown_name(place) == (
        match unicode::utf8_text(path::stem(name)) {
            Some(text) => text,
            None => "(unknown)"@,
        }),
        app_uninstall::base_view(place).name == app_uninstall::shown_name(place),
        app_uninstall::base_view(place).path == place,
        app_uninstall::base_view(place).refusals.len() == 0,
{
}

/// A list of numbers is what its parts list, with a comma and a space between them.
pub proof fn lists_are_joined_by_commas(a: Seq<u32>, b: Seq<u32>)
    requires
        a.len() > 0,
        b.len() > 0,
    ensures
        app_uninstall::listed(a + b) == app_uninstall::listed(a) + ", "@ + app_uninstall::listed(b),
        app_uninstall::listed(seq![a[0]]) == version::decimal(a[0] as nat),
    decreases b.len(),
{
    let all = a + b;
    assert(all.last() == b.last());
    if b.len() == 1 {
        assert(all.drop_last() =~= a);
        assert(b.last() == b[0]);
        assert(app_uninstall::listed(all) =~= app_uninstall::listed(a) + ", "@
            + app_uninstall::listed(b));
    } else {
        let rest = b.drop_last();
        assert(all.drop_last() =~= a + rest);
        lists_are_joined_by_commas(a, rest);
        assert(app_uninstall::listed(all) =~= app_uninstall::listed(a) + ", "@
            + app_uninstall::listed(b));
    }
}

} // verus!
