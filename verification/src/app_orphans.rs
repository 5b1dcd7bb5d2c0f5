//! Review-only projection of possible app cache remnants in an explicit Caches scan.

use crate::app_inventory::{AppInventory, AppRecord, ScanEntry, ScanReport, StringState};
use crate::model::ResourceKind;
use crate::order;
use crate::path;
use crate::text;
use crate::unicode;
use vstd::prelude::*;
use vstd::string::*;
use vstd::utf8;

verus! {

/// How many candidates a preview lists.
pub const MAX_ROWS: usize = 256;

/// How long a path may be that is listed.
pub const MAX_PATH_BYTES: usize = 1024;

/// How many paths of matching applications a candidate lists.
pub const MAX_PATHS: usize = 8;

#[derive(Debug)]
pub struct OrphanCachePreview {
    pub schema_version: u32,
    pub kind: &'static str,
    pub inventory_complete_in_selected_roots: bool,
    pub library_scan_complete: bool,
    pub globally_complete: bool,
    pub effects_performed: bool,
    pub truncated: bool,
    pub inventory_roots: Vec<String>,
    pub library_roots: Vec<String>,
    pub candidates: Vec<OrphanCacheCandidate>,
}

#[derive(Debug)]
pub struct OrphanCacheCandidate {
    pub path: String,
    pub bundle_id_hint: String,
    pub disposition: &'static str,
    pub matching_app_count: usize,
    pub matching_app_paths: Vec<String>,
    pub evidence: Vec<&'static str>,
    pub uncertainty: Vec<&'static str>,
    pub selected: bool,
    pub authorized_action: Option<&'static str>,
}

/// The mathematical value of an [`OrphanCacheCandidate`].
#[verifier::ext_equal]
pub struct RowView {
    pub path: Seq<char>,
    pub hint: Seq<char>,
    pub disposition: Seq<char>,
    pub matching: nat,
    pub matching_paths: Seq<Seq<char>>,
    pub evidence: Seq<Seq<char>>,
    pub uncertainty: Seq<Seq<char>>,
    pub selected: bool,
    pub action: Option<Seq<char>>,
}

impl View for OrphanCacheCandidate {
    type V = RowView;

    open spec fn view(&self) -> RowView {
        RowView {
            path: self.path@,
            hint: self.bundle_id_hint@,
            disposition: self.disposition@,
            matching: self.matching_app_count as nat,
            matching_paths: order::texts(self.matching_app_paths@),
            evidence: order::literals(self.evidence@),
            uncertainty: order::literals(self.uncertainty@),
            selected: self.selected,
            action: match self.authorized_action {
                Some(action) => Some(action@),
                None => None,
            },
        }
    }
}

pub open spec fn row_views(rows: Seq<OrphanCacheCandidate>) -> Seq<RowView> {
    Seq::new(rows.len(), |i: int| rows[i]@)
}

/// The byte that separates the labels of a bundle identifier.
pub const LABEL_SEPARATOR: u8 = 46;

/// Letters, digits and hyphens make a label.
pub open spec fn label_byte(byte: u8) -> bool {
    (48 <= byte <= 57) || (65 <= byte <= 90) || (97 <= byte <= 122) || byte == 45
}

/// Whether what stands at a place of a name can stand there in a bundle identifier: a
/// separator has a label on either side.
pub open spec fn fits_at(name: Seq<u8>, i: int) -> bool {
    ||| label_byte(name[i])
    ||| name[i] == LABEL_SEPARATOR && 0 < i && i + 1 < name.len() && name[i - 1] != LABEL_SEPARATOR
}

/// How many separators a name holds.
pub open spec fn separators(name: Seq<u8>) -> nat
    decreases name.len(),
{
    if name.len() == 0 {
        0
    } else {
        separators(name.drop_last()) + (if name.last() == LABEL_SEPARATOR {
            1nat
        } else {
            0nat
        })
    }
}

/// Whether a name is a bundle identifier: three labels or more.
pub open spec fn is_bundle_name(name: Seq<u8>) -> bool {
    &&& forall|i: int| 0 <= i < name.len() ==> fits_at(name, i)
    &&& separators(name) >= 2
}

/// Whether a directory is a user's caches directory.
pub open spec fn is_caches_root(root: Seq<u8>) -> bool {
    let names = path::components(root);
    &&& names.len() >= 2
    &&& names[names.len() - 1] == utf8::encode_utf8("Caches"@)
    &&& names[names.len() - 2] == utf8::encode_utf8("Library"@)
}

/// The bundle identifier that a directory right below a caches directory is named after.
pub open spec fn cache_name(place: Seq<u8>, root: Seq<u8>) -> Option<Seq<u8>> {
    let names = path::components(place);
    if is_caches_root(root) && path::is_within(place, root) && names.len() == path::components(
        root,
    ).len() + 1 && is_bundle_name(names.last()) && unicode::utf8_text(names.last()) is Some {
        Some(names.last())
    } else {
        None
    }
}

fn named_like_bundle(name: &[u8]) -> (answer: bool)
    ensures
        answer == is_bundle_name(name@),
{
    let mut found: usize = 0;
    let mut i: usize = 0;
    assert(name@.take(0) =~= Seq::empty());
    while i < name.len()
        invariant
            0 <= i <= name@.len(),
            found == if separators(name@.take(i as int)) > 2 {
                2
            } else {
                separators(name@.take(i as int)) as int
            },
            forall|j: int| 0 <= j < i ==> fits_at(name@, j),
        decreases name@.len() - i,
    {
        let byte: u8 = name[i];
        assert(name@.take(i + 1).drop_last() =~= name@.take(i as int));
        if byte == LABEL_SEPARATOR {
            if i == 0 || i + 1 >= name.len() || name[i - 1] == LABEL_SEPARATOR {
                assert(!fits_at(name@, i as int));
                return false;
            }
            if found < 2 {
                found += 1;
            }
        } else if !((48 <= byte && byte <= 57) || (65 <= byte && byte <= 90) || (97 <= byte && byte
            <= 122) || byte == 45) {
            assert(!fits_at(name@, i as int));
            return false;
        }
        assert(fits_at(name@, i as int));
        i += 1;
    }
    assert(name@.take(name@.len() as int) =~= name@);
    found >= 2
}

fn is_caches(root: &[u8]) -> (answer: bool)
    ensures
        answer == is_caches_root(root@),
{
    let names = path::split(root);
    assert(path::views(names@).len() == names@.len());
    if names.len() < 2 {
        return false;
    }
    let last: usize = names.len() - 1;
    assert(path::views(names@)[last as int] == names@[last as int]@);
    assert(path::views(names@)[last - 1] == names@[last - 1]@);
    text::bytes_eq(names[last].as_slice(), "Caches".as_bytes()) && text::bytes_eq(
        names[last - 1].as_slice(),
        "Library".as_bytes(),
    )
}

/// The bundle identifier that a directory right below a caches directory is named after.
pub fn cache_bundle_id(place: &[u8], root: &[u8]) -> (id: Option<Vec<u8>>)
    ensures
        match id {
            Some(name) => cache_name(place@, root@) == Some(name@),
            None => cache_name(place@, root@) is None,
        },
{
    if !is_caches(root) || !path::within(place, root) {
        return None;
    }
    let names = path::split(place);
    let above = path::split(root);
    assert(path::views(names@).len() == names@.len());
    assert(path::views(above@).len() == above@.len());
    if names.len() == 0 || names.len() - 1 != above.len() {
        return None;
    }
    let last: usize = names.len() - 1;
    assert(path::views(names@)[last as int] == names@[last as int]@);
    if !named_like_bundle(names[last].as_slice()) || unicode::from_utf8(
        names[last].as_slice(),
    ).is_none() {
        return None;
    }
    Some(text::copy_bytes(names[last].as_slice()))
}

/// The first root below which a directory is named after a bundle, and that name.
pub open spec fn owner(place: Seq<u8>, roots: Seq<Seq<u8>>) -> Option<(Seq<u8>, Seq<u8>)>
    decreases roots.len(),
{
    if roots.len() == 0 {
        None
    } else {
        match cache_name(place, roots[0]) {
            Some(name) => Some((roots[0], name)),
            None => owner(place, roots.drop_first()),
        }
    }
}

fn find_owner(place: &[u8], roots: &Vec<Vec<u8>>) -> (found: Option<(usize, Vec<u8>)>)
    ensures
        match found {
            Some((at, name)) => at < roots@.len() && owner(place@, path::views(roots@)) == Some(
                (roots@[at as int]@, name@),
            ),
            None => owner(place@, path::views(roots@)) is None,
        },
{
    let ghost all = path::views(roots@);
    let mut i: usize = 0;
    assert(all.skip(0) =~= all);
    while i < roots.len()
        invariant
            0 <= i <= roots@.len(),
            all == path::views(roots@),
            all.len() == roots@.len(),
            owner(place@, all) == owner(place@, all.skip(i as int)),
        decreases roots@.len() - i,
    {
        assert(all.skip(i as int)[0] == roots@[i as int]@);
        if let Some(name) = cache_bundle_id(place, roots[i].as_slice()) {
            return Some((i, name));
        }
        assert(all.skip(i as int).drop_first() =~= all.skip(i + 1));
        i += 1;
    }
    None
}

/// Whether an application declares the given identifier.
pub open spec fn declares(app: AppRecord, id: Seq<char>) -> bool {
    app@.bundle_id.state == StringState::Present && app@.bundle_id.value == Some(id)
}

/// How many applications declare the given identifier.
pub open spec fn declaring(apps: Seq<AppRecord>, id: Seq<char>) -> nat
    decreases apps.len(),
{
    if apps.len() == 0 {
        0
    } else {
        declaring(apps.drop_last(), id) + (if declares(apps.last(), id) {
            1nat
        } else {
            0nat
        })
    }
}

/// The paths of the applications that declare the given identifier, without those that are
/// too long to list.
pub open spec fn declaring_paths(apps: Seq<AppRecord>, id: Seq<char>) -> Seq<Seq<char>>
    decreases apps.len(),
{
    if apps.len() == 0 {
        Seq::empty()
    } else {
        let before = declaring_paths(apps.drop_last(), id);
        if declares(apps.last(), id) && apps.last()@.path.len() <= MAX_PATH_BYTES {
            before.push(unicode::lossy_text(apps.last()@.path))
        } else {
            before
        }
    }
}

/// The first paths of a list.
pub open spec fn first_paths(list: Seq<Seq<char>>) -> Seq<Seq<char>> {
    if list.len() > MAX_PATHS {
        list.take(MAX_PATHS as int)
    } else {
        list
    }
}

/// Whether an identifier belongs to a shared group or to the system.
pub open spec fn is_protected(name: Seq<u8>) -> bool {
    text::has_prefix(name, utf8::encode_utf8("group."@)) || text::has_prefix(
        name,
        utf8::encode_utf8("com.apple."@),
    )
}

/// What a candidate is taken for.
pub open spec fn disposition(name: Seq<u8>, matching: nat) -> Seq<char> {
    if is_protected(name) {
        "protected_shared_or_system"@
    } else if matching == 0 {
        "possible_orphan_review_only"@
    } else {
        "installed_app_observed"@
    }
}

pub open spec fn noted(list: Seq<Seq<char>>, condition: bool, note: Seq<char>) -> Seq<Seq<char>> {
    if condition {
        list.push(note)
    } else {
        list
    }
}

/// Why a candidate may be wrong.
pub open spec fn doubts(
    inventory_complete: bool,
    scan_complete: bool,
    name: Seq<u8>,
    matching: nat,
    shown: nat,
) -> Seq<Seq<char>> {
    noted(
        noted(
            noted(
                noted(
                    seq!["app_inventory_covers_explicit_roots_only"@],
                    !inventory_complete,
                    "app_inventory_incomplete"@,
                ),
                !scan_complete,
                "library_scan_incomplete"@,
            ),
            is_protected(name),
            "shared_or_system_identifier"@,
        ),
        matching > shown,
        "matching_app_paths_truncated"@,
    )
}

/// What both scans say of one cache directory.
pub open spec fn row(
    inventory: AppInventory,
    scan_complete: bool,
    root: Seq<u8>,
    name: Seq<u8>,
) -> RowView {
    let id = unicode::utf8_text(name)->0;
    let matching = declaring(inventory.apps@, id);
    let shown = first_paths(declaring_paths(inventory.apps@, id));
    RowView {
        path: unicode::lossy_text(path::joined(root, name)),
        hint: id,
        disposition: disposition(name, matching),
        matching,
        matching_paths: shown,
        evidence: seq!["exact_cache_directory_name"@, "observed_app_bundle_identifiers"@],
        uncertainty: doubts(inventory.complete, scan_complete, name, matching, shown.len()),
        selected: false,
        action: None,
    }
}

fn declares_id(app: &AppRecord, id: &str) -> (answer: bool)
    ensures
        answer == declares(*app, id@),
{
    app.bundle_id.state == StringState::Present && text::opt_text_is(&app.bundle_id.value, id)
}

proof fn lemma_declaring_bound(apps: Seq<AppRecord>, id: Seq<char>)
    ensures
        declaring(apps, id) <= apps.len(),
    decreases apps.len(),
{
    if apps.len() > 0 {
        lemma_declaring_bound(apps.drop_last(), id);
    }
}

fn count_matching(apps: &Vec<AppRecord>, id: &str) -> (count: usize)
    ensures
        count == declaring(apps@, id@),
{
    let mut count: usize = 0;
    let mut i: usize = 0;
    assert(apps@.take(0) =~= Seq::empty());
    while i < apps.len()
        invariant
            0 <= i <= apps@.len(),
            count == declaring(apps@.take(i as int), id@),
        decreases apps@.len() - i,
    {
        assert(apps@.take(i + 1).drop_last() =~= apps@.take(i as int));
        proof {
            lemma_declaring_bound(apps@.take(i as int), id@);
        }
        if declares_id(&apps[i], id) {
            count += 1;
        }
        i += 1;
    }
    assert(apps@.take(apps@.len() as int) =~= apps@);
    count
}

proof fn lemma_paths_stay(apps: Seq<AppRecord>, n: int, id: Seq<char>)
    requires
        0 <= n <= apps.len(),
    ensures
        declaring_paths(apps.take(n), id).len() <= declaring_paths(apps, id).len(),
        declaring_paths(apps, id).take(declaring_paths(apps.take(n), id).len() as int)
            == declaring_paths(apps.take(n), id),
    decreases apps.len() - n,
{
    let shorter = declaring_paths(apps.take(n), id);
    let all = declaring_paths(apps, id);
    if n < apps.len() {
        lemma_paths_stay(apps, n + 1, id);
        assert(apps.take(n + 1).drop_last() =~= apps.take(n));
        let longer = declaring_paths(apps.take(n + 1), id);
        assert(longer.take(shorter.len() as int) =~= shorter);
        assert(all.take(shorter.len() as int) =~= all.take(longer.len() as int).take(
            shorter.len() as int,
        ));
    } else {
        assert(apps.take(n) =~= apps);
        assert(all.take(all.len() as int) =~= all);
    }
}

fn matching_paths(apps: &Vec<AppRecord>, id: &str) -> (paths: Vec<String>)
    ensures
        order::texts(paths@) == first_paths(declaring_paths(apps@, id@)),
{
    let mut paths: Vec<String> = Vec::new();
    let mut i: usize = 0;
    assert(apps@.take(0) =~= Seq::empty());
    assert(order::texts(paths@) =~= Seq::empty());
    while i < apps.len() && paths.len() < MAX_PATHS
        invariant
            0 <= i <= apps@.len(),
            paths@.len() <= MAX_PATHS,
            order::texts(paths@) == declaring_paths(apps@.take(i as int), id@),
        decreases apps@.len() - i,
    {
        let ghost before = order::texts(paths@);
        assert(apps@.take(i + 1).drop_last() =~= apps@.take(i as int));
        if declares_id(&apps[i], id) && apps[i].bundle_path.len() <= MAX_PATH_BYTES {
            let shown = unicode::from_utf8_lossy(apps[i].bundle_path.as_slice());
            let ghost added = shown@;
            paths.push(shown);
            assert(order::texts(paths@) =~= before.push(added));
        }
        i += 1;
    }
    proof {
        lemma_paths_stay(apps@, i as int, id@);
        assert(order::texts(paths@).len() == paths@.len());
        if i == apps@.len() {
            assert(apps@.take(i as int) =~= apps@);
            assert(declaring_paths(apps@, id@).take(paths@.len() as int) =~= declaring_paths(
                apps@,
                id@,
            ));
        } else {
            let all = declaring_paths(apps@, id@);
            if all.len() == MAX_PATHS {
                assert(all.take(MAX_PATHS as int) =~= all);
            }
        }
    }
    paths
}

fn protected_family(name: &[u8]) -> (answer: bool)
    ensures
        answer == is_protected(name@),
{
    text::bytes_have_prefix(name, "group.".as_bytes()) || text::bytes_have_prefix(
        name,
        "com.apple.".as_bytes(),
    )
}

fn note(list: &mut Vec<&'static str>, condition: bool, text: &'static str)
    ensures
        order::literals(final(list)@) == noted(order::literals(old(list)@), condition, text@),
{
    let ghost before = order::literals(list@);
    if condition {
        list.push(text);
        assert(order::literals(list@) =~= before.push(text@));
    }
}

fn describe(
    inventory: &AppInventory,
    scan_complete: bool,
    root: &[u8],
    name: &[u8],
    id: String,
) -> (candidate: OrphanCacheCandidate)
    requires
        unicode::utf8_text(name@) == Some(id@),
    ensures
        candidate@ == row(*inventory, scan_complete, root@, name@),
{
    let matching_app_count: usize = count_matching(&inventory.apps, id.as_str());
    let matching_app_paths = matching_paths(&inventory.apps, id.as_str());
    assert(order::texts(matching_app_paths@).len() == matching_app_paths@.len());
    let family = protected_family(name);
    let mut uncertainty: Vec<&'static str> = Vec::new();
    uncertainty.push("app_inventory_covers_explicit_roots_only");
    assert(order::literals(uncertainty@) =~= seq![
        "app_inventory_covers_explicit_roots_only"@,
    ]);
    note(&mut uncertainty, !inventory.complete, "app_inventory_incomplete");
    note(&mut uncertainty, !scan_complete, "library_scan_incomplete");
    note(&mut uncertainty, family, "shared_or_system_identifier");
    note(
        &mut uncertainty,
        matching_app_count > matching_app_paths.len(),
        "matching_app_paths_truncated",
    );
    let mut evidence: Vec<&'static str> = Vec::new();
    evidence.push("exact_cache_directory_name");
    evidence.push("observed_app_bundle_identifiers");
    assert(order::literals(evidence@) =~= seq![
        "exact_cache_directory_name"@,
        "observed_app_bundle_identifiers"@,
    ]);
    let place = path::join(root, name);
    OrphanCacheCandidate {
        path: unicode::from_utf8_lossy(place.as_slice()),
        bundle_id_hint: id,
        disposition: if family {
            "protected_shared_or_system"
        } else if matching_app_count == 0 {
            "possible_orphan_review_only"
        } else {
            "installed_app_observed"
        },
        matching_app_count,
        matching_app_paths,
        evidence,
        uncertainty,
        selected: false,
        authorized_action: None,
    }
}

/// How far a projection got.
#[verifier::ext_equal]
pub struct Progress {
    pub rows: Seq<RowView>,
    pub truncated: bool,
    pub stopped: bool,
}

/// A list of candidates, in the order of their paths, with one more.
pub open spec fn with_row(rows: Seq<RowView>, added: RowView) -> Seq<RowView>
    decreases rows.len(),
{
    if rows.len() == 0 || !order::text_less(added.path, rows.last().path) {
        rows.push(added)
    } else {
        with_row(rows.drop_last(), added).push(rows.last())
    }
}

/// What one entry of the scan adds.
pub open spec fn after_entry(
    progress: Progress,
    inventory: AppInventory,
    scan_complete: bool,
    roots: Seq<Seq<u8>>,
    entry: ScanEntry,
) -> Progress {
    if progress.stopped || entry.kind != ResourceKind::Directory || entry.dataless {
        progress
    } else {
        match owner(entry.path@, roots) {
            None => progress,
            Some((root, name)) => if progress.rows.len() == MAX_ROWS {
                Progress { truncated: true, stopped: true, ..progress }
            } else if entry.path@.len() > MAX_PATH_BYTES {
                Progress { truncated: true, ..progress }
            } else {
                Progress {
                    rows: with_row(progress.rows, row(inventory, scan_complete, root, name)),
                    ..progress
                }
            },
        }
    }
}

/// What the entries of the scan add up to.
pub open spec fn projected(
    inventory: AppInventory,
    scan_complete: bool,
    roots: Seq<Seq<u8>>,
    entries: Seq<ScanEntry>,
) -> Progress
    decreases entries.len(),
{
    if entries.len() == 0 {
        Progress { rows: Seq::empty(), truncated: false, stopped: false }
    } else {
        after_entry(
            projected(inventory, scan_complete, roots, entries.drop_last()),
            inventory,
            scan_complete,
            roots,
            entries.last(),
        )
    }
}

/// The texts under which paths are shown.
pub open spec fn shown_paths(list: Seq<Seq<u8>>) -> Seq<Seq<char>> {
    Seq::new(list.len(), |i: int| unicode::lossy_text(list[i]))
}

fn show_paths(list: &Vec<Vec<u8>>) -> (shown: Vec<String>)
    ensures
        order::texts(shown@) == shown_paths(path::views(list@)),
{
    let mut shown: Vec<String> = Vec::new();
    let mut i: usize = 0;
    while i < list.len()
        invariant
            0 <= i <= list@.len(),
            shown@.len() == i,
            forall|j: int| 0 <= j < i ==> (#[trigger] shown@[j])@ == unicode::lossy_text(list@[j]@),
        decreases list@.len() - i,
    {
        shown.push(unicode::from_utf8_lossy(list[i].as_slice()));
        i += 1;
    }
    assert(order::texts(shown@) =~= shown_paths(path::views(list@)));
    shown
}

proof fn lemma_with_row_at(rows: Seq<RowView>, added: RowView, at: int)
    requires
        0 <= at <= rows.len(),
        forall|i: int|
            at <= i < rows.len() ==> order::text_less(added.path, (#[trigger] rows[i]).path),
        at == 0 || !order::text_less(added.path, rows[at - 1].path),
    ensures
        with_row(rows, added) == rows.take(at).push(added) + rows.skip(at),
    decreases rows.len(),
{
    if at == rows.len() {
        assert(rows.take(at).push(added) + rows.skip(at) =~= rows.push(added));
    } else {
        assert(order::text_less(added.path, rows[rows.len() - 1].path));
        let shorter = rows.drop_last();
        assert forall|i: int| at <= i < shorter.len() implies order::text_less(
            added.path,
            (#[trigger] shorter[i]).path,
        ) by {
            assert(shorter[i] == rows[i]);
        }
        lemma_with_row_at(shorter, added, at);
        assert((shorter.take(at).push(added) + shorter.skip(at)).push(rows.last()) =~= rows.take(
            at,
        ).push(added) + rows.skip(at));
    }
}

fn insert_row(rows: &mut Vec<OrphanCacheCandidate>, added: OrphanCacheCandidate)
    ensures
        row_views(final(rows)@) == with_row(row_views(old(rows)@), added@),
{
    let ghost before = row_views(rows@);
    let mut at: usize = rows.len();
    while at > 0 && order::text_before(added.path.as_str(), rows[at - 1].path.as_str())
        invariant
            0 <= at <= rows@.len(),
            before == row_views(rows@),
            forall|i: int|
                at <= i < before.len() ==> order::text_less(
                    added@.path,
                    (#[trigger] before[i]).path,
                ),
        decreases at,
    {
        at -= 1;
    }
    proof {
        lemma_with_row_at(before, added@, at as int);
    }
    let ghost value = added@;
    rows.insert(at, added);
    assert(row_views(rows@) =~= before.take(at as int).push(value) + before.skip(at as int));
}

proof fn lemma_stopped(
    inventory: AppInventory,
    scan_complete: bool,
    roots: Seq<Seq<u8>>,
    entries: Seq<ScanEntry>,
    n: int,
)
    requires
        0 <= n <= entries.len(),
        projected(inventory, scan_complete, roots, entries.take(n)).stopped,
    ensures
        projected(inventory, scan_complete, roots, entries) == projected(
            inventory,
            scan_complete,
            roots,
            entries.take(n),
        ),
    decreases entries.len() - n,
{
    if n < entries.len() {
        assert(entries.take(n + 1).drop_last() =~= entries.take(n));
        lemma_stopped(inventory, scan_complete, roots, entries, n + 1);
    } else {
        assert(entries.take(n) =~= entries);
    }
}

/// No result authorizes deletion. An inventory marked complete covers only its explicit
/// roots; an app copy elsewhere can still own the cache.
pub fn project_orphan_caches(inventory: &AppInventory, library_scan: &ScanReport) -> (preview:
    OrphanCachePreview)
    ensures
        preview.schema_version == 1,
        preview.kind@ == "orphan_app_cache_preview"@,
        preview.inventory_complete_in_selected_roots == inventory.complete,
        preview.library_scan_complete == library_scan.complete,
        !preview.globally_complete,
        !preview.effects_performed,
        order::texts(preview.inventory_roots@) == shown_paths(path::views(inventory.roots@)),
        order::texts(preview.library_roots@) == shown_paths(path::views(library_scan.roots@)),
        ({
            let found = projected(
                *inventory,
                library_scan.complete,
                path::views(library_scan.roots@),
                library_scan.entries@,
            );
            &&& preview.truncated == found.truncated
            &&& row_views(preview.candidates@) == found.rows
        }),
{
    let ghost entries = library_scan.entries@;
    let ghost roots = path::views(library_scan.roots@);
    let mut candidates: Vec<OrphanCacheCandidate> = Vec::new();
    let mut truncated = false;
    let mut stopped = false;
    let mut i: usize = 0;
    assert(entries.take(0) =~= Seq::empty());
    assert(row_views(candidates@) =~= Seq::empty());
    while i < library_scan.entries.len() && !stopped
        invariant
            0 <= i <= entries.len(),
            entries == library_scan.entries@,
            roots == path::views(library_scan.roots@),
            projected(*inventory, library_scan.complete, roots, entries.take(i as int))
                == (Progress { rows: row_views(candidates@), truncated, stopped }),
        decreases entries.len() - i,
    {
        assert(entries.take(i + 1).drop_last() =~= entries.take(i as int));
        let entry: &ScanEntry = &library_scan.entries[i];
        i += 1;
        if entry.kind != ResourceKind::Directory || entry.dataless {
            continue ;
        }
        match find_owner(entry.path.as_slice(), &library_scan.roots) {
            None => {},
            Some((at, name)) => {
                assert(row_views(candidates@).len() == candidates@.len());
                if candidates.len() == MAX_ROWS {
                    truncated = true;
                    stopped = true;
                } else if entry.path.len() > MAX_PATH_BYTES {
                    truncated = true;
                } else if let Some(id) = unicode::from_utf8(name.as_slice()) {
                    let found = describe(
                        inventory,
                        library_scan.complete,
                        library_scan.roots[at].as_slice(),
                        name.as_slice(),
                        id,
                    );
                    insert_row(&mut candidates, found);
                } else {
                    proof {
                        lemma_owner_is_text(entry.path@, roots);
                    }
                }
            },
        }
    }
    proof {
        if stopped {
            lemma_stopped(*inventory, library_scan.complete, roots, entries, i as int);
        } else {
            assert(entries.take(i as int) =~= entries);
        }
    }
    OrphanCachePreview {
        schema_version: 1,
        kind: "orphan_app_cache_preview",
        inventory_complete_in_selected_roots: inventory.complete,
        library_scan_complete: library_scan.complete,
        globally_complete: false,
        effects_performed: false,
        truncated,
        inventory_roots: show_paths(&inventory.roots),
        library_roots: show_paths(&library_scan.roots),
        candidates,
    }
}

proof fn lemma_owner_is_text(place: Seq<u8>, roots: Seq<Seq<u8>>)
    ensures
        owner(place, roots) matches Some((_, name)) ==> unicode::utf8_text(name) is Some,
    decreases roots.len(),
{
    if roots.len() > 0 && cache_name(place, roots[0]) is None {
        lemma_owner_is_text(place, roots.drop_first());
    }
}

/// Whether no row says more than that somebody may look at it.
pub open spec fn only_for_review(rows: Seq<RowView>) -> bool {
    forall|i: int|
        0 <= i < rows.len() ==> !(#[trigger] rows[i]).selected && rows[i].action is None
}

/// Whether rows stand in the order of their paths.
pub open spec fn rows_in_order(rows: Seq<RowView>) -> bool {
    forall|i: int, j: int|
        0 <= i < j < rows.len() ==> !order::text_less(
            (#[trigger] rows[j]).path,
            (#[trigger] rows[i]).path,
        )
}

proof fn lemma_row_added(rows: Seq<RowView>, added: RowView)
    requires
        only_for_review(rows),
        rows_in_order(rows),
        !added.selected,
        added.action is None,
    ensures
        only_for_review(with_row(rows, added)),
        rows_in_order(with_row(rows, added)),
        with_row(rows, added).len() == rows.len() + 1,
        forall|i: int| 0 <= i < rows.len() + 1 ==> (#[trigger] with_row(rows, added)[i] == added
            || rows.contains(with_row(rows, added)[i])),
    decreases rows.len(),
{
    let result = with_row(rows, added);
    if rows.len() == 0 || !order::text_less(added.path, rows.last().path) {
        assert forall|i: int, j: int| 0 <= i < j < result.len() implies !order::text_less(
            (#[trigger] result[j]).path,
            (#[trigger] result[i]).path,
        ) by {
            if j == rows.len() && i < rows.len() - 1 {
                lemma_not_less(added.path, rows.last().path, rows[i].path);
            }
        }
    } else {
        let shorter = rows.drop_last();
        let last = rows.last();
        assert(only_for_review(shorter) && rows_in_order(shorter)) by {
            assert forall|i: int| 0 <= i < shorter.len() implies !(#[trigger] shorter[i]).selected
                && shorter[i].action is None by {
                assert(shorter[i] == rows[i]);
            }
            assert forall|i: int, j: int| 0 <= i < j < shorter.len() implies !order::text_less(
                (#[trigger] shorter[j]).path,
                (#[trigger] shorter[i]).path,
            ) by {
                assert(shorter[i] == rows[i] && shorter[j] == rows[j]);
            }
        }
        lemma_row_added(shorter, added);
        let inner = with_row(shorter, added);
        assert(!rows[rows.len() - 1].selected);
        assert forall|i: int| 0 <= i < result.len() implies (#[trigger] result[i] == added
            || rows.contains(result[i])) by {
            if i < inner.len() {
                assert(result[i] == inner[i]);
                if inner[i] != added {
                    let k = choose|k: int| 0 <= k < shorter.len() && shorter[k] == inner[i];
                    assert(rows[k] == inner[i]);
                }
            } else {
                assert(rows[rows.len() - 1] == last);
            }
        }
        assert forall|i: int| 0 <= i < result.len() implies !(#[trigger] result[i]).selected
            && result[i].action is None by {
            if i < inner.len() {
                assert(result[i] == inner[i]);
            }
        }
        assert forall|i: int, j: int| 0 <= i < j < result.len() implies !order::text_less(
            (#[trigger] result[j]).path,
            (#[trigger] result[i]).path,
        ) by {
            if j == inner.len() {
                assert(result[i] == inner[i]);
                if inner[i] == added {
                    lemma_not_both(added.path, last.path);
                } else {
                    let k = choose|k: int| 0 <= k < shorter.len() && shorter[k] == inner[i];
                    assert(rows[k] == inner[i]);
                    assert(rows[rows.len() - 1] == last);
                }
            } else {
                assert(result[i] == inner[i] && result[j] == inner[j]);
            }
        }
    }
}

proof fn lemma_not_both(a: Seq<char>, b: Seq<char>)
    requires
        order::text_less(a, b),
    ensures
        !order::text_less(b, a),
{
    let x = utf8::encode_utf8(a);
    let y = utf8::encode_utf8(b);
    if text::bytes_less(y, x) {
        text::lemma_bytes_less_transitive(x, y, x);
        text::lemma_bytes_less_irreflexive(x);
    }
}

proof fn lemma_not_less(a: Seq<char>, b: Seq<char>, c: Seq<char>)
    requires
        !order::text_less(a, b),
        !order::text_less(b, c),
    ensures
        !order::text_less(a, c),
{
    let x = utf8::encode_utf8(a);
    let y = utf8::encode_utf8(b);
    let z = utf8::encode_utf8(c);
    if text::bytes_less(x, z) && y != z {
        text::lemma_bytes_less_total(y, z);
        text::lemma_bytes_less_transitive(x, z, y);
    }
}

/// Whatever the scans hold, a preview lists at most its limit of candidates, in the order of
/// their paths, and neither selects one nor authorizes an action on it.
pub proof fn candidates_are_only_for_review(
    inventory: AppInventory,
    scan_complete: bool,
    roots: Seq<Seq<u8>>,
    entries: Seq<ScanEntry>,
)
    ensures
        only_for_review(projected(inventory, scan_complete, roots, entries).rows),
        rows_in_order(projected(inventory, scan_complete, roots, entries).rows),
        projected(inventory, scan_complete, roots, entries).rows.len() <= MAX_ROWS,
    decreases entries.len(),
{
    if entries.len() > 0 {
        let before = projected(inventory, scan_complete, roots, entries.drop_last());
        candidates_are_only_for_review(inventory, scan_complete, roots, entries.drop_last());
        if let Some((root, name)) = owner(entries.last().path@, roots) {
            lemma_row_added(before.rows, row(inventory, scan_complete, root, name));
        }
    }
}

/// A cache of a shared group or of the system, or one that an installed application
/// declares, is never called an orphan.
pub proof fn owned_caches_are_no_orphans(
    inventory: AppInventory,
    scan_complete: bool,
    root: Seq<u8>,
    name: Seq<u8>,
)
    requires
        is_protected(name) || declaring(inventory.apps@, unicode::utf8_text(name)->0) > 0,
    ensures
        row(inventory, scan_complete, root, name).disposition != "possible_orphan_review_only"@,
{
    reveal_strlit("possible_orphan_review_only");
    reveal_strlit("protected_shared_or_system");
    reveal_strlit("installed_app_observed");
    assert("possible_orphan_review_only"@[1] == 'o');
    assert("protected_shared_or_system"@[1] == 'r');
    assert("installed_app_observed"@[1] == 'n');
}

} // verus!
