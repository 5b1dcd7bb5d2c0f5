//! Which places may belong with which applications.

use crate::app_inventory::{AppKind, AppRecord, PathStatus, RecordView, StringState};
use crate::app_related;
use crate::app_related::{
    AppRelatedPreview, AppRelatedStatus, EvidenceView, RelatedEvidence, Standing,
};
use crate::order;
use crate::path;
use crate::text;
use crate::unicode;
use crate::version;
use vstd::prelude::*;
use vstd::string::*;
use vstd::utf8;

verus! {

pub const APPLE_FS_URL: &'static str = "https://developer.apple.com/library/archive/documentation/FileManagement/Conceptual/FileSystemProgrammingGuide/MacOSXDirectories/MacOSXDirectories.html";

pub const CHROMIUM_URL: &'static str = "https://chromium.googlesource.com/chromium/src/+/HEAD/docs/user_data_dir.md";

pub const MOZILLA_URL: &'static str = "https://firefox-source-docs.mozilla.org/toolkit/profile/index.html";

pub const APPLE_BUNDLE_URL: &'static str = "https://developer.apple.com/library/archive/documentation/CoreFoundation/Conceptual/CFBundles/BundleTypes/BundleTypes.html";

pub const CHROMIUM_DATA: &'static str = "org.chromium.default_user_data.macos.v1";

pub const CHROMIUM_CACHE: &'static str = "org.chromium.default_cache.macos.v1";

pub const FIREFOX_PROFILES: &'static str = "org.mozilla.firefox.default_profiles.macos.v1";

pub const FIREFOX_CACHES: &'static str = "org.mozilla.firefox.default_profile_caches.macos.v1";

pub const FIREFOX_GROUPS: &'static str = "org.mozilla.firefox.profile_groups.macos.v1";

pub const APPLE_SUPPORT: &'static str = "org.apple.library.application_support.bundle_id_convention.v1";

pub const APPLE_CACHES: &'static str = "org.apple.library.caches.bundle_id_convention.v1";

/// The product directories that Chromium documents.
pub open spec fn allowlisted(dir: Seq<char>) -> bool {
    ||| dir == "Google/Chrome"@
    ||| dir == "Google/Chrome Beta"@
    ||| dir == "Google/Chrome Dev"@
    ||| dir == "Google/Chrome Canary"@
    ||| dir == "Google/Chrome for Testing"@
    ||| dir == "Chromium"@
}

pub fn is_allowlisted(dir: &str) -> (answer: bool)
    ensures
        answer == allowlisted(dir@),
{
    text::text_eq(dir, "Google/Chrome") || text::text_eq(dir, "Google/Chrome Beta")
        || text::text_eq(dir, "Google/Chrome Dev") || text::text_eq(dir, "Google/Chrome Canary")
        || text::text_eq(dir, "Google/Chrome for Testing") || text::text_eq(dir, "Chromium")
}

/// The product directory that an application declares, if it is one that is known.
pub open spec fn known_product(app: RecordView) -> Option<Seq<char>> {
    match app.product_dir.value {
        Some(dir) if allowlisted(dir) => Some(dir),
        _ => None,
    }
}

/// Whether an application is a Chromium browser that declares a known product directory.
pub open spec fn chromium(app: RecordView) -> bool {
    &&& app.kind == AppKind::App
    &&& app.package_type.value == Some("APPL"@)
    &&& app.executable.status != PathStatus::InvalidDeclaredPath
    &&& known_product(app) is Some
}

/// Whether an application is of the Firefox family.
pub open spec fn firefox(app: RecordView) -> bool {
    &&& app.kind == AppKind::App
    &&& {
        ||| app.bundle_id.value is Some && unicode::ascii_lower(app.bundle_id.value->0)
            == unicode::ascii_lower("org.mozilla.firefox"@)
        ||| unicode::occurs(unicode::ascii_lower(app.name), unicode::ascii_lower("firefox"@))
    }
}

/// Whether only the bundle identifier says something of an application.
pub open spec fn generic(app: RecordView) -> bool {
    !chromium(app) && !firefox(app) && app.bundle_id.state == StringState::Present
}

/// Whether an application is a Chromium browser that declares a known product directory.
pub fn is_chromium(app: &AppRecord) -> (answer: bool)
    ensures
        answer == chromium(app@),
{
    if app.app_kind != AppKind::App || !text::opt_text_is(&app.package_type.value, "APPL")
        || app.executable.path_status == PathStatus::InvalidDeclaredPath {
        return false;
    }
    match &app.declared_product_dir_name.value {
        Some(dir) => is_allowlisted(dir.as_str()),
        None => false,
    }
}

/// Whether an application is of the Firefox family.
pub fn is_firefox(app: &AppRecord) -> (answer: bool)
    ensures
        answer == firefox(app@),
{
    if app.app_kind != AppKind::App {
        return false;
    }
    if let Some(id) = &app.bundle_id.value {
        if unicode::same_ignoring_case(id.as_str(), "org.mozilla.firefox") {
            return true;
        }
    }
    unicode::occurs_ignoring_case(app.display_name.as_str(), "firefox")
}

/// The name of one copy of an application within a scan.
pub open spec fn copy_id(task: Seq<char>, at: int) -> Seq<char> {
    task + ":"@ + version::decimal(at as nat)
}

pub fn copy_name(task: &str, at: usize) -> (id: String)
    ensures
        id@ == copy_id(task@, at as int),
{
    let number = version::decimal_text(at as u64);
    text::concat3(task, ":", number.as_str())
}

/// The rules that an application falls under.
pub open spec fn rules_for(app: RecordView) -> Seq<Seq<char>> {
    if chromium(app) {
        seq![CHROMIUM_DATA@, CHROMIUM_CACHE@]
    } else if firefox(app) {
        seq![FIREFOX_PROFILES@, FIREFOX_CACHES@, FIREFOX_GROUPS@]
    } else if app.bundle_id.state == StringState::Present {
        seq![APPLE_SUPPORT@, APPLE_CACHES@]
    } else {
        Seq::empty()
    }
}

/// The rules that an application falls under.
pub fn match_rules(app: &AppRecord) -> (rules: Vec<&'static str>)
    ensures
        order::literals(rules@) == rules_for(app@),
{
    let mut rules: Vec<&'static str> = Vec::new();
    if is_chromium(app) {
        rules.push(CHROMIUM_DATA);
        rules.push(CHROMIUM_CACHE);
    } else if is_firefox(app) {
        rules.push(FIREFOX_PROFILES);
        rules.push(FIREFOX_CACHES);
        rules.push(FIREFOX_GROUPS);
    } else if app.bundle_id.state == StringState::Present {
        rules.push(APPLE_SUPPORT);
        rules.push(APPLE_CACHES);
    }
    assert(order::literals(rules@) =~= rules_for(app@));
    rules
}

/// How many applications declare a product directory.
pub open spec fn declaring(apps: Seq<RecordView>, dir: Seq<char>) -> nat
    decreases apps.len(),
{
    if apps.len() == 0 {
        0
    } else {
        declaring(apps.drop_last(), dir) + if apps.last().product_dir.value == Some(dir) {
            1nat
        } else {
            0
        }
    }
}

/// How a copy stands to the other copies.
pub open spec fn copy_state(
    apps: Seq<RecordView>,
    app: RecordView,
    inventory_complete: bool,
) -> Seq<char> {
    if !inventory_complete {
        "inventory_partial_unknown"@
    } else if chromium(app) && declaring(apps, known_product(app)->0) > 1 {
        "multiple_physical_copies_same_declared_product"@
    } else {
        "single_observed_copy"@
    }
}

fn count_declaring(apps: &Vec<AppRecord>, dir: &str) -> (count: usize)
    ensures
        count == declaring(crate::app_inventory::record_views(apps@), dir@),
{
    let ghost all = crate::app_inventory::record_views(apps@);
    let mut count: usize = 0;
    let mut i: usize = 0;
    assert(all.take(0) =~= Seq::empty());
    while i < apps.len()
        invariant
            0 <= i <= apps@.len(),
            all == crate::app_inventory::record_views(apps@),
            count == declaring(all.take(i as int), dir@),
            count <= i,
        decreases apps@.len() - i,
    {
        assert(all.take(i + 1).drop_last() =~= all.take(i as int));
        assert(all.take(i + 1).last() == apps@[i as int]@);
        if text::opt_text_is(&apps[i].declared_product_dir_name.value, dir) {
            count += 1;
        }
        i += 1;
    }
    assert(all.take(all.len() as int) =~= all);
    count
}

/// How a copy stands to the other copies.
pub fn state_of_copy(apps: &Vec<AppRecord>, at: usize, inventory_complete: bool) -> (state:
    &'static str)
    requires
        at < apps@.len(),
    ensures
        state@ == copy_state(
            crate::app_inventory::record_views(apps@),
            apps@[at as int]@,
            inventory_complete,
        ),
{
    if !inventory_complete {
        return "inventory_partial_unknown";
    }
    if is_chromium(&apps[at]) {
        if let Some(dir) = &apps[at].declared_product_dir_name.value {
            if count_declaring(apps, dir.as_str()) > 1 {
                return "multiple_physical_copies_same_declared_product";
            }
        }
    }
    "single_observed_copy"
}

/// The places of the applications of which something holds.
pub open spec fn places_where(apps: Seq<RecordView>, keep: spec_fn(RecordView) -> bool) -> Seq<int>
    decreases apps.len(),
{
    if apps.len() == 0 {
        Seq::empty()
    } else {
        let before = places_where(apps.drop_last(), keep);
        if keep(apps.last()) {
            before.push(apps.len() - 1)
        } else {
            before
        }
    }
}

pub open spec fn as_ints(list: Seq<usize>) -> Seq<int> {
    Seq::new(list.len(), |i: int| list[i] as int)
}

pub open spec fn in_range(list: Seq<usize>, length: nat) -> bool {
    forall|i: int| 0 <= i < list.len() ==> #[trigger] list[i] < length
}

/// A list of applications with one more, after those whose path does not come later.
pub open spec fn placed(apps: Seq<RecordView>, list: Seq<int>, at: int) -> Seq<int>
    decreases list.len(),
{
    if list.len() == 0 || !order::path_less(apps[at].path, apps[list.last()].path) {
        list.push(at)
    } else {
        placed(apps, list.drop_last(), at).push(list.last())
    }
}

/// Applications in the order of their paths.
pub open spec fn by_path(apps: Seq<RecordView>, list: Seq<int>) -> Seq<int>
    decreases list.len(),
{
    if list.len() == 0 {
        Seq::empty()
    } else {
        placed(apps, by_path(apps, list.drop_last()), list.last())
    }
}

proof fn lemma_placed_at(apps: Seq<RecordView>, list: Seq<int>, item: int, at: int)
    requires
        0 <= at <= list.len(),
        forall|i: int|
            at <= i < list.len() ==> order::path_less(
                apps[item].path,
                apps[#[trigger] list[i]].path,
            ),
        at == 0 || !order::path_less(apps[item].path, apps[list[at - 1]].path),
    ensures
        placed(apps, list, item) == list.take(at).push(item) + list.skip(at),
    decreases list.len(),
{
    if at == list.len() {
        assert(list.take(at) =~= list);
        assert(list.take(at).push(item) + list.skip(at) =~= list.push(item));
    } else {
        assert(order::path_less(apps[item].path, apps[list[list.len() - 1]].path));
        let shorter = list.drop_last();
        assert forall|i: int| at <= i < shorter.len() implies order::path_less(
            apps[item].path,
            apps[#[trigger] shorter[i]].path,
        ) by {
            assert(shorter[i] == list[i]);
        }
        lemma_placed_at(apps, shorter, item, at);
        assert((shorter.take(at).push(item) + shorter.skip(at)).push(list.last()) =~= list.take(
            at,
        ).push(item) + list.skip(at));
    }
}

fn place(apps: &Vec<AppRecord>, list: &mut Vec<usize>, item: usize)
    requires
        item < apps@.len(),
        in_range(old(list)@, apps@.len()),
    ensures
        in_range(final(list)@, apps@.len()),
        as_ints(final(list)@) == placed(
            crate::app_inventory::record_views(apps@),
            as_ints(old(list)@),
            item as int,
        ),
{
    let ghost views = crate::app_inventory::record_views(apps@);
    let ghost before = as_ints(list@);
    let mut at: usize = list.len();
    while at > 0 && order::path_before(
        apps[item].bundle_path.as_slice(),
        apps[list[at - 1]].bundle_path.as_slice(),
    )
        invariant
            0 <= at <= list@.len(),
            item < apps@.len(),
            in_range(list@, apps@.len()),
            views == crate::app_inventory::record_views(apps@),
            before == as_ints(list@),
            forall|i: int|
                at <= i < before.len() ==> order::path_less(
                    views[item as int].path,
                    views[#[trigger] before[i]].path,
                ),
        decreases at,
    {
        assert(before[at - 1] == list@[at - 1] as int);
        at -= 1;
    }
    proof {
        if at > 0 {
            assert(before[at - 1] == list@[at - 1] as int);
        }
        lemma_placed_at(views, before, item as int, at as int);
    }
    let ghost old_list = list@;
    list.insert(at, item);
    assert(as_ints(list@) =~= before.take(at as int).push(item as int) + before.skip(at as int));
    assert forall|i: int| 0 <= i < list@.len() implies #[trigger] list@[i] < apps@.len() by {
        if i < at {
            assert(list@[i] == old_list[i]);
        } else if i > at {
            assert(list@[i] == old_list[i - 1]);
        }
    }
}

/// The applications by the rule that they fall under.
#[derive(Debug)]
pub struct RuleMatch {
    pub chromium: Vec<usize>,
    pub firefox: Vec<usize>,
    pub generic: Vec<usize>,
}

impl RuleMatch {
    pub open spec fn sorts(self, apps: Seq<RecordView>) -> bool {
        &&& as_ints(self.chromium@) == places_where(apps, |app: RecordView| chromium(app))
        &&& as_ints(self.firefox@) == places_where(
            apps,
            |app: RecordView| !chromium(app) && firefox(app),
        )
        &&& as_ints(self.generic@) == by_path(
            apps,
            places_where(apps, |app: RecordView| generic(app)),
        )
        &&& in_range(self.chromium@, apps.len())
        &&& in_range(self.firefox@, apps.len())
        &&& in_range(self.generic@, apps.len())
    }
}

/// Sorts the applications by the rule that they fall under; those of which only the bundle
/// identifier says something come in the order of their paths.
pub fn rule_matches(apps: &Vec<AppRecord>) -> (result: RuleMatch)
    ensures
        result.sorts(crate::app_inventory::record_views(apps@)),
{
    let ghost views = crate::app_inventory::record_views(apps@);
    let ghost is_c = |app: RecordView| chromium(app);
    let ghost is_f = |app: RecordView| !chromium(app) && firefox(app);
    let ghost is_g = |app: RecordView| generic(app);
    let mut chromium_list: Vec<usize> = Vec::new();
    let mut firefox_list: Vec<usize> = Vec::new();
    let mut generic_list: Vec<usize> = Vec::new();
    let mut i: usize = 0;
    assert(views.take(0) =~= Seq::empty());
    assert(as_ints(chromium_list@) =~= Seq::empty());
    assert(as_ints(firefox_list@) =~= Seq::empty());
    assert(as_ints(generic_list@) =~= Seq::empty());
    while i < apps.len()
        invariant
            0 <= i <= apps@.len(),
            views == crate::app_inventory::record_views(apps@),
            is_c == (|app: RecordView| chromium(app)),
            is_f == (|app: RecordView| !chromium(app) && firefox(app)),
            is_g == (|app: RecordView| generic(app)),
            in_range(chromium_list@, apps@.len()),
            in_range(firefox_list@, apps@.len()),
            in_range(generic_list@, apps@.len()),
            as_ints(chromium_list@) == places_where(views.take(i as int), is_c),
            as_ints(firefox_list@) == places_where(views.take(i as int), is_f),
            as_ints(generic_list@) == by_path(views, places_where(views.take(i as int), is_g)),
        decreases apps@.len() - i,
    {
        assert(views.take(i + 1).drop_last() =~= views.take(i as int));
        assert(views.take(i + 1).last() == apps@[i as int]@);
        let app = &apps[i];
        if is_chromium(app) {
            let ghost before = as_ints(chromium_list@);
            chromium_list.push(i);
            assert(as_ints(chromium_list@) =~= before.push(i as int));
        } else if is_firefox(app) {
            let ghost before = as_ints(firefox_list@);
            firefox_list.push(i);
            assert(as_ints(firefox_list@) =~= before.push(i as int));
        } else if app.bundle_id.state == StringState::Present {
            let ghost before = places_where(views.take(i as int), is_g);
            place(apps, &mut generic_list, i);
            assert(before.push(i as int).drop_last() =~= before);
        }
        i += 1;
    }
    assert(views.take(views.len() as int) =~= views);
    RuleMatch { chromium: chromium_list, firefox: firefox_list, generic: generic_list }
}

/// A place that is offered as a candidate.
#[derive(Debug)]
pub struct CandidateSpecInput {
    pub library_root_index: usize,
    pub path: Vec<u8>,
    pub relative_library_path: String,
    pub source_rule_id: &'static str,
    pub role: &'static str,
    pub ownership_certainty: &'static str,
    pub evidence: Vec<RelatedEvidence>,
    pub protection_reasons: Vec<&'static str>,
}

/// A place that is offered as a candidate, or that is one.
#[verifier::ext_equal]
pub struct SpecView {
    pub root: usize,
    pub path: Seq<u8>,
    pub relative: Seq<char>,
    pub rule: Seq<char>,
    pub role: Seq<char>,
    pub certainty: Seq<char>,
    pub evidence: Seq<EvidenceView>,
    pub ids: Seq<Seq<char>>,
    pub reasons: Seq<Seq<char>>,
}

impl View for CandidateSpecInput {
    type V = SpecView;

    open spec fn view(&self) -> SpecView {
        SpecView {
            root: self.library_root_index,
            path: self.path@,
            relative: self.relative_library_path@,
            rule: self.source_rule_id@,
            role: self.role@,
            certainty: self.ownership_certainty@,
            evidence: app_related::evidence_views(self.evidence@),
            ids: Seq::empty(),
            reasons: order::literals(self.protection_reasons@),
        }
    }
}

/// A place that is a candidate.
#[derive(Debug)]
pub struct CandidateSpec {
    pub library_root_index: usize,
    pub path: Vec<u8>,
    pub relative_library_path: String,
    pub source_rule_id: &'static str,
    pub role: &'static str,
    pub ownership_certainty: &'static str,
    pub evidence: Vec<RelatedEvidence>,
    /// The copies that the place may belong with, sorted and each once.
    pub matched_app_copy_ids: Vec<String>,
    pub protection_reasons: Vec<&'static str>,
}

impl View for CandidateSpec {
    type V = SpecView;

    open spec fn view(&self) -> SpecView {
        SpecView {
            root: self.library_root_index,
            path: self.path@,
            relative: self.relative_library_path@,
            rule: self.source_rule_id@,
            role: self.role@,
            certainty: self.ownership_certainty@,
            evidence: app_related::evidence_views(self.evidence@),
            ids: order::texts(self.matched_app_copy_ids@),
            reasons: order::literals(self.protection_reasons@),
        }
    }
}

pub open spec fn spec_views(list: Seq<CandidateSpec>) -> Seq<SpecView> {
    Seq::new(list.len(), |i: int| list[i]@)
}

/// Whether two candidates are the same place under the same rule.
pub open spec fn same_key(a: SpecView, b: SpecView) -> bool {
    path::same_path(a.path, b.path) && a.rule == b.rule && a.relative == b.relative
}

/// The order of candidates: by place, then by rule, then by relative path.
pub open spec fn key_less(a: SpecView, b: SpecView) -> bool {
    if !path::same_path(a.path, b.path) {
        order::path_less(a.path, b.path)
    } else if a.rule != b.rule {
        order::text_less(a.rule, b.rule)
    } else {
        order::text_less(a.relative, b.relative)
    }
}

/// A list of evidence with some more, each unless it is there.
pub open spec fn with_evidence(list: Seq<EvidenceView>, more: Seq<EvidenceView>) -> Seq<EvidenceView>
    decreases more.len(),
{
    if more.len() == 0 {
        list
    } else {
        let before = with_evidence(list, more.drop_last());
        if before.contains(more.last()) {
            before
        } else {
            before.push(more.last())
        }
    }
}

/// A candidate with what one more offer says of it.
pub open spec fn enriched(spec: SpecView, input: SpecView, ids: Seq<Seq<char>>) -> SpecView {
    SpecView {
        ids: order::with_texts(spec.ids, ids),
        evidence: with_evidence(spec.evidence, input.evidence),
        ..spec
    }
}

/// A new candidate, of which nothing is said yet.
pub open spec fn bare(input: SpecView) -> SpecView {
    SpecView { ids: Seq::empty(), evidence: Seq::empty(), ..input }
}

/// A list of candidates with one more at its place.
pub open spec fn with_spec(list: Seq<SpecView>, spec: SpecView) -> Seq<SpecView>
    decreases list.len(),
{
    if list.len() == 0 || key_less(list.last(), spec) {
        list.push(spec)
    } else {
        with_spec(list.drop_last(), spec).push(list.last())
    }
}

/// Where a candidate with a given key stands: the length of the list if there is none.
pub open spec fn key_place(list: Seq<SpecView>, key: SpecView) -> nat
    decreases list.len(),
{
    if list.len() == 0 || same_key(list[0], key) {
        0
    } else {
        1 + key_place(list.drop_first(), key)
    }
}

/// What is planned so far.
#[verifier::ext_equal]
pub struct PlanState {
    pub standing: Standing,
    pub specs: Seq<SpecView>,
    pub path_bytes: usize,
}

/// The path bytes that a plan comes to with one more path.
pub open spec fn more_bytes(held: usize, more: nat) -> int {
    if held + more > usize::MAX {
        usize::MAX as int
    } else {
        held + more
    }
}

impl PlanState {
    /// After an offer of a place.
    pub open spec fn offered(self, ids: Seq<Seq<char>>, input: SpecView) -> PlanState {
        let at = key_place(self.specs, input) as int;
        if at < self.specs.len() {
            PlanState {
                specs: self.specs.update(at, enriched(self.specs[at], input, ids)),
                ..self
            }
        } else if more_bytes(self.path_bytes, input.path.len()) > app_related::MAX_PATH_BYTES {
            PlanState {
                standing: self.standing.troubled(
                    AppRelatedStatus::Partial,
                    app_related::plain_issue(
                        Some(input.path),
                        "path_bytes_limit"@,
                        "candidate path budget exceeded"@,
                    ),
                ),
                ..self
            }
        } else {
            PlanState {
                specs: with_spec(self.specs, enriched(bare(input), input, ids)),
                path_bytes: more_bytes(self.path_bytes, input.path.len()) as usize,
                ..self
            }
        }
    }
}

fn same_evidence(a: &RelatedEvidence, b: &RelatedEvidence) -> (same: bool)
    ensures
        same == (a@ == b@),
{
    let same_copy: bool = match (&a.app_copy_id, &b.app_copy_id) {
        (Some(x), Some(y)) => text::text_eq(x.as_str(), y.as_str()),
        (None, None) => true,
        _ => false,
    };
    text::text_eq(a.kind, b.kind) && text::text_eq(a.value.as_str(), b.value.as_str()) && same_copy
}

fn add_evidence(list: &mut Vec<RelatedEvidence>, more: Vec<RelatedEvidence>)
    ensures
        app_related::evidence_views(final(list)@) == with_evidence(
            app_related::evidence_views(old(list)@),
            app_related::evidence_views(more@),
        ),
{
    let ghost start = app_related::evidence_views(list@);
    let ghost all = app_related::evidence_views(more@);
    let mut i: usize = 0;
    assert(all.take(0) =~= Seq::empty());
    while i < more.len()
        invariant
            0 <= i <= more@.len(),
            all == app_related::evidence_views(more@),
            app_related::evidence_views(list@) == with_evidence(start, all.take(i as int)),
        decreases more@.len() - i,
    {
        assert(all.take(i + 1).drop_last() =~= all.take(i as int));
        assert(all.take(i + 1).last() == more@[i as int]@);
        let ghost before = app_related::evidence_views(list@);
        let mut duplicate: bool = false;
        let mut j: usize = 0;
        while j < list.len()
            invariant
                0 <= j <= list@.len(),
                i < more@.len(),
                before == app_related::evidence_views(list@),
                duplicate == exists|k: int| 0 <= k < j && #[trigger] before[k] == more@[i as int]@,
            decreases list@.len() - j,
        {
            if same_evidence(&list[j], &more[i]) {
                duplicate = true;
                assert(before[j as int] == more@[i as int]@);
            } else {
                assert(before[j as int] != more@[i as int]@);
            }
            j += 1;
        }
        assert(duplicate == before.contains(more@[i as int]@));
        if !duplicate {
            list.push(more[i].copy());
            assert(app_related::evidence_views(list@) =~= before.push(more@[i as int]@));
        }
        i += 1;
    }
    assert(all.take(all.len() as int) =~= all);
}

fn key_before(a: &CandidateSpec, b: &CandidateSpec) -> (before: bool)
    ensures
        before == key_less(a@, b@),
{
    if !path::paths_equal(a.path.as_slice(), b.path.as_slice()) {
        order::path_before(a.path.as_slice(), b.path.as_slice())
    } else if !text::text_eq(a.source_rule_id, b.source_rule_id) {
        order::text_before(a.source_rule_id, b.source_rule_id)
    } else {
        order::text_before(a.relative_library_path.as_str(), b.relative_library_path.as_str())
    }
}

proof fn lemma_with_spec_at(list: Seq<SpecView>, spec: SpecView, at: int)
    requires
        0 <= at <= list.len(),
        forall|i: int| at <= i < list.len() ==> !key_less(#[trigger] list[i], spec),
        at == 0 || key_less(list[at - 1], spec),
    ensures
        with_spec(list, spec) == list.take(at).push(spec) + list.skip(at),
    decreases list.len(),
{
    if at == list.len() {
        assert(list.take(at) =~= list);
        assert(list.take(at).push(spec) + list.skip(at) =~= list.push(spec));
    } else {
        assert(!key_less(list[list.len() - 1], spec));
        let shorter = list.drop_last();
        assert forall|i: int| at <= i < shorter.len() implies !key_less(
            #[trigger] shorter[i],
            spec,
        ) by {
            assert(shorter[i] == list[i]);
        }
        lemma_with_spec_at(shorter, spec, at);
        assert((shorter.take(at).push(spec) + shorter.skip(at)).push(list.last()) =~= list.take(
            at,
        ).push(spec) + list.skip(at));
    }
}

fn insert_spec(list: &mut Vec<CandidateSpec>, spec: CandidateSpec)
    ensures
        spec_views(final(list)@) == with_spec(spec_views(old(list)@), spec@),
{
    let ghost before = spec_views(list@);
    let mut at: usize = list.len();
    while at > 0 && !key_before(&list[at - 1], &spec)
        invariant
            0 <= at <= list@.len(),
            before == spec_views(list@),
            forall|i: int| at <= i < before.len() ==> !key_less(#[trigger] before[i], spec@),
        decreases at,
    {
        assert(before[at - 1] == list@[at - 1]@);
        at -= 1;
    }
    proof {
        if at > 0 {
            assert(before[at - 1] == list@[at - 1]@);
        }
        lemma_with_spec_at(before, spec@, at as int);
    }
    let ghost view = spec@;
    list.insert(at, spec);
    assert(spec_views(list@) =~= before.take(at as int).push(view) + before.skip(at as int));
}

fn find_key(list: &Vec<CandidateSpec>, input: &CandidateSpecInput) -> (at: usize)
    ensures
        at == key_place(spec_views(list@), input@),
        at <= list@.len(),
{
    let ghost views = spec_views(list@);
    let mut i: usize = 0;
    assert(views.skip(0) =~= views);
    while i < list.len() && !(path::paths_equal(list[i].path.as_slice(), input.path.as_slice())
        && text::text_eq(list[i].source_rule_id, input.source_rule_id) && text::text_eq(
        list[i].relative_library_path.as_str(),
        input.relative_library_path.as_str(),
    ))
        invariant
            0 <= i <= list@.len(),
            views == spec_views(list@),
            key_place(views, input@) == i + key_place(views.skip(i as int), input@),
        decreases list@.len() - i,
    {
        assert(views.skip(i as int)[0] == list@[i as int]@);
        assert(views.skip(i as int).drop_first() =~= views.skip(i + 1));
        i += 1;
    }
    if i < list.len() {
        assert(views.skip(i as int)[0] == list@[i as int]@);
    }
    i
}

/// Takes an offer of a place: a new candidate, more evidence for one that is there, or an
/// issue where the paths take too many bytes.
pub fn maybe_add_spec(
    preview: &mut AppRelatedPreview,
    specs: &mut Vec<CandidateSpec>,
    path_bytes: &mut usize,
    app_copy_ids: &Vec<String>,
    input: CandidateSpecInput,
)
    ensures
        app_related::same_body(*final(preview), *old(preview)),
        (PlanState {
            standing: final(preview).standing(),
            specs: spec_views(final(specs)@),
            path_bytes: *final(path_bytes),
        }) == (PlanState {
            standing: old(preview).standing(),
            specs: spec_views(old(specs)@),
            path_bytes: *old(path_bytes),
        }).offered(order::texts(app_copy_ids@), input@),
{
    let ghost views = spec_views(specs@);
    let at: usize = find_key(specs, &input);
    if at < specs.len() {
        let ghost entry = specs@[at as int]@;
        assert(views[at as int] == entry);
        let ghost given = input@;
        let mut ids: Vec<String> = Vec::new();
        std::mem::swap(&mut ids, &mut specs[at].matched_app_copy_ids);
        order::insert_texts(&mut ids, app_copy_ids);
        let mut evidence: Vec<RelatedEvidence> = Vec::new();
        std::mem::swap(&mut evidence, &mut specs[at].evidence);
        add_evidence(&mut evidence, input.evidence);
        specs[at].matched_app_copy_ids = ids;
        specs[at].evidence = evidence;
        proof {
            let after = enriched(entry, given, order::texts(app_copy_ids@));
            assert(specs@[at as int]@ =~= after);
            assert(spec_views(specs@) =~= views.update(at as int, after));
        }
        return ;
    }
    let next: usize = input.path.len().saturating_add(*path_bytes);
    if next > app_related::MAX_PATH_BYTES {
        app_related::trouble(
            preview,
            AppRelatedStatus::Partial,
            app_related::issue(
                Some(input.path),
                "path_bytes_limit",
                "candidate path budget exceeded",
            ),
        );
        return ;
    }
    *path_bytes = next;
    let ghost given = input@;
    let mut ids: Vec<String> = Vec::new();
    assert(order::texts(ids@) =~= Seq::empty());
    order::insert_texts(&mut ids, app_copy_ids);
    let mut evidence: Vec<RelatedEvidence> = Vec::new();
    assert(app_related::evidence_views(evidence@) =~= Seq::empty());
    add_evidence(&mut evidence, input.evidence);
    let spec = CandidateSpec {
        library_root_index: input.library_root_index,
        path: input.path,
        relative_library_path: input.relative_library_path,
        source_rule_id: input.source_rule_id,
        role: input.role,
        ownership_certainty: input.ownership_certainty,
        evidence,
        matched_app_copy_ids: ids,
        protection_reasons: input.protection_reasons,
    };
    assert(spec@ =~= enriched(bare(given), given, order::texts(app_copy_ids@)));
    insert_spec(specs, spec);
}

} // verus!
