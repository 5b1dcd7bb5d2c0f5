//! What holds of every preview of an application's related data.

use crate::app_inventory::{
    AppInventory, AppInventoryStatus, AppIssue, AppKind, PathStatus, RecordView, StringState,
};
use crate::app_related;
use crate::app_related::{
    AppRelatedStatus, CandidateView, EvidenceView, RelatedIssueView, Standing, SummaryView,
};
use crate::bundle;
use crate::bundle::{IoFailure, IoKind};
use crate::candidates;
use crate::inventory_laws;
use crate::model::{FileIdentity, Host, ResourceKind};
use crate::order;
use crate::path;
use crate::probe::Reading;
use crate::related_finish;
use crate::related_finish::ProbeOutcome;
use crate::related_plan;
use crate::related_plan::{PlanState, SpecView};
use crate::related_preview;
use crate::related_preview::{FirefoxPlace, RootState, RootStep};
use crate::related_probe;
use crate::related_probe::{
    IntermediateObservation, LibraryRoot, ProbeLook, RootLook, StepLook,
};
use crate::related_result;
use crate::related_result::MatchView;
use crate::unicode;
use crate::version;
use vstd::prelude::*;
use vstd::string::*;
use vstd::utf8;

verus! {

proof fn lemma_roles()
    ensures
        "cache"@ != "persistent_support_or_profile"@,
        "cache"@ != "shared_profile_group"@,
        "persistent_support_or_profile"@ != "shared_profile_group"@,
{
    reveal_strlit("cache");
    reveal_strlit("persistent_support_or_profile");
    reveal_strlit("shared_profile_group");
    assert("cache"@.len() == 5 && "persistent_support_or_profile"@.len() == 29
        && "shared_profile_group"@.len() == 20);
}

proof fn lemma_rules()
    ensures
        "org.apple.library.caches.bundle_id_convention.v1"@
            != "org.apple.library.application_support.bundle_id_convention.v1"@,
        "org.chromium.default_user_data.macos.v1"@ != "org.chromium.default_cache.macos.v1"@,
        "org.mozilla.firefox.default_profiles.macos.v1"@
            != "org.mozilla.firefox.default_profile_caches.macos.v1"@,
        "org.mozilla.firefox.default_profiles.macos.v1"@
            != "org.mozilla.firefox.profile_groups.macos.v1"@,
        "org.mozilla.firefox.default_profile_caches.macos.v1"@
            != "org.mozilla.firefox.profile_groups.macos.v1"@,
        "org.apple.library.caches.bundle_id_convention.v1"@[4] == 'a',
        "org.apple.library.application_support.bundle_id_convention.v1"@[4] == 'a',
        "org.chromium.default_user_data.macos.v1"@[4] == 'c',
        "org.chromium.default_cache.macos.v1"@[4] == 'c',
        "org.mozilla.firefox.default_profiles.macos.v1"@[4] == 'm',
        "org.mozilla.firefox.default_profile_caches.macos.v1"@[4] == 'm',
        "org.mozilla.firefox.profile_groups.macos.v1"@[4] == 'm',
{
    reveal_strlit("org.apple.library.caches.bundle_id_convention.v1");
    reveal_strlit("org.apple.library.application_support.bundle_id_convention.v1");
    reveal_strlit("org.chromium.default_user_data.macos.v1");
    reveal_strlit("org.chromium.default_cache.macos.v1");
    reveal_strlit("org.mozilla.firefox.default_profiles.macos.v1");
    reveal_strlit("org.mozilla.firefox.default_profile_caches.macos.v1");
    reveal_strlit("org.mozilla.firefox.profile_groups.macos.v1");
    assert("org.apple.library.caches.bundle_id_convention.v1"@.len() == 48);
    assert("org.apple.library.application_support.bundle_id_convention.v1"@.len() == 61);
    assert("org.chromium.default_user_data.macos.v1"@.len() == 39);
    assert("org.chromium.default_cache.macos.v1"@.len() == 35);
    assert("org.mozilla.firefox.default_profiles.macos.v1"@.len() == 45);
    assert("org.mozilla.firefox.default_profile_caches.macos.v1"@.len() == 51);
    assert("org.mozilla.firefox.profile_groups.macos.v1"@.len() == 43);
}

proof fn lemma_directories(rest: Seq<char>, other: Seq<char>)
    ensures
        "Caches"@ + "/"@ + rest != "Application Support"@ + "/"@ + other,
{
    reveal_strlit("Caches");
    reveal_strlit("Application Support");
    assert(("Caches"@ + "/"@ + rest)[0] == 'C');
    assert(("Application Support"@ + "/"@ + other)[0] == 'A');
}

/// Under the bundle-identifier convention, what has the role of a cache and the rule for caches
/// is exactly the identifier's directory in `Caches`, and what has the role of support data and
/// the rule for it exactly the one in `Application Support`.
pub proof fn conventions_name_their_directories(
    root: usize,
    root_path: Seq<u8>,
    app: RecordView,
    id: Seq<char>,
    cache: bool,
    bundle_id: Seq<char>,
)
    requires
        app.bundle_id.value == Some(bundle_id),
    ensures
        ({
            let spec = related_preview::generic_input(root, root_path, app, id, cache);
            let caches = "Caches"@ + "/"@ + bundle_id;
            let support = "Application Support"@ + "/"@ + bundle_id;
            &&& spec.root == root
            &&& spec.role == "cache"@ <==> spec.relative == caches
            &&& spec.rule == "org.apple.library.caches.bundle_id_convention.v1"@ <==> spec.relative
                == caches
            &&& spec.role == "persistent_support_or_profile"@ <==> spec.relative == support
            &&& spec.rule == "org.apple.library.application_support.bundle_id_convention.v1"@ <==>
                spec.relative == support
            &&& spec.relative == caches ==> spec.path == path::joined(
                root_path,
                utf8::encode_utf8(caches),
            )
            &&& spec.relative == support ==> spec.path == path::joined(
                root_path,
                utf8::encode_utf8(support),
            )
            &&& cache <==> spec.relative == caches
            &&& !cache <==> spec.relative == support
            &&& spec.certainty == "location_standard_hypothesis"@
        }),
{
    lemma_roles();
    lemma_rules();
    lemma_directories(bundle_id, bundle_id);
}

/// Whether an application of the list that no other rule takes has this proper identifier.
pub open spec fn has_identifier(apps: Seq<RecordView>, id: Seq<char>) -> bool {
    &&& related_preview::is_bundle_id(id)
    &&& exists|i: int|
        0 <= i < apps.len() && (#[trigger] apps[i]).bundle_id.value == Some(id)
            && apps[i].bundle_id.state == StringState::Present
}

/// Whether an application of the list declares this product directory.
pub open spec fn declares_product(apps: Seq<RecordView>, dir: Seq<char>) -> bool {
    exists|i: int|
        0 <= i < apps.len() && (#[trigger] apps[i]).product_dir.value == Some(dir)
            && apps[i].kind == AppKind::App
}

/// What a planned candidate is: a place below one of the roots, under the rule and in the role
/// that belong to its directory there. `part` is the identifier or the product directory.
pub open spec fn is_planned_by(
    spec: SpecView,
    roots: Seq<LibraryRoot>,
    apps: Seq<RecordView>,
    at: int,
    part: Seq<char>,
) -> bool {
    &&& 0 <= at < roots.len()
    &&& spec.root == at
    &&& spec.path == path::joined(roots[at].path@, utf8::encode_utf8(spec.relative))
    &&& {
        ||| {
            &&& spec.rule == "org.apple.library.caches.bundle_id_convention.v1"@
            &&& spec.role == "cache"@
            &&& spec.relative == "Caches"@ + "/"@ + part
            &&& has_identifier(apps, part)
        }
        ||| {
            &&& spec.rule == "org.apple.library.application_support.bundle_id_convention.v1"@
            &&& spec.role == "persistent_support_or_profile"@
            &&& spec.relative == "Application Support"@ + "/"@ + part
            &&& has_identifier(apps, part)
        }
        ||| {
            &&& spec.rule == "org.chromium.default_cache.macos.v1"@
            &&& spec.role == "cache"@
            &&& spec.relative == "Caches/"@ + part
            &&& declares_product(apps, part)
        }
        ||| {
            &&& spec.rule == "org.chromium.default_user_data.macos.v1"@
            &&& spec.role == "persistent_support_or_profile"@
            &&& spec.relative == "Application Support/"@ + part
            &&& declares_product(apps, part)
        }
        ||| {
            &&& spec.rule == "org.mozilla.firefox.default_profile_caches.macos.v1"@
            &&& spec.role == "cache"@
            &&& spec.relative == "Caches/Firefox/Profiles"@
        }
        ||| {
            &&& spec.rule == "org.mozilla.firefox.default_profiles.macos.v1"@
            &&& spec.role == "persistent_support_or_profile"@
            &&& spec.relative == "Application Support/Firefox/Profiles"@
        }
        ||| {
            &&& spec.rule == "org.mozilla.firefox.profile_groups.macos.v1"@
            &&& spec.role == "shared_profile_group"@
            &&& spec.relative == "Application Support/Firefox/ProfileGroups"@
        }
    }
}

/// Whether a candidate is planned by one of the rules.
pub open spec fn is_planned(
    spec: SpecView,
    roots: Seq<LibraryRoot>,
    apps: Seq<RecordView>,
) -> bool {
    exists|at: int, part: Seq<char>| #[trigger] is_planned_by(spec, roots, apps, at, part)
}

/// Whether every candidate is planned by one of the rules.
#[verifier::opaque]
pub open spec fn all_planned(
    specs: Seq<SpecView>,
    roots: Seq<LibraryRoot>,
    apps: Seq<RecordView>,
) -> bool {
    forall|i: int| 0 <= i < specs.len() ==> is_planned(#[trigger] specs[i], roots, apps)
}

proof fn lemma_with_spec(
    list: Seq<SpecView>,
    spec: SpecView,
    roots: Seq<LibraryRoot>,
    apps: Seq<RecordView>,
)
    requires
        all_planned(list, roots, apps),
        is_planned(spec, roots, apps),
    ensures
        all_planned(related_plan::with_spec(list, spec), roots, apps),
    decreases list.len(),
{
    reveal(all_planned);
    if !(list.len() == 0 || related_plan::key_less(list.last(), spec)) {
        let head = list.drop_last();
        assert forall|i: int| 0 <= i < head.len() implies is_planned(
            #[trigger] head[i],
            roots,
            apps,
        ) by {
            assert(head[i] == list[i]);
        }
        lemma_with_spec(head, spec, roots, apps);
        assert(list[list.len() - 1] == list.last());
    }
}

proof fn lemma_offered(
    state: PlanState,
    ids: Seq<Seq<char>>,
    input: SpecView,
    roots: Seq<LibraryRoot>,
    apps: Seq<RecordView>,
    at: int,
    part: Seq<char>,
)
    requires
        all_planned(state.specs, roots, apps),
        is_planned_by(input, roots, apps, at, part),
    ensures
        all_planned(state.offered(ids, input).specs, roots, apps),
{
    reveal(all_planned);
    let fresh = related_plan::enriched(related_plan::bare(input), input, ids);
    assert(is_planned_by(fresh, roots, apps, at, part));
    lemma_with_spec(state.specs, fresh, roots, apps);
    let place = related_plan::key_place(state.specs, input) as int;
    if place < state.specs.len() {
        let old = state.specs[place];
        assert(is_planned(old, roots, apps));
        let (a, p) = choose|at: int, part: Seq<char>| #[trigger]
            is_planned_by(old, roots, apps, at, part);
        assert(is_planned_by(related_plan::enriched(old, input, ids), roots, apps, a, p));
    }
}

proof fn lemma_offered_chromium(
    state: PlanState,
    roots: Seq<LibraryRoot>,
    at: int,
    apps: Seq<RecordView>,
    task: Seq<char>,
    list: Seq<int>,
)
    requires
        0 <= at < roots.len() <= usize::MAX,
        all_planned(state.specs, roots, apps),
        forall|i: int|
            0 <= i < list.len() ==> 0 <= #[trigger] list[i] < apps.len() && related_plan::chromium(
                apps[list[i]],
            ),
    ensures
        all_planned(
            related_result::offered_chromium(
                state,
                at as usize,
                roots[at].path@,
                apps,
                task,
                list,
            ).specs,
            roots,
            apps,
        ),
    decreases list.len(),
{
    if list.len() > 0 {
        let head = list.drop_last();
        assert forall|i: int| 0 <= i < head.len() implies 0 <= #[trigger] head[i] < apps.len()
            && related_plan::chromium(apps[head[i]]) by {
            assert(head[i] == list[i]);
        }
        lemma_offered_chromium(state, roots, at, apps, task, head);
        assert(list[list.len() - 1] == list.last());
        let before = related_result::offered_chromium(
            state,
            at as usize,
            roots[at].path@,
            apps,
            task,
            head,
        );
        let app = apps[list.last()];
        let id = related_plan::copy_id(task, list.last());
        let dir = related_plan::known_product(app)->0;
        assert(declares_product(apps, dir));
        let data = related_preview::chromium_input(at as usize, roots[at].path@, app, id, false);
        let cache = related_preview::chromium_input(at as usize, roots[at].path@, app, id, true);
        assert(is_planned_by(data, roots, apps, at, dir));
        assert(is_planned_by(cache, roots, apps, at, dir));
        lemma_offered(before, seq![id], data, roots, apps, at, dir);
        lemma_offered(before.offered(seq![id], data), seq![id], cache, roots, apps, at, dir);
    }
}

proof fn lemma_offered_firefox(
    state: PlanState,
    roots: Seq<LibraryRoot>,
    at: int,
    apps: Seq<RecordView>,
    task: Seq<char>,
    list: Seq<int>,
)
    requires
        0 <= at < roots.len() <= usize::MAX,
        all_planned(state.specs, roots, apps),
    ensures
        all_planned(
            related_result::offered_firefox(
                state,
                at as usize,
                roots[at].path@,
                apps,
                task,
                list,
            ).specs,
            roots,
            apps,
        ),
{
    if list.len() > 0 {
        let ids = related_preview::copy_ids(task, list);
        let root = at as usize;
        let place = roots[at].path@;
        let a = related_preview::firefox_input(
            root,
            place,
            apps,
            task,
            list,
            FirefoxPlace::Profiles,
        );
        let b = related_preview::firefox_input(root, place, apps, task, list, FirefoxPlace::Caches);
        let c = related_preview::firefox_input(root, place, apps, task, list, FirefoxPlace::Groups);
        let part = Seq::<char>::empty();
        assert(is_planned_by(a, roots, apps, at, part));
        assert(is_planned_by(b, roots, apps, at, part));
        assert(is_planned_by(c, roots, apps, at, part));
        lemma_offered(state, ids, a, roots, apps, at, part);
        let one = state.offered(ids, a);
        lemma_offered(one, ids, b, roots, apps, at, part);
        lemma_offered(one.offered(ids, b), ids, c, roots, apps, at, part);
    }
}

proof fn lemma_offered_generic(
    state: PlanState,
    roots: Seq<LibraryRoot>,
    at: int,
    apps: Seq<RecordView>,
    task: Seq<char>,
    list: Seq<int>,
)
    requires
        0 <= at < roots.len() <= usize::MAX,
        all_planned(state.specs, roots, apps),
        forall|i: int|
            0 <= i < list.len() ==> 0 <= #[trigger] list[i] < apps.len() && related_plan::generic(
                apps[list[i]],
            ),
    ensures
        all_planned(
            related_result::offered_generic(
                state,
                at as usize,
                roots[at].path@,
                apps,
                task,
                list,
            ).specs,
            roots,
            apps,
        ),
    decreases list.len(),
{
    if list.len() > 0 {
        let head = list.drop_last();
        assert forall|i: int| 0 <= i < head.len() implies 0 <= #[trigger] head[i] < apps.len()
            && related_plan::generic(apps[head[i]]) by {
            assert(head[i] == list[i]);
        }
        lemma_offered_generic(state, roots, at, apps, task, head);
        assert(list[list.len() - 1] == list.last());
        let before = related_result::offered_generic(
            state,
            at as usize,
            roots[at].path@,
            apps,
            task,
            head,
        );
        let app = apps[list.last()];
        let id = related_plan::copy_id(task, list.last());
        if let Some(bundle_id) = app.bundle_id.value {
            if related_preview::is_bundle_id(bundle_id) {
                assert(has_identifier(apps, bundle_id));
                let data = related_preview::generic_input(
                    at as usize,
                    roots[at].path@,
                    app,
                    id,
                    false,
                );
                let cache = related_preview::generic_input(
                    at as usize,
                    roots[at].path@,
                    app,
                    id,
                    true,
                );
                assert(is_planned_by(data, roots, apps, at, bundle_id));
                assert(is_planned_by(cache, roots, apps, at, bundle_id));
                lemma_offered(before, seq![id], data, roots, apps, at, bundle_id);
                lemma_offered(
                    before.offered(seq![id], data),
                    seq![id],
                    cache,
                    roots,
                    apps,
                    at,
                    bundle_id,
                );
            }
        }
    }
}

proof fn lemma_offered_root(
    state: PlanState,
    roots: Seq<LibraryRoot>,
    at: int,
    apps: Seq<RecordView>,
    task: Seq<char>,
    lists: MatchView,
)
    requires
        0 <= at < roots.len() <= usize::MAX,
        all_planned(state.specs, roots, apps),
        forall|i: int|
            0 <= i < lists.chromium.len() ==> 0 <= #[trigger] lists.chromium[i] < apps.len()
                && related_plan::chromium(apps[lists.chromium[i]]),
        forall|i: int|
            0 <= i < lists.generic.len() ==> 0 <= #[trigger] lists.generic[i] < apps.len()
                && related_plan::generic(apps[lists.generic[i]]),
    ensures
        all_planned(
            related_result::offered_root(
                state,
                at as usize,
                roots[at].path@,
                apps,
                task,
                lists,
            ).specs,
            roots,
            apps,
        ),
{
    let place = roots[at].path@;
    lemma_offered_chromium(state, roots, at, apps, task, lists.chromium);
    let one = related_result::offered_chromium(
        state,
        at as usize,
        place,
        apps,
        task,
        lists.chromium,
    );
    lemma_offered_firefox(one, roots, at, apps, task, lists.firefox);
    let two = related_result::offered_firefox(
        one,
        at as usize,
        place,
        apps,
        task,
        lists.firefox,
    );
    lemma_offered_generic(two, roots, at, apps, task, lists.generic);
    reveal(related_result::offered_root);
}

proof fn lemma_planned(
    state: PlanState,
    roots: Seq<LibraryRoot>,
    readings: Seq<Reading>,
    at: int,
    apps: Seq<RecordView>,
    task: Seq<char>,
    lists: MatchView,
)
    requires
        0 <= at,
        roots.len() <= usize::MAX,
        all_planned(state.specs, roots, apps),
        forall|i: int|
            0 <= i < lists.chromium.len() ==> 0 <= #[trigger] lists.chromium[i] < apps.len()
                && related_plan::chromium(apps[lists.chromium[i]]),
        forall|i: int|
            0 <= i < lists.generic.len() ==> 0 <= #[trigger] lists.generic[i] < apps.len()
                && related_plan::generic(apps[lists.generic[i]]),
    ensures
        all_planned(
            related_result::planned(state, roots, readings, at, apps, task, lists).specs,
            roots,
            apps,
        ),
    decreases roots.len() - at,
{
    if at < roots.len() && !readings[at].cancelled && readings[at].elapsed_nanos
        < readings[at].budget_nanos {
        lemma_offered_root(state, roots, at, apps, task, lists);
        let place = roots[at].path@;
        let three = related_result::offered_root(state, at as usize, place, apps, task, lists);
        lemma_planned(three, roots, readings, at + 1, apps, task, lists);
    }
}

/// The places that a rule takes are exactly those of the applications that it is for, in order.
pub proof fn rules_take_the_applications_they_are_for(
    apps: Seq<RecordView>,
    keep: spec_fn(RecordView) -> bool,
    at: int,
)
    ensures
        related_plan::places_where(apps, keep).contains(at) <==> 0 <= at < apps.len() && keep(
            apps[at],
        ),
        forall|i: int|
            0 <= i < related_plan::places_where(apps, keep).len() ==> 0
                <= #[trigger] related_plan::places_where(apps, keep)[i] < apps.len() && keep(
                apps[related_plan::places_where(apps, keep)[i]],
            ),
        forall|i: int, j: int|
            0 <= i < j < related_plan::places_where(apps, keep).len()
                ==> #[trigger] related_plan::places_where(apps, keep)[i]
                < #[trigger] related_plan::places_where(apps, keep)[j],
    decreases apps.len(),
{
    let all = related_plan::places_where(apps, keep);
    if apps.len() == 0 {
        assert(!all.contains(at));
    } else {
        let head = apps.drop_last();
        let before = related_plan::places_where(head, keep);
        rules_take_the_applications_they_are_for(head, keep, at);
        if before.contains(at) {
            let i = choose|i: int| 0 <= i < before.len() && before[i] == at;
            assert(all[i] == at);
        }
        if keep(apps.last()) {
            assert(all[before.len() as int] == apps.len() - 1);
        }
        if all.contains(at) {
            let i = choose|i: int| 0 <= i < all.len() && all[i] == at;
            if i < before.len() {
                assert(before[i] == at);
            }
        }
        assert forall|i: int| 0 <= i < all.len() implies 0 <= #[trigger] all[i] < apps.len()
            && keep(apps[all[i]]) by {
            if i < before.len() {
                assert(all[i] == before[i]);
                assert(head[before[i]] == apps[before[i]]);
            }
        }
        assert forall|i: int, j: int| 0 <= i < j < all.len() implies #[trigger] all[i]
            < #[trigger] all[j] by {
            assert(all[i] == before[i]);
            if j < before.len() {
                assert(all[j] == before[j]);
            }
        }
    }
}

proof fn lemma_placed_from(apps: Seq<RecordView>, list: Seq<int>, item: int, x: int)
    ensures
        related_plan::placed(apps, list, item).contains(x) <==> list.contains(x) || x == item,
        related_plan::placed(apps, list, item).len() == list.len() + 1,
    decreases list.len(),
{
    let all = related_plan::placed(apps, list, item);
    if list.len() == 0 || !order::path_less(apps[item].path, apps[list.last()].path) {
        assert(all == list.push(item));
        assert(all[list.len() as int] == item);
        if list.contains(x) {
            let i = choose|i: int| 0 <= i < list.len() && list[i] == x;
            assert(all[i] == x);
        }
        if all.contains(x) {
            let i = choose|i: int| 0 <= i < all.len() && all[i] == x;
            if i < list.len() {
                assert(list[i] == x);
            }
        }
    } else {
        let head = list.drop_last();
        lemma_placed_from(apps, head, item, x);
        let inner = related_plan::placed(apps, head, item);
        assert(all == inner.push(list.last()));
        assert(all[inner.len() as int] == list.last());
        assert(list[list.len() - 1] == list.last());
        if list.contains(x) {
            let i = choose|i: int| 0 <= i < list.len() && list[i] == x;
            if i < head.len() {
                assert(head[i] == x);
            }
        }
        if head.contains(x) {
            let i = choose|i: int| 0 <= i < head.len() && head[i] == x;
            assert(list[i] == x);
        }
        if inner.contains(x) {
            let i = choose|i: int| 0 <= i < inner.len() && inner[i] == x;
            assert(all[i] == x);
        }
        if all.contains(x) {
            let i = choose|i: int| 0 <= i < all.len() && all[i] == x;
            if i < inner.len() {
                assert(inner[i] == x);
            }
        }
    }
}

proof fn lemma_by_path_from(apps: Seq<RecordView>, list: Seq<int>, x: int)
    ensures
        related_plan::by_path(apps, list).contains(x) <==> list.contains(x),
        related_plan::by_path(apps, list).len() == list.len(),
    decreases list.len(),
{
    if list.len() == 0 {
        assert(!related_plan::by_path(apps, list).contains(x));
    } else {
        let head = list.drop_last();
        lemma_by_path_from(apps, head, x);
        lemma_placed_from(apps, related_plan::by_path(apps, head), list.last(), x);
        assert(list[list.len() - 1] == list.last());
        if list.contains(x) {
            let i = choose|i: int| 0 <= i < list.len() && list[i] == x;
            if i < head.len() {
                assert(head[i] == x);
            }
        }
        if head.contains(x) {
            let i = choose|i: int| 0 <= i < head.len() && head[i] == x;
            assert(list[i] == x);
        }
    }
}

/// Every planned candidate lies below a root that was given, in the directory that its rule and
/// its role are for, and belongs to an application that was found.
pub proof fn planned_candidates_follow_their_rules(
    standing: Standing,
    roots: Seq<LibraryRoot>,
    readings: Seq<Reading>,
    cancelled: bool,
    apps: Seq<RecordView>,
    task: Seq<char>,
    k: int,
)
    requires
        roots.len() <= usize::MAX,
        0 <= k < related_result::plan_of(
            standing,
            roots,
            readings,
            cancelled,
            apps,
            task,
        ).0.len(),
    ensures
        is_planned(
            related_result::plan_of(standing, roots, readings, cancelled, apps, task).0[k],
            roots,
            apps,
        ),
{
    reveal(all_planned);
    let start = PlanState {
        standing: related_result::sorted_standing(standing, apps, cancelled),
        specs: Seq::empty(),
        path_bytes: 0,
    };
    let lists = related_result::looked_at(apps);
    let is_chromium = |app: RecordView| related_plan::chromium(app);
    let is_generic = |app: RecordView| related_plan::generic(app);
    rules_take_the_applications_they_are_for(apps, is_chromium, 0);
    rules_take_the_applications_they_are_for(apps, is_generic, 0);
    let generic = related_plan::places_where(apps, is_generic);
    let sorted = related_plan::by_path(apps, generic);
    assert forall|i: int| 0 <= i < lists.generic.len() implies 0 <= #[trigger] lists.generic[i]
        < apps.len() && related_plan::generic(apps[lists.generic[i]]) by {
        let x = lists.generic[i];
        assert(sorted[i] == x);
        assert(sorted.contains(x));
        lemma_by_path_from(apps, generic, x);
        let j = choose|j: int| 0 <= j < generic.len() && generic[j] == x;
        assert(is_generic(apps[generic[j]]));
    }
    assert forall|i: int| 0 <= i < lists.chromium.len() implies 0 <= #[trigger] lists.chromium[i]
        < apps.len() && related_plan::chromium(apps[lists.chromium[i]]) by {
        let chosen = related_plan::places_where(apps, is_chromium);
        assert(chosen[i] == lists.chromium[i]);
        assert(is_chromium(apps[chosen[i]]));
    }
    lemma_planned(start, roots, readings, 0, apps, task, lists);
    let state = related_result::planned(start, roots, readings, 0, apps, task, lists);
    assert(is_planned(state.specs[k], roots, apps));
}

/// Whatever is planned has the role of a cache exactly if it lies in `Caches`, and a rule of the
/// bundle-identifier convention exactly in the directory that the rule names.
pub proof fn caches_are_told_from_data(
    spec: SpecView,
    roots: Seq<LibraryRoot>,
    apps: Seq<RecordView>,
)
    requires
        is_planned(spec, roots, apps),
    ensures
        spec.relative.len() > 0,
        spec.role == "cache"@ <==> spec.relative[0] == 'C',
        spec.rule == "org.apple.library.caches.bundle_id_convention.v1"@ ==> spec.role == "cache"@
            && spec.relative.subrange(0, 7) == "Caches/"@,
        spec.rule == "org.apple.library.application_support.bundle_id_convention.v1"@ ==> spec.role
            == "persistent_support_or_profile"@ && spec.relative.subrange(0, 20)
            == "Application Support/"@,
{
    lemma_roles();
    lemma_rules();
    reveal_strlit("Caches");
    reveal_strlit("/");
    reveal_strlit("Caches/");
    reveal_strlit("Application Support");
    reveal_strlit("Application Support/");
    reveal_strlit("Caches/Firefox/Profiles");
    reveal_strlit("Application Support/Firefox/Profiles");
    reveal_strlit("Application Support/Firefox/ProfileGroups");
    let (at, part) = choose|at: int, part: Seq<char>| #[trigger]
        is_planned_by(spec, roots, apps, at, part);
    assert(("Caches"@ + "/"@ + part).subrange(0, 7) =~= "Caches/"@);
    assert(("Application Support"@ + "/"@ + part).subrange(0, 20) =~= "Application Support/"@);
    assert(("Caches"@ + "/"@ + part)[0] == 'C');
    assert(("Application Support"@ + "/"@ + part)[0] == 'A');
    assert(("Caches/"@ + part)[0] == 'C');
    assert(("Application Support/"@ + part)[0] == 'A');
}

/// A browser of the Chromium family has its data under the directory that it declares, its
/// cache in `Caches` and its profile in `Application Support`.
pub proof fn declared_products_name_their_directories(
    root: usize,
    root_path: Seq<u8>,
    app: RecordView,
    id: Seq<char>,
    cache: bool,
    dir: Seq<char>,
)
    requires
        related_plan::known_product(app) == Some(dir),
    ensures
        ({
            let spec = related_preview::chromium_input(root, root_path, app, id, cache);
            &&& spec.root == root
            &&& spec.path == path::joined(root_path, utf8::encode_utf8(spec.relative))
            &&& cache ==> spec.relative == "Caches/"@ + dir && spec.role == "cache"@ && spec.rule
                == "org.chromium.default_cache.macos.v1"@
            &&& !cache ==> spec.relative == "Application Support/"@ + dir && spec.role
                == "persistent_support_or_profile"@ && spec.rule
                == "org.chromium.default_user_data.macos.v1"@
            &&& spec.certainty == "app_declared_default_location"@
            &&& spec.evidence.len() == 3
            &&& spec.evidence[1].value == "CrProductDirName="@ + dir
            &&& spec.evidence[1].copy == Some(id)
        }),
{
}

/// The directories of Firefox are shared: each of the three has its own rule and role, and is
/// evidenced by every copy that was found.
pub proof fn shared_profiles_name_their_directories(
    root: usize,
    root_path: Seq<u8>,
    apps: Seq<RecordView>,
    task: Seq<char>,
    list: Seq<int>,
    which: FirefoxPlace,
)
    ensures
        ({
            let spec = related_preview::firefox_input(root, root_path, apps, task, list, which);
            &&& spec.root == root
            &&& spec.path == path::joined(root_path, utf8::encode_utf8(spec.relative))
            &&& which == FirefoxPlace::Profiles ==> spec.relative
                == "Application Support/Firefox/Profiles"@ && spec.role
                == "persistent_support_or_profile"@ && spec.rule
                == "org.mozilla.firefox.default_profiles.macos.v1"@
            &&& which == FirefoxPlace::Caches ==> spec.relative == "Caches/Firefox/Profiles"@
                && spec.role == "cache"@ && spec.rule
                == "org.mozilla.firefox.default_profile_caches.macos.v1"@
            &&& which == FirefoxPlace::Groups ==> spec.relative
                == "Application Support/Firefox/ProfileGroups"@ && spec.role
                == "shared_profile_group"@ && spec.rule
                == "org.mozilla.firefox.profile_groups.macos.v1"@
            &&& spec.reasons.contains("shared_across_profiles_or_app_copies"@)
            &&& spec.evidence.len() == list.len() + 1
            &&& forall|i: int|
                0 <= i < list.len() ==> (#[trigger] spec.evidence[i + 1]).copy == Some(
                    related_plan::copy_id(task, list[i]),
                )
        }),
{
    let spec = related_preview::firefox_input(root, root_path, apps, task, list, which);
    assert(spec.reasons[2] == "shared_across_profiles_or_app_copies"@);
}

/// A bundle identifier can name a directory exactly if it consists of non-empty parts of
/// letters, digits, hyphens and underscores, with a dot between one and the next.
pub proof fn identifiers_that_name_directories_are_plain(id: Seq<char>)
    ensures
        related_preview::is_bundle_id(id) ==> {
            &&& id.len() > 0
            &&& !id.contains('/')
            &&& !id.contains('\0')
            &&& id != "."@
            &&& id != ".."@
            &&& forall|i: int|
                0 <= i < id.len() && #[trigger] id[i] == '.' ==> 0 < i < id.len() - 1 && id[i - 1]
                    != '.' && id[i + 1] != '.'
        },
        id.len() > 0 && (forall|i: int|
            0 <= i < id.len() ==> {
                let c = #[trigger] id[i];
                ('a' <= c <= 'z') || ('A' <= c <= 'Z') || ('0' <= c <= '9') || c == '-' || c == '_'
            }) ==> related_preview::is_bundle_id(id),
{
    reveal_strlit(".");
    reveal_strlit("..");
    if related_preview::is_bundle_id(id) {
        if id.contains('/') {
            let i = choose|i: int| 0 <= i < id.len() && id[i] == '/';
            assert(id[i] == '.' || related_preview::is_id_char(id[i]));
        }
        if id.contains('\0') {
            let i = choose|i: int| 0 <= i < id.len() && id[i] == '\0';
            assert(id[i] == '.' || related_preview::is_id_char(id[i]));
        }
        assert forall|i: int| 0 <= i < id.len() && #[trigger] id[i] == '.' implies 0 < i < id.len()
            - 1 && id[i - 1] != '.' && id[i + 1] != '.' by {
            assert(id[id.len() - 1] == id.last());
            if i + 1 < id.len() && id[i + 1] == '.' {
                assert(id[(i + 1) - 1] != '.');
            }
        }
    }
    if id.len() > 0 && (forall|i: int|
        0 <= i < id.len() ==> {
            let c = #[trigger] id[i];
            ('a' <= c <= 'z') || ('A' <= c <= 'Z') || ('0' <= c <= '9') || c == '-' || c == '_'
        }) {
        assert(id[0] != '.');
        assert(id[id.len() - 1] != '.');
        assert forall|i: int| 0 <= i < id.len() implies (#[trigger] id[i] == '.'
            || related_preview::is_id_char(id[i])) by {}
    }
}

/// A preview starts exactly with one to 64 application roots and one to eight library roots,
/// each a proper absolute path of bounded length, the latter named `Library`.
pub proof fn previews_start_from_proper_roots(
    app_roots: Seq<Seq<u8>>,
    library_roots: Seq<Seq<u8>>,
)
    ensures
        related_preview::root_inputs_fault(app_roots, library_roots) is None <==> {
            &&& 1 <= app_roots.len() <= 64
            &&& 1 <= library_roots.len() <= 8
            &&& forall|i: int|
                0 <= i < app_roots.len() ==> bundle::proper_root(#[trigger] app_roots[i])
                    && app_roots[i].len() <= 65_536
            &&& forall|i: int|
                0 <= i < library_roots.len() ==> bundle::proper_root(#[trigger] library_roots[i])
                    && library_roots[i].len() <= 65_536 && path::file_name(library_roots[i])
                    == Some(utf8::encode_utf8("Library"@))
        },
{
    lemma_first_bad(app_roots, false);
    lemma_first_bad(library_roots, true);
}

proof fn lemma_first_bad(roots: Seq<Seq<u8>>, library: bool)
    ensures
        related_preview::first_bad(roots, library) is None <==> forall|i: int|
            0 <= i < roots.len() ==> bundle::proper_root(#[trigger] roots[i]) && roots[i].len()
                <= 65_536 && (library ==> path::file_name(roots[i]) == Some(
                utf8::encode_utf8("Library"@),
            )),
    decreases roots.len(),
{
    if roots.len() > 0 {
        let rest = roots.drop_first();
        lemma_first_bad(rest, library);
        assert forall|i: int| 0 <= i < rest.len() implies #[trigger] rest[i] == roots[i + 1] by {}
        if related_preview::first_bad(roots, library) is None {
            assert forall|i: int| 0 <= i < roots.len() implies bundle::proper_root(
                #[trigger] roots[i],
            ) && roots[i].len() <= 65_536 && (library ==> path::file_name(roots[i]) == Some(
                utf8::encode_utf8("Library"@),
            )) by {
                if i > 0 {
                    assert(rest[i - 1] == roots[i]);
                }
            }
        } else if forall|i: int|
            0 <= i < roots.len() ==> bundle::proper_root(#[trigger] roots[i]) && roots[i].len()
                <= 65_536 && (library ==> path::file_name(roots[i]) == Some(
                utf8::encode_utf8("Library"@),
            )) {
            assert(bundle::proper_root(roots[0]));
            assert forall|i: int| 0 <= i < rest.len() implies bundle::proper_root(
                #[trigger] rest[i],
            ) && rest[i].len() <= 65_536 && (library ==> path::file_name(rest[i]) == Some(
                utf8::encode_utf8("Library"@),
            )) by {
                assert(rest[i] == roots[i + 1]);
            }
        }
    }
}

/// A root is looked at only where neither the user nor the clock has stopped and it overlaps no
/// root that was accepted; an overlapping one is passed over and makes the preview partial.
pub proof fn accepted_roots_do_not_overlap(
    state: RootState,
    ordered: Seq<Seq<u8>>,
    reading: Reading,
)
    requires
        0 <= state.position < ordered.len(),
        !state.stopped,
    ensures
        ({
            let (step, after) = state.approached(ordered, reading);
            let root = ordered[state.position];
            &&& step == RootStep::Open <==> {
                &&& !reading.cancelled
                &&& reading.elapsed_nanos < reading.budget_nanos
                &&& forall|i: int|
                    0 <= i < state.selected.len() ==> !path::is_within(
                        root,
                        (#[trigger] state.selected[i]).path@,
                    ) && !path::is_within(state.selected[i].path@, root)
            }
            &&& step == RootStep::Open ==> after == state
            &&& step == RootStep::Skipped ==> after.position == state.position + 1
                && after.standing.status != AppRelatedStatus::Complete
            &&& step == RootStep::Done ==> after.stopped && (reading.cancelled
                || reading.elapsed_nanos >= reading.budget_nanos)
            &&& reading.cancelled ==> step == RootStep::Done && (after.standing.status
                == AppRelatedStatus::Cancelled || after.standing.status
                == AppRelatedStatus::Failed)
            &&& after.selected == state.selected
        }),
{
    let root = ordered[state.position];
    if related_preview::overlaps_selected(root, state.selected) {
        let i = choose|i: int|
            0 <= i < state.selected.len() && path::overlap(
                root,
                (#[trigger] state.selected[i]).path@,
            );
        assert(path::overlap(root, state.selected[i].path@));
    }
}

/// A library root is accepted exactly if it is a local directory that is there, on macOS, with
/// the read-only policy entered and left without trouble, and it is known by what was seen.
pub proof fn library_roots_are_directories(
    host: Host,
    place: Seq<u8>,
    look: related_probe::OpenRootLook,
)
    ensures
        ({
            let accepted = related_probe::library_root(
                host,
                place,
                look.entered,
                look.root,
                look.restored,
            );
            &&& accepted is Ok <==> {
                &&& host == Host::MacOs
                &&& look.entered is Ok
                &&& look.restored is Ok
                &&& look.root matches RootLook::Held(raw) && raw.mode & 0o170000 == 0o040000
                    && raw.flags & 0x4000_0000 == 0
            }
            &&& accepted matches Ok(root) ==> (look.root matches RootLook::Held(raw) && root == (
                FileIdentity::Unix { device: raw.device, inode: raw.inode },
                raw.device,
            ))
        }),
{
}

/// A library root counts as unchanged exactly if it is still the same directory on the same
/// device, and its content is there.
pub proof fn unchanged_roots_are_the_same_directory(root: LibraryRoot, look: RootLook)
    ensures
        related_probe::mapping_issue(root, look) is None <==> {
            &&& look matches RootLook::Held(raw) && root.identity == (FileIdentity::Unix {
                device: raw.device,
                inode: raw.inode,
            }) && root.device == raw.device && raw.mode & 0o170000 == 0o040000 && raw.flags
                & 0x4000_0000 == 0
        },
{
}

/// A candidate counts as present only at its last name, where that is on the root's own device,
/// not a link and not in the cloud only; the kind says which of the three it is.
pub proof fn present_candidates_are_on_the_root_device(
    place: Seq<u8>,
    device: u64,
    look: StepLook,
    state: Seq<char>,
)
    requires
        state == "present_directory"@ || state == "present_file"@ || state == "present_other"@,
    ensures
        related_probe::step_outcome(place, device, look, true) == Some((state, None::<RelatedIssueView>))
            ==> {
            &&& look.stat matches Ok(raw) && raw.device == device && raw.flags & 0x4000_0000 == 0
                && raw.kind() != ResourceKind::Link
            &&& state == "present_directory"@ <==> look.stat->Ok_0.kind() == ResourceKind::Directory
            &&& state == "present_file"@ <==> look.stat->Ok_0.kind() == ResourceKind::File
        },
        look.stat matches Ok(raw) && raw.device == device && raw.flags & 0x4000_0000 == 0
            && raw.kind() == ResourceKind::Directory ==> related_probe::step_outcome(
            place,
            device,
            look,
            true,
        ) == Some(("present_directory"@, None::<RelatedIssueView>)),
        look.stat matches Ok(raw) && raw.device == device && raw.flags & 0x4000_0000 == 0
            && raw.kind() == ResourceKind::File ==> related_probe::step_outcome(
            place,
            device,
            look,
            true,
        ) == Some(("present_file"@, None::<RelatedIssueView>)),
        look.stat matches Ok(raw) && raw.kind() == ResourceKind::Link ==> related_probe::step_outcome(
            place,
            device,
            look,
            true,
        ) == Some(("not_followed_symlink"@, None::<RelatedIssueView>)),
{
    reveal_strlit("present_directory");
    reveal_strlit("present_file");
    reveal_strlit("present_other");
    reveal_strlit("not_followed_symlink");
    reveal_strlit("probe_failed");
    reveal_strlit("missing");
    reveal_strlit("permission_denied");
    assert("present_directory"@.len() == 17 && "present_file"@.len() == 12 && "present_other"@.len()
        == 13 && "not_followed_symlink"@.len() == 20 && "probe_failed"@.len() == 12
        && "missing"@.len() == 7 && "permission_denied"@.len() == 17);
    assert("present_directory"@[1] == 'r' && "permission_denied"@[1] == 'e');
    assert("present_file"@[2] == 'e' && "probe_failed"@[2] == 'o');
}

/// The way to a candidate goes on only through a directory on the root's own device that was
/// opened and is still the one that was seen.
pub proof fn the_way_leads_through_unchanged_directories(
    place: Seq<u8>,
    device: u64,
    look: StepLook,
)
    ensures
        related_probe::step_outcome(place, device, look, false) is None <==> {
            &&& look.opened is Ok
            &&& look.stat matches Ok(raw) && look.opened_stat matches Ok(opened) && raw.kind()
                == ResourceKind::Directory && opened.kind() == ResourceKind::Directory && raw.flags
                & 0x4000_0000 == 0 && opened.flags & 0x4000_0000 == 0 && raw.device == device
                && opened.device == device && raw.inode == opened.inode
        },
        related_probe::step_outcome(place, device, look, true) is Some,
{
}

/// A preview is as bad as the worst that happened to it, and complete only if nothing did.
pub proof fn trouble_is_never_forgotten(
    standing: Standing,
    next: AppRelatedStatus,
    issue: RelatedIssueView,
)
    ensures
        ({
            let after = standing.troubled(next, issue);
            &&& after.complete <==> after.status == AppRelatedStatus::Complete
            &&& after.status == AppRelatedStatus::Complete <==> standing.status
                == AppRelatedStatus::Complete && next == AppRelatedStatus::Complete
            &&& after.status == AppRelatedStatus::Failed <==> standing.status
                == AppRelatedStatus::Failed || next == AppRelatedStatus::Failed
            &&& after.status == AppRelatedStatus::Cancelled ==> standing.status
                == AppRelatedStatus::Cancelled || next == AppRelatedStatus::Cancelled
            &&& standing.issues.len() < 256 ==> after.issues == standing.issues.push(issue)
            &&& standing.issues.len() >= 256 ==> after.issues == standing.issues
        }),
{
}

/// Only a complete preview exits with zero, and every way to end has a code of its own.
pub proof fn exit_codes_tell_how_far_the_preview_got(status: AppRelatedStatus)
    ensures
        status.code() == 0 <==> status == AppRelatedStatus::Complete,
        status.code() == 3 <==> status == AppRelatedStatus::Partial,
        status.code() == 130 <==> status == AppRelatedStatus::Cancelled,
        status.code() == 1 <==> status == AppRelatedStatus::Failed,
{
}

/// An application is one of the Chromium family exactly by the product directory that it
/// declares, as an application of type `APPL` whose executable is not declared wrongly; the
/// rules that are shown for it are those that were applied.
pub proof fn families_are_told_by_what_is_declared(app: RecordView)
    ensures
        related_plan::chromium(app) <==> {
            &&& app.kind == AppKind::App
            &&& app.package_type.value == Some("APPL"@)
            &&& app.executable.status != PathStatus::InvalidDeclaredPath
            &&& app.product_dir.value matches Some(dir) && (dir == "Google/Chrome"@ || dir
                == "Google/Chrome Beta"@ || dir == "Google/Chrome Dev"@ || dir
                == "Google/Chrome Canary"@ || dir == "Google/Chrome for Testing"@ || dir
                == "Chromium"@)
        },
        related_plan::chromium(app) ==> related_plan::rules_for(app) == seq![
            "org.chromium.default_user_data.macos.v1"@,
            "org.chromium.default_cache.macos.v1"@,
        ],
        !related_plan::chromium(app) && related_plan::firefox(app) ==> related_plan::rules_for(app)
            == seq![
            "org.mozilla.firefox.default_profiles.macos.v1"@,
            "org.mozilla.firefox.default_profile_caches.macos.v1"@,
            "org.mozilla.firefox.profile_groups.macos.v1"@,
        ],
        related_plan::generic(app) ==> related_plan::rules_for(app) == seq![
            "org.apple.library.application_support.bundle_id_convention.v1"@,
            "org.apple.library.caches.bundle_id_convention.v1"@,
        ],
        related_plan::rules_for(app).len() == 0 <==> !related_plan::chromium(app)
            && !related_plan::firefox(app) && !related_plan::generic(app),
        related_plan::generic(app) ==> app.bundle_id.state == StringState::Present,
        related_plan::firefox(app) ==> app.kind == AppKind::App,
{
}

/// Every copy is told from every other by an identifier of its own: the task and its place.
pub proof fn copies_are_counted_in_a_complete_inventory(
    apps: Seq<RecordView>,
    app: RecordView,
    complete: bool,
)
    ensures
        !complete ==> related_plan::copy_state(apps, app, complete) == "inventory_partial_unknown"@,
        complete && !related_plan::chromium(app) ==> related_plan::copy_state(apps, app, complete)
            == "single_observed_copy"@,
        forall|i: int, j: int|
            #![trigger apps[i], apps[j]]
            complete && related_plan::chromium(app) && 0 <= i < j < apps.len()
                && apps[i].product_dir.value == app.product_dir.value && apps[j].product_dir.value
                == app.product_dir.value ==> related_plan::copy_state(apps, app, complete)
                == "multiple_physical_copies_same_declared_product"@,
{
    assert forall|i: int, j: int|
        #![trigger apps[i], apps[j]]
        complete && related_plan::chromium(app) && 0 <= i < j < apps.len()
            && apps[i].product_dir.value == app.product_dir.value && apps[j].product_dir.value
            == app.product_dir.value implies related_plan::copy_state(apps, app, complete)
        == "multiple_physical_copies_same_declared_product"@ by {
        let dir = related_plan::known_product(app)->0;
        lemma_declaring_two(apps, dir, i, j);
    }
}

proof fn lemma_declaring_one(apps: Seq<RecordView>, dir: Seq<char>, i: int)
    requires
        0 <= i < apps.len(),
        apps[i].product_dir.value == Some(dir),
    ensures
        related_plan::declaring(apps, dir) >= 1,
    decreases apps.len(),
{
    if i < apps.len() - 1 {
        assert(apps.drop_last()[i] == apps[i]);
        lemma_declaring_one(apps.drop_last(), dir, i);
    }
}

proof fn lemma_declaring_two(apps: Seq<RecordView>, dir: Seq<char>, i: int, j: int)
    requires
        0 <= i < j < apps.len(),
        apps[i].product_dir.value == Some(dir),
        apps[j].product_dir.value == Some(dir),
    ensures
        related_plan::declaring(apps, dir) >= 2,
    decreases apps.len(),
{
    let head = apps.drop_last();
    assert(head[i] == apps[i]);
    if j < apps.len() - 1 {
        assert(head[j] == apps[j]);
        lemma_declaring_two(head, dir, i, j);
    } else {
        lemma_declaring_one(head, dir, i);
    }
}

/// A shown candidate repeats what was planned of it and what was found there, and is never more
/// than a hypothesis to be looked at by hand.
pub proof fn shown_candidates_repeat_the_plan(
    spec: SpecView,
    at: int,
    state: Seq<char>,
    complete: bool,
)
    requires
        0 <= at,
    ensures
        ({
            let shown = related_finish::candidate_of(spec, at, state, complete);
            &&& shown.path == spec.path
            &&& shown.relative == spec.relative
            &&& shown.rule == spec.rule
            &&& shown.role == spec.role
            &&& shown.state == state
            &&& shown.evidence == spec.evidence
            &&& shown.ids == spec.ids
            &&& complete ==> shown.certainty == spec.certainty
            &&& shown.id == spec.rule + ":"@ + version::decimal((at + 1) as nat)
            &&& !shown.deletable && !shown.authorized
            &&& spec.ids.len() > 1 ==> shown.reasons.contains("multiple_physical_app_copies"@)
            &&& !complete ==> shown.reasons.contains("inventory_or_probe_partial"@)
            &&& forall|i: int|
                0 <= i < spec.reasons.len() ==> shown.reasons.contains(#[trigger] spec.reasons[i])
        }),
{
    let shared = if spec.ids.len() > 1 {
        spec.reasons.push("multiple_physical_app_copies"@)
    } else {
        spec.reasons
    };
    let all = if complete {
        shared
    } else {
        shared.push("inventory_or_probe_partial"@)
    };
    let kept = order::sorted_texts(all);
    assert forall|i: int| 0 <= i < all.len() implies kept.contains(#[trigger] all[i]) by {
        lemma_sorted_keeps(all, i);
    }
    if spec.ids.len() > 1 {
        assert(all[spec.reasons.len() as int] == "multiple_physical_app_copies"@);
    }
    if !complete {
        assert(all[shared.len() as int] == "inventory_or_probe_partial"@);
    }
    assert forall|i: int| 0 <= i < spec.reasons.len() implies kept.contains(
        #[trigger] spec.reasons[i],
    ) by {
        assert(all[i] == spec.reasons[i]);
    }
}

proof fn lemma_with_texts_sorted(more: Seq<Seq<char>>)
    ensures
        order::is_sorted(order::with_texts(Seq::empty(), more)),
    decreases more.len(),
{
    if more.len() > 0 {
        lemma_with_texts_sorted(more.drop_last());
        order::adding_keeps_sorted(
            order::with_texts(Seq::empty(), more.drop_last()),
            more.last(),
        );
    }
}

proof fn lemma_sorted_keeps(more: Seq<Seq<char>>, i: int)
    requires
        0 <= i < more.len(),
    ensures
        order::sorted_texts(more).contains(more[i]),
    decreases more.len(),
{
    let head = more.drop_last();
    let before = order::with_texts(Seq::empty(), head);
    lemma_with_texts_sorted(head);
    order::adding_keeps_sorted(before, more.last());
    assert(order::with_text(before, more.last()).contains(more[i]) == (before.contains(more[i])
        || more[i] == more.last()));
    if i < head.len() {
        lemma_sorted_keeps(head, i);
        assert(head[i] == more[i]);
    }
}

/// Whatever is planned and asked for is shown, in the order of the plan, and nothing else is.
pub proof fn previews_show_what_is_asked_for(
    specs: Seq<SpecView>,
    outcomes: Seq<ProbeOutcome>,
    complete: bool,
    filter: Seq<char>,
    apps: Seq<RecordView>,
    task: Seq<char>,
    at: int,
)
    requires
        0 <= at < specs.len(),
    ensures
        ({
            let shown = related_finish::shown_candidates(
                specs,
                outcomes,
                complete,
                filter,
                apps,
                task,
            );
            let candidate = related_finish::candidate_of(
                specs[at],
                at,
                outcomes[at].state@,
                complete,
            );
            &&& filter.len() == 0 ==> shown.len() == specs.len() && shown[at] == candidate
            &&& related_finish::is_shown(candidate, filter, apps, task) ==> shown.contains(
                candidate,
            )
            &&& shown.len() <= specs.len()
        }),
    decreases specs.len(),
{
    let head = specs.drop_last();
    let shown = related_finish::shown_candidates(specs, outcomes, complete, filter, apps, task);
    let before = related_finish::shown_candidates(head, outcomes, complete, filter, apps, task);
    lemma_shown_len(head, outcomes, complete, filter, apps, task);
    let candidate = related_finish::candidate_of(specs[at], at, outcomes[at].state@, complete);
    if at < head.len() {
        assert(head[at] == specs[at]);
        previews_show_what_is_asked_for(head, outcomes, complete, filter, apps, task, at);
        if related_finish::is_shown(candidate, filter, apps, task) {
            let i = choose|i: int| 0 <= i < before.len() && before[i] == candidate;
            assert(shown[i] == candidate);
        }
    } else if related_finish::is_shown(candidate, filter, apps, task) {
        assert(shown[before.len() as int] == candidate);
    }
}

proof fn lemma_shown_len(
    specs: Seq<SpecView>,
    outcomes: Seq<ProbeOutcome>,
    complete: bool,
    filter: Seq<char>,
    apps: Seq<RecordView>,
    task: Seq<char>,
)
    ensures
        ({
            let shown = related_finish::shown_candidates(
                specs,
                outcomes,
                complete,
                filter,
                apps,
                task,
            );
            &&& shown.len() <= specs.len()
            &&& filter.len() == 0 ==> shown.len() == specs.len()
        }),
    decreases specs.len(),
{
    if specs.len() > 0 {
        lemma_shown_len(specs.drop_last(), outcomes, complete, filter, apps, task);
    }
}

/// The summary of a copy says what its record says.
pub proof fn summaries_repeat_the_record(
    apps: Seq<RecordView>,
    task: Seq<char>,
    at: int,
    complete: bool,
)
    requires
        0 <= at < apps.len(),
    ensures
        ({
            let told = related_finish::summary_of(apps, task, at, complete);
            &&& told.id == task + ":"@ + version::decimal(at as nat)
            &&& told.path == apps[at].path
            &&& told.roots == apps[at].roots
            &&& told.identity == apps[at].identity
            &&& told.name == apps[at].name
            &&& told.bundle_id == apps[at].bundle_id.value
            &&& told.short_version == apps[at].short_version.value
            &&& told.build_version == apps[at].build_version.value
            &&& told.executable == apps[at].executable.status.name()
            &&& told.rules == related_plan::rules_for(apps[at])
        }),
{
}

/// An offered candidate is planned, or there is one for the same place under the same rule that
/// takes on its copies, unless the paths have become too long in all; what was planned stays.
pub proof fn offers_are_taken_up(state: PlanState, ids: Seq<Seq<char>>, input: SpecView)
    ensures
        ({
            let after = state.offered(ids, input);
            ||| after.specs == state.specs && after.standing.status != AppRelatedStatus::Complete
                && state.path_bytes + input.path.len() > 1_048_576
            ||| exists|i: int|
                0 <= i < after.specs.len() && related_plan::same_key(
                    #[trigger] after.specs[i],
                    input,
                ) && after.standing == state.standing
        }),
        state.offered(ids, input).specs.len() >= state.specs.len(),
{
    let at = related_plan::key_place(state.specs, input) as int;
    let after = state.offered(ids, input);
    lemma_key_place(state.specs, input);
    if at < state.specs.len() {
        assert(related_plan::same_key(after.specs[at], input));
    } else {
        let fresh = related_plan::enriched(related_plan::bare(input), input, ids);
        lemma_with_spec_contains(state.specs, fresh);
        if !(related_plan::more_bytes(state.path_bytes, input.path.len())
            > app_related::MAX_PATH_BYTES) {
            let i = choose|i: int| 0 <= i < after.specs.len() && after.specs[i] == fresh;
            assert(path::same_path(input.path, input.path)) by {
                path::within_is_reflexive(input.path);
            }
            assert(related_plan::same_key(after.specs[i], input));
        }
    }
}

proof fn lemma_key_place(list: Seq<SpecView>, key: SpecView)
    ensures
        related_plan::key_place(list, key) <= list.len(),
        related_plan::key_place(list, key) < list.len() ==> related_plan::same_key(
            list[related_plan::key_place(list, key) as int],
            key,
        ),
    decreases list.len(),
{
    if list.len() > 0 && !related_plan::same_key(list[0], key) {
        lemma_key_place(list.drop_first(), key);
    }
}

proof fn lemma_with_spec_contains(list: Seq<SpecView>, spec: SpecView)
    ensures
        related_plan::with_spec(list, spec).contains(spec),
        related_plan::with_spec(list, spec).len() == list.len() + 1,
    decreases list.len(),
{
    let all = related_plan::with_spec(list, spec);
    if list.len() == 0 || related_plan::key_less(list.last(), spec) {
        assert(all[list.len() as int] == spec);
    } else {
        let inner = related_plan::with_spec(list.drop_last(), spec);
        lemma_with_spec_contains(list.drop_last(), spec);
        let i = choose|i: int| 0 <= i < inner.len() && inner[i] == spec;
        assert(all[i] == spec);
    }
}

/// A copy is asked for exactly if nothing is asked for in particular, or if what is asked for
/// stands in its name, its path or its identifier, whether it is written large or small.
pub proof fn copies_are_asked_for_by_name_path_or_identifier(app: RecordView, filter: Seq<char>)
    ensures
        related_finish::copy_passes(app, filter) <==> {
            ||| filter.len() == 0
            ||| exists|at: int| #[trigger] inventory_laws::alike_at(app.name, filter, at)
            ||| exists|at: int| #[trigger]
                inventory_laws::alike_at(unicode::lossy_text(app.path), filter, at)
            ||| app.bundle_id.value is Some && exists|at: int| #[trigger]
                inventory_laws::alike_at(app.bundle_id.value->0, filter, at)
        },
{
    lemma_passes(app.name, filter);
    lemma_passes(unicode::lossy_text(app.path), filter);
    if app.bundle_id.value is Some {
        lemma_passes(app.bundle_id.value->0, filter);
    }
}

proof fn lemma_passes(text: Seq<char>, filter: Seq<char>)
    ensures
        related_finish::passes(text, filter) <==> exists|at: int| #[trigger]
            inventory_laws::alike_at(text, filter, at),
{
    let low = unicode::ascii_lower(text);
    let part = unicode::ascii_lower(filter);
    if related_finish::passes(text, filter) {
        let at = choose|at: int| #[trigger] unicode::stands_at(low, part, at);
        assert forall|i: int| 0 <= i < filter.len() implies unicode::lowered(text[at + i])
            == unicode::lowered(#[trigger] filter[i]) by {
            assert(low.subrange(at, at + part.len())[i] == part[i]);
        }
        assert(inventory_laws::alike_at(text, filter, at));
    }
    if exists|at: int| #[trigger] inventory_laws::alike_at(text, filter, at) {
        let at = choose|at: int| #[trigger] inventory_laws::alike_at(text, filter, at);
        assert forall|i: int| 0 <= i < part.len() implies low.subrange(at, at + part.len())[i]
            == part[i] by {
            assert(unicode::lowered(text[at + i]) == unicode::lowered(filter[i]));
        }
        assert(low.subrange(at, at + part.len()) =~= part);
        assert(unicode::stands_at(low, part, at));
    }
}

/// A candidate is shown exactly if nothing is asked for in particular, or if what is asked for
/// stands in its place below the root or in a copy that it belongs to, whichever copy that is.
pub proof fn candidates_are_shown_for_any_of_their_copies(
    candidate: CandidateView,
    filter: Seq<char>,
    apps: Seq<RecordView>,
    task: Seq<char>,
)
    ensures
        related_finish::is_shown(candidate, filter, apps, task) <==> {
            ||| filter.len() == 0
            ||| exists|at: int| #[trigger] inventory_laws::alike_at(candidate.relative, filter, at)
            ||| exists|i: int, k: int|
                #![trigger candidate.ids[i], apps[k]]
                0 <= i < candidate.ids.len() && 0 <= k < apps.len() && related_finish::copy_passes(
                    apps[k],
                    filter,
                ) && candidate.ids[i] == related_plan::copy_id(task, k)
        },
{
    lemma_passes(candidate.relative, filter);
    if exists|i: int|
        0 <= i < candidate.ids.len() && related_finish::asked_for(
            apps,
            task,
            filter,
            #[trigger] candidate.ids[i],
        ) {
        let i = choose|i: int|
            0 <= i < candidate.ids.len() && related_finish::asked_for(
                apps,
                task,
                filter,
                #[trigger] candidate.ids[i],
            );
        let k = choose|k: int|
            0 <= k < apps.len() && related_finish::copy_passes(#[trigger] apps[k], filter)
                && related_plan::copy_id(task, k) == candidate.ids[i];
        assert(related_finish::copy_passes(apps[k], filter));
    }
    if exists|i: int, k: int|
        #![trigger candidate.ids[i], apps[k]]
        0 <= i < candidate.ids.len() && 0 <= k < apps.len() && related_finish::copy_passes(
            apps[k],
            filter,
        ) && candidate.ids[i] == related_plan::copy_id(task, k) {
        let (i, k): (int, int) = choose|i: int, k: int|
            #![trigger candidate.ids[i], apps[k]]
            0 <= i < candidate.ids.len() && 0 <= k < apps.len() && related_finish::copy_passes(
                apps[k],
                filter,
            ) && candidate.ids[i] == related_plan::copy_id(task, k);
        assert(related_finish::asked_for(apps, task, filter, candidate.ids[i]));
    }
}

/// A candidate counts as present in any of three states, and as present in no other.
pub proof fn present_candidates_are_counted(
    list: Seq<CandidateView>,
    keep: spec_fn(CandidateView) -> bool,
    added: CandidateView,
)
    ensures
        related_finish::tally(list.push(added), keep) == related_finish::tally(list, keep) + if keep(
            added,
        ) {
            1int
        } else {
            0
        },
        related_finish::is_present(added) <==> added.state == "present_directory"@ || added.state
            == "present_file"@ || added.state == "present_other"@,
{
    assert(list.push(added).drop_last() =~= list);
}

/// A preview goes on to look for related data exactly on macOS, with an inventory that neither
/// failed nor was cancelled, from proper roots; it stands where the inventory did.
pub proof fn previews_need_an_inventory(
    host: Host,
    inventory: AppInventory,
    app_roots: Seq<Seq<u8>>,
    library_roots: Seq<Seq<u8>>,
)
    ensures
        related_preview::early_end(host, inventory, app_roots, library_roots) is None <==> {
            &&& host == Host::MacOs
            &&& inventory.status == AppInventoryStatus::Complete || inventory.status
                == AppInventoryStatus::Partial
            &&& related_preview::root_inputs_fault(app_roots, library_roots) is None
        },
        host != Host::MacOs ==> (related_preview::early_end(
            host,
            inventory,
            app_roots,
            library_roots,
        ) matches Some(end) && end.status == AppRelatedStatus::Failed && !end.complete),
        host == Host::MacOs && inventory.status == AppInventoryStatus::Cancelled ==> (
        related_preview::early_end(host, inventory, app_roots, library_roots) matches Some(end)
            && end.status == AppRelatedStatus::Cancelled && !end.complete),
{
    lemma_merged(
        Standing {
            status: app_related::mapped(inventory.status),
            complete: inventory.status == AppInventoryStatus::Complete,
            issues: Seq::empty(),
            omitted: inventory.issues_omitted,
        },
        inventory.issues@,
    );
}

proof fn lemma_merged(standing: Standing, issues: Seq<AppIssue>)
    ensures
        app_related::merged(standing, issues).status == standing.status,
        app_related::merged(standing, issues).complete == standing.complete,
    decreases issues.len(),
{
    if issues.len() > 0 {
        lemma_merged(standing, issues.drop_last());
    }
}

/// A preview starts as good as the inventory was, and complete only if that was.
pub proof fn previews_stand_where_the_inventory_did(inventory: AppInventory)
    ensures
        ({
            let start = related_preview::start_standing(inventory);
            &&& start.complete <==> inventory.status == AppInventoryStatus::Complete
            &&& start.status == AppRelatedStatus::Complete <==> inventory.status
                == AppInventoryStatus::Complete
            &&& start.status == AppRelatedStatus::Partial <==> inventory.status
                == AppInventoryStatus::Partial
            &&& start.status == AppRelatedStatus::Cancelled <==> inventory.status
                == AppInventoryStatus::Cancelled
            &&& start.status == AppRelatedStatus::Failed <==> inventory.status
                == AppInventoryStatus::Failed
        }),
{
    lemma_merged(
        Standing {
            status: app_related::mapped(inventory.status),
            complete: inventory.status == AppInventoryStatus::Complete,
            issues: Seq::empty(),
            omitted: inventory.issues_omitted,
        },
        inventory.issues@,
    );
}

/// Trouble with a root or a candidate makes a preview cancelled, failed or partial by its code.
pub proof fn codes_tell_how_bad_trouble_is(code: Seq<char>)
    ensures
        related_preview::status_of_code(code) == AppRelatedStatus::Cancelled <==> code
            == "cancelled"@,
        related_preview::status_of_code(code) == AppRelatedStatus::Failed <==> code
            == "invalid_input"@,
        related_preview::status_of_code(code) != AppRelatedStatus::Complete,
{
    reveal_strlit("cancelled");
    reveal_strlit("invalid_input");
    assert("cancelled"@.len() == 9 && "invalid_input"@.len() == 13);
}

/// A plan keeps at most 256 candidates, the first of their order; more make it partial.
pub proof fn plans_are_bounded(state: PlanState)
    ensures
        ({
            let (specs, standing) = related_result::kept(state);
            &&& specs.len() <= 256
            &&& state.specs.len() <= 256 ==> specs == state.specs && standing == state.standing
            &&& state.specs.len() > 256 ==> specs == state.specs.take(256) && standing.status
                != AppRelatedStatus::Complete && !standing.complete
        }),
{
}

/// No application is looked at under two families.
pub proof fn families_do_not_overlap(apps: Seq<RecordView>, at: int)
    ensures
        ({
            let lists = related_result::looked_at(apps);
            &&& lists.chromium.contains(at) ==> !lists.firefox.contains(at)
                && !lists.generic.contains(at)
            &&& lists.firefox.contains(at) ==> !lists.generic.contains(at)
            &&& lists.chromium.contains(at) <==> 0 <= at < apps.len() && related_plan::chromium(
                apps[at],
            )
            &&& lists.firefox.contains(at) <==> 0 <= at < apps.len() && !related_plan::chromium(
                apps[at],
            ) && related_plan::firefox(apps[at])
            &&& lists.generic.len() <= 32
        }),
{
    let is_chromium = |app: RecordView| related_plan::chromium(app);
    let is_firefox = |app: RecordView| !related_plan::chromium(app) && related_plan::firefox(app);
    let is_generic = |app: RecordView| related_plan::generic(app);
    rules_take_the_applications_they_are_for(apps, is_chromium, at);
    rules_take_the_applications_they_are_for(apps, is_firefox, at);
    rules_take_the_applications_they_are_for(apps, is_generic, at);
    let generic = related_plan::places_where(apps, is_generic);
    lemma_by_path_from(apps, generic, at);
    let lists = related_result::looked_at(apps);
    if lists.generic.contains(at) {
        let sorted = related_plan::by_path(apps, generic);
        let i = choose|i: int| 0 <= i < lists.generic.len() && lists.generic[i] == at;
        assert(sorted[i] == at);
        assert(sorted.contains(at));
    }
}

/// Two candidates are one exactly if they have the same place, the same rule and the same way
/// below the root.
pub proof fn candidates_are_told_apart_by_place_and_rule(a: SpecView, b: SpecView)
    ensures
        related_plan::same_key(a, b) <==> path::is_within(a.path, b.path) && path::is_within(
            b.path,
            a.path,
        ) && a.rule == b.rule && a.relative == b.relative,
{
}

/// A candidate that is offered again takes on the copies and the evidence of the offer, and
/// keeps its own.
pub proof fn offers_add_their_copies(
    spec: SpecView,
    input: SpecView,
    ids: Seq<Seq<char>>,
    i: int,
)
    requires
        order::is_sorted(spec.ids),
    ensures
        ({
            let after = related_plan::enriched(spec, input, ids);
            &&& 0 <= i < ids.len() ==> after.ids.contains(ids[i])
            &&& 0 <= i < spec.ids.len() ==> after.ids.contains(spec.ids[i])
            &&& 0 <= i < input.evidence.len() ==> after.evidence.contains(input.evidence[i])
            &&& 0 <= i < spec.evidence.len() ==> after.evidence.contains(spec.evidence[i])
            &&& after.rule == spec.rule && after.path == spec.path && after.role == spec.role
        }),
{
    lemma_texts(spec.ids, ids);
    lemma_evidence(spec.evidence, input.evidence);
}

proof fn lemma_texts(list: Seq<Seq<char>>, more: Seq<Seq<char>>)
    requires
        order::is_sorted(list),
    ensures
        order::is_sorted(order::with_texts(list, more)),
        forall|i: int| 0 <= i < list.len() ==> order::with_texts(list, more).contains(
            #[trigger] list[i],
        ),
        forall|i: int| 0 <= i < more.len() ==> order::with_texts(list, more).contains(
            #[trigger] more[i],
        ),
    decreases more.len(),
{
    if more.len() > 0 {
        let head = more.drop_last();
        let before = order::with_texts(list, head);
        lemma_texts(list, head);
        order::adding_keeps_sorted(before, more.last());
        let all = order::with_texts(list, more);
        assert forall|i: int| 0 <= i < list.len() implies all.contains(#[trigger] list[i]) by {
            assert(before.contains(list[i]));
        }
        assert forall|i: int| 0 <= i < more.len() implies all.contains(#[trigger] more[i]) by {
            if i < head.len() {
                assert(head[i] == more[i]);
                assert(before.contains(head[i]));
            }
        }
    } else {
        assert forall|i: int| 0 <= i < list.len() implies order::with_texts(list, more).contains(
            #[trigger] list[i],
        ) by {
            assert(order::with_texts(list, more)[i] == list[i]);
        }
    }
}

proof fn lemma_evidence(list: Seq<EvidenceView>, more: Seq<EvidenceView>)
    ensures
        forall|i: int| 0 <= i < list.len() ==> related_plan::with_evidence(list, more).contains(
            #[trigger] list[i],
        ),
        forall|i: int| 0 <= i < more.len() ==> related_plan::with_evidence(list, more).contains(
            #[trigger] more[i],
        ),
    decreases more.len(),
{
    let all = related_plan::with_evidence(list, more);
    if more.len() > 0 {
        let head = more.drop_last();
        let before = related_plan::with_evidence(list, head);
        lemma_evidence(list, head);
        assert forall|x: EvidenceView| #[trigger] before.contains(x) implies all.contains(x) by {
            let k = choose|k: int| 0 <= k < before.len() && before[k] == x;
            assert(all[k] == x);
        }
        assert forall|i: int| 0 <= i < list.len() implies all.contains(#[trigger] list[i]) by {
            assert(before.contains(list[i]));
        }
        assert forall|i: int| 0 <= i < more.len() implies all.contains(#[trigger] more[i]) by {
            if i < head.len() {
                assert(head[i] == more[i]);
                assert(before.contains(head[i]));
            } else if !before.contains(more.last()) {
                assert(all[before.len() as int] == more.last());
            } else {
                assert(before.contains(more.last()));
            }
        }
    } else {
        assert forall|i: int| 0 <= i < list.len() implies all.contains(#[trigger] list[i]) by {
            assert(all[i] == list[i]);
        }
    }
}

/// A copy is summed up exactly if nothing is asked for in particular, or if it is asked for, or
/// if a candidate that is shown belongs to it; in the order of the inventory.
pub proof fn copies_of_shown_candidates_are_summed_up(
    apps: Seq<RecordView>,
    task: Seq<char>,
    upto: int,
    complete: bool,
    filter: Seq<char>,
    shown: Seq<CandidateView>,
    at: int,
)
    requires
        0 <= at < upto <= apps.len(),
        filter.len() == 0 || related_finish::asked_for(
            apps,
            task,
            filter,
            related_plan::copy_id(task, at),
        ) || exists|i: int|
            0 <= i < shown.len() && (#[trigger] shown[i]).ids.contains(
                related_plan::copy_id(task, at),
            ),
    ensures
        related_finish::shown_copies(apps, task, upto, complete, filter, shown).contains(
            related_finish::summary_of(apps, task, at, complete),
        ),
    decreases upto,
{
    let before = related_finish::shown_copies(apps, task, upto - 1, complete, filter, shown);
    let all = related_finish::shown_copies(apps, task, upto, complete, filter, shown);
    let told = related_finish::summary_of(apps, task, at, complete);
    if at < upto - 1 {
        copies_of_shown_candidates_are_summed_up(
            apps,
            task,
            upto - 1,
            complete,
            filter,
            shown,
            at,
        );
        let i = choose|i: int| 0 <= i < before.len() && before[i] == told;
        assert(all[i] == told);
    } else {
        assert(all[before.len() as int] == told);
    }
}

/// A copy counts as matched exactly if a rule applies to it.
pub proof fn matched_copies_have_rules(list: Seq<SummaryView>, added: SummaryView)
    ensures
        related_finish::matched_copies(list.push(added)) == related_finish::matched_copies(list)
            + if added.rules.len() > 0 {
            1int
        } else {
            0
        },
{
    assert(list.push(added).drop_last() =~= list);
}

/// What was found of every candidate counts: a preview is complete only if none of them was in
/// trouble, and trouble with any of them is reported.
pub proof fn every_probe_counts(standing: Standing, outcomes: Seq<ProbeOutcome>, at: int)
    requires
        0 <= at < outcomes.len(),
    ensures
        related_finish::outcome_issue(outcomes[at]) is Some ==> related_finish::settled(
            related_finish::probed_standing(standing, outcomes),
        ).status != AppRelatedStatus::Complete,
        standing.status != AppRelatedStatus::Complete ==> related_finish::settled(
            related_finish::probed_standing(standing, outcomes),
        ).status != AppRelatedStatus::Complete,
        related_finish::settled(
            related_finish::probed_standing(standing, outcomes),
        ).complete <==> related_finish::settled(
            related_finish::probed_standing(standing, outcomes),
        ).status == AppRelatedStatus::Complete,
    decreases outcomes.len(),
{
    let head = outcomes.drop_last();
    if at < head.len() {
        assert(head[at] == outcomes[at]);
        every_probe_counts(standing, head, at);
    } else if head.len() > 0 {
        every_probe_counts(standing, head, 0);
    }
}

/// A candidate is probed only while nothing stops it, on macOS, under the read-only policy; a
/// policy that could not be restored is trouble, whatever was found.
pub proof fn probes_are_stopped_and_guarded(
    host: Host,
    place: Seq<u8>,
    relative: Seq<char>,
    root: LibraryRoot,
    look: ProbeLook,
)
    ensures
        ({
            let (state, issue) = related_probe::probed(host, place, relative, root, look);
            let late = look.reading.elapsed_nanos >= look.reading.budget_nanos;
            &&& look.reading.cancelled ==> state == "probe_failed"@ && (issue matches Some(found)
                && found.code == "cancelled"@)
            &&& !look.reading.cancelled && late ==> state == "probe_failed"@ && (
            issue matches Some(found) && found.code == "duration_limit"@)
            &&& !look.reading.cancelled && !late && host != Host::MacOs ==> state
                == "probe_failed"@
            &&& !look.reading.cancelled && !late && host == Host::MacOs && look.entered is Err ==>
                state == "probe_failed"@ && issue is Some
            &&& !look.reading.cancelled && !late && host == Host::MacOs && look.entered is Ok
                && look.restored is Err ==> state == "probe_failed"@ && (issue matches Some(found)
                && found.code == "policy_failure"@)
            &&& !look.reading.cancelled && !late && host == Host::MacOs && look.entered is Ok
                && look.restored is Ok && related_probe::mapping_issue(root, look.after) is Some ==>
                state == "probe_failed"@ && issue is Some
            &&& !look.reading.cancelled && !late && host == Host::MacOs && look.entered is Ok
                && look.restored is Ok && related_probe::mapping_issue(root, look.after) is None ==>
                (state, issue) == related_probe::found_at(place, relative, root, look)
        }),
{
}

/// A candidate is looked for only by a way that stays below its root, while the root is what was
/// accepted; any doubt about that is trouble.
pub proof fn candidates_are_looked_for_below_the_accepted_root(
    place: Seq<u8>,
    relative: Seq<char>,
    root: LibraryRoot,
    look: ProbeLook,
)
    ensures
        ({
            let bytes = utf8::encode_utf8(relative);
            let (state, issue) = related_probe::found_at(place, relative, root, look);
            &&& bytes.len() > 0 && bytes[0] == 0x2f || path::has_piece(bytes, seq![0x2eu8, 0x2e])
                ==> state == "probe_failed"@ && (issue matches Some(found) && found.code
                == "invalid_input"@)
            &&& related_probe::mapping_issue(root, look.before) is Some ==> state
                == "probe_failed"@ && issue is Some
            &&& look.handle is Err ==> state == "probe_failed"@ && issue is Some
        }),
{
    assert(seq![0x2eu8, 0x2e] =~= seq![path::DOT, path::DOT]);
}

/// What a candidate is when it could not be looked at: missing where it is not there, not
/// followed where it is a link, and refused where it may not be seen.
pub proof fn unseen_candidates_are_told_apart(failure: IoFailure, leaf: bool, place: Seq<u8>)
    ensures
        failure.kind == IoKind::NotFound ==> related_probe::failed_state(failure.kind, leaf)
            == "missing"@,
        failure.kind == IoKind::Loop ==> related_probe::failed_state(failure.kind, leaf)
            == "not_followed_symlink"@,
        failure.kind == IoKind::PermissionDenied ==> related_probe::failed_state(
            failure.kind,
            leaf,
        ) == "permission_denied"@,
        related_probe::probe_error(place, failure, "stat candidate"@) is None <==> failure.kind
            == IoKind::NotFound || failure.kind == IoKind::Loop,
        failure.kind == IoKind::PermissionDenied ==> (related_probe::probe_error(
            place,
            failure,
            "stat candidate"@,
        ) matches Some(found) && found.code == "permission_denied"@ && found.os_code
            == failure.os_code),
{
}

/// The documentation that is named for a rule is that of the family the rule is for.
pub proof fn rules_name_their_documentation()
    ensures
        related_finish::urls_of("org.chromium.default_user_data.macos.v1"@) == seq![
            "https://chromium.googlesource.com/chromium/src/+/HEAD/docs/user_data_dir.md"@,
        ],
        related_finish::urls_of("org.mozilla.firefox.default_profiles.macos.v1"@) == seq![
            "https://firefox-source-docs.mozilla.org/toolkit/profile/index.html"@,
        ],
        related_finish::urls_of("org.apple.library.caches.bundle_id_convention.v1"@).len() == 2,
{
    reveal_strlit("org.chromium");
    reveal_strlit("org.mozilla");
    reveal_strlit("org.chromium.default_user_data.macos.v1");
    reveal_strlit("org.mozilla.firefox.default_profiles.macos.v1");
    reveal_strlit("org.apple.library.caches.bundle_id_convention.v1");
    let c = "org.chromium.default_user_data.macos.v1"@;
    let m = "org.mozilla.firefox.default_profiles.macos.v1"@;
    let a = "org.apple.library.caches.bundle_id_convention.v1"@;
    assert(c.subrange(0, 12) =~= "org.chromium"@);
    assert(m.subrange(0, 11) =~= "org.mozilla"@);
    assert(m.subrange(0, 12)[4] == 'm' && "org.chromium"@[4] == 'c');
    assert(a.subrange(0, 12)[4] == 'a');
    assert(a.subrange(0, 11)[4] == 'a' && "org.mozilla"@[4] == 'm');
}

} // verus!
