//! From the library roots to the finished preview of related data.

use crate::app_inventory;
use crate::app_inventory::{AppInventory, AppRecord, RecordView};
use crate::app_related;
use crate::app_related::{AppRelatedPreview, AppRelatedStatus, Standing};
use crate::order;
use crate::path;
use crate::probe::Reading;
use crate::related_plan;
use crate::related_plan::{CandidateSpec, PlanState, RuleMatch, SpecView};
use crate::related_preview;
use crate::related_preview::{FirefoxPlace, RelatedRun};
use crate::related_probe::LibraryRoot;
use crate::text;
use vstd::prelude::*;
use vstd::string::*;

verus! {

/// What is planned, and whether planning goes on.
pub open spec fn offered_chromium(
    state: PlanState,
    root: usize,
    root_path: Seq<u8>,
    apps: Seq<RecordView>,
    task: Seq<char>,
    list: Seq<int>,
) -> PlanState
    decreases list.len(),
{
    if list.len() == 0 {
        state
    } else {
        let before = offered_chromium(state, root, root_path, apps, task, list.drop_last());
        let app = apps[list.last()];
        let id = related_plan::copy_id(task, list.last());
        if related_plan::known_product(app) is None {
            before
        } else {
            before.offered(
                seq![id],
                related_preview::chromium_input(root, root_path, app, id, false),
            ).offered(
                seq![id],
                related_preview::chromium_input(root, root_path, app, id, true),
            )
        }
    }
}

/// After the shared places of the Firefox family, which belong with all of its copies.
pub open spec fn offered_firefox(
    state: PlanState,
    root: usize,
    root_path: Seq<u8>,
    apps: Seq<RecordView>,
    task: Seq<char>,
    list: Seq<int>,
) -> PlanState {
    if list.len() == 0 {
        state
    } else {
        let ids = related_preview::copy_ids(task, list);
        state.offered(
            ids,
            related_preview::firefox_input(
                root,
                root_path,
                apps,
                task,
                list,
                FirefoxPlace::Profiles,
            ),
        ).offered(
            ids,
            related_preview::firefox_input(root, root_path, apps, task, list, FirefoxPlace::Caches),
        ).offered(
            ids,
            related_preview::firefox_input(root, root_path, apps, task, list, FirefoxPlace::Groups),
        )
    }
}

/// After the places that Apple's convention gives to bundle identifiers.
pub open spec fn offered_generic(
    state: PlanState,
    root: usize,
    root_path: Seq<u8>,
    apps: Seq<RecordView>,
    task: Seq<char>,
    list: Seq<int>,
) -> PlanState
    decreases list.len(),
{
    if list.len() == 0 {
        state
    } else {
        let before = offered_generic(state, root, root_path, apps, task, list.drop_last());
        let app = apps[list.last()];
        let id = related_plan::copy_id(task, list.last());
        match app.bundle_id.value {
            None => before,
            Some(bundle_id) => if !related_preview::is_bundle_id(bundle_id) {
                PlanState {
                    standing: before.standing.troubled(
                        AppRelatedStatus::Partial,
                        app_related::plain_issue(
                            Some(app.path),
                            "invalid_bundle_id_component"@,
                            "bundle identifier is unsafe for path construction"@,
                        ),
                    ),
                    ..before
                }
            } else {
                before.offered(
                    seq![id],
                    related_preview::generic_input(root, root_path, app, id, false),
                ).offered(
                    seq![id],
                    related_preview::generic_input(root, root_path, app, id, true),
                )
            },
        }
    }
}

/// The applications by the rule that they fall under, as far as they are looked at.
#[verifier::ext_equal]
pub struct MatchView {
    pub chromium: Seq<int>,
    pub firefox: Seq<int>,
    pub generic: Seq<int>,
}

/// After all places below one library root.
#[verifier::opaque]
pub open spec fn offered_root(
    state: PlanState,
    root: usize,
    root_path: Seq<u8>,
    apps: Seq<RecordView>,
    task: Seq<char>,
    lists: MatchView,
) -> PlanState {
    offered_generic(
        offered_firefox(
            offered_chromium(state, root, root_path, apps, task, lists.chromium),
            root,
            root_path,
            apps,
            task,
            lists.firefox,
        ),
        root,
        root_path,
        apps,
        task,
        lists.generic,
    )
}

/// What the library roots from one on come to. A request to stop, or a clock that has run
/// out, ends the planning.
pub open spec fn planned(
    state: PlanState,
    roots: Seq<LibraryRoot>,
    readings: Seq<Reading>,
    at: int,
    apps: Seq<RecordView>,
    task: Seq<char>,
    lists: MatchView,
) -> PlanState
    decreases roots.len() - at,
{
    if at >= roots.len() {
        state
    } else if readings[at].cancelled {
        PlanState {
            standing: state.standing.troubled(
                AppRelatedStatus::Cancelled,
                app_related::plain_issue(None, "cancelled"@, "app-related probe cancelled"@),
            ),
            ..state
        }
    } else if readings[at].elapsed_nanos >= readings[at].budget_nanos {
        PlanState {
            standing: state.standing.troubled(
                AppRelatedStatus::Partial,
                app_related::plain_issue(
                    None,
                    "duration_limit"@,
                    "app-related probe budget exhausted"@,
                ),
            ),
            ..state
        }
    } else {
        planned(
            offered_root(state, at as usize, roots[at].path@, apps, task, lists),
            roots,
            readings,
            at + 1,
            apps,
            task,
            lists,
        )
    }
}

/// The applications that are looked at: of those of which only the bundle identifier says
/// something, the first few.
pub open spec fn looked_at(apps: Seq<RecordView>) -> MatchView {
    let generic = related_plan::by_path(
        apps,
        related_plan::places_where(apps, |app: RecordView| related_plan::generic(app)),
    );
    MatchView {
        chromium: related_plan::places_where(apps, |app: RecordView| related_plan::chromium(app)),
        firefox: related_plan::places_where(
            apps,
            |app: RecordView| !related_plan::chromium(app) && related_plan::firefox(app),
        ),
        generic: if generic.len() > app_related::MAX_GENERIC_APP_COPIES {
            generic.take(app_related::MAX_GENERIC_APP_COPIES as int)
        } else {
            generic
        },
    }
}

/// How a preview fares when its applications have been sorted.
pub open spec fn sorted_standing(
    standing: Standing,
    apps: Seq<RecordView>,
    cancelled: bool,
) -> Standing {
    let generic = related_plan::places_where(apps, |app: RecordView| related_plan::generic(app));
    if related_plan::by_path(apps, generic).len() > app_related::MAX_GENERIC_APP_COPIES {
        let limit = app_related::plain_issue(
            None,
            "candidate_limit"@,
            "generic bundle-id convention app budget reached"@,
        );
        if cancelled {
            standing.with_issue(limit)
        } else {
            standing.troubled(AppRelatedStatus::Partial, limit)
        }
    } else {
        standing
    }
}

/// The candidates that are kept, and how the preview fares then.
pub open spec fn kept(state: PlanState) -> (Seq<SpecView>, Standing) {
    if state.specs.len() > app_related::MAX_CANDIDATES {
        (
            state.specs.take(app_related::MAX_CANDIDATES as int),
            state.standing.troubled(
                AppRelatedStatus::Partial,
                app_related::plain_issue(None, "candidate_limit"@, "candidate limit reached"@),
            ),
        )
    } else {
        (state.specs, state.standing)
    }
}

/// The candidates of a preview, and how it fares before they are probed.
pub open spec fn plan_of(
    standing: Standing,
    roots: Seq<LibraryRoot>,
    readings: Seq<Reading>,
    cancelled: bool,
    apps: Seq<RecordView>,
    task: Seq<char>,
) -> (Seq<SpecView>, Standing) {
    kept(
        planned(
            PlanState {
                standing: sorted_standing(standing, apps, cancelled),
                specs: Seq::empty(),
                path_bytes: 0,
            },
            roots,
            readings,
            0,
            apps,
            task,
            looked_at(apps),
        ),
    )
}

/// The paths of library roots.
pub open spec fn root_paths(roots: Seq<LibraryRoot>) -> Seq<Seq<u8>> {
    Seq::new(roots.len(), |i: int| roots[i].path@)
}

/// A plan that is being made.
struct Planner {
    specs: Vec<CandidateSpec>,
    path_bytes: usize,
}

spec fn plan_state(preview: AppRelatedPreview, planner: Planner) -> PlanState {
    PlanState {
        standing: preview.standing(),
        specs: related_plan::spec_views(planner.specs@),
        path_bytes: planner.path_bytes,
    }
}

impl Planner {
    fn offer(
        &mut self,
        preview: &mut AppRelatedPreview,
        ids: &Vec<String>,
        input: related_plan::CandidateSpecInput,
    )
        ensures
            plan_state(*final(preview), *final(self)) == plan_state(
                *old(preview),
                *old(self),
            ).offered(order::texts(ids@), input@),
            app_related::same_body(*final(preview), *old(preview)),
    {
        related_plan::maybe_add_spec(preview, &mut self.specs, &mut self.path_bytes, ids, input);
    }

    fn offer_chromium(
        &mut self,
        preview: &mut AppRelatedPreview,
        root: usize,
        root_path: &[u8],
        apps: &Vec<AppRecord>,
        task: &str,
        list: &Vec<usize>,
    )
        requires
            related_plan::in_range(list@, apps@.len()),
        ensures
            plan_state(*final(preview), *final(self)) == offered_chromium(
                plan_state(*old(preview), *old(self)),
                root,
                root_path@,
                app_inventory::record_views(apps@),
                task@,
                related_plan::as_ints(list@),
            ),
            app_related::same_body(*final(preview), *old(preview)),
    {
        let ghost views = app_inventory::record_views(apps@);
        let ghost places = related_plan::as_ints(list@);
        let ghost start = plan_state(*preview, *self);
        let ghost body = *preview;
        let mut i: usize = 0;
        assert(places.take(0) =~= Seq::empty());
        while i < list.len()
            invariant
                0 <= i <= list@.len(),
                related_plan::in_range(list@, apps@.len()),
                views == app_inventory::record_views(apps@),
                places == related_plan::as_ints(list@),
                plan_state(*preview, *self) == offered_chromium(
                    start,
                    root,
                    root_path@,
                    views,
                    task@,
                    places.take(i as int),
                ),
                app_related::same_body(*preview, body),
            decreases list@.len() - i,
        {
            assert(places.take(i + 1).drop_last() =~= places.take(i as int));
            assert(places.take(i + 1).last() == list@[i as int] as int);
            let at: usize = list[i];
            let app = &apps[at];
            assert(views[at as int] == app@);
            if let Some(dir) = &app.declared_product_dir_name.value {
                if related_plan::is_allowlisted(dir.as_str()) {
                    let id = related_plan::copy_name(task, at);
                    let data = related_preview::make_chromium_input(
                        root,
                        root_path,
                        app,
                        dir.as_str(),
                        id.as_str(),
                        false,
                    );
                    let cache = related_preview::make_chromium_input(
                        root,
                        root_path,
                        app,
                        dir.as_str(),
                        id.as_str(),
                        true,
                    );
                    let mut ids: Vec<String> = Vec::new();
                    ids.push(id);
                    assert(order::texts(ids@) =~= seq![related_plan::copy_id(task@, at as int)]);
                    self.offer(preview, &ids, data);
                    self.offer(preview, &ids, cache);
                }
            }
            i += 1;
        }
        assert(places.take(places.len() as int) =~= places);
    }

    fn offer_firefox(
        &mut self,
        preview: &mut AppRelatedPreview,
        root: usize,
        root_path: &[u8],
        apps: &Vec<AppRecord>,
        task: &str,
        list: &Vec<usize>,
    )
        requires
            related_plan::in_range(list@, apps@.len()),
        ensures
            plan_state(*final(preview), *final(self)) == offered_firefox(
                plan_state(*old(preview), *old(self)),
                root,
                root_path@,
                app_inventory::record_views(apps@),
                task@,
                related_plan::as_ints(list@),
            ),
            app_related::same_body(*final(preview), *old(preview)),
    {
        if list.len() == 0 {
            return ;
        }
        let ids = related_preview::name_copies(task, list);
        let profiles = related_preview::make_firefox_input(
            root,
            root_path,
            apps,
            task,
            list,
            FirefoxPlace::Profiles,
        );
        self.offer(preview, &ids, profiles);
        let caches = related_preview::make_firefox_input(
            root,
            root_path,
            apps,
            task,
            list,
            FirefoxPlace::Caches,
        );
        self.offer(preview, &ids, caches);
        let groups = related_preview::make_firefox_input(
            root,
            root_path,
            apps,
            task,
            list,
            FirefoxPlace::Groups,
        );
        self.offer(preview, &ids, groups);
    }

    fn offer_generic(
        &mut self,
        preview: &mut AppRelatedPreview,
        root: usize,
        root_path: &[u8],
        apps: &Vec<AppRecord>,
        task: &str,
        list: &Vec<usize>,
    )
        requires
            related_plan::in_range(list@, apps@.len()),
        ensures
            plan_state(*final(preview), *final(self)) == offered_generic(
                plan_state(*old(preview), *old(self)),
                root,
                root_path@,
                app_inventory::record_views(apps@),
                task@,
                related_plan::as_ints(list@),
            ),
            app_related::same_body(*final(preview), *old(preview)),
    {
        let ghost views = app_inventory::record_views(apps@);
        let ghost places = related_plan::as_ints(list@);
        let ghost start = plan_state(*preview, *self);
        let ghost body = *preview;
        let mut i: usize = 0;
        assert(places.take(0) =~= Seq::empty());
        while i < list.len()
            invariant
                0 <= i <= list@.len(),
                related_plan::in_range(list@, apps@.len()),
                views == app_inventory::record_views(apps@),
                places == related_plan::as_ints(list@),
                plan_state(*preview, *self) == offered_generic(
                    start,
                    root,
                    root_path@,
                    views,
                    task@,
                    places.take(i as int),
                ),
                app_related::same_body(*preview, body),
            decreases list@.len() - i,
        {
            assert(places.take(i + 1).drop_last() =~= places.take(i as int));
            assert(places.take(i + 1).last() == list@[i as int] as int);
            let at: usize = list[i];
            let app = &apps[at];
            assert(views[at as int] == app@);
            if let Some(bundle_id) = &app.bundle_id.value {
                if !related_preview::valid_bundle_id_component_path(bundle_id.as_str()) {
                    app_related::trouble(
                        preview,
                        AppRelatedStatus::Partial,
                        app_related::issue(
                            Some(text::copy_bytes(app.bundle_path.as_slice())),
                            "invalid_bundle_id_component",
                            "bundle identifier is unsafe for path construction",
                        ),
                    );
                } else {
                    let id = related_plan::copy_name(task, at);
                    let support = related_preview::make_generic_input(
                        root,
                        root_path,
                        app,
                        bundle_id.as_str(),
                        id.as_str(),
                        false,
                    );
                    let cache = related_preview::make_generic_input(
                        root,
                        root_path,
                        app,
                        bundle_id.as_str(),
                        id.as_str(),
                        true,
                    );
                    let mut ids: Vec<String> = Vec::new();
                    ids.push(id);
                    assert(order::texts(ids@) =~= seq![related_plan::copy_id(task@, at as int)]);
                    self.offer(preview, &ids, support);
                    self.offer(preview, &ids, cache);
                }
            }
            i += 1;
        }
        assert(places.take(places.len() as int) =~= places);
    }
}

pub open spec fn match_view(lists: RuleMatch) -> MatchView {
    MatchView {
        chromium: related_plan::as_ints(lists.chromium@),
        firefox: related_plan::as_ints(lists.firefox@),
        generic: related_plan::as_ints(lists.generic@),
    }
}

pub open spec fn match_in_range(lists: RuleMatch, length: nat) -> bool {
    &&& related_plan::in_range(lists.chromium@, length)
    &&& related_plan::in_range(lists.firefox@, length)
    &&& related_plan::in_range(lists.generic@, length)
}

fn offer_root(
    planner: &mut Planner,
    preview: &mut AppRelatedPreview,
    root: usize,
    root_path: &[u8],
    apps: &Vec<AppRecord>,
    task: &str,
    lists: &RuleMatch,
)
    requires
        match_in_range(*lists, apps@.len()),
    ensures
        plan_state(*final(preview), *final(planner)) == offered_root(
            plan_state(*old(preview), *old(planner)),
            root,
            root_path@,
            app_inventory::record_views(apps@),
            task@,
            match_view(*lists),
        ),
        app_related::same_body(*final(preview), *old(preview)),
{
    reveal(offered_root);
    planner.offer_chromium(preview, root, root_path, apps, task, &lists.chromium);
    planner.offer_firefox(preview, root, root_path, apps, task, &lists.firefox);
    planner.offer_generic(preview, root, root_path, apps, task, &lists.generic);
}

fn offer_all(
    planner: &mut Planner,
    preview: &mut AppRelatedPreview,
    roots: &Vec<LibraryRoot>,
    readings: &Vec<Reading>,
    apps: &Vec<AppRecord>,
    task: &str,
    lists: &RuleMatch,
)
    requires
        readings@.len() == roots@.len(),
        match_in_range(*lists, apps@.len()),
    ensures
        plan_state(*final(preview), *final(planner)) == planned(
            plan_state(*old(preview), *old(planner)),
            roots@,
            readings@,
            0,
            app_inventory::record_views(apps@),
            task@,
            match_view(*lists),
        ),
        app_related::same_body(*final(preview), *old(preview)),
{
    let ghost views = app_inventory::record_views(apps@);
    let ghost start = plan_state(*preview, *planner);
    let ghost body = *preview;
    let ghost matched = match_view(*lists);
    let mut at: usize = 0;
    while at < roots.len()
        invariant
            0 <= at <= roots@.len(),
            readings@.len() == roots@.len(),
            match_in_range(*lists, apps@.len()),
            views == app_inventory::record_views(apps@),
            matched == match_view(*lists),
            start == plan_state(*old(preview), *old(planner)),
            body == *old(preview),
            planned(start, roots@, readings@, 0, views, task@, matched) == planned(
                plan_state(*preview, *planner),
                roots@,
                readings@,
                at as int,
                views,
                task@,
                matched,
            ),
            app_related::same_body(*preview, body),
        decreases roots@.len() - at,
    {
        let reading: Reading = readings[at];
        if reading.cancelled {
            app_related::trouble(
                preview,
                AppRelatedStatus::Cancelled,
                app_related::issue(None, "cancelled", "app-related probe cancelled"),
            );
            return ;
        }
        if reading.elapsed_nanos >= reading.budget_nanos {
            app_related::trouble(
                preview,
                AppRelatedStatus::Partial,
                app_related::issue(None, "duration_limit", "app-related probe budget exhausted"),
            );
            return ;
        }
        offer_root(planner, preview, at, roots[at].path.as_slice(), apps, task, lists);
        at += 1;
    }
}

fn sort_applications(preview: &mut AppRelatedPreview, apps: &Vec<AppRecord>, cancelled: bool) -> (
    lists: RuleMatch)
    ensures
        match_in_range(lists, apps@.len()),
        match_view(lists) == looked_at(app_inventory::record_views(apps@)),
        final(preview).standing() == sorted_standing(
            old(preview).standing(),
            app_inventory::record_views(apps@),
            cancelled,
        ),
        app_related::same_body(*final(preview), *old(preview)),
{
    let ghost views = app_inventory::record_views(apps@);
    let mut lists: RuleMatch = related_plan::rule_matches(apps);
    let ghost generic = related_plan::as_ints(lists.generic@);
    if lists.generic.len() > app_related::MAX_GENERIC_APP_COPIES {
        if !cancelled {
            app_related::update_status(preview, AppRelatedStatus::Partial);
        }
        app_related::push_issue(
            preview,
            app_related::issue(
                None,
                "candidate_limit",
                "generic bundle-id convention app budget reached",
            ),
        );
        lists.generic.truncate(app_related::MAX_GENERIC_APP_COPIES);
        assert(related_plan::as_ints(lists.generic@) =~= generic.take(
            app_related::MAX_GENERIC_APP_COPIES as int,
        ));
    }
    assert(match_view(lists) =~= looked_at(views));
    lists
}

impl RelatedRun {
    /// Plans the candidates below the library roots that were accepted. `readings` holds
    /// what was seen before each of them, and `cancelled` whether a request to stop had
    /// been raised when planning began.
    pub fn plan(
        &mut self,
        inventory: &AppInventory,
        readings: &Vec<Reading>,
        cancelled: bool,
    )
        requires
            !old(self).ended,
            old(self).stopped || old(self).position >= old(self).ordered@.len(),
            related_preview::is_about(old(self).preview, *inventory),
            readings@.len() == old(self).selected@.len(),
        ensures
            (related_plan::spec_views(final(self).specs@), final(self).preview.standing())
                == plan_of(
                old(self).preview.standing(),
                old(self).selected@,
                readings@,
                cancelled,
                app_inventory::record_views(inventory.apps@),
                inventory.scan_task_id@,
            ),
            final(self).specs@.len() <= app_related::MAX_CANDIDATES,
            final(self).ended == old(self).ended,
            related_preview::is_about(final(self).preview, *inventory),
            final(self).selected == old(self).selected,
            path::views(final(self).preview.library_roots@) == root_paths(old(self).selected@),
            app_related::same_body(
                (AppRelatedPreview {
                    library_roots: old(self).preview.library_roots,
                    ..final(self).preview
                }),
                old(self).preview,
            ),
    {
        let apps = &inventory.apps;
        let lists = sort_applications(&mut self.preview, apps, cancelled);
        let mut planner = Planner { specs: Vec::new(), path_bytes: 0 };
        assert(related_plan::spec_views(planner.specs@) =~= Seq::empty());
        offer_all(
            &mut planner,
            &mut self.preview,
            &self.selected,
            readings,
            apps,
            inventory.scan_task_id.as_str(),
            &lists,
        );
        let mut specs: Vec<CandidateSpec> = planner.specs;
        let ghost views = related_plan::spec_views(specs@);
        if specs.len() > app_related::MAX_CANDIDATES {
            app_related::trouble(
                &mut self.preview,
                AppRelatedStatus::Partial,
                app_related::issue(None, "candidate_limit", "candidate limit reached"),
            );
            specs.truncate(app_related::MAX_CANDIDATES);
            assert(related_plan::spec_views(specs@) =~= views.take(
                app_related::MAX_CANDIDATES as int,
            ));
        }
        let mut library_roots: Vec<Vec<u8>> = Vec::new();
        let mut i: usize = 0;
        while i < self.selected.len()
            invariant
                0 <= i <= self.selected@.len(),
                library_roots@.len() == i,
                forall|j: int|
                    0 <= j < i ==> (#[trigger] library_roots@[j])@ == self.selected@[j].path@,
            decreases self.selected@.len() - i,
        {
            library_roots.push(text::copy_bytes(self.selected[i].path.as_slice()));
            i += 1;
        }
        assert(path::views(library_roots@) =~= root_paths(self.selected@));
        self.preview.library_roots = library_roots;
        self.specs = specs;
    }
}

} // verus!
