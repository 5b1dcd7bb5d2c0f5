//! Building the preview of related data.

use crate::app_inventory;
use crate::app_inventory::{AppInventory, AppInventoryStatus, AppRecord, RecordView};
use crate::app_related;
use crate::app_related::{
    AppRelatedCounts, AppRelatedMetrics, AppRelatedPreview, AppRelatedStatus, EvidenceView,
    RelatedEvidence, Standing,
};
use crate::bundle;
use crate::candidates;
use crate::inventory_run;
use crate::model::Host;
use crate::order;
use crate::path;
use crate::probe::Reading;
use crate::related_plan;
use crate::related_plan::{CandidateSpec, CandidateSpecInput, SpecView};
use crate::related_probe;
use crate::related_probe::{LibraryRoot, OpenRootLook};
use crate::text;
use crate::unicode;
use vstd::prelude::*;
use vstd::string::*;
use vstd::utf8;

verus! {

/// Why the roots of a request are refused.
pub open spec fn bad_root(root: Seq<u8>) -> Option<Seq<char>> {
    if !bundle::proper_root(root) {
        Some("roots must be non-root absolute paths without parent traversal"@)
    } else if root.len() > app_related::MAX_ROOT_BYTES {
        Some("root path exceeds 65,536 bytes"@)
    } else {
        None
    }
}

/// Why a library root of a request is refused.
pub open spec fn bad_library_root(root: Seq<u8>) -> Option<Seq<char>> {
    match bad_root(root) {
        Some(message) => Some(message),
        None => if path::file_name(root) != Some(utf8::encode_utf8("Library"@)) {
            Some("library roots must use an explicit Library leaf directory"@)
        } else {
            None
        },
    }
}

/// The first root that is refused.
pub open spec fn first_bad(roots: Seq<Seq<u8>>, library: bool) -> Option<Seq<char>>
    decreases roots.len(),
{
    if roots.len() == 0 {
        None
    } else {
        let here = if library {
            bad_library_root(roots[0])
        } else {
            bad_root(roots[0])
        };
        match here {
            Some(message) => Some(message),
            None => first_bad(roots.drop_first(), library),
        }
    }
}

/// Why a request is refused.
pub open spec fn root_inputs_fault(
    app_roots: Seq<Seq<u8>>,
    library_roots: Seq<Seq<u8>>,
) -> Option<Seq<char>> {
    if app_roots.len() == 0 || app_roots.len() > app_related::MAX_APP_ROOTS {
        Some("provide between 1 and 64 app roots"@)
    } else if library_roots.len() == 0 || library_roots.len() > app_related::MAX_LIBRARY_ROOTS {
        Some("provide between 1 and 8 library roots"@)
    } else {
        match first_bad(app_roots, false) {
            Some(message) => Some(message),
            None => first_bad(library_roots, true),
        }
    }
}

fn check_root(root: &[u8], library: bool) -> (result: Option<&'static str>)
    ensures
        match result {
            Some(message) => Some(message@),
            None => None,
        } == if library {
            bad_library_root(root@)
        } else {
            bad_root(root@)
        },
{
    let parts = path::split(root);
    assert(path::views(parts@).len() == parts@.len());
    if !path::absolute(root) || crate::wire::find_wandering(root) || parts.len() == 0 {
        return Some("roots must be non-root absolute paths without parent traversal");
    }
    if root.len() > app_related::MAX_ROOT_BYTES {
        return Some("root path exceeds 65,536 bytes");
    }
    if library {
        let named: bool = match path::name_of(root) {
            Some(name) => text::bytes_eq(name.as_slice(), "Library".as_bytes()),
            None => false,
        };
        if !named {
            return Some("library roots must use an explicit Library leaf directory");
        }
    }
    None
}

fn check_roots(roots: &Vec<Vec<u8>>, library: bool) -> (result: Option<&'static str>)
    ensures
        match result {
            Some(message) => Some(message@),
            None => None,
        } == first_bad(path::views(roots@), library),
{
    let ghost views = path::views(roots@);
    let mut i: usize = 0;
    assert(views.skip(0) =~= views);
    while i < roots.len()
        invariant
            0 <= i <= roots@.len(),
            views == path::views(roots@),
            first_bad(views, library) == first_bad(views.skip(i as int), library),
        decreases roots@.len() - i,
    {
        assert(views.skip(i as int)[0] == roots@[i as int]@);
        if let Some(message) = check_root(roots[i].as_slice(), library) {
            return Some(message);
        }
        assert(views.skip(i as int).drop_first() =~= views.skip(i + 1));
        i += 1;
    }
    None
}

/// Refuses a request whose roots cannot be used.
pub fn validate_root_inputs(app_roots: &Vec<Vec<u8>>, library_roots: &Vec<Vec<u8>>) -> (result:
    Result<(), &'static str>)
    ensures
        match result {
            Ok(()) => root_inputs_fault(path::views(app_roots@), path::views(library_roots@))
                is None,
            Err(message) => root_inputs_fault(path::views(app_roots@), path::views(library_roots@))
                == Some(message@),
        },
{
    if app_roots.len() == 0 || app_roots.len() > app_related::MAX_APP_ROOTS {
        return Err("provide between 1 and 64 app roots");
    }
    if library_roots.len() == 0 || library_roots.len() > app_related::MAX_LIBRARY_ROOTS {
        return Err("provide between 1 and 8 library roots");
    }
    if let Some(message) = check_roots(app_roots, false) {
        return Err(message);
    }
    if let Some(message) = check_roots(library_roots, true) {
        return Err(message);
    }
    Ok(())
}

/// How a preview fares before anything is looked at, with the issues of the inventory.
pub open spec fn start_standing(inventory: AppInventory) -> Standing {
    app_related::merged(
        Standing {
            status: app_related::mapped(inventory.status),
            complete: inventory.status == AppInventoryStatus::Complete,
            issues: Seq::empty(),
            omitted: inventory.issues_omitted,
        },
        inventory.issues@,
    )
}

/// How a request that ends before anything is looked at fares.
pub open spec fn early_end(
    host: Host,
    inventory: AppInventory,
    app_roots: Seq<Seq<u8>>,
    library_roots: Seq<Seq<u8>>,
) -> Option<Standing> {
    let start = start_standing(inventory);
    if host != Host::MacOs {
        Some(
            start.troubled(
                AppRelatedStatus::Failed,
                app_related::plain_issue(
                    None,
                    "unsupported_platform"@,
                    "native app-related probing is unavailable on this platform"@,
                ),
            ),
        )
    } else if inventory.status == AppInventoryStatus::Failed || inventory.status
        == AppInventoryStatus::Cancelled {
        Some(
            start.with_issue(
                app_related::plain_issue(
                    None,
                    if inventory.status == AppInventoryStatus::Cancelled {
                        "cancelled"@
                    } else {
                        "inventory_failed"@
                    },
                    "app inventory did not complete; related-data attribution is unavailable"@,
                ),
            ),
        )
    } else {
        match root_inputs_fault(app_roots, library_roots) {
            Some(message) => Some(
                start.troubled(
                    AppRelatedStatus::Failed,
                    app_related::plain_issue(None, "invalid_input"@, message),
                ),
            ),
            None => None,
        }
    }
}

/// What a preview says of itself and of the request that it answers. It never claims to
/// have changed anything.
pub open spec fn introduces(
    preview: AppRelatedPreview,
    host: Host,
    inventory: AppInventory,
    app_roots: Seq<Seq<u8>>,
    filter: Seq<char>,
) -> bool {
    &&& preview.schema_version == app_related::APP_RELATED_SCHEMA_VERSION
    &&& preview.kind@ == app_related::APP_RELATED_KIND@
    &&& preview.platform@ == if host == Host::MacOs {
        "macos"@
    } else {
        "unsupported"@
    }
    &&& !preview.effects_performed
    &&& path::views(preview.app_roots@) == app_roots
    &&& preview.filter@ == filter
    &&& text::opt_text(preview.scan_task_id) == Some(inventory.scan_task_id@)
    &&& preview.inventory_status@ == inventory.status.name()
    &&& preview.inventory_complete == inventory.complete
    &&& inventory_run::same_issues(preview.scan_issues@, inventory.scan_issues@)
    &&& preview.counts.inventoried_apps == inventory.apps@.len()
    &&& preview.metrics.inventory_elapsed_ms == inventory.metrics.elapsed_ms
}

/// What a preview has spent before anything is looked at.
pub open spec fn start_metrics(inventory: AppInventory) -> AppRelatedMetrics {
    AppRelatedMetrics {
        elapsed_ms: 0,
        inventory_elapsed_ms: inventory.metrics.elapsed_ms,
        candidate_probe_elapsed_ms: 0,
        candidate_probe_count: 0,
    }
}

fn begin_preview(
    host: Host,
    inventory: &AppInventory,
    app_roots: Vec<Vec<u8>>,
    library_roots: &Vec<Vec<u8>>,
    filter: String,
) -> (preview: AppRelatedPreview)
    ensures
        preview.standing() == start_standing(*inventory),
        introduces(preview, host, *inventory, path::views(app_roots@), filter@),
        preview.app_roots == app_roots,
        path::views(preview.library_roots@) == path::views(library_roots@),
        preview.candidates@.len() == 0,
        preview.app_copies@.len() == 0,
        preview.counts == (AppRelatedCounts {
            inventoried_apps: inventory.apps@.len() as usize,
            issues_omitted: preview.counts.issues_omitted,
            ..app_related::no_counts()
        }),
        preview.metrics == start_metrics(*inventory),
{
    let mut counts = AppRelatedCounts::none();
    counts.inventoried_apps = inventory.apps.len();
    counts.issues_omitted = inventory.issues_omitted;
    let mut preview = AppRelatedPreview {
        schema_version: app_related::APP_RELATED_SCHEMA_VERSION,
        kind: app_related::APP_RELATED_KIND,
        platform: match host {
            Host::MacOs => "macos",
            Host::Other => "unsupported",
        },
        status: app_related::map_inventory_status(inventory.status),
        complete: match inventory.status {
            AppInventoryStatus::Complete => true,
            _ => false,
        },
        effects_performed: false,
        app_roots,
        library_roots: candidates::copy_paths(library_roots),
        filter,
        scan_task_id: Some(inventory.scan_task_id.clone()),
        inventory_status: inventory.status.as_str(),
        inventory_complete: inventory.complete,
        counts,
        app_copies: Vec::new(),
        candidates: Vec::new(),
        scan_issues: inventory_run::copy_issues(&inventory.scan_issues),
        issues: Vec::new(),
        metrics: AppRelatedMetrics {
            elapsed_ms: 0,
            inventory_elapsed_ms: inventory.metrics.elapsed_ms,
            candidate_probe_elapsed_ms: 0,
            candidate_probe_count: 0,
        },
    };
    assert(app_related::related_issues(preview.issues@) =~= Seq::empty());
    app_related::merge_inventory_issues(&mut preview, &inventory.issues);
    preview
}

/// A preview that is being built.
#[derive(Debug)]
pub struct RelatedRun {
    pub preview: AppRelatedPreview,
    /// Whether the preview has ended.
    pub ended: bool,
    /// The library roots that were asked for, the shortest first.
    pub ordered: Vec<Vec<u8>>,
    /// How many of them have been dealt with.
    pub position: usize,
    /// Whether no further library root is opened.
    pub stopped: bool,
    pub selected: Vec<LibraryRoot>,
    /// The candidates to probe, once they are planned.
    pub specs: Vec<CandidateSpec>,
}

/// Whether a preview is one over an inventory.
pub open spec fn is_about(preview: AppRelatedPreview, inventory: AppInventory) -> bool {
    &&& text::opt_text(preview.scan_task_id) == Some(inventory.scan_task_id@)
    &&& preview.inventory_complete == inventory.complete
    &&& preview.counts.inventoried_apps == inventory.apps@.len()
}

/// Roots with the shortest first.
pub open spec fn shortest_first(roots: Seq<Seq<u8>>) -> Seq<Seq<u8>>
    decreases roots.len(),
{
    if roots.len() == 0 {
        Seq::empty()
    } else {
        candidates::inserted_by_length(shortest_first(roots.drop_last()), roots.last())
    }
}

fn order_roots(roots: &Vec<Vec<u8>>) -> (ordered: Vec<Vec<u8>>)
    ensures
        path::views(ordered@) == shortest_first(path::views(roots@)),
{
    let ghost all = path::views(roots@);
    let mut ordered: Vec<Vec<u8>> = Vec::new();
    let mut i: usize = 0;
    assert(all.take(0) =~= Seq::empty());
    assert(path::views(ordered@) =~= Seq::empty());
    while i < roots.len()
        invariant
            0 <= i <= roots@.len(),
            all == path::views(roots@),
            path::views(ordered@) == shortest_first(all.take(i as int)),
        decreases roots@.len() - i,
    {
        assert(all.take(i + 1).drop_last() =~= all.take(i as int));
        assert(all.take(i + 1).last() == roots@[i as int]@);
        candidates::insert_by_length(&mut ordered, text::copy_bytes(roots[i].as_slice()));
        i += 1;
    }
    assert(all.take(all.len() as int) =~= all);
    ordered
}

/// Starts a preview of the data that belongs with the applications of an inventory. Unless
/// it ends at once, what remains is to open the library roots, to plan and to probe.
pub fn preview_app_related_data(
    host: Host,
    inventory: &AppInventory,
    app_roots: Vec<Vec<u8>>,
    library_roots: Vec<Vec<u8>>,
    filter: String,
) -> (run: RelatedRun)
    ensures
        introduces(run.preview, host, *inventory, path::views(app_roots@), filter@),
        path::views(run.preview.library_roots@) == path::views(library_roots@),
        run.preview.counts == (AppRelatedCounts {
            inventoried_apps: inventory.apps@.len() as usize,
            issues: run.preview.counts.issues,
            issues_omitted: run.preview.counts.issues_omitted,
            ..app_related::no_counts()
        }),
        run.preview.metrics == start_metrics(*inventory),
        run.preview.candidates@.len() == 0,
        run.preview.app_copies@.len() == 0,
        run.position == 0,
        run.selected@.len() == 0,
        run.specs@.len() == 0,
        !run.stopped,
        match early_end(
            host,
            *inventory,
            path::views(app_roots@),
            path::views(library_roots@),
        ) {
            Some(standing) => {
                &&& run.ended
                &&& run.preview.standing() == standing
                &&& run.preview.counts.issues == standing.issues.len()
                &&& run.ordered@.len() == 0
            },
            None => {
                &&& !run.ended
                &&& run.preview.standing() == start_standing(*inventory)
                &&& run.preview.counts.issues == 0
                &&& path::views(run.ordered@) == shortest_first(path::views(library_roots@))
            },
        },
{
    let mut preview = begin_preview(host, inventory, app_roots, &library_roots, filter);
    let mut ended: bool = true;
    if host != Host::MacOs {
        app_related::trouble(
            &mut preview,
            AppRelatedStatus::Failed,
            app_related::issue(
                None,
                "unsupported_platform",
                "native app-related probing is unavailable on this platform",
            ),
        );
    } else if inventory.status == AppInventoryStatus::Failed || inventory.status
        == AppInventoryStatus::Cancelled {
        let code: &'static str = if inventory.status == AppInventoryStatus::Cancelled {
            "cancelled"
        } else {
            "inventory_failed"
        };
        app_related::push_issue(
            &mut preview,
            app_related::issue(
                None,
                code,
                "app inventory did not complete; related-data attribution is unavailable",
            ),
        );
    } else {
        match validate_root_inputs(&preview.app_roots, &library_roots) {
            Err(message) => {
                app_related::trouble(
                    &mut preview,
                    AppRelatedStatus::Failed,
                    app_related::issue(None, "invalid_input", message),
                );
            },
            Ok(()) => {
                ended = false;
            },
        }
    }
    let ordered: Vec<Vec<u8>> = if ended {
        preview.counts.issues = preview.issues.len();
        Vec::new()
    } else {
        order_roots(&library_roots)
    };
    RelatedRun {
        preview,
        ended,
        ordered,
        position: 0,
        stopped: false,
        selected: Vec::new(),
        specs: Vec::new(),
    }
}

impl RelatedRun {
    /// Ends a preview that was over before anything was looked at: only the time that it took
    /// is left to note.
    pub fn end(self, elapsed_ms: u64, probe_elapsed_ms: u64) -> (preview: AppRelatedPreview)
        requires
            self.ended,
        ensures
            preview == (AppRelatedPreview {
                metrics: AppRelatedMetrics {
                    elapsed_ms,
                    candidate_probe_elapsed_ms: probe_elapsed_ms,
                    ..self.preview.metrics
                },
                ..self.preview
            }),
    {
        let mut preview = self.preview;
        preview.metrics.elapsed_ms = elapsed_ms;
        preview.metrics.candidate_probe_elapsed_ms = probe_elapsed_ms;
        preview
    }
}

/// What to do with the next library root.
#[derive(Clone, Copy, Debug, PartialEq, Eq, Structural)]
pub enum RootStep {
    /// Open it.
    Open,
    /// It was dealt with.
    Skipped,
    /// There is none.
    Done,
}

/// What has become of the library roots.
#[verifier::ext_equal]
pub struct RootState {
    pub standing: Standing,
    pub position: int,
    pub stopped: bool,
    pub selected: Seq<LibraryRoot>,
}

impl RelatedRun {
    pub open spec fn root_state(self) -> RootState {
        RootState {
            standing: self.preview.standing(),
            position: self.position as int,
            stopped: self.stopped,
            selected: self.selected@,
        }
    }
}

/// Whether a root lies at, above or below one that was accepted.
pub open spec fn overlaps_selected(root: Seq<u8>, selected: Seq<LibraryRoot>) -> bool {
    exists|i: int|
        0 <= i < selected.len() && path::overlap(root, (#[trigger] selected[i]).path@)
}

/// What an issue's code says of the status.
pub open spec fn status_of_code(code: Seq<char>) -> AppRelatedStatus {
    if code == "cancelled"@ {
        AppRelatedStatus::Cancelled
    } else if code == "invalid_input"@ {
        AppRelatedStatus::Failed
    } else {
        AppRelatedStatus::Partial
    }
}

pub fn status_for_code(code: &str) -> (status: AppRelatedStatus)
    ensures
        status == status_of_code(code@),
{
    if text::text_eq(code, "cancelled") {
        AppRelatedStatus::Cancelled
    } else if text::text_eq(code, "invalid_input") {
        AppRelatedStatus::Failed
    } else {
        AppRelatedStatus::Partial
    }
}

impl RootState {
    /// What to do with the next root, and what that says already.
    pub open spec fn approached(self, ordered: Seq<Seq<u8>>, reading: Reading) -> (
        RootStep,
        RootState,
    ) {
        if self.stopped || self.position >= ordered.len() {
            (RootStep::Done, self)
        } else {
            let root = ordered[self.position];
            if reading.cancelled {
                (
                    RootStep::Done,
                    RootState {
                        standing: self.standing.troubled(
                            AppRelatedStatus::Cancelled,
                            app_related::plain_issue(
                                Some(root),
                                "cancelled"@,
                                "library root validation cancelled"@,
                            ),
                        ),
                        stopped: true,
                        ..self
                    },
                )
            } else if reading.elapsed_nanos >= reading.budget_nanos {
                (
                    RootStep::Done,
                    RootState {
                        standing: self.standing.troubled(
                            AppRelatedStatus::Partial,
                            app_related::plain_issue(
                                Some(root),
                                "duration_limit"@,
                                "library root validation interrupted"@,
                            ),
                        ),
                        stopped: true,
                        ..self
                    },
                )
            } else if overlaps_selected(root, self.selected) {
                (
                    RootStep::Skipped,
                    RootState {
                        standing: self.standing.troubled(
                            AppRelatedStatus::Partial,
                            app_related::plain_issue(
                                Some(root),
                                "coalesced_library_root"@,
                                "library root overlaps another explicit root and was coalesced"@,
                            ),
                        ),
                        position: self.position + 1,
                        ..self
                    },
                )
            } else {
                (RootStep::Open, self)
            }
        }
    }
}

impl RelatedRun {
    pub open spec fn wf(self) -> bool {
        self.position <= self.ordered@.len()
    }

    fn meets_selected(&self, root: &[u8]) -> (answer: bool)
        ensures
            answer == overlaps_selected(root@, self.selected@),
    {
        let mut i: usize = 0;
        while i < self.selected.len()
            invariant
                0 <= i <= self.selected@.len(),
                forall|j: int|
                    0 <= j < i ==> !path::overlap(root@, (#[trigger] self.selected@[j]).path@),
            decreases self.selected@.len() - i,
        {
            if path::overlaps(root, self.selected[i].path.as_slice()) {
                return true;
            }
            i += 1;
        }
        false
    }

    /// Comes to the next library root: whether to open it, and otherwise what becomes of it.
    pub fn approach_root(&mut self, reading: Reading) -> (step: RootStep)
        requires
            old(self).wf(),
        ensures
            final(self).wf(),
            (step, final(self).root_state()) == old(self).root_state().approached(
                path::views(old(self).ordered@),
                reading,
            ),
            step == RootStep::Open ==> final(self).position < final(self).ordered@.len(),
            app_related::same_body(final(self).preview, old(self).preview),
            final(self).ordered == old(self).ordered,
            final(self).ended == old(self).ended,
            final(self).specs == old(self).specs,
    {
        if self.stopped || self.position >= self.ordered.len() {
            return RootStep::Done;
        }
        assert(path::views(self.ordered@)[self.position as int]
            == self.ordered@[self.position as int]@);
        let root = text::copy_bytes(self.ordered[self.position].as_slice());
        if reading.cancelled {
            app_related::trouble(
                &mut self.preview,
                AppRelatedStatus::Cancelled,
                app_related::issue(Some(root), "cancelled", "library root validation cancelled"),
            );
            self.stopped = true;
            return RootStep::Done;
        }
        if reading.elapsed_nanos >= reading.budget_nanos {
            app_related::trouble(
                &mut self.preview,
                AppRelatedStatus::Partial,
                app_related::issue(
                    Some(root),
                    "duration_limit",
                    "library root validation interrupted",
                ),
            );
            self.stopped = true;
            return RootStep::Done;
        }
        if self.meets_selected(root.as_slice()) {
            app_related::trouble(
                &mut self.preview,
                AppRelatedStatus::Partial,
                app_related::issue(
                    Some(root),
                    "coalesced_library_root",
                    "library root overlaps another explicit root and was coalesced",
                ),
            );
            self.position = self.position + 1;
            return RootStep::Skipped;
        }
        RootStep::Open
    }

    /// Takes what came of opening the next library root.
    pub fn take_root(&mut self, host: Host, look: &OpenRootLook)
        requires
            old(self).wf(),
            old(self).position < old(self).ordered@.len(),
        ensures
            final(self).wf(),
            final(self).position == old(self).position + 1,
            final(self).stopped == old(self).stopped,
            final(self).ordered == old(self).ordered,
            final(self).ended == old(self).ended,
            final(self).specs == old(self).specs,
            app_related::same_body(final(self).preview, old(self).preview),
            ({
                let root = old(self).ordered@[old(self).position as int]@;
                match related_probe::library_root(
                    host,
                    root,
                    look.entered,
                    look.root,
                    look.restored,
                ) {
                    Ok((identity, device)) => {
                        &&& final(self).preview.standing() == old(self).preview.standing()
                        &&& final(self).selected@.len() == old(self).selected@.len() + 1
                        &&& final(self).selected@.drop_last() == old(self).selected@
                        &&& final(self).selected@.last().path@ == root
                        &&& final(self).selected@.last().identity == identity
                        &&& final(self).selected@.last().device == device
                    },
                    Err(issue) => {
                        &&& final(self).preview.standing() == old(self).preview.standing().troubled(
                            status_of_code(issue.code),
                            issue,
                        )
                        &&& final(self).selected@ == old(self).selected@
                    },
                }
            }),
    {
        let ghost before = self.selected@;
        let count: usize = self.ordered.len();
        assert(self.position < count);
        match related_probe::open_library_root(
            host,
            self.ordered[self.position].as_slice(),
            look,
        ) {
            Ok(root) => {
                self.selected.push(root);
                assert(self.selected@.drop_last() =~= before);
            },
            Err(issue) => {
                let status: AppRelatedStatus = status_for_code(issue.code);
                app_related::trouble(&mut self.preview, status, issue);
            },
        }
        self.position = self.position + 1;
    }
}

/// Whether a character may stand in a bundle identifier, between dots.
pub open spec fn is_id_char(c: char) -> bool {
    ('a' <= c && c <= 'z') || ('A' <= c && c <= 'Z') || ('0' <= c && c <= '9') || c == '-' || c
        == '_'
}

/// Whether a bundle identifier can be the name of a directory: names of letters, digits,
/// hyphens and underscores, with one dot between each two.
pub open spec fn is_bundle_id(id: Seq<char>) -> bool {
    &&& id.len() > 0
    &&& id[0] != '.'
    &&& id.last() != '.'
    &&& forall|i: int| 0 <= i < id.len() ==> (#[trigger] id[i] == '.' || is_id_char(id[i]))
    &&& forall|i: int| 0 < i < id.len() && #[trigger] id[i] == '.' ==> id[i - 1] != '.'
}

/// Whether a bundle identifier can be the name of a directory.
pub fn valid_bundle_id_component_path(id: &str) -> (valid: bool)
    ensures
        valid == is_bundle_id(id@),
{
    let list = unicode::characters(id);
    let count: usize = list.len();
    if count == 0 || list[0] == '.' || list[count - 1] == '.' {
        return false;
    }
    let mut i: usize = 0;
    while i < count
        invariant
            0 <= i <= count,
            count == list@.len(),
            list@ == id@,
            count > 0,
            list@[0] != '.',
            forall|j: int| 0 <= j < i ==> (#[trigger] list@[j] == '.' || is_id_char(list@[j])),
            forall|j: int| 0 < j < i && #[trigger] list@[j] == '.' ==> list@[j - 1] != '.',
        decreases count - i,
    {
        let c: char = list[i];
        if c == '.' {
            if list[i - 1] == '.' {
                return false;
            }
        } else if !(('a' <= c && c <= 'z') || ('A' <= c && c <= 'Z') || ('0' <= c && c <= '9') || c
            == '-' || c == '_') {
            return false;
        }
        i += 1;
    }
    true
}

/// The text that a path is shown as.
pub open spec fn shown_path(place: Seq<u8>) -> Seq<char> {
    unicode::lossy_text(place)
}

pub open spec fn seen_copy(app: RecordView, id: Seq<char>) -> EvidenceView {
    EvidenceView {
        kind: "physical_app_copy_observed"@,
        value: shown_path(app.path),
        copy: Some(id),
    }
}

pub open spec fn documented(url: Seq<char>) -> EvidenceView {
    EvidenceView { kind: "public_documentation"@, value: url, copy: None }
}

fn see_copy(app: &AppRecord, id: &str) -> (evidence: RelatedEvidence)
    ensures
        evidence@ == seen_copy(app@, id@),
{
    RelatedEvidence {
        kind: "physical_app_copy_observed",
        value: unicode::from_utf8_lossy(app.bundle_path.as_slice()),
        app_copy_id: Some(id.to_owned()),
    }
}

fn document(url: &str) -> (evidence: RelatedEvidence)
    ensures
        evidence@ == documented(url@),
{
    RelatedEvidence { kind: "public_documentation", value: url.to_owned(), app_copy_id: None }
}

/// The place that a Chromium browser's own declaration points to.
pub open spec fn chromium_input(
    root: usize,
    root_path: Seq<u8>,
    app: RecordView,
    id: Seq<char>,
    cache: bool,
) -> SpecView {
    let dir = related_plan::known_product(app)->0;
    let relative = (if cache {
        "Caches/"@
    } else {
        "Application Support/"@
    }) + dir;
    SpecView {
        root,
        path: path::joined(root_path, utf8::encode_utf8(relative)),
        relative,
        rule: if cache {
            related_plan::CHROMIUM_CACHE@
        } else {
            related_plan::CHROMIUM_DATA@
        },
        role: if cache {
            "cache"@
        } else {
            "persistent_support_or_profile"@
        },
        certainty: "app_declared_default_location"@,
        evidence: seq![
            seen_copy(app, id),
            EvidenceView {
                kind: "declared_info_plist_key"@,
                value: "CrProductDirName="@ + dir,
                copy: Some(id),
            },
            documented(related_plan::CHROMIUM_URL@),
        ],
        ids: Seq::empty(),
        reasons: seq![
            "persistent_user_profile_or_support_data"@,
            "may_contain_credentials_history_or_preferences"@,
            "ownership_not_proven"@,
            "running_state_not_checked"@,
            "no_uninstall_or_delete_contract"@,
        ],
    }
}

pub fn make_chromium_input(
    root: usize,
    root_path: &[u8],
    app: &AppRecord,
    dir: &str,
    id: &str,
    cache: bool,
) -> (input: CandidateSpecInput)
    requires
        related_plan::known_product(app@) == Some(dir@),
    ensures
        input@ == chromium_input(root, root_path@, app@, id@, cache),
{
    let relative = text::concat(
        if cache {
            "Caches/"
        } else {
            "Application Support/"
        },
        dir,
    );
    let mut evidence: Vec<RelatedEvidence> = Vec::new();
    evidence.push(see_copy(app, id));
    evidence.push(
        RelatedEvidence {
            kind: "declared_info_plist_key",
            value: text::concat("CrProductDirName=", dir),
            app_copy_id: Some(id.to_owned()),
        },
    );
    evidence.push(document(related_plan::CHROMIUM_URL));
    let mut reasons: Vec<&'static str> = Vec::new();
    reasons.push("persistent_user_profile_or_support_data");
    reasons.push("may_contain_credentials_history_or_preferences");
    reasons.push("ownership_not_proven");
    reasons.push("running_state_not_checked");
    reasons.push("no_uninstall_or_delete_contract");
    let input = CandidateSpecInput {
        library_root_index: root,
        path: path::join(root_path, relative.as_str().as_bytes()),
        relative_library_path: relative,
        source_rule_id: if cache {
            related_plan::CHROMIUM_CACHE
        } else {
            related_plan::CHROMIUM_DATA
        },
        role: if cache {
            "cache"
        } else {
            "persistent_support_or_profile"
        },
        ownership_certainty: "app_declared_default_location",
        evidence,
        protection_reasons: reasons,
    };
    proof {
        let expected = chromium_input(root, root_path@, app@, id@, cache);
        assert(app_related::evidence_views(input.evidence@) =~= expected.evidence);
        assert(order::literals(input.protection_reasons@) =~= expected.reasons);
    }
    input
}

/// The Firefox family's shared places.
#[derive(Clone, Copy, Debug, PartialEq, Eq, Structural)]
pub enum FirefoxPlace {
    Profiles,
    Caches,
    Groups,
}

/// The copies of the Firefox family, as evidence.
pub open spec fn firefox_evidence(
    apps: Seq<RecordView>,
    task: Seq<char>,
    list: Seq<int>,
) -> Seq<EvidenceView> {
    seq![documented(related_plan::MOZILLA_URL@)] + Seq::new(
        list.len(),
        |i: int| seen_copy(apps[list[i]], related_plan::copy_id(task, list[i])),
    )
}

/// The names of copies.
pub open spec fn copy_ids(task: Seq<char>, list: Seq<int>) -> Seq<Seq<char>> {
    Seq::new(list.len(), |i: int| related_plan::copy_id(task, list[i]))
}

/// A shared place of the Firefox family.
pub open spec fn firefox_input(
    root: usize,
    root_path: Seq<u8>,
    apps: Seq<RecordView>,
    task: Seq<char>,
    list: Seq<int>,
    which: FirefoxPlace,
) -> SpecView {
    let relative = match which {
        FirefoxPlace::Profiles => "Application Support/Firefox/Profiles"@,
        FirefoxPlace::Caches => "Caches/Firefox/Profiles"@,
        FirefoxPlace::Groups => "Application Support/Firefox/ProfileGroups"@,
    };
    SpecView {
        root,
        path: path::joined(root_path, utf8::encode_utf8(relative)),
        relative,
        rule: match which {
            FirefoxPlace::Profiles => related_plan::FIREFOX_PROFILES@,
            FirefoxPlace::Caches => related_plan::FIREFOX_CACHES@,
            FirefoxPlace::Groups => related_plan::FIREFOX_GROUPS@,
        },
        role: match which {
            FirefoxPlace::Profiles => "persistent_support_or_profile"@,
            FirefoxPlace::Caches => "cache"@,
            FirefoxPlace::Groups => "shared_profile_group"@,
        },
        certainty: "public_default_shared_profile_family"@,
        evidence: firefox_evidence(apps, task, list),
        ids: Seq::empty(),
        reasons: seq![
            "persistent_user_profile_or_support_data"@,
            "may_contain_credentials_history_or_preferences"@,
            "shared_across_profiles_or_app_copies"@,
            "ownership_not_proven"@,
            "running_state_not_checked"@,
            "no_uninstall_or_delete_contract"@,
        ],
    }
}

fn gather_firefox_evidence(apps: &Vec<AppRecord>, task: &str, list: &Vec<usize>) -> (evidence: Vec<
    RelatedEvidence,
>)
    requires
        related_plan::in_range(list@, apps@.len()),
    ensures
        app_related::evidence_views(evidence@) == firefox_evidence(
            app_inventory::record_views(apps@),
            task@,
            related_plan::as_ints(list@),
        ),
{
    let ghost views = app_inventory::record_views(apps@);
    let ghost places = related_plan::as_ints(list@);
    let ghost expected = firefox_evidence(views, task@, places);
    let mut evidence: Vec<RelatedEvidence> = Vec::new();
    evidence.push(document(related_plan::MOZILLA_URL));
    let mut i: usize = 0;
    while i < list.len()
        invariant
            0 <= i <= list@.len(),
            related_plan::in_range(list@, apps@.len()),
            views == app_inventory::record_views(apps@),
            places == related_plan::as_ints(list@),
            expected == firefox_evidence(views, task@, places),
            evidence@.len() == i + 1,
            forall|j: int| 0 <= j <= i ==> (#[trigger] evidence@[j])@ == expected[j],
        decreases list@.len() - i,
    {
        let at: usize = list[i];
        let id = related_plan::copy_name(task, at);
        evidence.push(see_copy(&apps[at], id.as_str()));
        assert(views[places[i as int]] == apps@[at as int]@);
        i += 1;
    }
    assert(app_related::evidence_views(evidence@) =~= expected);
    evidence
}

pub fn name_copies(task: &str, list: &Vec<usize>) -> (ids: Vec<String>)
    ensures
        order::texts(ids@) == copy_ids(task@, related_plan::as_ints(list@)),
{
    let mut ids: Vec<String> = Vec::new();
    let mut i: usize = 0;
    while i < list.len()
        invariant
            0 <= i <= list@.len(),
            ids@.len() == i,
            forall|j: int|
                0 <= j < i ==> (#[trigger] ids@[j])@ == related_plan::copy_id(
                    task@,
                    list@[j] as int,
                ),
        decreases list@.len() - i,
    {
        ids.push(related_plan::copy_name(task, list[i]));
        i += 1;
    }
    assert(order::texts(ids@) =~= copy_ids(task@, related_plan::as_ints(list@)));
    ids
}

pub fn make_firefox_input(
    root: usize,
    root_path: &[u8],
    apps: &Vec<AppRecord>,
    task: &str,
    list: &Vec<usize>,
    which: FirefoxPlace,
) -> (input: CandidateSpecInput)
    requires
        related_plan::in_range(list@, apps@.len()),
    ensures
        input@ == firefox_input(
            root,
            root_path@,
            app_inventory::record_views(apps@),
            task@,
            related_plan::as_ints(list@),
            which,
        ),
{
    let relative: &'static str = match which {
        FirefoxPlace::Profiles => "Application Support/Firefox/Profiles",
        FirefoxPlace::Caches => "Caches/Firefox/Profiles",
        FirefoxPlace::Groups => "Application Support/Firefox/ProfileGroups",
    };
    let mut reasons: Vec<&'static str> = Vec::new();
    reasons.push("persistent_user_profile_or_support_data");
    reasons.push("may_contain_credentials_history_or_preferences");
    reasons.push("shared_across_profiles_or_app_copies");
    reasons.push("ownership_not_proven");
    reasons.push("running_state_not_checked");
    reasons.push("no_uninstall_or_delete_contract");
    let input = CandidateSpecInput {
        library_root_index: root,
        path: path::join(root_path, relative.as_bytes()),
        relative_library_path: relative.to_owned(),
        source_rule_id: match which {
            FirefoxPlace::Profiles => related_plan::FIREFOX_PROFILES,
            FirefoxPlace::Caches => related_plan::FIREFOX_CACHES,
            FirefoxPlace::Groups => related_plan::FIREFOX_GROUPS,
        },
        role: match which {
            FirefoxPlace::Profiles => "persistent_support_or_profile",
            FirefoxPlace::Caches => "cache",
            FirefoxPlace::Groups => "shared_profile_group",
        },
        ownership_certainty: "public_default_shared_profile_family",
        evidence: gather_firefox_evidence(apps, task, list),
        protection_reasons: reasons,
    };
    proof {
        let expected = firefox_input(
            root,
            root_path@,
            app_inventory::record_views(apps@),
            task@,
            related_plan::as_ints(list@),
            which,
        );
        assert(order::literals(input.protection_reasons@) =~= expected.reasons);
    }
    input
}

/// The place that Apple's convention gives to a bundle identifier.
pub open spec fn generic_input(
    root: usize,
    root_path: Seq<u8>,
    app: RecordView,
    id: Seq<char>,
    cache: bool,
) -> SpecView {
    let relative = (if cache {
        "Caches"@
    } else {
        "Application Support"@
    }) + "/"@ + app.bundle_id.value->0;
    SpecView {
        root,
        path: path::joined(root_path, utf8::encode_utf8(relative)),
        relative,
        rule: if cache {
            related_plan::APPLE_CACHES@
        } else {
            related_plan::APPLE_SUPPORT@
        },
        role: if cache {
            "cache"@
        } else {
            "persistent_support_or_profile"@
        },
        certainty: "location_standard_hypothesis"@,
        evidence: seq![
            seen_copy(app, id),
            documented(related_plan::APPLE_FS_URL@),
            documented(related_plan::APPLE_BUNDLE_URL@),
        ],
        ids: Seq::empty(),
        reasons: seq![
            if cache {
                "cache_but_not_authorized_for_cleanup"@
            } else {
                "persistent_user_profile_or_support_data"@
            },
            "ownership_not_proven"@,
            "running_state_not_checked"@,
            "no_uninstall_or_delete_contract"@,
        ],
    }
}

pub fn make_generic_input(
    root: usize,
    root_path: &[u8],
    app: &AppRecord,
    bundle_id: &str,
    id: &str,
    cache: bool,
) -> (input: CandidateSpecInput)
    requires
        app@.bundle_id.value == Some(bundle_id@),
    ensures
        input@ == generic_input(root, root_path@, app@, id@, cache),
{
    let relative = text::concat3(
        if cache {
            "Caches"
        } else {
            "Application Support"
        },
        "/",
        bundle_id,
    );
    let mut evidence: Vec<RelatedEvidence> = Vec::new();
    evidence.push(see_copy(app, id));
    evidence.push(document(related_plan::APPLE_FS_URL));
    evidence.push(document(related_plan::APPLE_BUNDLE_URL));
    let mut reasons: Vec<&'static str> = Vec::new();
    reasons.push(
        if cache {
            "cache_but_not_authorized_for_cleanup"
        } else {
            "persistent_user_profile_or_support_data"
        },
    );
    reasons.push("ownership_not_proven");
    reasons.push("running_state_not_checked");
    reasons.push("no_uninstall_or_delete_contract");
    let input = CandidateSpecInput {
        library_root_index: root,
        path: path::join(root_path, relative.as_str().as_bytes()),
        relative_library_path: relative,
        source_rule_id: if cache {
            related_plan::APPLE_CACHES
        } else {
            related_plan::APPLE_SUPPORT
        },
        role: if cache {
            "cache"
        } else {
            "persistent_support_or_profile"
        },
        ownership_certainty: "location_standard_hypothesis",
        evidence,
        protection_reasons: reasons,
    };
    proof {
        let expected = generic_input(root, root_path@, app@, id@, cache);
        assert(app_related::evidence_views(input.evidence@) =~= expected.evidence);
        assert(order::literals(input.protection_reasons@) =~= expected.reasons);
    }
    input
}

} // verus!
