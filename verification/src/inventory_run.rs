//! Building the application inventory, candidate by candidate.

use crate::app_inventory;
use crate::app_inventory::{
    AppInventory, AppInventoryCounts, AppInventoryLimits, AppInventoryMetrics,
    AppInventoryOptions, AppInventoryStatus, AppIssue, AppIssueCode, AppKind, AppRecord,
    RecordView, ScanEntry, ScanIssue, ScanReport, ScanStatus,
};
use crate::bundle::BundleLocation;
use crate::bundle_record;
use crate::candidates;
use crate::candidates::{EntryView, ExclusionMatcher, Root};
use crate::model::{FileIdentity, Host};
use crate::path;
use crate::probe;
use crate::probe::{AppError, AppFault, ProbeBudget, ProbeContext};
use crate::text;
use vstd::prelude::*;
use vstd::string::*;

verus! {

/// Something that could not be inventoried.
#[verifier::ext_equal]
pub struct IssueView {
    pub path: Option<Seq<u8>>,
    pub fault: AppFault,
}

impl View for AppIssue {
    type V = IssueView;

    open spec fn view(&self) -> IssueView {
        IssueView {
            path: match self.path {
                Some(place) => Some(place@),
                None => None,
            },
            fault: AppFault { code: self.code, message: self.message@, os_code: self.os_code },
        }
    }
}

pub open spec fn issue_views(list: Seq<AppIssue>) -> Seq<IssueView> {
    Seq::new(list.len(), |i: int| list[i]@)
}

/// What an inventory holds so far.
#[verifier::ext_equal]
pub struct InventoryView {
    pub status: AppInventoryStatus,
    pub complete: bool,
    pub counts: AppInventoryCounts,
    pub apps: Seq<RecordView>,
    pub issues: Seq<IssueView>,
    pub omitted: usize,
}

impl View for AppInventory {
    type V = InventoryView;

    open spec fn view(&self) -> InventoryView {
        InventoryView {
            status: self.status,
            complete: self.complete,
            counts: self.counts,
            apps: app_inventory::record_views(self.apps@),
            issues: issue_views(self.issues@),
            omitted: self.issues_omitted,
        }
    }
}

impl InventoryView {
    /// With one more issue, or one more that there is no room for.
    pub open spec fn with_issue(self, issue: IssueView, limits: AppInventoryLimits) -> InventoryView {
        if self.issues.len() < limits.max_issues {
            InventoryView { issues: self.issues.push(issue), ..self }
        } else {
            InventoryView { omitted: (self.omitted + 1) as usize, ..self }
        }
    }

    /// Ended before any candidate was looked at.
    pub open spec fn ended(
        self,
        status: AppInventoryStatus,
        found: AppFault,
        limits: AppInventoryLimits,
    ) -> InventoryView {
        InventoryView { status, complete: false, ..self }.with_issue(
            IssueView { path: None, fault: found },
            limits,
        )
    }
}

/// What a failure makes of the status.
pub open spec fn status_after(code: AppIssueCode) -> AppInventoryStatus {
    match code {
        AppIssueCode::Cancelled => AppInventoryStatus::Cancelled,
        AppIssueCode::InvalidInput => AppInventoryStatus::Failed,
        AppIssueCode::Internal => AppInventoryStatus::Failed,
        AppIssueCode::UnsupportedPlatform => AppInventoryStatus::Failed,
        _ => AppInventoryStatus::Partial,
    }
}

fn status_for(code: AppIssueCode) -> (status: AppInventoryStatus)
    ensures
        status == status_after(code),
{
    match code {
        AppIssueCode::Cancelled => AppInventoryStatus::Cancelled,
        AppIssueCode::InvalidInput => AppInventoryStatus::Failed,
        AppIssueCode::Internal => AppInventoryStatus::Failed,
        AppIssueCode::UnsupportedPlatform => AppInventoryStatus::Failed,
        _ => AppInventoryStatus::Partial,
    }
}

/// What the scan's own status comes to.
pub open spec fn status_of_scan(status: ScanStatus) -> AppInventoryStatus {
    match status {
        ScanStatus::Complete => AppInventoryStatus::Complete,
        ScanStatus::Partial => AppInventoryStatus::Partial,
        ScanStatus::Cancelled => AppInventoryStatus::Cancelled,
        ScanStatus::Failed => AppInventoryStatus::Failed,
    }
}

/// An inventory of which nothing has been looked at.
pub open spec fn empty_inventory(report: ScanReport) -> InventoryView {
    InventoryView {
        status: status_of_scan(report.status),
        complete: report.status == ScanStatus::Complete,
        counts: AppInventoryCounts {
            scan_entries: report.entries@.len() as usize,
            scan_issues: report.issues@.len() as usize,
            named_candidates: 0,
            inspected_candidates: 0,
            recognized_apps: 0,
            unknown: 0,
            non_app: 0,
            duplicate_identities: 0,
            metadata_issues: 0,
        },
        apps: Seq::empty(),
        issues: Seq::empty(),
        omitted: report.issues_omitted,
    }
}

pub open spec fn same_issues(a: Seq<ScanIssue>, b: Seq<ScanIssue>) -> bool {
    &&& a.len() == b.len()
    &&& forall|i: int|
        0 <= i < a.len() ==> (#[trigger] a[i]).message@ == b[i].message@ && path_view(a[i].path)
            == path_view(b[i].path)
}

pub open spec fn path_view(value: Option<Vec<u8>>) -> Option<Seq<u8>> {
    match value {
        Some(place) => Some(place@),
        None => None,
    }
}

/// What an inventory says of itself and of the request that it answers. It never claims to
/// have changed anything.
pub open spec fn introduces(
    inventory: AppInventory,
    host: Host,
    report: ScanReport,
    options: AppInventoryOptions,
) -> bool {
    &&& inventory.schema_version == app_inventory::APP_INVENTORY_SCHEMA_VERSION
    &&& inventory.kind@ == app_inventory::APP_INVENTORY_KIND@
    &&& inventory.platform@ == if host == Host::MacOs {
        "macos"@
    } else {
        "unsupported"@
    }
    &&& !inventory.effects_performed
    &&& path::views(inventory.roots@) == path::views(report.roots@)
    &&& inventory.filter@ == options.filter@
    &&& path::views(inventory.excludes@) == path::views(options.excludes@)
    &&& inventory.scan_task_id@ == report.task_id@
    &&& same_issues(inventory.scan_issues@, report.issues@)
}

/// Whether two inventories answer the same request.
pub open spec fn same_request(a: AppInventory, b: AppInventory) -> bool {
    &&& a.schema_version == b.schema_version
    &&& a.kind == b.kind
    &&& a.platform == b.platform
    &&& a.effects_performed == b.effects_performed
    &&& a.roots == b.roots
    &&& a.filter == b.filter
    &&& a.excludes == b.excludes
    &&& a.scan_task_id == b.scan_task_id
    &&& a.scan_issues == b.scan_issues
}

pub fn copy_issues(list: &Vec<ScanIssue>) -> (copy: Vec<ScanIssue>)
    ensures
        same_issues(copy@, list@),
{
    let mut copy: Vec<ScanIssue> = Vec::new();
    let mut i: usize = 0;
    while i < list.len()
        invariant
            0 <= i <= list@.len(),
            copy@.len() == i,
            forall|j: int|
                0 <= j < i ==> (#[trigger] copy@[j]).message@ == list@[j].message@ && path_view(
                    copy@[j].path,
                ) == path_view(list@[j].path),
        decreases list@.len() - i,
    {
        copy.push(
            ScanIssue {
                path: match &list[i].path {
                    Some(place) => Some(text::copy_bytes(place.as_slice())),
                    None => None,
                },
                message: list[i].message.clone(),
            },
        );
        i += 1;
    }
    copy
}

fn push_issue(inventory: &mut AppInventory, issue: AppIssue, limits: AppInventoryLimits)
    requires
        old(inventory).issues_omitted < usize::MAX,
    ensures
        final(inventory)@ == old(inventory)@.with_issue(issue@, limits),
        same_request(*final(inventory), *old(inventory)),
        final(inventory).apps == old(inventory).apps,
{
    if inventory.issues.len() < limits.max_issues {
        let ghost before = issue_views(inventory.issues@);
        let ghost view = issue@;
        inventory.issues.push(issue);
        assert(issue_views(inventory.issues@) =~= before.push(view));
    } else {
        inventory.issues_omitted = inventory.issues_omitted + 1;
    }
}

/// An inventory that is being built.
#[derive(Debug)]
pub struct InventoryRun {
    pub inventory: AppInventory,
    /// The places of the candidates among the entries of the scan.
    pub candidates: Vec<usize>,
    /// How many candidates have been dealt with.
    pub position: usize,
    /// Whether no further candidate is looked at.
    pub stopped: bool,
    /// Whether the run ended before its candidates were known.
    pub ended_early: bool,
    /// The identity of each record.
    pub seen: Vec<FileIdentity>,
    pub roots: Vec<Root>,
    pub limits: AppInventoryLimits,
}

impl InventoryRun {
    pub open spec fn wf(self, entries: Seq<ScanEntry>) -> bool {
        let counts = self.inventory.counts;
        &&& self.position <= self.candidates@.len() <= entries.len() <= usize::MAX
        &&& forall|i: int|
            0 <= i < self.candidates@.len() ==> #[trigger] self.candidates@[i] < entries.len()
        &&& self.seen@.len() == self.inventory.apps@.len()
        &&& self.inventory.apps@.len() <= self.position
        &&& counts.inspected_candidates <= self.position
        &&& counts.recognized_apps <= self.position
        &&& counts.unknown <= self.position
        &&& counts.non_app <= self.position
        &&& counts.duplicate_identities <= self.position
        &&& counts.metadata_issues <= self.position
        &&& self.inventory.issues_omitted + (self.candidates@.len() - self.position) <= usize::MAX
    }

    /// What the run has come to.
    pub open spec fn state(self) -> RunState {
        RunState {
            inventory: self.inventory@,
            seen: self.seen@,
            position: self.position as int,
            stopped: self.stopped,
        }
    }
}

/// What a run has come to.
#[verifier::ext_equal]
pub struct RunState {
    pub inventory: InventoryView,
    pub seen: Seq<FileIdentity>,
    pub position: int,
    pub stopped: bool,
}

/// A list of roots with one more, unless it is there.
pub open spec fn with_root(list: Seq<Seq<u8>>, root: Seq<u8>) -> Seq<Seq<u8>> {
    if exists|i: int| 0 <= i < list.len() && path::same_path(#[trigger] list[i], root) {
        list
    } else {
        list.push(root)
    }
}

/// A list of roots with some more, each unless it is there.
pub open spec fn with_roots(list: Seq<Seq<u8>>, more: Seq<Seq<u8>>) -> Seq<Seq<u8>>
    decreases more.len(),
{
    if more.len() == 0 {
        list
    } else {
        with_root(with_roots(list, more.drop_last()), more.last())
    }
}

/// Where an identity first stands in a list: its length if it does not.
pub open spec fn place_of(list: Seq<FileIdentity>, identity: FileIdentity) -> nat
    decreases list.len(),
{
    if list.len() == 0 || list[0] == identity {
        0
    } else {
        1 + place_of(list.drop_first(), identity)
    }
}

proof fn lemma_place_of(list: Seq<FileIdentity>, identity: FileIdentity)
    ensures
        place_of(list, identity) <= list.len(),
        place_of(list, identity) < list.len() ==> list[place_of(list, identity) as int] == identity,
        (place_of(list, identity) < list.len()) == list.contains(identity),
    decreases list.len(),
{
    if list.len() > 0 {
        if list[0] == identity {
            assert(list.contains(identity));
        } else {
            lemma_place_of(list.drop_first(), identity);
            let rest = list.drop_first();
            if list.contains(identity) {
                let k = choose|k: int| 0 <= k < list.len() && list[k] == identity;
                assert(rest[k - 1] == identity);
            }
            if rest.contains(identity) {
                let k = choose|k: int| 0 <= k < rest.len() && rest[k] == identity;
                assert(list[k + 1] == identity);
            }
        }
    }
}

/// Whether a record describes the object at an entry.
pub open spec fn is_record_of(record: RecordView, entry: EntryView) -> bool {
    record.path == entry.path && record.identity == entry.identity
}

impl RunState {
    /// After a candidate that is the object of an earlier one.
    pub open spec fn after_duplicate(
        self,
        entry: EntryView,
        roots: Seq<(Seq<u8>, FileIdentity)>,
    ) -> RunState {
        let at = place_of(self.seen, entry.identity) as int;
        let record = self.inventory.apps[at];
        RunState {
            inventory: InventoryView {
                counts: AppInventoryCounts {
                    duplicate_identities: (self.inventory.counts.duplicate_identities + 1) as usize,
                    ..self.inventory.counts
                },
                apps: self.inventory.apps.update(
                    at,
                    (RecordView {
                        roots: with_roots(
                            record.roots,
                            candidates::roots_holding(roots, entry.path),
                        ),
                        ..record
                    }),
                ),
                ..self.inventory
            },
            position: self.position + 1,
            ..self
        }
    }

    /// After a candidate that was looked at.
    pub open spec fn after_inspection(
        self,
        entry: EntryView,
        outcome: Result<RecordView, AppFault>,
        roots: Seq<(Seq<u8>, FileIdentity)>,
        limits: AppInventoryLimits,
    ) -> RunState {
        let holding = candidates::roots_holding(roots, entry.path);
        let counts = self.inventory.counts;
        let inspected = (counts.inspected_candidates + 1) as usize;
        match outcome {
            Ok(record) => RunState {
                inventory: InventoryView {
                    counts: match record.kind {
                        AppKind::App => AppInventoryCounts {
                            inspected_candidates: inspected,
                            recognized_apps: (counts.recognized_apps + 1) as usize,
                            ..counts
                        },
                        AppKind::NonApp => AppInventoryCounts {
                            inspected_candidates: inspected,
                            non_app: (counts.non_app + 1) as usize,
                            ..counts
                        },
                        AppKind::Unknown => AppInventoryCounts {
                            inspected_candidates: inspected,
                            unknown: (counts.unknown + 1) as usize,
                            ..counts
                        },
                    },
                    apps: self.inventory.apps.push(RecordView { roots: holding, ..record }),
                    ..self.inventory
                },
                seen: self.seen.push(entry.identity),
                position: self.position + 1,
                ..self
            },
            Err(found) => {
                let unread = bundle_record::unread(entry.path, entry.identity);
                let status = status_after(found.code);
                RunState {
                    inventory: InventoryView {
                        status,
                        complete: false,
                        counts: AppInventoryCounts {
                            inspected_candidates: inspected,
                            metadata_issues: (counts.metadata_issues + 1) as usize,
                            unknown: (counts.unknown + 1) as usize,
                            ..counts
                        },
                        apps: self.inventory.apps.push(RecordView { roots: holding, ..unread }),
                        ..self.inventory
                    }.with_issue(IssueView { path: Some(entry.path), fault: found }, limits),
                    seen: self.seen.push(entry.identity),
                    position: self.position + 1,
                    stopped: status == AppInventoryStatus::Cancelled || status
                        == AppInventoryStatus::Failed,
                }
            },
        }
    }
}

/// The candidates of an inventory, in the order of the scan.
pub open spec fn all_candidates(report: ScanReport, options: AppInventoryOptions) -> Seq<int> {
    candidates::candidate_places(
        candidates::entry_views(report.entries@),
        options.filter@,
        path::views(options.excludes@),
        report.entries@.len() as int,
    )
}

/// The inventory when its candidates are known.
pub open spec fn selected(report: ScanReport, options: AppInventoryOptions) -> InventoryView {
    let all = all_candidates(report, options);
    let start = empty_inventory(report);
    if all.len() > options.limits.max_candidates {
        InventoryView {
            status: AppInventoryStatus::Partial,
            complete: false,
            counts: AppInventoryCounts {
                named_candidates: (options.limits.max_candidates + 1) as usize,
                ..start.counts
            },
            ..start
        }.with_issue(
            IssueView {
                path: None,
                fault: probe::fault(AppIssueCode::CandidateLimit, "app candidate limit reached"@),
            },
            options.limits,
        )
    } else {
        InventoryView {
            counts: AppInventoryCounts { named_candidates: all.len() as usize, ..start.counts },
            ..start
        }
    }
}

/// Why an inventory ends before it begins.
pub open spec fn refusal(host: Host, limits: AppInventoryLimits) -> Option<AppFault> {
    if !limits.allowed() {
        Some(probe::fault(AppIssueCode::InvalidInput, "invalid app inventory limits"@))
    } else if host != Host::MacOs {
        Some(
            probe::fault(
                AppIssueCode::UnsupportedPlatform,
                "native macOS app inspection is unavailable on this platform"@,
            ),
        )
    } else {
        None
    }
}

/// Whether a run has just begun on the candidates of a scan.
pub open spec fn begins(
    run: InventoryRun,
    host: Host,
    report: ScanReport,
    options: AppInventoryOptions,
    context: ProbeContext<'_>,
) -> bool {
    let start = empty_inventory(report);
    &&& run.position == 0
    &&& run.seen@.len() == 0
    &&& run.limits == options.limits
    &&& match refusal(host, options.limits) {
        Some(found) => {
            &&& run.stopped
            &&& run.ended_early
            &&& run.candidates@.len() == 0
            &&& run.inventory@ == start.ended(AppInventoryStatus::Failed, found, options.limits)
        },
        None => {
            ||| {
                &&& run.stopped
                &&& run.ended_early
                &&& run.candidates@.len() == 0
                &&& options.excludes@.len() > 0
                &&& report.entries@.len() > 0
                &&& exists|found: AppFault|
                    context.may_stop_with(found) && run.inventory@ == #[trigger] start.ended(
                        status_after(found.code),
                        found,
                        options.limits,
                    )
            }
            ||| {
                let all = all_candidates(report, options);
                &&& !run.stopped
                &&& !run.ended_early
                &&& run.inventory@ == selected(report, options)
                &&& candidates::as_places(run.candidates@) == if all.len()
                    > options.limits.max_candidates {
                    all.take(options.limits.max_candidates as int)
                } else {
                    all
                }
                &&& candidates::root_views(run.roots@) == candidates::known_roots(
                    candidates::entry_views(report.entries@),
                    path::views(report.roots@),
                )
            }
        },
    }
}

fn begin_inventory(host: Host, report: &ScanReport, options: &AppInventoryOptions) -> (inventory:
    AppInventory)
    ensures
        inventory@ == empty_inventory(*report),
        introduces(inventory, host, *report, *options),
        inventory.apps@.len() == 0,
{
    let status: AppInventoryStatus = match report.status {
        ScanStatus::Complete => AppInventoryStatus::Complete,
        ScanStatus::Partial => AppInventoryStatus::Partial,
        ScanStatus::Cancelled => AppInventoryStatus::Cancelled,
        ScanStatus::Failed => AppInventoryStatus::Failed,
    };
    let inventory = AppInventory {
        schema_version: app_inventory::APP_INVENTORY_SCHEMA_VERSION,
        kind: app_inventory::APP_INVENTORY_KIND,
        platform: match host {
            Host::MacOs => "macos",
            Host::Other => "unsupported",
        },
        status,
        complete: match report.status {
            ScanStatus::Complete => true,
            _ => false,
        },
        effects_performed: false,
        roots: candidates::copy_paths(&report.roots),
        filter: options.filter.clone(),
        excludes: candidates::copy_paths(&options.excludes),
        scan_task_id: report.task_id.clone(),
        counts: AppInventoryCounts {
            scan_entries: report.entries.len(),
            scan_issues: report.issues.len(),
            named_candidates: 0,
            inspected_candidates: 0,
            recognized_apps: 0,
            unknown: 0,
            non_app: 0,
            duplicate_identities: 0,
            metadata_issues: 0,
        },
        apps: Vec::new(),
        scan_issues: copy_issues(&report.issues),
        issues: Vec::new(),
        issues_omitted: report.issues_omitted,
        metrics: AppInventoryMetrics {
            elapsed_ms: 0,
            probe_elapsed_ms: 0,
            plist_read_bytes: 0,
            retained_metadata_string_bytes: 0,
        },
    };
    assert(app_inventory::record_views(inventory.apps@) =~= Seq::empty());
    assert(issue_views(inventory.issues@) =~= Seq::empty());
    inventory
}

fn end_early(
    inventory: AppInventory,
    status: AppInventoryStatus,
    error: AppError,
    limits: AppInventoryLimits,
) -> (run: InventoryRun)
    requires
        inventory.issues_omitted < usize::MAX,
        inventory.apps@.len() == 0,
    ensures
        run.inventory@ == inventory@.ended(status, error@, limits),
        same_request(run.inventory, inventory),
        run.inventory.apps@.len() == 0,
        run.stopped,
        run.ended_early,
        run.candidates@.len() == 0,
        run.position == 0,
        run.seen@.len() == 0,
        run.limits == limits,
{
    let mut inventory = inventory;
    inventory.status = status;
    inventory.complete = false;
    push_issue(
        &mut inventory,
        AppIssue { path: None, code: error.code, message: error.message, os_code: error.os_code },
        limits,
    );
    InventoryRun {
        inventory,
        candidates: Vec::new(),
        position: 0,
        stopped: true,
        ended_early: true,
        seen: Vec::new(),
        roots: Vec::new(),
        limits,
    }
}

/// Starts an inventory of the applications that a scan found. What remains is to look at
/// the candidates, one by one.
pub fn inventory_apps(
    host: Host,
    report: &ScanReport,
    options: &AppInventoryOptions,
    context: &ProbeContext<'_>,
) -> (run: InventoryRun)
    requires
        report.issues_omitted + report.entries@.len() < usize::MAX,
    ensures
        run.wf(report.entries@),
        introduces(run.inventory, host, *report, *options),
        begins(run, host, *report, *options, *context),
{
    let limits: AppInventoryLimits = options.limits;
    let entry_count: usize = report.entries.len();
    let mut inventory = begin_inventory(host, report, options);
    let ghost start = empty_inventory(*report);
    if let Err(message) = limits.validate() {
        return end_early(
            inventory,
            AppInventoryStatus::Failed,
            AppError { code: AppIssueCode::InvalidInput, message, os_code: None },
            limits,
        );
    }
    if host != Host::MacOs {
        return end_early(
            inventory,
            AppInventoryStatus::Failed,
            AppError::new(
                AppIssueCode::UnsupportedPlatform,
                "native macOS app inspection is unavailable on this platform",
            ),
            limits,
        );
    }
    let roots: Vec<Root> = candidates::root_identities(&report.entries, &report.roots);
    let exclusions: ExclusionMatcher = match ExclusionMatcher::build(
        &report.entries,
        &options.excludes,
        context,
    ) {
        Ok(exclusions) => exclusions,
        Err(error) => {
            let ghost found = error@;
            assert(context.may_stop_with(found));
            let run = end_early(inventory, status_for(error.code), error, limits);
            assert(run.inventory@ == start.ended(status_after(found.code), found, limits));
            return run;
        },
    };
    let (list, more): (Vec<usize>, bool) = candidates::select_candidates(
        &report.entries,
        options.filter.as_str(),
        &exclusions,
        limits.max_candidates,
    );
    let ghost all = all_candidates(*report, *options);
    assert(candidates::as_places(list@).len() == list@.len());
    if more {
        assert(list@.len() == limits.max_candidates);
        inventory.counts.named_candidates = list.len() + 1;
        inventory.status = AppInventoryStatus::Partial;
        inventory.complete = false;
        push_issue(
            &mut inventory,
            AppIssue {
                path: None,
                code: AppIssueCode::CandidateLimit,
                message: "app candidate limit reached".to_owned(),
                os_code: None,
            },
            limits,
        );
    } else {
        inventory.counts.named_candidates = list.len();
    }
    InventoryRun {
        inventory,
        candidates: list,
        position: 0,
        stopped: false,
        ended_early: false,
        seen: Vec::new(),
        roots,
        limits,
    }
}

/// What comes next in a run.
#[derive(Clone, Copy, Debug, PartialEq, Eq, Structural)]
pub enum Due {
    /// The next candidate is the object of an earlier one.
    Duplicate,
    /// The entry to look at.
    Inspect(usize),
    /// Nothing.
    Nothing,
}

fn find_identity(list: &Vec<FileIdentity>, identity: FileIdentity) -> (at: usize)
    ensures
        at == place_of(list@, identity),
        at <= list@.len(),
        (at < list@.len()) == list@.contains(identity),
{
    proof {
        lemma_place_of(list@, identity);
    }
    let mut i: usize = 0;
    assert(list@.skip(0) =~= list@);
    while i < list.len() && list[i] != identity
        invariant
            0 <= i <= list@.len(),
            place_of(list@, identity) == i + place_of(list@.skip(i as int), identity),
        decreases list@.len() - i,
    {
        assert(list@.skip(i as int).drop_first() =~= list@.skip(i + 1));
        i += 1;
    }
    i
}

fn add_root(list: &mut Vec<Vec<u8>>, root: &Vec<u8>)
    ensures
        path::views(final(list)@) == with_root(path::views(old(list)@), root@),
{
    let ghost before = path::views(list@);
    let mut i: usize = 0;
    while i < list.len()
        invariant
            0 <= i <= list@.len(),
            before == path::views(list@),
            forall|j: int| 0 <= j < i ==> !path::same_path(#[trigger] before[j], root@),
        decreases list@.len() - i,
    {
        if path::paths_equal(list[i].as_slice(), root.as_slice()) {
            assert(path::same_path(before[i as int], root@));
            return ;
        }
        i += 1;
    }
    list.push(text::copy_bytes(root.as_slice()));
    assert(path::views(list@) =~= before.push(root@));
}

fn add_roots(list: &mut Vec<Vec<u8>>, more: &Vec<Vec<u8>>)
    ensures
        path::views(final(list)@) == with_roots(path::views(old(list)@), path::views(more@)),
{
    let ghost before = path::views(list@);
    let ghost all = path::views(more@);
    let mut i: usize = 0;
    assert(all.take(0) =~= Seq::empty());
    while i < more.len()
        invariant
            0 <= i <= more@.len(),
            all == path::views(more@),
            path::views(list@) == with_roots(before, all.take(i as int)),
        decreases more@.len() - i,
    {
        assert(all.take(i + 1).drop_last() =~= all.take(i as int));
        assert(all.take(i + 1).last() == more@[i as int]@);
        add_root(list, &more[i]);
        i += 1;
    }
    assert(all.take(all.len() as int) =~= all);
}

impl InventoryRun {
    /// The entry that a run comes to next.
    pub open spec fn current(self, entries: Seq<ScanEntry>) -> EntryView {
        entries[self.candidates@[self.position as int] as int]@
    }

    /// What comes next.
    pub fn due(&self, entries: &Vec<ScanEntry>) -> (due: Due)
        requires
            self.wf(entries@),
        ensures
            due == if self.stopped || self.position >= self.candidates@.len() {
                Due::Nothing
            } else if self.seen@.contains(self.current(entries@).identity) {
                Due::Duplicate
            } else {
                Due::Inspect(self.candidates@[self.position as int])
            },
    {
        if self.stopped || self.position >= self.candidates.len() {
            return Due::Nothing;
        }
        let at: usize = self.candidates[self.position];
        if candidates::holds_identity(&self.seen, entries[at].identity) {
            Due::Duplicate
        } else {
            Due::Inspect(at)
        }
    }

    /// Where the entry to look at stands.
    pub fn locate(&self, entries: &Vec<ScanEntry>, at: usize) -> (result: Result<
        BundleLocation,
        AppError,
    >)
        requires
            at < entries@.len(),
        ensures
            candidates::location_result(result) == candidates::located(
                entries@[at as int]@,
                candidates::root_views(self.roots@),
                candidates::entry_views(entries@),
            ),
    {
        candidates::locate(&entries[at], &self.roots, entries)
    }

    /// Notes that the next candidate is the object of an earlier one.
    pub fn settle_duplicate(&mut self, entries: &Vec<ScanEntry>)
        requires
            old(self).wf(entries@),
            old(self).position < old(self).candidates@.len(),
            old(self).seen@.contains(old(self).current(entries@).identity),
        ensures
            final(self).wf(entries@),
            final(self).state() == old(self).state().after_duplicate(
                old(self).current(entries@),
                candidates::root_views(old(self).roots@),
            ),
            same_request(final(self).inventory, old(self).inventory),
            final(self).candidates == old(self).candidates,
            final(self).roots == old(self).roots,
            final(self).limits == old(self).limits,
            final(self).ended_early == old(self).ended_early,
    {
        let entry = &entries[self.candidates[self.position]];
        let at: usize = find_identity(&self.seen, entry.identity);
        let holding = candidates::roots_for_path(&self.roots, entry.path.as_slice());
        let ghost before = app_inventory::record_views(self.inventory.apps@);
        let ghost apps = self.inventory.apps@;
        let mut list: Vec<Vec<u8>> = Vec::new();
        std::mem::swap(&mut list, &mut self.inventory.apps[at].observed_roots);
        assert(before[at as int] == apps[at as int]@);
        add_roots(&mut list, &holding);
        let ghost updated = path::views(list@);
        self.inventory.apps[at].observed_roots = list;
        proof {
            let record = before[at as int];
            assert(self.inventory.apps@[at as int]@ =~= (RecordView { roots: updated, ..record }));
            assert(app_inventory::record_views(self.inventory.apps@) =~= before.update(
                at as int,
                (RecordView { roots: updated, ..record }),
            ));
        }
        self.inventory.counts.duplicate_identities = self.inventory.counts.duplicate_identities + 1;
        self.position = self.position + 1;
    }

    /// Takes what came of looking at the next candidate.
    pub fn settle(&mut self, entries: &Vec<ScanEntry>, outcome: Result<AppRecord, AppError>)
        requires
            old(self).wf(entries@),
            old(self).position < old(self).candidates@.len(),
            !old(self).seen@.contains(old(self).current(entries@).identity),
            outcome matches Ok(record) ==> is_record_of(record@, old(self).current(entries@)),
        ensures
            final(self).wf(entries@),
            final(self).state() == old(self).state().after_inspection(
                old(self).current(entries@),
                bundle_record::record_result(outcome),
                candidates::root_views(old(self).roots@),
                old(self).limits,
            ),
            same_request(final(self).inventory, old(self).inventory),
            final(self).candidates == old(self).candidates,
            final(self).roots == old(self).roots,
            final(self).limits == old(self).limits,
            final(self).ended_early == old(self).ended_early,
    {
        let entry = &entries[self.candidates[self.position]];
        let holding = candidates::roots_for_path(&self.roots, entry.path.as_slice());
        let ghost before = app_inventory::record_views(self.inventory.apps@);
        self.inventory.counts.inspected_candidates = self.inventory.counts.inspected_candidates + 1;
        match outcome {
            Ok(mut app) => {
                match app.app_kind {
                    AppKind::App => {
                        self.inventory.counts.recognized_apps =
                        self.inventory.counts.recognized_apps + 1;
                    },
                    AppKind::NonApp => {
                        self.inventory.counts.non_app = self.inventory.counts.non_app + 1;
                    },
                    AppKind::Unknown => {
                        self.inventory.counts.unknown = self.inventory.counts.unknown + 1;
                    },
                }
                app.observed_roots = holding;
                let ghost view = app@;
                self.inventory.apps.push(app);
                assert(app_inventory::record_views(self.inventory.apps@) =~= before.push(view));
                self.seen.push(entry.identity);
            },
            Err(error) => {
                let status: AppInventoryStatus = status_for(error.code);
                self.inventory.status = status;
                self.inventory.complete = false;
                self.inventory.counts.metadata_issues = self.inventory.counts.metadata_issues + 1;
                self.inventory.counts.unknown = self.inventory.counts.unknown + 1;
                let mut unknown = bundle_record::unknown_record(
                    entry.path.as_slice(),
                    entry.identity,
                );
                unknown.observed_roots = holding;
                let ghost view = unknown@;
                self.inventory.apps.push(unknown);
                assert(app_inventory::record_views(self.inventory.apps@) =~= before.push(view));
                self.seen.push(entry.identity);
                push_issue(
                    &mut self.inventory,
                    AppIssue {
                        path: Some(text::copy_bytes(entry.path.as_slice())),
                        code: error.code,
                        message: error.message,
                        os_code: error.os_code,
                    },
                    self.limits,
                );
                self.stopped = status == AppInventoryStatus::Cancelled || status
                    == AppInventoryStatus::Failed;
            },
        }
        self.position = self.position + 1;
    }

    /// Ends a run that has nothing left to do. A run that ended before its candidates were
    /// known has probed nothing.
    pub fn finish(self, budget: ProbeBudget, elapsed_ms: u64) -> (inventory: AppInventory)
        requires
            self.stopped || self.position >= self.candidates@.len(),
        ensures
            same_request(inventory, self.inventory),
            inventory@ == (InventoryView {
                status: if self.inventory.complete {
                    AppInventoryStatus::Complete
                } else {
                    self.inventory.status
                },
                ..self.inventory@
            }),
            inventory.metrics == if self.ended_early {
                AppInventoryMetrics {
                    elapsed_ms,
                    probe_elapsed_ms: 0,
                    plist_read_bytes: 0,
                    retained_metadata_string_bytes: 0,
                }
            } else {
                AppInventoryMetrics {
                    elapsed_ms,
                    probe_elapsed_ms: elapsed_ms,
                    plist_read_bytes: budget.io_bytes,
                    retained_metadata_string_bytes: budget.retained_bytes,
                }
            },
    {
        let mut inventory = self.inventory;
        inventory.metrics = if self.ended_early {
            AppInventoryMetrics {
                elapsed_ms,
                probe_elapsed_ms: 0,
                plist_read_bytes: 0,
                retained_metadata_string_bytes: 0,
            }
        } else {
            AppInventoryMetrics {
                elapsed_ms,
                probe_elapsed_ms: elapsed_ms,
                plist_read_bytes: budget.io_bytes,
                retained_metadata_string_bytes: budget.retained_bytes,
            }
        };
        if inventory.complete {
            inventory.status = AppInventoryStatus::Complete;
        }
        inventory
    }
}

/// What holds of every run: one record for each object, every record counted once under
/// its kind, every candidate either looked at or known, and a claim of completeness exactly
/// where the status is complete, never after a failure.
pub open spec fn consistent(state: RunState, limits: AppInventoryLimits) -> bool {
    let counts = state.inventory.counts;
    &&& state.seen.no_duplicates()
    &&& state.seen.len() == state.inventory.apps.len()
    &&& counts.inspected_candidates == state.inventory.apps.len()
    &&& counts.inspected_candidates == counts.recognized_apps + counts.non_app + counts.unknown
    &&& counts.inspected_candidates + counts.duplicate_identities == state.position
    &&& counts.metadata_issues <= counts.unknown
    &&& state.position < usize::MAX
    &&& state.inventory.issues.len() <= limits.max_issues
    &&& state.inventory.complete ==> counts.metadata_issues == 0
    &&& state.inventory.complete == (state.inventory.status == AppInventoryStatus::Complete)
    &&& forall|i: int|
        0 <= i < state.seen.len() ==> (#[trigger] state.inventory.apps[i]).identity
            == state.seen[i]
}

/// A run begins consistent.
pub proof fn runs_begin_consistent(
    run: InventoryRun,
    host: Host,
    report: ScanReport,
    options: AppInventoryOptions,
    context: ProbeContext<'_>,
)
    requires
        begins(run, host, report, options, context),
    ensures
        consistent(run.state(), options.limits),
{
}

/// Dealing with a candidate keeps a run consistent: a candidate whose object is known adds
/// no record, and any other adds exactly one.
pub proof fn settling_keeps_consistent(
    state: RunState,
    entry: EntryView,
    outcome: Result<RecordView, AppFault>,
    roots: Seq<(Seq<u8>, FileIdentity)>,
    limits: AppInventoryLimits,
)
    requires
        consistent(state, limits),
        state.position + 1 < usize::MAX,
        outcome matches Ok(record) ==> is_record_of(record, entry),
    ensures
        state.seen.contains(entry.identity) ==> consistent(
            state.after_duplicate(entry, roots),
            limits,
        ),
        !state.seen.contains(entry.identity) ==> consistent(
            state.after_inspection(entry, outcome, roots, limits),
            limits,
        ),
{
    lemma_place_of(state.seen, entry.identity);
    if !state.seen.contains(entry.identity) {
        let more = state.seen.push(entry.identity);
        assert(more.no_duplicates()) by {
            assert forall|i: int, j: int| 0 <= i < more.len() && 0 <= j < more.len() && i != j implies more[i]
                != more[j] by {
                if i == state.seen.len() {
                    assert(state.seen.contains(state.seen[j]));
                } else if j == state.seen.len() {
                    assert(state.seen.contains(state.seen[i]));
                }
            }
        }
    }
}

/// An issue is never lost: it is listed, or counted as omitted.
pub proof fn issues_are_listed_or_counted(
    inventory: InventoryView,
    issue: IssueView,
    limits: AppInventoryLimits,
)
    requires
        inventory.omitted < usize::MAX,
    ensures
        ({
            let after = inventory.with_issue(issue, limits);
            after.issues.len() + after.omitted == inventory.issues.len() + inventory.omitted + 1
        }),
{
}

} // verus!
