//! Data that belongs with applications: what a preview says.

use crate::app_inventory::{AppInventoryStatus, AppIssue, ScanIssue};
use crate::model::FileIdentity;
use crate::order;
use crate::path;
use crate::text;
use vstd::prelude::*;
use vstd::string::*;

verus! {

pub const APP_RELATED_KIND: &'static str = "app_related_data_preview";

pub const APP_RELATED_SCHEMA_VERSION: u32 = 1;

/// The time that probing for related data may take at most.
pub const APP_RELATED_PROBE_BUDGET_CAP_NANOS: u128 = 5_000_000_000;

pub const MAX_LIBRARY_ROOTS: usize = 8;

pub const MAX_APP_ROOTS: usize = 64;

pub const MAX_GENERIC_APP_COPIES: usize = 32;

pub const MAX_CANDIDATES: usize = 256;

pub const MAX_ISSUES: usize = 256;

pub const MAX_PATH_BYTES: usize = 1_048_576;

pub const MAX_ROOT_BYTES: usize = 65_536;

/// How far a preview got.
#[derive(Clone, Copy, Debug, PartialEq, Eq, Structural)]
pub enum AppRelatedStatus {
    Complete,
    Partial,
    Cancelled,
    Failed,
}

impl AppRelatedStatus {
    pub open spec fn name(self) -> Seq<char> {
        match self {
            AppRelatedStatus::Complete => "complete"@,
            AppRelatedStatus::Partial => "partial"@,
            AppRelatedStatus::Cancelled => "cancelled"@,
            AppRelatedStatus::Failed => "failed"@,
        }
    }

    pub fn as_str(self) -> (name: &'static str)
        ensures
            name@ == self.name(),
    {
        match self {
            AppRelatedStatus::Complete => "complete",
            AppRelatedStatus::Partial => "partial",
            AppRelatedStatus::Cancelled => "cancelled",
            AppRelatedStatus::Failed => "failed",
        }
    }

    pub open spec fn code(self) -> u8 {
        match self {
            AppRelatedStatus::Complete => 0,
            AppRelatedStatus::Partial => 3,
            AppRelatedStatus::Cancelled => 130,
            AppRelatedStatus::Failed => 1,
        }
    }

    pub fn exit_code(self) -> (code: u8)
        ensures
            code == self.code(),
    {
        match self {
            AppRelatedStatus::Complete => 0,
            AppRelatedStatus::Partial => 3,
            AppRelatedStatus::Cancelled => 130,
            AppRelatedStatus::Failed => 1,
        }
    }
}

/// Something that a preview could not look at.
#[derive(Debug)]
pub struct AppRelatedIssue {
    pub path: Option<Vec<u8>>,
    pub code: &'static str,
    pub message: String,
    pub os_code: Option<i32>,
}

/// Something that a preview could not look at.
#[verifier::ext_equal]
pub struct RelatedIssueView {
    pub path: Option<Seq<u8>>,
    pub code: Seq<char>,
    pub message: Seq<char>,
    pub os_code: Option<i32>,
}

/// The bytes of an optional path.
pub open spec fn opt_path(value: Option<Vec<u8>>) -> Option<Seq<u8>> {
    match value {
        Some(place) => Some(place@),
        None => None,
    }
}

impl View for AppRelatedIssue {
    type V = RelatedIssueView;

    open spec fn view(&self) -> RelatedIssueView {
        RelatedIssueView {
            path: opt_path(self.path),
            code: self.code@,
            message: self.message@,
            os_code: self.os_code,
        }
    }
}

pub open spec fn related_issues(list: Seq<AppRelatedIssue>) -> Seq<RelatedIssueView> {
    Seq::new(list.len(), |i: int| list[i]@)
}

/// What a preview counted.
#[derive(Clone, Copy, Debug, PartialEq, Eq, Structural)]
pub struct AppRelatedCounts {
    pub inventoried_apps: usize,
    pub matched_app_copies: usize,
    pub candidate_paths: usize,
    pub present_candidates: usize,
    pub missing_candidates: usize,
    pub shared_candidates: usize,
    pub protected_candidates: usize,
    pub issues: usize,
    pub issues_omitted: usize,
}

impl AppRelatedCounts {
    /// Nothing has been counted.
    pub fn none() -> (counts: AppRelatedCounts)
        ensures
            counts == no_counts(),
    {
        AppRelatedCounts {
            inventoried_apps: 0,
            matched_app_copies: 0,
            candidate_paths: 0,
            present_candidates: 0,
            missing_candidates: 0,
            shared_candidates: 0,
            protected_candidates: 0,
            issues: 0,
            issues_omitted: 0,
        }
    }
}

/// Nothing has been counted.
pub open spec fn no_counts() -> AppRelatedCounts {
    AppRelatedCounts {
        inventoried_apps: 0,
        matched_app_copies: 0,
        candidate_paths: 0,
        present_candidates: 0,
        missing_candidates: 0,
        shared_candidates: 0,
        protected_candidates: 0,
        issues: 0,
        issues_omitted: 0,
    }
}

/// What a preview spent.
#[derive(Clone, Copy, Debug, PartialEq, Eq, Structural)]
pub struct AppRelatedMetrics {
    pub elapsed_ms: u64,
    pub inventory_elapsed_ms: u64,
    pub candidate_probe_elapsed_ms: u64,
    pub candidate_probe_count: usize,
}

/// One copy of an application.
#[derive(Debug)]
pub struct AppCopySummary {
    pub app_copy_id: String,
    pub bundle_path: Vec<u8>,
    pub observed_roots: Vec<Vec<u8>>,
    pub bundle_identity: FileIdentity,
    pub display_name: String,
    pub bundle_id: Option<String>,
    pub short_version: Option<String>,
    pub build_version: Option<String>,
    pub executable_path_status: &'static str,
    pub match_rules: Vec<&'static str>,
    pub copy_state: &'static str,
}

/// One copy of an application.
#[verifier::ext_equal]
pub struct SummaryView {
    pub id: Seq<char>,
    pub path: Seq<u8>,
    pub roots: Seq<Seq<u8>>,
    pub identity: FileIdentity,
    pub name: Seq<char>,
    pub bundle_id: Option<Seq<char>>,
    pub short_version: Option<Seq<char>>,
    pub build_version: Option<Seq<char>>,
    pub executable: Seq<char>,
    pub rules: Seq<Seq<char>>,
    pub state: Seq<char>,
}

impl View for AppCopySummary {
    type V = SummaryView;

    open spec fn view(&self) -> SummaryView {
        SummaryView {
            id: self.app_copy_id@,
            path: self.bundle_path@,
            roots: path::views(self.observed_roots@),
            identity: self.bundle_identity,
            name: self.display_name@,
            bundle_id: text::opt_text(self.bundle_id),
            short_version: text::opt_text(self.short_version),
            build_version: text::opt_text(self.build_version),
            executable: self.executable_path_status@,
            rules: order::literals(self.match_rules@),
            state: self.copy_state@,
        }
    }
}

pub open spec fn summaries(list: Seq<AppCopySummary>) -> Seq<SummaryView> {
    Seq::new(list.len(), |i: int| list[i]@)
}

/// Why a place is thought to belong with an application.
#[derive(Debug)]
pub struct RelatedEvidence {
    pub kind: &'static str,
    pub value: String,
    pub app_copy_id: Option<String>,
}

/// Why a place is thought to belong with an application.
#[verifier::ext_equal]
pub struct EvidenceView {
    pub kind: Seq<char>,
    pub value: Seq<char>,
    pub copy: Option<Seq<char>>,
}

impl View for RelatedEvidence {
    type V = EvidenceView;

    open spec fn view(&self) -> EvidenceView {
        EvidenceView {
            kind: self.kind@,
            value: self.value@,
            copy: text::opt_text(self.app_copy_id),
        }
    }
}

pub open spec fn evidence_views(list: Seq<RelatedEvidence>) -> Seq<EvidenceView> {
    Seq::new(list.len(), |i: int| list[i]@)
}

impl RelatedEvidence {
    pub fn copy(&self) -> (copy: RelatedEvidence)
        ensures
            copy@ == self@,
    {
        RelatedEvidence {
            kind: self.kind,
            value: self.value.clone(),
            app_copy_id: match &self.app_copy_id {
                Some(id) => Some(id.clone()),
                None => None,
            },
        }
    }
}

/// A place that may belong with an application.
#[derive(Debug)]
pub struct RelatedDataCandidate {
    pub candidate_id: String,
    pub path: Vec<u8>,
    pub relative_library_path: String,
    pub source_rule_id: &'static str,
    pub source_urls: Vec<&'static str>,
    pub role: &'static str,
    pub path_state: &'static str,
    pub ownership_certainty: &'static str,
    pub ownership_statement: String,
    pub evidence: Vec<RelatedEvidence>,
    pub matched_app_copy_ids: Vec<String>,
    pub protection_reasons: Vec<&'static str>,
    pub preview_disposition: &'static str,
    pub deletable: bool,
    pub authorized_action: Option<&'static str>,
}

/// A place that may belong with an application.
#[verifier::ext_equal]
pub struct CandidateView {
    pub id: Seq<char>,
    pub path: Seq<u8>,
    pub relative: Seq<char>,
    pub rule: Seq<char>,
    pub urls: Seq<Seq<char>>,
    pub role: Seq<char>,
    pub state: Seq<char>,
    pub certainty: Seq<char>,
    pub statement: Seq<char>,
    pub evidence: Seq<EvidenceView>,
    pub ids: Seq<Seq<char>>,
    pub reasons: Seq<Seq<char>>,
    pub disposition: Seq<char>,
    pub deletable: bool,
    pub authorized: bool,
}

impl View for RelatedDataCandidate {
    type V = CandidateView;

    open spec fn view(&self) -> CandidateView {
        CandidateView {
            id: self.candidate_id@,
            path: self.path@,
            relative: self.relative_library_path@,
            rule: self.source_rule_id@,
            urls: order::literals(self.source_urls@),
            role: self.role@,
            state: self.path_state@,
            certainty: self.ownership_certainty@,
            statement: self.ownership_statement@,
            evidence: evidence_views(self.evidence@),
            ids: order::texts(self.matched_app_copy_ids@),
            reasons: order::literals(self.protection_reasons@),
            disposition: self.preview_disposition@,
            deletable: self.deletable,
            authorized: self.authorized_action is Some,
        }
    }
}

pub open spec fn candidate_views(list: Seq<RelatedDataCandidate>) -> Seq<CandidateView> {
    Seq::new(list.len(), |i: int| list[i]@)
}

/// What a preview of related data says.
#[derive(Debug)]
pub struct AppRelatedPreview {
    pub schema_version: u32,
    pub kind: &'static str,
    pub platform: &'static str,
    pub status: AppRelatedStatus,
    pub complete: bool,
    pub effects_performed: bool,
    pub app_roots: Vec<Vec<u8>>,
    pub library_roots: Vec<Vec<u8>>,
    pub filter: String,
    pub scan_task_id: Option<String>,
    pub inventory_status: &'static str,
    pub inventory_complete: bool,
    pub counts: AppRelatedCounts,
    pub app_copies: Vec<AppCopySummary>,
    pub candidates: Vec<RelatedDataCandidate>,
    pub scan_issues: Vec<ScanIssue>,
    pub issues: Vec<AppRelatedIssue>,
    pub metrics: AppRelatedMetrics,
}

/// How a preview fares: its status and its issues.
#[verifier::ext_equal]
pub struct Standing {
    pub status: AppRelatedStatus,
    pub complete: bool,
    pub issues: Seq<RelatedIssueView>,
    pub omitted: usize,
}

impl AppRelatedPreview {
    pub open spec fn standing(self) -> Standing {
        Standing {
            status: self.status,
            complete: self.complete,
            issues: related_issues(self.issues@),
            omitted: self.counts.issues_omitted,
        }
    }
}

/// The worse of two statuses: failure before cancellation before partial results.
pub open spec fn worse(status: AppRelatedStatus, next: AppRelatedStatus) -> AppRelatedStatus {
    match (status, next) {
        (AppRelatedStatus::Failed, _) => AppRelatedStatus::Failed,
        (_, AppRelatedStatus::Failed) => AppRelatedStatus::Failed,
        (AppRelatedStatus::Cancelled, _) => AppRelatedStatus::Cancelled,
        (_, AppRelatedStatus::Cancelled) => AppRelatedStatus::Cancelled,
        (AppRelatedStatus::Partial, _) => AppRelatedStatus::Partial,
        (_, AppRelatedStatus::Partial) => AppRelatedStatus::Partial,
        (AppRelatedStatus::Complete, AppRelatedStatus::Complete) => AppRelatedStatus::Complete,
    }
}

/// The order in which statuses are reported does not matter, and no report improves one.
pub proof fn statuses_only_worsen(
    a: AppRelatedStatus,
    b: AppRelatedStatus,
    c: AppRelatedStatus,
)
    ensures
        worse(a, b) == worse(b, a),
        worse(worse(a, b), c) == worse(a, worse(b, c)),
        worse(a, a) == a,
        worse(a, AppRelatedStatus::Complete) == a,
        worse(a, b) == AppRelatedStatus::Complete ==> a == AppRelatedStatus::Complete,
{
}

impl Standing {
    /// After a report of a status.
    pub open spec fn reported(self, next: AppRelatedStatus) -> Standing {
        Standing {
            status: worse(self.status, next),
            complete: worse(self.status, next) == AppRelatedStatus::Complete,
            ..self
        }
    }

    /// With one more issue, or one more that there is no room for.
    pub open spec fn with_issue(self, issue: RelatedIssueView) -> Standing {
        if self.issues.len() < MAX_ISSUES {
            Standing { issues: self.issues.push(issue), ..self }
        } else {
            Standing {
                omitted: if self.omitted < usize::MAX {
                    (self.omitted + 1) as usize
                } else {
                    usize::MAX
                },
                ..self
            }
        }
    }

    /// After a status and the issue that gave it.
    pub open spec fn troubled(self, next: AppRelatedStatus, issue: RelatedIssueView) -> Standing {
        self.reported(next).with_issue(issue)
    }
}

/// Whether two previews differ at most in how they fare.
pub open spec fn same_body(a: AppRelatedPreview, b: AppRelatedPreview) -> bool {
    &&& a.schema_version == b.schema_version
    &&& a.kind == b.kind
    &&& a.platform == b.platform
    &&& a.effects_performed == b.effects_performed
    &&& a.app_roots == b.app_roots
    &&& a.library_roots == b.library_roots
    &&& a.filter == b.filter
    &&& a.scan_task_id == b.scan_task_id
    &&& a.inventory_status == b.inventory_status
    &&& a.inventory_complete == b.inventory_complete
    &&& a.counts == (AppRelatedCounts { issues_omitted: a.counts.issues_omitted, ..b.counts })
    &&& a.app_copies == b.app_copies
    &&& a.candidates == b.candidates
    &&& a.scan_issues == b.scan_issues
    &&& a.metrics == b.metrics
}

/// Notes a status.
pub fn update_status(preview: &mut AppRelatedPreview, next: AppRelatedStatus)
    ensures
        final(preview).standing() == old(preview).standing().reported(next),
        same_body(*final(preview), *old(preview)),
{
    let status: AppRelatedStatus = match (preview.status, next) {
        (AppRelatedStatus::Failed, _) => AppRelatedStatus::Failed,
        (_, AppRelatedStatus::Failed) => AppRelatedStatus::Failed,
        (AppRelatedStatus::Cancelled, _) => AppRelatedStatus::Cancelled,
        (_, AppRelatedStatus::Cancelled) => AppRelatedStatus::Cancelled,
        (AppRelatedStatus::Partial, _) => AppRelatedStatus::Partial,
        (_, AppRelatedStatus::Partial) => AppRelatedStatus::Partial,
        (AppRelatedStatus::Complete, AppRelatedStatus::Complete) => AppRelatedStatus::Complete,
    };
    preview.status = status;
    preview.complete = status == AppRelatedStatus::Complete;
}

/// Notes an issue: it is listed, or counted as omitted where there is no room.
pub fn push_issue(preview: &mut AppRelatedPreview, issue: AppRelatedIssue)
    ensures
        final(preview).standing() == old(preview).standing().with_issue(issue@),
        same_body(*final(preview), *old(preview)),
{
    if preview.issues.len() < MAX_ISSUES {
        let ghost before = related_issues(preview.issues@);
        let ghost view = issue@;
        preview.issues.push(issue);
        assert(related_issues(preview.issues@) =~= before.push(view));
    } else {
        preview.counts.issues_omitted = preview.counts.issues_omitted.saturating_add(1);
    }
}

/// An issue that no system call caused.
pub open spec fn plain_issue(
    place: Option<Seq<u8>>,
    code: Seq<char>,
    message: Seq<char>,
) -> RelatedIssueView {
    RelatedIssueView { path: place, code, message, os_code: None }
}

pub fn issue(place: Option<Vec<u8>>, code: &'static str, message: &str) -> (issue: AppRelatedIssue)
    ensures
        issue@ == plain_issue(opt_path(place), code@, message@),
{
    AppRelatedIssue { path: place, code, message: message.to_owned(), os_code: None }
}

/// Notes a status and the issue that gave it.
pub fn trouble(preview: &mut AppRelatedPreview, next: AppRelatedStatus, issue: AppRelatedIssue)
    ensures
        final(preview).standing() == old(preview).standing().troubled(next, issue@),
        same_body(*final(preview), *old(preview)),
{
    update_status(preview, next);
    push_issue(preview, issue);
}

/// Every issue is listed or counted, as long as the count fits, and none is lost.
pub proof fn every_issue_is_accounted_for(standing: Standing, issue: RelatedIssueView)
    requires
        standing.omitted < usize::MAX,
    ensures
        ({
            let after = standing.with_issue(issue);
            &&& after.issues.len() + after.omitted == standing.issues.len() + standing.omitted + 1
            &&& standing.issues.len() <= MAX_ISSUES ==> after.issues.len() <= MAX_ISSUES
        }),
{
}

/// What an inventory's status comes to.
pub open spec fn mapped(status: AppInventoryStatus) -> AppRelatedStatus {
    match status {
        AppInventoryStatus::Complete => AppRelatedStatus::Complete,
        AppInventoryStatus::Partial => AppRelatedStatus::Partial,
        AppInventoryStatus::Cancelled => AppRelatedStatus::Cancelled,
        AppInventoryStatus::Failed => AppRelatedStatus::Failed,
    }
}

/// What an inventory's status comes to.
pub fn map_inventory_status(status: AppInventoryStatus) -> (result: AppRelatedStatus)
    ensures
        result == mapped(status),
{
    match status {
        AppInventoryStatus::Complete => AppRelatedStatus::Complete,
        AppInventoryStatus::Partial => AppRelatedStatus::Partial,
        AppInventoryStatus::Cancelled => AppRelatedStatus::Cancelled,
        AppInventoryStatus::Failed => AppRelatedStatus::Failed,
    }
}

/// The issue of an inventory, as a preview tells it.
pub open spec fn merged_issue(issue: AppIssue) -> RelatedIssueView {
    RelatedIssueView {
        path: opt_path(issue.path),
        code: issue.code.name(),
        message: issue.message@,
        os_code: issue.os_code,
    }
}

/// After the issues of an inventory.
pub open spec fn merged(standing: Standing, issues: Seq<AppIssue>) -> Standing
    decreases issues.len(),
{
    if issues.len() == 0 {
        standing
    } else {
        merged(standing, issues.drop_last()).with_issue(merged_issue(issues.last()))
    }
}

/// Takes the issues of an inventory over.
pub fn merge_inventory_issues(preview: &mut AppRelatedPreview, issues: &Vec<AppIssue>)
    ensures
        final(preview).standing() == merged(old(preview).standing(), issues@),
        same_body(*final(preview), *old(preview)),
{
    let ghost before = preview.standing();
    let ghost body = *preview;
    let mut i: usize = 0;
    assert(issues@.take(0) =~= Seq::empty());
    while i < issues.len()
        invariant
            0 <= i <= issues@.len(),
            preview.standing() == merged(before, issues@.take(i as int)),
            same_body(*preview, body),
        decreases issues@.len() - i,
    {
        assert(issues@.take(i + 1).drop_last() =~= issues@.take(i as int));
        push_issue(
            preview,
            AppRelatedIssue {
                path: match &issues[i].path {
                    Some(place) => Some(text::copy_bytes(place.as_slice())),
                    None => None,
                },
                code: issues[i].code.as_str(),
                message: issues[i].message.clone(),
                os_code: issues[i].os_code,
            },
        );
        i += 1;
    }
    assert(issues@.take(issues@.len() as int) =~= issues@);
}

} // verus!
