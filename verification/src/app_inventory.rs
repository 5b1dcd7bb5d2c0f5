//! What the application inventory reports.

use crate::model::{FileIdentity, ResourceKind};
use crate::text;
use vstd::prelude::*;
use vstd::string::*;

verus! {

pub const APP_INVENTORY_KIND: &'static str = "app_inventory";

pub const APP_INVENTORY_SCHEMA_VERSION: u32 = 1;

/// The time that a whole inventory may take.
pub const APP_INVENTORY_TOTAL_BUDGET_SECONDS: u64 = 30;

/// How far an inventory got.
#[derive(Clone, Copy, Debug, PartialEq, Eq, Structural)]
pub enum AppInventoryStatus {
    Complete,
    Partial,
    Cancelled,
    Failed,
}

impl AppInventoryStatus {
    pub open spec fn name(self) -> Seq<char> {
        match self {
            AppInventoryStatus::Complete => "complete"@,
            AppInventoryStatus::Partial => "partial"@,
            AppInventoryStatus::Cancelled => "cancelled"@,
            AppInventoryStatus::Failed => "failed"@,
        }
    }

    pub fn as_str(self) -> (name: &'static str)
        ensures
            name@ == self.name(),
    {
        match self {
            AppInventoryStatus::Complete => "complete",
            AppInventoryStatus::Partial => "partial",
            AppInventoryStatus::Cancelled => "cancelled",
            AppInventoryStatus::Failed => "failed",
        }
    }

    pub open spec fn code(self) -> u8 {
        match self {
            AppInventoryStatus::Complete => 0,
            AppInventoryStatus::Partial => 3,
            AppInventoryStatus::Cancelled => 130,
            AppInventoryStatus::Failed => 1,
        }
    }

    pub fn exit_code(self) -> (code: u8)
        ensures
            code == self.code(),
    {
        match self {
            AppInventoryStatus::Complete => 0,
            AppInventoryStatus::Partial => 3,
            AppInventoryStatus::Cancelled => 130,
            AppInventoryStatus::Failed => 1,
        }
    }
}

/// What an inventory may spend.
#[derive(Clone, Copy, Debug, PartialEq, Eq, Structural)]
pub struct AppInventoryLimits {
    pub max_candidates: usize,
    pub max_info_plist_bytes: u64,
    pub max_total_plist_io_bytes: u64,
    pub max_plist_objects: usize,
    pub max_plist_refs_visited: usize,
    pub max_plist_depth: usize,
    pub max_xml_nodes: usize,
    pub max_xml_depth: usize,
    pub max_string_bytes: usize,
    pub max_retained_string_bytes: usize,
    pub max_total_retained_metadata_string_bytes: usize,
    pub max_issues: usize,
}

/// The limits that an inventory has unless told otherwise, and that no other may exceed.
pub open spec fn default_limits() -> AppInventoryLimits {
    AppInventoryLimits {
        max_candidates: 4096,
        max_info_plist_bytes: 1_048_576,
        max_total_plist_io_bytes: 67_108_864,
        max_plist_objects: 16_384,
        max_plist_refs_visited: 32_768,
        max_plist_depth: 8,
        max_xml_nodes: 20_000,
        max_xml_depth: 16,
        max_string_bytes: 4096,
        max_retained_string_bytes: 65_536,
        max_total_retained_metadata_string_bytes: 16_777_216,
        max_issues: 1024,
    }
}

impl Default for AppInventoryLimits {
    fn default() -> (limits: Self)
        ensures
            limits == default_limits(),
    {
        AppInventoryLimits {
            max_candidates: 4096,
            max_info_plist_bytes: 1_048_576,
            max_total_plist_io_bytes: 67_108_864,
            max_plist_objects: 16_384,
            max_plist_refs_visited: 32_768,
            max_plist_depth: 8,
            max_xml_nodes: 20_000,
            max_xml_depth: 16,
            max_string_bytes: 4096,
            max_retained_string_bytes: 65_536,
            max_total_retained_metadata_string_bytes: 16_777_216,
            max_issues: 1024,
        }
    }
}

impl AppInventoryLimits {
    /// Every limit is positive and none exceeds its default.
    pub open spec fn allowed(self) -> bool {
        &&& 0 < self.max_candidates <= default_limits().max_candidates
        &&& 0 < self.max_info_plist_bytes <= default_limits().max_info_plist_bytes
        &&& 0 < self.max_total_plist_io_bytes <= default_limits().max_total_plist_io_bytes
        &&& 0 < self.max_plist_objects <= default_limits().max_plist_objects
        &&& 0 < self.max_plist_refs_visited <= default_limits().max_plist_refs_visited
        &&& 0 < self.max_plist_depth <= default_limits().max_plist_depth
        &&& 0 < self.max_xml_nodes <= default_limits().max_xml_nodes
        &&& 0 < self.max_xml_depth <= default_limits().max_xml_depth
        &&& 0 < self.max_string_bytes <= default_limits().max_string_bytes
        &&& 0 < self.max_retained_string_bytes <= default_limits().max_retained_string_bytes
        &&& 0 < self.max_total_retained_metadata_string_bytes <= default_limits().max_total_retained_metadata_string_bytes
        &&& 0 < self.max_issues <= default_limits().max_issues
    }

    pub fn validate(self) -> (result: Result<(), String>)
        ensures
            match result {
                Ok(()) => self.allowed(),
                Err(message) => !self.allowed() && message@ == "invalid app inventory limits"@,
            },
    {
        let d = AppInventoryLimits::default();
        let valid: bool = self.max_candidates > 0 && self.max_candidates <= d.max_candidates
            && self.max_info_plist_bytes > 0 && self.max_info_plist_bytes <= d.max_info_plist_bytes
            && self.max_total_plist_io_bytes > 0 && self.max_total_plist_io_bytes <= d.max_total_plist_io_bytes
            && self.max_plist_objects > 0 && self.max_plist_objects <= d.max_plist_objects
            && self.max_plist_refs_visited > 0 && self.max_plist_refs_visited <= d.max_plist_refs_visited
            && self.max_plist_depth > 0 && self.max_plist_depth <= d.max_plist_depth
            && self.max_xml_nodes > 0 && self.max_xml_nodes <= d.max_xml_nodes
            && self.max_xml_depth > 0 && self.max_xml_depth <= d.max_xml_depth
            && self.max_string_bytes > 0 && self.max_string_bytes <= d.max_string_bytes
            && self.max_retained_string_bytes > 0 && self.max_retained_string_bytes <= d.max_retained_string_bytes
            && self.max_total_retained_metadata_string_bytes > 0 && self.max_total_retained_metadata_string_bytes <= d.max_total_retained_metadata_string_bytes
            && self.max_issues > 0 && self.max_issues <= d.max_issues;
        if valid {
            Ok(())
        } else {
            Err("invalid app inventory limits".to_owned())
        }
    }
}

/// Which metadata an inventory reads.
#[derive(Clone, Copy, Debug, PartialEq, Eq, Structural)]
pub enum AppInventoryMetadataReadMode {
    Baseline,
    AppRelated,
}

/// What the user asked of an inventory.
#[derive(Debug)]
pub struct AppInventoryOptions {
    pub filter: String,
    pub excludes: Vec<Vec<u8>>,
    pub limits: AppInventoryLimits,
    pub metadata_read_mode: AppInventoryMetadataReadMode,
    /// Opt-in read-only running-process attribution by exact executable path.
    pub running_attribution: bool,
}

/// Why something could not be inventoried.
#[derive(Clone, Copy, Debug, PartialEq, Eq, Structural)]
pub enum AppIssueCode {
    InvalidInput,
    CandidateLimit,
    DurationLimit,
    Cancelled,
    UnsupportedPlatform,
    PolicyFailure,
    PermissionDenied,
    NotFound,
    LinkSkipped,
    CloudOrDataless,
    Changed,
    PlistIoLimit,
    PlistSizeLimit,
    UnsupportedPlistFormat,
    MalformedPlist,
    PlistParseLimit,
    InvalidExecutablePath,
    Internal,
}

impl AppIssueCode {
    pub open spec fn name(self) -> Seq<char> {
        match self {
            AppIssueCode::InvalidInput => "invalid_input"@,
            AppIssueCode::CandidateLimit => "candidate_limit"@,
            AppIssueCode::DurationLimit => "duration_limit"@,
            AppIssueCode::Cancelled => "cancelled"@,
            AppIssueCode::UnsupportedPlatform => "unsupported_platform"@,
            AppIssueCode::PolicyFailure => "policy_failure"@,
            AppIssueCode::PermissionDenied => "permission_denied"@,
            AppIssueCode::NotFound => "not_found"@,
            AppIssueCode::LinkSkipped => "link_skipped"@,
            AppIssueCode::CloudOrDataless => "cloud_or_dataless"@,
            AppIssueCode::Changed => "changed_entry"@,
            AppIssueCode::PlistIoLimit => "plist_io_limit"@,
            AppIssueCode::PlistSizeLimit => "plist_size_limit"@,
            AppIssueCode::UnsupportedPlistFormat => "unsupported_plist_format"@,
            AppIssueCode::MalformedPlist => "malformed_plist"@,
            AppIssueCode::PlistParseLimit => "plist_parse_limit"@,
            AppIssueCode::InvalidExecutablePath => "invalid_executable_path"@,
            AppIssueCode::Internal => "internal_error"@,
        }
    }

    pub fn as_str(self) -> (name: &'static str)
        ensures
            name@ == self.name(),
    {
        match self {
            AppIssueCode::InvalidInput => "invalid_input",
            AppIssueCode::CandidateLimit => "candidate_limit",
            AppIssueCode::DurationLimit => "duration_limit",
            AppIssueCode::Cancelled => "cancelled",
            AppIssueCode::UnsupportedPlatform => "unsupported_platform",
            AppIssueCode::PolicyFailure => "policy_failure",
            AppIssueCode::PermissionDenied => "permission_denied",
            AppIssueCode::NotFound => "not_found",
            AppIssueCode::LinkSkipped => "link_skipped",
            AppIssueCode::CloudOrDataless => "cloud_or_dataless",
            AppIssueCode::Changed => "changed_entry",
            AppIssueCode::PlistIoLimit => "plist_io_limit",
            AppIssueCode::PlistSizeLimit => "plist_size_limit",
            AppIssueCode::UnsupportedPlistFormat => "unsupported_plist_format",
            AppIssueCode::MalformedPlist => "malformed_plist",
            AppIssueCode::PlistParseLimit => "plist_parse_limit",
            AppIssueCode::InvalidExecutablePath => "invalid_executable_path",
            AppIssueCode::Internal => "internal_error",
        }
    }
}

/// Something that could not be inventoried.
#[derive(Debug)]
pub struct AppIssue {
    pub path: Option<Vec<u8>>,
    pub code: AppIssueCode,
    pub message: String,
    pub os_code: Option<i32>,
}

/// What was found of a string in a bundle's metadata.
#[derive(Clone, Copy, Debug, PartialEq, Eq, Structural)]
pub enum StringState {
    Present,
    Missing,
    NotString,
    Duplicate,
    TooLong,
}

impl StringState {
    pub open spec fn name(self) -> Seq<char> {
        match self {
            StringState::Present => "present"@,
            StringState::Missing => "missing"@,
            StringState::NotString => "not_string"@,
            StringState::Duplicate => "duplicate"@,
            StringState::TooLong => "too_long"@,
        }
    }

    pub fn as_str(self) -> (name: &'static str)
        ensures
            name@ == self.name(),
    {
        match self {
            StringState::Present => "present",
            StringState::Missing => "missing",
            StringState::NotString => "not_string",
            StringState::Duplicate => "duplicate",
            StringState::TooLong => "too_long",
        }
    }
}

/// A string of a bundle's metadata.
#[derive(Debug)]
pub struct StringField {
    pub state: StringState,
    pub value: Option<String>,
}

/// What a string of a bundle's metadata holds.
#[verifier::ext_equal]
pub struct FieldView {
    pub state: StringState,
    pub value: Option<Seq<char>>,
}

impl View for StringField {
    type V = FieldView;

    open spec fn view(&self) -> FieldView {
        FieldView { state: self.state, value: text::opt_text(self.value) }
    }
}

/// A string that the metadata does not hold.
pub open spec fn absent_field() -> FieldView {
    FieldView { state: StringState::Missing, value: None }
}

impl StringField {
    pub fn missing() -> (field: StringField)
        ensures
            field@ == absent_field(),
    {
        StringField { state: StringState::Missing, value: None }
    }

    pub fn copy(&self) -> (copy: StringField)
        ensures
            copy == *self,
    {
        StringField {
            state: self.state,
            value: match &self.value {
                Some(value) => Some(value.clone()),
                None => None,
            },
        }
    }
}

/// What a bundle declares itself to be.
#[derive(Clone, Copy, Debug, PartialEq, Eq, Structural)]
pub enum AppKind {
    App,
    NonApp,
    Unknown,
}

impl AppKind {
    pub open spec fn name(self) -> Seq<char> {
        match self {
            AppKind::App => "app"@,
            AppKind::NonApp => "non_app"@,
            AppKind::Unknown => "unknown"@,
        }
    }

    pub fn as_str(self) -> (name: &'static str)
        ensures
            name@ == self.name(),
    {
        match self {
            AppKind::App => "app",
            AppKind::NonApp => "non_app",
            AppKind::Unknown => "unknown",
        }
    }
}

/// Where the name shown for a bundle comes from.
#[derive(Clone, Copy, Debug, PartialEq, Eq, Structural)]
pub enum NameSource {
    BundleDisplayName,
    BundleNameFallback,
    BundleFilenameFallback,
}

impl NameSource {
    pub open spec fn name(self) -> Seq<char> {
        match self {
            NameSource::BundleDisplayName => "cf_bundle_display_name"@,
            NameSource::BundleNameFallback => "cf_bundle_name_fallback"@,
            NameSource::BundleFilenameFallback => "bundle_filename_fallback"@,
        }
    }

    pub fn as_str(self) -> (name: &'static str)
        ensures
            name@ == self.name(),
    {
        match self {
            NameSource::BundleDisplayName => "cf_bundle_display_name",
            NameSource::BundleNameFallback => "cf_bundle_name_fallback",
            NameSource::BundleFilenameFallback => "bundle_filename_fallback",
        }
    }
}

/// The format of a property list.
#[derive(Clone, Copy, Debug, PartialEq, Eq, Structural)]
pub enum PlistFormat {
    Xml,
    Binary,
    Unsupported,
}

impl PlistFormat {
    pub open spec fn name(self) -> Seq<char> {
        match self {
            PlistFormat::Xml => "xml"@,
            PlistFormat::Binary => "binary"@,
            PlistFormat::Unsupported => "unsupported"@,
        }
    }

    pub fn as_str(self) -> (name: &'static str)
        ensures
            name@ == self.name(),
    {
        match self {
            PlistFormat::Xml => "xml",
            PlistFormat::Binary => "binary",
            PlistFormat::Unsupported => "unsupported",
        }
    }
}

/// What stands where a bundle says that its executable is.
#[derive(Clone, Copy, Debug, PartialEq, Eq, Structural)]
pub enum PathStatus {
    PresentFile,
    PresentNonFile,
    Missing,
    NotFollowedSymlink,
    InvalidDeclaredPath,
    NotChecked,
}

impl PathStatus {
    pub open spec fn name(self) -> Seq<char> {
        match self {
            PathStatus::PresentFile => "present_file"@,
            PathStatus::PresentNonFile => "present_non_file"@,
            PathStatus::Missing => "missing"@,
            PathStatus::NotFollowedSymlink => "not_followed_symlink"@,
            PathStatus::InvalidDeclaredPath => "invalid_declared_path"@,
            PathStatus::NotChecked => "not_checked"@,
        }
    }

    pub fn as_str(self) -> (name: &'static str)
        ensures
            name@ == self.name(),
    {
        match self {
            PathStatus::PresentFile => "present_file",
            PathStatus::PresentNonFile => "present_non_file",
            PathStatus::Missing => "missing",
            PathStatus::NotFollowedSymlink => "not_followed_symlink",
            PathStatus::InvalidDeclaredPath => "invalid_declared_path",
            PathStatus::NotChecked => "not_checked",
        }
    }
}

/// The executable that a bundle declares.
#[derive(Debug)]
pub struct ExecutableMetadata {
    pub state: StringState,
    pub declared_value: Option<String>,
    pub path_status: PathStatus,
}

/// The executable that a bundle declares.
#[verifier::ext_equal]
pub struct ExecutableView {
    pub state: StringState,
    pub declared: Option<Seq<char>>,
    pub status: PathStatus,
}

impl View for ExecutableMetadata {
    type V = ExecutableView;

    open spec fn view(&self) -> ExecutableView {
        ExecutableView {
            state: self.state,
            declared: text::opt_text(self.declared_value),
            status: self.path_status,
        }
    }
}

/// Read-only observation of whether an app's declared executable is running.
#[derive(Clone, Debug, PartialEq, Eq)]
pub enum RunningObservation {
    /// Attribution was not requested.
    NotChecked,
    /// No trustworthy executable path exists (missing, non-file, link, or
    /// unresolvable); absence of a match is never reported instead.
    NotAttributable(&'static str),
    NotRunning,
    Running(Vec<u32>),
    /// Enumeration failed or was incomplete; not evidence of absence.
    Unknown,
}

/// What was observed of a running executable.
#[verifier::ext_equal]
pub enum RunningView {
    NotChecked,
    NotAttributable(Seq<char>),
    NotRunning,
    Running(Seq<u32>),
    Unknown,
}

impl View for RunningObservation {
    type V = RunningView;

    open spec fn view(&self) -> RunningView {
        match self {
            RunningObservation::NotChecked => RunningView::NotChecked,
            RunningObservation::NotAttributable(reason) => RunningView::NotAttributable(reason@),
            RunningObservation::NotRunning => RunningView::NotRunning,
            RunningObservation::Running(pids) => RunningView::Running(pids@),
            RunningObservation::Unknown => RunningView::Unknown,
        }
    }
}

impl RunningObservation {
    pub open spec fn name(self) -> Seq<char> {
        match self {
            RunningObservation::NotChecked => "not_checked"@,
            RunningObservation::NotAttributable(_) => "not_attributable"@,
            RunningObservation::NotRunning => "not_running"@,
            RunningObservation::Running(_) => "running"@,
            RunningObservation::Unknown => "unknown"@,
        }
    }

    pub fn as_str(&self) -> (name: &'static str)
        ensures
            name@ == self.name(),
    {
        match self {
            RunningObservation::NotChecked => "not_checked",
            RunningObservation::NotAttributable(_) => "not_attributable",
            RunningObservation::NotRunning => "not_running",
            RunningObservation::Running(_) => "running",
            RunningObservation::Unknown => "unknown",
        }
    }
}

/// What is known of one application bundle.
#[derive(Debug)]
pub struct AppRecord {
    pub bundle_path: Vec<u8>,
    pub observed_roots: Vec<Vec<u8>>,
    pub bundle_identity: FileIdentity,
    pub app_kind: AppKind,
    pub parser_format: PlistFormat,
    pub display_name: String,
    pub display_name_source: NameSource,
    pub localized: bool,
    pub bundle_id: StringField,
    pub short_version: StringField,
    pub build_version: StringField,
    pub package_type: StringField,
    pub declared_product_dir_name: StringField,
    pub executable: ExecutableMetadata,
    pub running: RunningObservation,
}

/// What is known of one application bundle.
#[verifier::ext_equal]
pub struct RecordView {
    pub path: Seq<u8>,
    pub roots: Seq<Seq<u8>>,
    pub identity: FileIdentity,
    pub kind: AppKind,
    pub format: PlistFormat,
    pub name: Seq<char>,
    pub source: NameSource,
    pub localized: bool,
    pub bundle_id: FieldView,
    pub short_version: FieldView,
    pub build_version: FieldView,
    pub package_type: FieldView,
    pub product_dir: FieldView,
    pub executable: ExecutableView,
    pub running: RunningView,
}

impl View for AppRecord {
    type V = RecordView;

    open spec fn view(&self) -> RecordView {
        RecordView {
            path: self.bundle_path@,
            roots: crate::path::views(self.observed_roots@),
            identity: self.bundle_identity,
            kind: self.app_kind,
            format: self.parser_format,
            name: self.display_name@,
            source: self.display_name_source,
            localized: self.localized,
            bundle_id: self.bundle_id@,
            short_version: self.short_version@,
            build_version: self.build_version@,
            package_type: self.package_type@,
            product_dir: self.declared_product_dir_name@,
            executable: self.executable@,
            running: self.running@,
        }
    }
}

pub open spec fn record_views(list: Seq<AppRecord>) -> Seq<RecordView> {
    Seq::new(list.len(), |i: int| list[i]@)
}

/// What an inventory counted.
#[derive(Clone, Copy, Debug, PartialEq, Eq, Structural)]
pub struct AppInventoryCounts {
    pub scan_entries: usize,
    pub scan_issues: usize,
    pub named_candidates: usize,
    pub inspected_candidates: usize,
    pub recognized_apps: usize,
    pub unknown: usize,
    pub non_app: usize,
    pub duplicate_identities: usize,
    pub metadata_issues: usize,
}

/// What an inventory spent.
#[derive(Clone, Copy, Debug, PartialEq, Eq, Structural)]
pub struct AppInventoryMetrics {
    pub elapsed_ms: u64,
    pub probe_elapsed_ms: u64,
    pub plist_read_bytes: u64,
    pub retained_metadata_string_bytes: usize,
}

/// How far the scan that an inventory starts from got.
#[derive(Clone, Copy, Debug, PartialEq, Eq, Structural)]
pub enum ScanStatus {
    Complete,
    Partial,
    Cancelled,
    Failed,
}

/// One thing that a scan found.
#[derive(Debug)]
pub struct ScanEntry {
    pub path: Vec<u8>,
    pub kind: ResourceKind,
    pub identity: FileIdentity,
    pub logical_bytes: Option<u64>,
    pub depth: usize,
    /// Whether the content lies in the cloud only.
    pub dataless: bool,
}

/// Something that a scan could not look at.
#[derive(Debug)]
pub struct ScanIssue {
    pub path: Option<Vec<u8>>,
    pub message: String,
}

/// What a scan found below the roots it was given.
#[derive(Debug)]
pub struct ScanReport {
    pub task_id: String,
    pub roots: Vec<Vec<u8>>,
    pub status: ScanStatus,
    pub complete: bool,
    pub entries: Vec<ScanEntry>,
    pub issues: Vec<ScanIssue>,
    pub issues_omitted: usize,
}

/// The applications below the roots of a scan.
#[derive(Debug)]
pub struct AppInventory {
    pub schema_version: u32,
    pub kind: &'static str,
    pub platform: &'static str,
    pub status: AppInventoryStatus,
    pub complete: bool,
    pub effects_performed: bool,
    pub roots: Vec<Vec<u8>>,
    pub filter: String,
    pub excludes: Vec<Vec<u8>>,
    pub scan_task_id: String,
    pub counts: AppInventoryCounts,
    pub apps: Vec<AppRecord>,
    pub scan_issues: Vec<ScanIssue>,
    pub issues: Vec<AppIssue>,
    pub issues_omitted: usize,
    pub metrics: AppInventoryMetrics,
}

/// Honest outcome of the single-bundle identifier observation.
#[derive(Debug)]
pub enum BundleIdentifierRead {
    /// The plist was read and parsed; the field carries the parser's own
    /// verdict (present, missing, not_string, duplicate, too_long).
    Parsed(StringField),
    /// The plist could not be inspected, read or parsed; no identifier is
    /// invented from partial evidence.
    Unreadable(&'static str),
}

} // verus!
