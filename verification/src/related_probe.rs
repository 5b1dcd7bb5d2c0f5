//! Looking for related data on disk.

use crate::app_related;
use crate::app_related::{AppRelatedIssue, RelatedIssueView};
use crate::bundle;
use crate::bundle::{IoFailure, IoKind, RawStat};
use crate::model::{FileIdentity, Host, ResourceKind};
use crate::path;
use crate::probe::Reading;
use crate::text;
use crate::wire;
use vstd::prelude::*;
use vstd::string::*;
use vstd::utf8;

verus! {

/// What a volume that is not acceptable is reported as.
#[derive(Debug)]
pub struct VolumeFault {
    pub code: &'static str,
    pub message: String,
    pub os_code: Option<i32>,
}

/// What came of opening a library root.
#[derive(Debug)]
pub enum RootLook {
    NotOpened(IoFailure),
    /// The volume is not a local internal one.
    Volume(VolumeFault),
    NotStated(IoFailure),
    Held(RawStat),
}

/// A library root that was accepted.
#[derive(Debug)]
pub struct LibraryRoot {
    pub path: Vec<u8>,
    pub identity: FileIdentity,
    pub device: u64,
}

/// What a failed lookup is reported as, if it is worth reporting.
pub open spec fn probe_error(place: Seq<u8>, failure: IoFailure, context: Seq<char>) -> Option<
    RelatedIssueView,
> {
    if failure.kind == IoKind::NotFound || failure.kind == IoKind::Loop {
        None
    } else {
        Some(
            RelatedIssueView {
                path: Some(place),
                code: if failure.kind == IoKind::PermissionDenied {
                    "permission_denied"@
                } else {
                    "probe_failed"@
                },
                message: context + ": "@ + failure.text@,
                os_code: failure.os_code,
            },
        )
    }
}

/// What a failed system call is reported as.
pub open spec fn errno_issue(
    place: Seq<u8>,
    failure: IoFailure,
    context: Seq<char>,
) -> RelatedIssueView {
    match probe_error(place, failure, context) {
        Some(issue) => issue,
        None => RelatedIssueView {
            path: Some(place),
            code: if failure.kind == IoKind::Loop {
                "not_followed_symlink"@
            } else {
                "probe_failed"@
            },
            message: context + ": "@ + failure.text@,
            os_code: failure.os_code,
        },
    }
}

pub open spec fn opt_issue(issue: Option<AppRelatedIssue>) -> Option<RelatedIssueView> {
    match issue {
        Some(issue) => Some(issue@),
        None => None,
    }
}

/// What a failed lookup is reported as, if it is worth reporting.
pub fn issue_for_probe_error(place: &[u8], failure: &IoFailure, context: &str) -> (issue: Option<
    AppRelatedIssue,
>)
    ensures
        opt_issue(issue) == probe_error(place@, *failure, context@),
{
    let code: &'static str = match failure.kind {
        IoKind::NotFound => {
            return None;
        },
        IoKind::Loop => {
            return None;
        },
        IoKind::PermissionDenied => "permission_denied",
        IoKind::Other => "probe_failed",
    };
    Some(
        AppRelatedIssue {
            path: Some(text::copy_bytes(place)),
            code,
            message: text::concat3(context, ": ", failure.text.as_str()),
            os_code: failure.os_code,
        },
    )
}

/// What a failed system call is reported as.
pub fn issue_for_errno(place: &[u8], failure: &IoFailure, context: &str) -> (issue: AppRelatedIssue)
    ensures
        issue@ == errno_issue(place@, *failure, context@),
{
    match issue_for_probe_error(place, failure, context) {
        Some(issue) => issue,
        None => AppRelatedIssue {
            path: Some(text::copy_bytes(place)),
            code: match failure.kind {
                IoKind::Loop => "not_followed_symlink",
                _ => "probe_failed",
            },
            message: text::concat3(context, ": ", failure.text.as_str()),
            os_code: failure.os_code,
        },
    }
}

/// What a lookup that failed says of a candidate.
pub open spec fn failed_state(kind: IoKind, leaf: bool) -> Seq<char> {
    match kind {
        IoKind::NotFound => "missing"@,
        IoKind::Loop => "not_followed_symlink"@,
        IoKind::PermissionDenied => "permission_denied"@,
        IoKind::Other => if leaf {
            "probe_failed"@
        } else {
            "not_followed_symlink"@
        },
    }
}

/// What a lookup that failed says of a candidate.
pub fn map_probe_errno(kind: IoKind, leaf: bool) -> (state: &'static str)
    ensures
        state@ == failed_state(kind, leaf),
{
    match kind {
        IoKind::NotFound => "missing",
        IoKind::Loop => "not_followed_symlink",
        IoKind::PermissionDenied => "permission_denied",
        IoKind::Other => if leaf {
            "probe_failed"
        } else {
            "not_followed_symlink"
        },
    }
}

/// What a volume that is not acceptable is reported as.
pub open spec fn volume_issue(
    place: Seq<u8>,
    context: Seq<char>,
    found: VolumeFault,
) -> RelatedIssueView {
    RelatedIssueView {
        path: Some(place),
        code: found.code@,
        message: context + ": "@ + found.message@,
        os_code: found.os_code,
    }
}

/// What a volume that is not acceptable is reported as.
pub fn issue_from_scan_error(place: &[u8], context: &str, found: &VolumeFault) -> (issue:
    AppRelatedIssue)
    ensures
        issue@ == volume_issue(place@, context@, *found),
{
    AppRelatedIssue {
        path: Some(text::copy_bytes(place)),
        code: found.code,
        message: text::concat3(context, ": ", found.message.as_str()),
        os_code: found.os_code,
    }
}

/// The read-only policy could not be entered or left.
#[derive(Debug)]
pub struct PolicyFailure {
    pub text: String,
    pub os_code: Option<i32>,
}

/// The first of two system error codes that is there.
pub open spec fn first_code(a: Option<i32>, b: Option<i32>) -> Option<i32> {
    match a {
        Some(code) => Some(code),
        None => b,
    }
}

fn either_code(a: Option<i32>, b: Option<i32>) -> (code: Option<i32>)
    ensures
        code == first_code(a, b),
{
    match a {
        Some(code) => Some(code),
        None => b,
    }
}

/// How a policy that could not be entered is reported.
pub open spec fn setup_issue(place: Seq<u8>, failure: PolicyFailure) -> RelatedIssueView {
    RelatedIssueView {
        path: Some(place),
        code: "policy_failure"@,
        message: "read-only policy setup failed: "@ + failure.text@,
        os_code: failure.os_code,
    }
}

fn report_setup(place: &[u8], failure: &PolicyFailure) -> (issue: AppRelatedIssue)
    ensures
        issue@ == setup_issue(place@, *failure),
{
    AppRelatedIssue {
        path: Some(text::copy_bytes(place)),
        code: "policy_failure",
        message: text::concat("read-only policy setup failed: ", failure.text.as_str()),
        os_code: failure.os_code,
    }
}

/// How a policy that could not be left is reported, with what had gone wrong before.
pub open spec fn restore_issue(
    place: Seq<u8>,
    phase: Seq<char>,
    failure: PolicyFailure,
    primary: Option<RelatedIssueView>,
) -> RelatedIssueView {
    let text = "read-only policy restore failed after "@ + phase + ": "@ + failure.text@;
    match primary {
        None => RelatedIssueView {
            path: Some(place),
            code: "policy_failure"@,
            message: text,
            os_code: failure.os_code,
        },
        Some(issue) => RelatedIssueView {
            path: match issue.path {
                Some(other) => Some(other),
                None => Some(place),
            },
            code: "policy_failure"@,
            message: text + "; prior "@ + issue.code + ": "@ + issue.message,
            os_code: first_code(failure.os_code, issue.os_code),
        },
    }
}

fn report_restore(
    place: &[u8],
    phase: &str,
    failure: &PolicyFailure,
    primary: Option<AppRelatedIssue>,
) -> (issue: AppRelatedIssue)
    ensures
        issue@ == restore_issue(place@, phase@, *failure, opt_issue(primary)),
{
    let start = text::concat3("read-only policy restore failed after ", phase, ": ");
    let mut message = text::concat(start.as_str(), failure.text.as_str());
    match primary {
        None => AppRelatedIssue {
            path: Some(text::copy_bytes(place)),
            code: "policy_failure",
            message,
            os_code: failure.os_code,
        },
        Some(issue) => {
            message.append("; prior ");
            message.append(issue.code);
            message.append(": ");
            message.append(issue.message.as_str());
            AppRelatedIssue {
                path: match issue.path {
                    Some(other) => Some(other),
                    None => Some(text::copy_bytes(place)),
                },
                code: "policy_failure",
                message,
                os_code: either_code(failure.os_code, issue.os_code),
            }
        },
    }
}

/// A probe's outcome, when the read-only policy has been left or could not be.
pub open spec fn outcome_after_policy(
    place: Seq<u8>,
    state: Seq<char>,
    issue: Option<RelatedIssueView>,
    restored: Result<(), PolicyFailure>,
) -> (Seq<char>, Option<RelatedIssueView>) {
    match restored {
        Ok(()) => (state, issue),
        Err(failure) => ("probe_failed"@, Some(restore_issue(place, state, failure, issue))),
    }
}

/// A probe's outcome, when the read-only policy has been left or could not be: a failure to
/// leave it overrides what was found, and keeps what had gone wrong before.
pub fn finalize_policy_outcome(
    place: &[u8],
    state: &'static str,
    issue: Option<AppRelatedIssue>,
    restored: &Result<(), PolicyFailure>,
) -> (outcome: (&'static str, Option<AppRelatedIssue>))
    ensures
        (outcome.0@, opt_issue(outcome.1)) == outcome_after_policy(
            place@,
            state@,
            opt_issue(issue),
            *restored,
        ),
{
    match restored {
        Ok(()) => (state, issue),
        Err(failure) => ("probe_failed", Some(report_restore(place, state, failure, issue))),
    }
}

/// Why a root that was accepted is not what it was.
pub open spec fn root_change(
    expected_identity: FileIdentity,
    expected_device: u64,
    observed_identity: FileIdentity,
    observed_device: u64,
    is_directory: bool,
    dataless: bool,
) -> Option<Seq<char>> {
    if observed_identity != expected_identity || observed_device != expected_device {
        Some("validated library root identity changed; refresh required"@)
    } else if !is_directory || dataless {
        Some("validated library root is no longer a materialized directory"@)
    } else {
        None
    }
}

/// Whether a root that was accepted is what it was.
pub fn validate_root_observation(
    expected_identity: FileIdentity,
    expected_device: u64,
    observed_identity: FileIdentity,
    observed_device: u64,
    is_directory: bool,
    dataless: bool,
) -> (result: Result<(), &'static str>)
    ensures
        match result {
            Ok(()) => root_change(
                expected_identity,
                expected_device,
                observed_identity,
                observed_device,
                is_directory,
                dataless,
            ) is None,
            Err(message) => root_change(
                expected_identity,
                expected_device,
                observed_identity,
                observed_device,
                is_directory,
                dataless,
            ) == Some(message@),
        },
{
    if observed_identity != expected_identity || observed_device != expected_device {
        return Err("validated library root identity changed; refresh required");
    }
    if !is_directory || dataless {
        return Err("validated library root is no longer a materialized directory");
    }
    Ok(())
}

/// Who an object is.
pub open spec fn identity_of(raw: RawStat) -> FileIdentity {
    FileIdentity::Unix { device: raw.device, inode: raw.inode }
}

/// Why the path of a root does not lead to the root that was accepted.
pub open spec fn mapping_issue(root: LibraryRoot, look: RootLook) -> Option<RelatedIssueView> {
    match look {
        RootLook::NotOpened(failure) => Some(
            errno_issue(root.path@, failure, "reopen library root"@),
        ),
        RootLook::Volume(found) => Some(
            volume_issue(root.path@, "revalidate root volume"@, found),
        ),
        RootLook::NotStated(failure) => Some(
            errno_issue(root.path@, failure, "restat library root"@),
        ),
        RootLook::Held(raw) => match root_change(
            root.identity,
            root.device,
            identity_of(raw),
            raw.device,
            raw.kind() == ResourceKind::Directory,
            raw.is_dataless(),
        ) {
            Some(message) => Some(
                app_related::plain_issue(Some(root.path@), "changed_root_identity"@, message),
            ),
            None => None,
        },
    }
}

fn kind_of(raw: RawStat) -> (kind: ResourceKind)
    ensures
        kind == raw.kind(),
{
    let bits: u32 = raw.mode & bundle::KIND_MASK;
    if bits == bundle::KIND_FILE {
        ResourceKind::File
    } else if bits == bundle::KIND_DIRECTORY {
        ResourceKind::Directory
    } else if bits == bundle::KIND_LINK {
        ResourceKind::Link
    } else {
        ResourceKind::Other
    }
}

/// Whether the path of a root leads to the root that was accepted.
pub fn verify_root_mapping(root: &LibraryRoot, look: &RootLook) -> (issue: Option<AppRelatedIssue>)
    ensures
        opt_issue(issue) == mapping_issue(*root, *look),
{
    let place = root.path.as_slice();
    match look {
        RootLook::NotOpened(failure) => Some(issue_for_errno(place, failure, "reopen library root")),
        RootLook::Volume(found) => Some(
            issue_from_scan_error(place, "revalidate root volume", found),
        ),
        RootLook::NotStated(failure) => Some(issue_for_errno(place, failure, "restat library root")),
        RootLook::Held(raw) => {
            let directory: bool = match kind_of(*raw) {
                ResourceKind::Directory => true,
                _ => false,
            };
            match validate_root_observation(
                root.identity,
                root.device,
                FileIdentity::Unix { device: raw.device, inode: raw.inode },
                raw.device,
                directory,
                bundle::dataless(*raw),
            ) {
                Ok(()) => None,
                Err(message) => Some(
                    app_related::issue(
                        Some(text::copy_bytes(place)),
                        "changed_root_identity",
                        message,
                    ),
                ),
            }
        },
    }
}

/// What comes of opening a library root under a policy that is in force.
pub open spec fn opened_root(place: Seq<u8>, look: RootLook) -> Result<
    (FileIdentity, u64),
    RelatedIssueView,
> {
    match look {
        RootLook::NotOpened(failure) => Err(errno_issue(place, failure, "open library root"@)),
        RootLook::Volume(found) => Err(
            volume_issue(place, "validate library root volume"@, found),
        ),
        RootLook::NotStated(failure) => Err(errno_issue(place, failure, "stat library root"@)),
        RootLook::Held(raw) => if raw.kind() != ResourceKind::Directory || raw.is_dataless() {
            Err(
                app_related::plain_issue(
                    Some(place),
                    "invalid_root"@,
                    "library root must be an existing materialized directory"@,
                ),
            )
        } else {
            Ok((identity_of(raw), raw.device))
        },
    }
}

/// What comes of opening a library root.
pub open spec fn library_root(
    host: Host,
    place: Seq<u8>,
    entered: Result<(), PolicyFailure>,
    look: RootLook,
    restored: Result<(), PolicyFailure>,
) -> Result<(FileIdentity, u64), RelatedIssueView> {
    if host != Host::MacOs {
        Err(
            app_related::plain_issue(
                Some(place),
                "unsupported_platform"@,
                "native app-related probing is unavailable on this platform"@,
            ),
        )
    } else {
        match entered {
            Err(failure) => Err(setup_issue(place, failure)),
            Ok(()) => match (opened_root(place, look), restored) {
                (Ok(root), Ok(())) => Ok(root),
                (Err(issue), Ok(())) => Err(issue),
                (Ok(_), Err(failure)) => Err(
                    restore_issue(place, "library root validation"@, failure, None),
                ),
                (Err(issue), Err(failure)) => Err(
                    restore_issue(place, "library root validation"@, failure, Some(issue)),
                ),
            },
        }
    }
}

/// What came of opening a library root, all of it.
#[derive(Debug)]
pub struct OpenRootLook {
    pub entered: Result<(), PolicyFailure>,
    pub root: RootLook,
    pub restored: Result<(), PolicyFailure>,
}

fn accept_root(place: &[u8], look: &RootLook) -> (result: Result<LibraryRoot, AppRelatedIssue>)
    ensures
        match result {
            Ok(root) => root.path@ == place@ && opened_root(place@, *look) == Ok::<
                (FileIdentity, u64),
                RelatedIssueView,
            >((root.identity, root.device)),
            Err(issue) => opened_root(place@, *look) == Err::<
                (FileIdentity, u64),
                RelatedIssueView,
            >(issue@),
        },
{
    match look {
        RootLook::NotOpened(failure) => Err(issue_for_errno(place, failure, "open library root")),
        RootLook::Volume(found) => Err(
            issue_from_scan_error(place, "validate library root volume", found),
        ),
        RootLook::NotStated(failure) => Err(issue_for_errno(place, failure, "stat library root")),
        RootLook::Held(raw) => {
            let directory: bool = match kind_of(*raw) {
                ResourceKind::Directory => true,
                _ => false,
            };
            if !directory || bundle::dataless(*raw) {
                return Err(
                    app_related::issue(
                        Some(text::copy_bytes(place)),
                        "invalid_root",
                        "library root must be an existing materialized directory",
                    ),
                );
            }
            Ok(
                LibraryRoot {
                    path: text::copy_bytes(place),
                    identity: FileIdentity::Unix { device: raw.device, inode: raw.inode },
                    device: raw.device,
                },
            )
        },
    }
}

/// What comes of opening a library root.
pub fn open_library_root(host: Host, place: &[u8], look: &OpenRootLook) -> (result: Result<
    LibraryRoot,
    AppRelatedIssue,
>)
    ensures
        match result {
            Ok(root) => root.path@ == place@ && library_root(
                host,
                place@,
                look.entered,
                look.root,
                look.restored,
            ) == Ok::<(FileIdentity, u64), RelatedIssueView>((root.identity, root.device)),
            Err(issue) => library_root(host, place@, look.entered, look.root, look.restored)
                == Err::<(FileIdentity, u64), RelatedIssueView>(issue@),
        },
{
    if host != Host::MacOs {
        return Err(
            app_related::issue(
                Some(text::copy_bytes(place)),
                "unsupported_platform",
                "native app-related probing is unavailable on this platform",
            ),
        );
    }
    if let Err(failure) = &look.entered {
        return Err(report_setup(place, failure));
    }
    match (accept_root(place, &look.root), &look.restored) {
        (Ok(root), Ok(())) => Ok(root),
        (Err(issue), Ok(())) => Err(issue),
        (Ok(_), Err(failure)) => Err(
            report_restore(place, "library root validation", failure, None),
        ),
        (Err(issue), Err(failure)) => Err(
            report_restore(place, "library root validation", failure, Some(issue)),
        ),
    }
}

/// What an object on the way to a candidate is.
#[derive(Clone, Copy, Debug, PartialEq, Eq, Structural)]
pub struct IntermediateObservation {
    pub identity: FileIdentity,
    pub device: u64,
    pub kind: ResourceKind,
    pub dataless: bool,
}

/// Why a directory that was opened is not the one that was looked at.
#[derive(Clone, Copy, Debug, PartialEq, Eq, Structural)]
pub enum IntermediateOpenError {
    Dataless,
    NotDirectory,
    MountBoundary,
    MappingChanged,
}

/// Why a directory that was opened is not the one that was looked at.
pub open spec fn intermediate_fault(
    prior: IntermediateObservation,
    opened: IntermediateObservation,
    root_device: u64,
) -> Option<IntermediateOpenError> {
    if opened.dataless {
        Some(IntermediateOpenError::Dataless)
    } else if opened.kind != ResourceKind::Directory {
        Some(IntermediateOpenError::NotDirectory)
    } else if opened.device != root_device {
        Some(IntermediateOpenError::MountBoundary)
    } else if prior.identity != opened.identity || prior.device != opened.device || prior.kind
        != opened.kind {
        Some(IntermediateOpenError::MappingChanged)
    } else {
        None
    }
}

/// Whether a directory that was opened is the one that was looked at.
pub fn validate_opened_intermediate_observation(
    prior: IntermediateObservation,
    opened: IntermediateObservation,
    root_device: u64,
) -> (result: Result<(), IntermediateOpenError>)
    ensures
        match result {
            Ok(()) => intermediate_fault(prior, opened, root_device) is None,
            Err(found) => intermediate_fault(prior, opened, root_device) == Some(found),
        },
{
    if opened.dataless {
        return Err(IntermediateOpenError::Dataless);
    }
    if opened.kind != ResourceKind::Directory {
        return Err(IntermediateOpenError::NotDirectory);
    }
    if opened.device != root_device {
        return Err(IntermediateOpenError::MountBoundary);
    }
    if prior.identity != opened.identity || prior.device != opened.device || prior.kind
        != opened.kind {
        return Err(IntermediateOpenError::MappingChanged);
    }
    Ok(())
}

pub open spec fn observation_of(raw: RawStat) -> IntermediateObservation {
    IntermediateObservation {
        identity: identity_of(raw),
        device: raw.device,
        kind: raw.kind(),
        dataless: raw.is_dataless(),
    }
}

fn observe(raw: RawStat) -> (observation: IntermediateObservation)
    ensures
        observation == observation_of(raw),
{
    IntermediateObservation {
        identity: FileIdentity::Unix { device: raw.device, inode: raw.inode },
        device: raw.device,
        kind: kind_of(raw),
        dataless: bundle::dataless(raw),
    }
}

pub open spec fn device_issue(place: Seq<u8>) -> RelatedIssueView {
    app_related::plain_issue(
        Some(place),
        "mount_boundary"@,
        "candidate crossed mount boundary below validated Library root"@,
    )
}

pub open spec fn dataless_issue(place: Seq<u8>) -> RelatedIssueView {
    app_related::plain_issue(
        Some(place),
        "cloud_or_dataless"@,
        "candidate is cloud/dataless and was not materialized"@,
    )
}

/// How a directory that is not the one that was looked at is reported.
pub open spec fn intermediate_issue(place: Seq<u8>, found: IntermediateOpenError) -> RelatedIssueView {
    match found {
        IntermediateOpenError::Dataless => dataless_issue(place),
        IntermediateOpenError::NotDirectory => app_related::plain_issue(
            Some(place),
            "probe_failed"@,
            "opened intermediate candidate path is not a directory"@,
        ),
        IntermediateOpenError::MountBoundary => device_issue(place),
        IntermediateOpenError::MappingChanged => app_related::plain_issue(
            Some(place),
            "probe_failed"@,
            "intermediate candidate mapping changed before open; refresh required"@,
        ),
    }
}

fn report_intermediate(place: &[u8], found: IntermediateOpenError) -> (issue: AppRelatedIssue)
    ensures
        issue@ == intermediate_issue(place@, found),
{
    let here = Some(text::copy_bytes(place));
    match found {
        IntermediateOpenError::Dataless => app_related::issue(
            here,
            "cloud_or_dataless",
            "candidate is cloud/dataless and was not materialized",
        ),
        IntermediateOpenError::NotDirectory => app_related::issue(
            here,
            "probe_failed",
            "opened intermediate candidate path is not a directory",
        ),
        IntermediateOpenError::MountBoundary => app_related::issue(
            here,
            "mount_boundary",
            "candidate crossed mount boundary below validated Library root",
        ),
        IntermediateOpenError::MappingChanged => app_related::issue(
            here,
            "probe_failed",
            "intermediate candidate mapping changed before open; refresh required",
        ),
    }
}

/// What came of one name on the way to a candidate. A directory is opened only where
/// another name follows.
#[derive(Debug)]
pub struct StepLook {
    pub stat: Result<RawStat, IoFailure>,
    pub opened: Result<(), IoFailure>,
    pub opened_stat: Result<RawStat, IoFailure>,
}

/// What a step on the way to a candidate comes to: on to the next name, or the candidate's
/// state.
pub open spec fn step_outcome(
    place: Seq<u8>,
    device: u64,
    look: StepLook,
    leaf: bool,
) -> Option<(Seq<char>, Option<RelatedIssueView>)> {
    match look.stat {
        Err(failure) => Some(
            (
                failed_state(failure.kind, leaf),
                probe_error(place, failure, "stat candidate"@),
            ),
        ),
        Ok(raw) => if raw.kind() == ResourceKind::Link {
            Some(("not_followed_symlink"@, None))
        } else if raw.is_dataless() {
            Some(("probe_failed"@, Some(dataless_issue(place))))
        } else if raw.device != device {
            Some(("probe_failed"@, Some(device_issue(place))))
        } else if leaf {
            Some(
                (
                    match raw.kind() {
                        ResourceKind::Directory => "present_directory"@,
                        ResourceKind::File => "present_file"@,
                        _ => "present_other"@,
                    },
                    None,
                ),
            )
        } else if raw.kind() != ResourceKind::Directory {
            Some(
                (
                    "probe_failed"@,
                    Some(
                        app_related::plain_issue(
                            Some(place),
                            "probe_failed"@,
                            "intermediate candidate path is not a directory"@,
                        ),
                    ),
                ),
            )
        } else {
            match look.opened {
                Err(failure) => Some(
                    (
                        failed_state(failure.kind, false),
                        probe_error(place, failure, "open intermediate path"@),
                    ),
                ),
                Ok(()) => match look.opened_stat {
                    Err(failure) => Some(
                        (
                            "probe_failed"@,
                            Some(errno_issue(place, failure, "stat opened intermediate path"@)),
                        ),
                    ),
                    Ok(opened) => match intermediate_fault(
                        observation_of(raw),
                        observation_of(opened),
                        device,
                    ) {
                        Some(found) => Some(
                            ("probe_failed"@, Some(intermediate_issue(place, found))),
                        ),
                        None => None,
                    },
                },
            }
        },
    }
}

pub open spec fn outcome_view(outcome: Option<(&'static str, Option<AppRelatedIssue>)>) -> Option<
    (Seq<char>, Option<RelatedIssueView>),
> {
    match outcome {
        Some((state, issue)) => Some((state@, opt_issue(issue))),
        None => None,
    }
}

fn take_step(place: &[u8], device: u64, look: &StepLook, leaf: bool) -> (outcome: Option<
    (&'static str, Option<AppRelatedIssue>),
>)
    ensures
        outcome_view(outcome) == step_outcome(place@, device, *look, leaf),
{
    let raw: RawStat = match &look.stat {
        Err(failure) => {
            return Some(
                (
                    map_probe_errno(failure.kind, leaf),
                    issue_for_probe_error(place, failure, "stat candidate"),
                ),
            );
        },
        Ok(raw) => *raw,
    };
    let kind: ResourceKind = kind_of(raw);
    if kind == ResourceKind::Link {
        return Some(("not_followed_symlink", None));
    }
    if bundle::dataless(raw) {
        return Some(
            ("probe_failed", Some(report_intermediate(place, IntermediateOpenError::Dataless))),
        );
    }
    if raw.device != device {
        return Some(
            ("probe_failed", Some(report_intermediate(place, IntermediateOpenError::MountBoundary))),
        );
    }
    if leaf {
        let state: &'static str = match kind {
            ResourceKind::Directory => "present_directory",
            ResourceKind::File => "present_file",
            _ => "present_other",
        };
        return Some((state, None));
    }
    if kind != ResourceKind::Directory {
        return Some(
            (
                "probe_failed",
                Some(
                    app_related::issue(
                        Some(text::copy_bytes(place)),
                        "probe_failed",
                        "intermediate candidate path is not a directory",
                    ),
                ),
            ),
        );
    }
    if let Err(failure) = &look.opened {
        return Some(
            (
                map_probe_errno(failure.kind, false),
                issue_for_probe_error(place, failure, "open intermediate path"),
            ),
        );
    }
    let opened: RawStat = match &look.opened_stat {
        Err(failure) => {
            return Some(
                (
                    "probe_failed",
                    Some(issue_for_errno(place, failure, "stat opened intermediate path")),
                ),
            );
        },
        Ok(opened) => *opened,
    };
    match validate_opened_intermediate_observation(observe(raw), observe(opened), device) {
        Ok(()) => None,
        Err(found) => Some(("probe_failed", Some(report_intermediate(place, found)))),
    }
}

/// What came of probing a candidate. Nothing is looked at behind what decides.
#[derive(Debug)]
pub struct ProbeLook {
    pub reading: Reading,
    pub entered: Result<(), PolicyFailure>,
    /// The root, before the first name is looked up.
    pub before: RootLook,
    /// What came of duplicating the root's handle.
    pub handle: Result<(), IoFailure>,
    /// One look for each name on the way.
    pub steps: Vec<StepLook>,
    /// The root, after the last name was found.
    pub found: RootLook,
    /// The root, at the end.
    pub after: RootLook,
    pub restored: Result<(), PolicyFailure>,
}

/// Whether a relative path can be walked name by name.
pub open spec fn walkable(relative: Seq<char>) -> bool {
    let bytes = utf8::encode_utf8(relative);
    !path::is_absolute(bytes) && !wire::wanders(bytes)
}

/// The names of a relative path.
pub open spec fn names_of(relative: Seq<char>) -> Seq<Seq<u8>> {
    path::components(utf8::encode_utf8(relative))
}

/// What walking to a candidate comes to, from one name on.
pub open spec fn walked(
    place: Seq<u8>,
    root: LibraryRoot,
    look: ProbeLook,
    count: int,
    at: int,
) -> (Seq<char>, Option<RelatedIssueView>)
    decreases count - at,
{
    if at >= count {
        ("missing"@, None)
    } else {
        match step_outcome(place, root.device, look.steps@[at], at + 1 == count) {
            None => walked(place, root, look, count, at + 1),
            Some((state, issue)) => if at + 1 == count && look.steps@[at].stat is Ok && issue
                is None && state != "not_followed_symlink"@ {
                match mapping_issue(root, look.found) {
                    Some(changed) => ("probe_failed"@, Some(changed)),
                    None => (state, issue),
                }
            } else {
                (state, issue)
            },
        }
    }
}

/// What a probe finds, before the root is looked at for the last time.
pub open spec fn found_at(
    place: Seq<u8>,
    relative: Seq<char>,
    root: LibraryRoot,
    look: ProbeLook,
) -> (Seq<char>, Option<RelatedIssueView>) {
    if !walkable(relative) {
        (
            "probe_failed"@,
            Some(
                app_related::plain_issue(
                    Some(place),
                    "invalid_input"@,
                    "invalid candidate relative path component"@,
                ),
            ),
        )
    } else {
        match mapping_issue(root, look.before) {
            Some(changed) => ("probe_failed"@, Some(changed)),
            None => match look.handle {
                Err(failure) => (
                    "probe_failed"@,
                    Some(
                        RelatedIssueView {
                            path: Some(place),
                            code: "probe_failed"@,
                            message: "duplicate root handle failed: "@ + failure.text@,
                            os_code: failure.os_code,
                        },
                    ),
                ),
                Ok(()) => if names_of(relative).len() == 0 {
                    ("present_directory"@, None)
                } else {
                    walked(place, root, look, names_of(relative).len() as int, 0)
                },
            },
        }
    }
}

/// A changed root overrides what a probe found, and keeps what had gone wrong before.
pub open spec fn after_root(
    outcome: (Seq<char>, Option<RelatedIssueView>),
    changed: Option<RelatedIssueView>,
) -> (Seq<char>, Option<RelatedIssueView>) {
    match changed {
        None => outcome,
        Some(root_issue) => (
            "probe_failed"@,
            Some(
                match outcome.1 {
                    None => root_issue,
                    Some(primary) => RelatedIssueView {
                        path: root_issue.path,
                        code: root_issue.code,
                        message: root_issue.message + "; prior "@ + primary.code + ": "@
                            + primary.message,
                        os_code: first_code(root_issue.os_code, primary.os_code),
                    },
                },
            ),
        ),
    }
}

/// What a probe finds of a candidate.
pub open spec fn probed(
    host: Host,
    place: Seq<u8>,
    relative: Seq<char>,
    root: LibraryRoot,
    look: ProbeLook,
) -> (Seq<char>, Option<RelatedIssueView>) {
    if look.reading.cancelled {
        (
            "probe_failed"@,
            Some(app_related::plain_issue(Some(place), "cancelled"@, "probe cancelled"@)),
        )
    } else if look.reading.elapsed_nanos >= look.reading.budget_nanos {
        (
            "probe_failed"@,
            Some(
                app_related::plain_issue(
                    Some(place),
                    "duration_limit"@,
                    "probe budget exhausted"@,
                ),
            ),
        )
    } else if host != Host::MacOs {
        ("probe_failed"@, None)
    } else {
        match look.entered {
            Err(failure) => ("probe_failed"@, Some(setup_issue(place, failure))),
            Ok(()) => {
                let (state, issue) = after_root(
                    found_at(place, relative, root, look),
                    mapping_issue(root, look.after),
                );
                outcome_after_policy(place, state, issue, look.restored)
            },
        }
    }
}

/// The names of a relative path, if it can be walked name by name.
pub fn relative_components(relative: &str) -> (names: Option<Vec<Vec<u8>>>)
    ensures
        match names {
            Some(names) => walkable(relative@) && path::views(names@) == names_of(relative@),
            None => !walkable(relative@),
        },
{
    let bytes = relative.as_bytes();
    if path::absolute(bytes) || wire::find_wandering(bytes) {
        return None;
    }
    Some(path::split(bytes))
}

fn walk(place: &[u8], root: &LibraryRoot, look: &ProbeLook, count: usize) -> (outcome: (
    &'static str,
    Option<AppRelatedIssue>,
))
    requires
        look.steps@.len() == count,
    ensures
        (outcome.0@, opt_issue(outcome.1)) == walked(place@, *root, *look, count as int, 0),
{
    let mut at: usize = 0;
    while at < count
        invariant
            0 <= at <= count,
            look.steps@.len() == count,
            walked(place@, *root, *look, count as int, 0) == walked(
                place@,
                *root,
                *look,
                count as int,
                at as int,
            ),
        decreases count - at,
    {
        let leaf: bool = at + 1 == count;
        match take_step(place, root.device, &look.steps[at], leaf) {
            None => {},
            Some((state, issue)) => {
                if leaf && look.steps[at].stat.is_ok() && issue.is_none() && !text::text_eq(
                    state,
                    "not_followed_symlink",
                ) {
                    return match verify_root_mapping(root, &look.found) {
                        Some(changed) => ("probe_failed", Some(changed)),
                        None => (state, issue),
                    };
                }
                return (state, issue);
            },
        }
        at += 1;
    }
    ("missing", None)
}

fn find_candidate(place: &[u8], relative: &str, root: &LibraryRoot, look: &ProbeLook) -> (outcome: (
    &'static str,
    Option<AppRelatedIssue>,
))
    requires
        look.steps@.len() == names_of(relative@).len(),
    ensures
        (outcome.0@, opt_issue(outcome.1)) == found_at(place@, relative@, *root, *look),
{
    let names: Vec<Vec<u8>> = match relative_components(relative) {
        Some(names) => names,
        None => {
            return (
                "probe_failed",
                Some(
                    app_related::issue(
                        Some(text::copy_bytes(place)),
                        "invalid_input",
                        "invalid candidate relative path component",
                    ),
                ),
            );
        },
    };
    assert(path::views(names@).len() == names@.len());
    if let Some(changed) = verify_root_mapping(root, &look.before) {
        return ("probe_failed", Some(changed));
    }
    if let Err(failure) = &look.handle {
        return (
            "probe_failed",
            Some(
                AppRelatedIssue {
                    path: Some(text::copy_bytes(place)),
                    code: "probe_failed",
                    message: text::concat("duplicate root handle failed: ", failure.text.as_str()),
                    os_code: failure.os_code,
                },
            ),
        );
    }
    if names.len() == 0 {
        return ("present_directory", None);
    }
    walk(place, root, look, names.len())
}

/// What a probe finds of a candidate.
pub fn probe_candidate_path(
    host: Host,
    place: &[u8],
    relative: &str,
    root: &LibraryRoot,
    look: &ProbeLook,
) -> (outcome: (&'static str, Option<AppRelatedIssue>))
    requires
        look.steps@.len() == names_of(relative@).len(),
    ensures
        (outcome.0@, opt_issue(outcome.1)) == probed(host, place@, relative@, *root, *look),
{
    if look.reading.cancelled {
        return (
            "probe_failed",
            Some(
                app_related::issue(Some(text::copy_bytes(place)), "cancelled", "probe cancelled"),
            ),
        );
    }
    if look.reading.elapsed_nanos >= look.reading.budget_nanos {
        return (
            "probe_failed",
            Some(
                app_related::issue(
                    Some(text::copy_bytes(place)),
                    "duration_limit",
                    "probe budget exhausted",
                ),
            ),
        );
    }
    if host != Host::MacOs {
        return ("probe_failed", None);
    }
    if let Err(failure) = &look.entered {
        return ("probe_failed", Some(report_setup(place, failure)));
    }
    let (state, issue) = find_candidate(place, relative, root, look);
    match verify_root_mapping(root, &look.after) {
        None => finalize_policy_outcome(place, state, issue, &look.restored),
        Some(root_issue) => {
            let changed: AppRelatedIssue = match issue {
                None => root_issue,
                Some(primary) => {
                    let mut message: String = root_issue.message;
                    message.append("; prior ");
                    message.append(primary.code);
                    message.append(": ");
                    message.append(primary.message.as_str());
                    AppRelatedIssue {
                        path: root_issue.path,
                        code: root_issue.code,
                        message,
                        os_code: either_code(root_issue.os_code, primary.os_code),
                    }
                },
            };
            finalize_policy_outcome(place, "probe_failed", Some(changed), &look.restored)
        },
    }
}

/// A candidate is only said to be present while its root is the one that was accepted, from
/// before the first lookup to after the last.
pub proof fn presence_rests_on_the_accepted_root(
    place: Seq<u8>,
    relative: Seq<char>,
    root: LibraryRoot,
    look: ProbeLook,
)
    requires
        probed(Host::MacOs, place, relative, root, look).0 == "present_directory"@
            || probed(Host::MacOs, place, relative, root, look).0 == "present_file"@,
    ensures
        mapping_issue(root, look.before) is None,
        mapping_issue(root, look.after) is None,
        look.entered is Ok,
        look.restored is Ok,
{
    reveal_strlit("present_directory");
    reveal_strlit("present_file");
    reveal_strlit("probe_failed");
    assert("present_directory"@[1] == 'r' && "present_directory"@[2] == 'e');
    assert("present_file"@[2] == 'e');
    assert("probe_failed"@[2] == 'o');
}

} // verus!
