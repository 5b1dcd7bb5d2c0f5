//! Previews of lifecycle operations, and how each operation starts.

use crate::error::{Error, ErrorKind};
use crate::hex;
use crate::installation;
use crate::installation::{Action, ArtifactMetadata, Outcome, OutcomeState, Preview};
use crate::lifecycle;
use crate::lifecycle::LifecycleRecord;
use crate::macho::TargetMetadata;
use crate::model::Host;
use crate::operation::{Run, Step};
use crate::package;
use crate::package::Receipt;
use crate::path;
use crate::recover;
use crate::recover::{Fault, GuardLook};
use crate::text;
use crate::verify;
use crate::version;
use vstd::prelude::*;
use vstd::string::*;

verus! {

/// What follows the hexadecimal prefix name in the name of a lifecycle record.
pub const LIFECYCLE_SUFFIX: &'static str = ".sayaka-lifecycle-v1.json";

/// The refusal on a system other than macOS.
pub open spec fn unsupported_text() -> Seq<char> {
    "local dedicated-prefix installation/removal currently requires macOS"@
}

pub fn unsupported() -> (error: Error)
    ensures
        error.says(ErrorKind::Unsupported, unsupported_text()),
{
    Error::new(
        ErrorKind::Unsupported,
        "local dedicated-prefix installation/removal currently requires macOS",
    )
}

/// The error of a package that another operation holds.
pub fn busy(reason: &str) -> (error: Error)
    ensures
        error.says(
            ErrorKind::WouldBlock,
            "installation is busy or cannot be locked: "@ + reason@,
        ),
{
    Error {
        kind: ErrorKind::WouldBlock,
        message: text::concat("installation is busy or cannot be locked: ", reason),
    }
}

/// What is observed of the directory that a prefix lies in.
#[derive(Debug)]
pub struct ParentLook {
    pub euid: u32,
    /// What came of opening the directory without following links.
    pub opened: Result<(), Error>,
    /// Whether the directory is on a local file system.
    pub local: Result<bool, Error>,
}

/// Why a prefix cannot be managed.
pub open spec fn parent_fault(prefix: Seq<u8>, look: ParentLook) -> Option<Fault> {
    if !installation::is_physical(prefix) {
        Some((ErrorKind::InvalidInput, "use an absolute physical path without '.' or '..'"@))
    } else if look.euid == 0 {
        Some(
            (
                ErrorKind::PermissionDenied,
                "privileged installation/removal is not supported"@,
            ),
        )
    } else if path::leaf(prefix).len() == 0 {
        verify::invalid("prefix needs a dedicated leaf name"@)
    } else if look.opened is Err {
        Some(
            (
                look.opened->Err_0.kind,
                "prefix parent must already exist physically; choose or explicitly prepare a parent: "@
                    + look.opened->Err_0.message@,
            ),
        )
    } else {
        match look.local {
            Err(error) => Some(lifecycle::fault_of(error)),
            Ok(false) => verify::invalid("dedicated installations require a local filesystem"@),
            Ok(true) => None,
        }
    }
}

pub fn open_parent(prefix: &[u8], look: &ParentLook) -> (result: Result<(Vec<u8>, Vec<u8>), Error>)
    ensures
        match result {
            Ok(parts) => {
                &&& parent_fault(prefix@, *look) is None
                &&& parts.0@ == path::parent(prefix@)
                &&& parts.1@ == path::leaf(prefix@)
            },
            Err(error) => parent_fault(prefix@, *look) == Some(lifecycle::fault_of(error)),
        },
{
    if let Err(error) = installation::physical_absolute(prefix) {
        return Err(error);
    }
    if look.euid == 0 {
        return Err(
            Error::new(
                ErrorKind::PermissionDenied,
                "privileged installation/removal is not supported",
            ),
        );
    }
    let parts = path::split_leaf(prefix);
    if parts.1.len() == 0 {
        return Err(Error::new(ErrorKind::InvalidData, "prefix needs a dedicated leaf name"));
    }
    if let Err(error) = &look.opened {
        return Err(
            Error {
                kind: error.kind,
                message: text::concat(
                    "prefix parent must already exist physically; choose or explicitly prepare a parent: ",
                    error.message.as_str(),
                ),
            },
        );
    }
    match &look.local {
        Err(error) => Err(lifecycle::pass_on(error)),
        Ok(local) => if *local {
            Ok(parts)
        } else {
            Err(
                Error::new(
                    ErrorKind::InvalidData,
                    "dedicated installations require a local filesystem",
                ),
            )
        },
    }
}

/// The name of the lifecycle record of a prefix.
pub open spec fn lifecycle_name_of(name: Seq<u8>) -> Seq<u8> {
    vstd::utf8::encode_utf8("."@ + hex::encoded(name) + LIFECYCLE_SUFFIX@)
}

/// The name of the lifecycle record of a prefix.
pub fn lifecycle_name(name: &[u8]) -> (file: Vec<u8>)
    ensures
        file@ == lifecycle_name_of(name@),
{
    let encoded = hex::encode_hex(name);
    let file = text::concat3(".", encoded.as_str(), LIFECYCLE_SUFFIX);
    text::copy_bytes(file.as_str().as_bytes())
}

/// An executable that was opened, hashed and inspected.
#[derive(Debug)]
pub struct SourceImage {
    pub digest: String,
    pub bytes: u64,
    pub target: TargetMetadata,
    /// The source path as it is shown.
    pub display: String,
}

/// Whether `metadata` describes a source as the given version.
pub open spec fn describes_source(
    source: SourceImage,
    version: Seq<char>,
    metadata: ArtifactMetadata,
) -> bool {
    &&& metadata.version@ == version
    &&& metadata.sha256 == source.digest
    &&& metadata.executable_bytes == source.bytes
    &&& metadata.target_os == source.target.target_os
    &&& metadata.target_arch == source.target.target_arch
    &&& metadata.min_macos == source.target.min_macos
    &&& metadata.ownership_layout@ == "dedicated-macos-v2"@
    &&& metadata.lifecycle_contract@ == "local-update-recover-v1"@
    &&& metadata.source_trust@ == "local running executable copied from "@ + source.display@
}

pub fn source_metadata(source: &SourceImage, version: &str) -> (metadata: ArtifactMetadata)
    ensures
        describes_source(*source, version@, metadata),
{
    ArtifactMetadata {
        version: version.to_owned(),
        sha256: source.digest.clone(),
        executable_bytes: source.bytes,
        target_os: source.target.target_os.clone(),
        target_arch: source.target.target_arch.clone(),
        min_macos: match &source.target.min_macos {
            Some(value) => Some(value.clone()),
            None => None,
        },
        ownership_layout: "dedicated-macos-v2".to_owned(),
        lifecycle_contract: "local-update-recover-v1".to_owned(),
        source_trust: text::concat(
            "local running executable copied from ",
            source.display.as_str(),
        ),
    }
}

/// What is observed around the lifecycle record of a prefix.
#[derive(Debug)]
pub struct GateLook {
    pub next_marker: Result<bool, Error>,
    pub record: Result<Option<LifecycleRecord>, Error>,
    pub package: Option<GuardLook>,
    pub euid: u32,
}

/// Why an operation other than recovery has to wait, if it has to.
pub open spec fn gate_of(name: Seq<u8>, look: GateLook) -> Result<Option<Seq<char>>, Fault> {
    recover::gate_plan(name, look.next_marker, look.record, look.package, look.euid)
}

pub fn gate(name: &[u8], look: &GateLook) -> (result: Result<Option<String>, Error>)
    ensures
        match result {
            Ok(decision) => gate_of(name@, *look) == Ok::<Option<Seq<char>>, Fault>(
                text::opt_text(decision),
            ),
            Err(error) => gate_of(name@, *look) == Err::<Option<Seq<char>>, Fault>(
                lifecycle::fault_of(error),
            ),
        },
{
    recover::lifecycle_gate_decision(
        name,
        &look.next_marker,
        &look.record,
        &look.package,
        look.euid,
    )
}

/// How an operation starts.
#[derive(Debug)]
pub enum Begun {
    Ended(Outcome),
    Started(Run),
}

/// Whether an operation ends at once, without effect, in the given way.
pub open spec fn ends(
    begun: Begun,
    status: OutcomeState,
    preview: Preview,
    paths: Seq<Seq<u8>>,
    error: Option<Seq<char>>,
) -> bool {
    &&& begun matches Begun::Ended(outcome)
    &&& outcome.status == status
    &&& outcome.preview == preview
    &&& outcome.logical_bytes is None
    &&& outcome.allocated_bytes is None
    &&& path::views(outcome.recovery_paths@) == paths
    &&& text::opt_text(outcome.error) == error
}

/// Whether an operation starts at the first of the given steps.
pub open spec fn starts(
    begun: Begun,
    steps: Seq<Step>,
    boundary: int,
    turn: int,
    early: Seq<Seq<u8>>,
    late: Seq<Seq<u8>>,
    preview: Preview,
    success: OutcomeState,
) -> bool {
    &&& begun matches Begun::Started(run)
    &&& run.wf()
    &&& run.steps@ == steps
    &&& run.position == 0
    &&& run.boundary == boundary
    &&& run.turn == turn
    &&& path::views(run.early@) == early
    &&& path::views(run.late@) == late
    &&& run.preview == preview
    &&& run.success == success
    &&& run.footprint is None
}

/// Whether an operation goes on without a lifecycle record.
pub open spec fn keeps_no_record(begun: Begun) -> bool {
    begun matches Begun::Started(run) && run.record is None
}

pub fn end(preview: Preview, status: OutcomeState, paths: Vec<Vec<u8>>, error: Option<String>) -> (begun:
    Begun)
    ensures
        ends(begun, status, preview, path::views(paths@), text::opt_text(error)),
{
    Begun::Ended(
        Outcome {
            status,
            preview,
            logical_bytes: None,
            allocated_bytes: None,
            recovery_paths: paths,
            error,
        },
    )
}

pub fn one(path: &[u8]) -> (list: Vec<Vec<u8>>)
    ensures
        path::views(list@) == seq![path@],
{
    let mut list: Vec<Vec<u8>> = Vec::new();
    list.push(text::copy_bytes(path));
    assert(path::views(list@) =~= seq![path@]);
    list
}

pub fn two(a: &[u8], b: &[u8]) -> (list: Vec<Vec<u8>>)
    ensures
        path::views(list@) == seq![a@, b@],
{
    let mut list: Vec<Vec<u8>> = Vec::new();
    list.push(text::copy_bytes(a));
    list.push(text::copy_bytes(b));
    assert(path::views(list@) =~= seq![a@, b@]);
    list
}

pub fn none() -> (list: Vec<Vec<u8>>)
    ensures
        path::views(list@) == Seq::<Seq<u8>>::empty(),
{
    let list: Vec<Vec<u8>> = Vec::new();
    assert(path::views(list@) =~= Seq::<Seq<u8>>::empty());
    list
}

pub fn copy_decision(decision: &Option<String>) -> (copy: Option<String>)
    ensures
        text::opt_text(copy) == text::opt_text(*decision),
{
    match decision {
        Some(reason) => Some(reason.clone()),
        None => None,
    }
}

/// The barriers that make a visible package durable, in order.
pub open spec fn barriers() -> Seq<Step> {
    seq![
        Step::SyncExecutable,
        Step::SyncManifest,
        Step::SyncLock,
        Step::SyncBin,
        Step::SyncRoot,
        Step::SyncParent,
        Step::FinalFullSync,
    ]
}

pub fn push_barriers(steps: &mut Vec<Step>)
    ensures
        final(steps)@ == old(steps)@ + barriers(),
{
    let ghost start = steps@;
    steps.push(Step::SyncExecutable);
    steps.push(Step::SyncManifest);
    steps.push(Step::SyncLock);
    steps.push(Step::SyncBin);
    steps.push(Step::SyncRoot);
    steps.push(Step::SyncParent);
    steps.push(Step::FinalFullSync);
    assert(steps@ =~= start + barriers());
}

pub fn push_all(steps: &mut Vec<Step>, more: &[Step])
    ensures
        final(steps)@ == old(steps)@ + more@,
{
    let ghost start = steps@;
    let mut i: usize = 0;
    while i < more.len()
        invariant
            0 <= i <= more@.len(),
            steps@ == start + more@.subrange(0, i as int),
        decreases more@.len() - i,
    {
        steps.push(more[i]);
        i += 1;
        assert(steps@ =~= start + more@.subrange(0, i as int));
    }
    assert(more@.subrange(0, more@.len() as int) =~= more@);
}

/// A fresh installation: everything is made and verified beside the prefix, and published
/// by one rename that replaces nothing.
pub open spec fn fresh_steps() -> Seq<Step> {
    seq![
        Step::CheckParent,
        Step::HashSource,
        Step::RequireAbsent,
        Step::CheckCancel,
        Step::MakeStage,
        Step::OpenStage,
        Step::MakeLock,
        Step::MakeBin,
        Step::CopyExecutable,
        Step::WriteManifest,
        Step::SyncStage,
        Step::VerifyStage,
        Step::RequireAbsent,
        Step::Publish,
    ] + barriers() + seq![Step::Verify { removed: 0 }, Step::Measure]
}

/// An installation of the image that is already there: its durability is established anew.
pub open spec fn existing_steps() -> Seq<Step> {
    seq![Step::CheckParent, Step::HashSource, Step::Verify { removed: 0 }] + barriers() + seq![
        Step::Verify { removed: 0 },
        Step::Measure,
    ]
}

fn fresh() -> (steps: Vec<Step>)
    ensures
        steps@ == fresh_steps(),
{
    let mut steps: Vec<Step> = Vec::new();
    push_all(
        &mut steps,
        &[
            Step::CheckParent,
            Step::HashSource,
            Step::RequireAbsent,
            Step::CheckCancel,
            Step::MakeStage,
            Step::OpenStage,
            Step::MakeLock,
            Step::MakeBin,
            Step::CopyExecutable,
            Step::WriteManifest,
            Step::SyncStage,
            Step::VerifyStage,
            Step::RequireAbsent,
            Step::Publish,
        ],
    );
    push_barriers(&mut steps);
    push_all(&mut steps, &[Step::Verify { removed: 0 }, Step::Measure]);
    assert(steps@ =~= fresh_steps());
    steps
}

fn existing() -> (steps: Vec<Step>)
    ensures
        steps@ == existing_steps(),
{
    let mut steps: Vec<Step> = Vec::new();
    push_all(&mut steps, &[Step::CheckParent, Step::HashSource, Step::Verify { removed: 0 }]);
    push_barriers(&mut steps);
    push_all(&mut steps, &[Step::Verify { removed: 0 }, Step::Measure]);
    assert(steps@ =~= existing_steps());
    steps
}

/// What is observed before an installation.
#[derive(Debug)]
pub struct InstallLook {
    pub parent: ParentLook,
    pub source: Result<SourceImage, Error>,
    /// The verified package that is already there, if one is.
    pub existing: Result<Option<Receipt>, Error>,
    pub gate: GateLook,
}

/// Whether an installed package holds the image that is to be installed.
pub open spec fn same_image(receipt: Receipt, source: SourceImage, version: Seq<char>) -> bool {
    &&& receipt.sha256@ == source.digest@
    &&& receipt.executable_bytes == source.bytes
    &&& receipt.version@ == version
}

/// Why an installation cannot be prepared.
pub open spec fn install_fault(
    host: Host,
    prefix: Seq<u8>,
    source_path: Seq<u8>,
    version: Seq<char>,
    look: InstallLook,
) -> Option<Fault> {
    if host != Host::MacOs {
        Some((ErrorKind::Unsupported, unsupported_text()))
    } else if !version::is_version(version) {
        Some((ErrorKind::InvalidInput, "invalid bounded installation version"@))
    } else if parent_fault(prefix, look.parent) is Some {
        parent_fault(prefix, look.parent)
    } else if !installation::is_physical(source_path) {
        Some((ErrorKind::InvalidInput, "use an absolute physical path without '.' or '..'"@))
    } else {
        match (look.source, look.existing) {
            (Err(error), _) => Some(lifecycle::fault_of(error)),
            (_, Err(error)) => Some(lifecycle::fault_of(error)),
            (Ok(source), Ok(existing)) => if existing matches Some(receipt) && !same_image(
                receipt,
                source,
                version,
            ) {
                Some(
                    (
                        ErrorKind::AlreadyExists,
                        "verified prefix contains a different image or version; no local update fallback"@,
                    ),
                )
            } else {
                match gate_of(path::leaf(prefix), look.gate) {
                    Err(fault) => Some(fault),
                    Ok(_) => None,
                }
            },
        }
    }
}

/// A single-use plan of an installation.
#[derive(Debug)]
pub struct InstallPlan {
    preview: Preview,
    existing: bool,
    parent: Vec<u8>,
    name: Vec<u8>,
}

impl InstallPlan {
    pub closed spec fn shown(self) -> Preview {
        self.preview
    }

    /// Whether the image is already installed.
    pub closed spec fn found(self) -> bool {
        self.existing
    }

    /// The directory that the prefix lies in.
    pub closed spec fn directory(self) -> Seq<u8> {
        self.parent@
    }

    /// The name of the prefix.
    pub closed spec fn leaf(self) -> Seq<u8> {
        self.name@
    }

    pub open spec fn prefix_path(self) -> Seq<u8> {
        path::joined(self.directory(), self.leaf())
    }

    pub open spec fn lifecycle_path(self) -> Seq<u8> {
        path::joined(self.directory(), lifecycle_name_of(self.leaf()))
    }

    /// Inspects without creating any files or rewriting permissions.
    pub fn prepare(
        host: Host,
        prefix: &[u8],
        source_path: &[u8],
        version: &str,
        look: &InstallLook,
        running_arch: &str,
    ) -> (result: Result<InstallPlan, Error>)
        ensures
            match result {
                Err(error) => install_fault(host, prefix@, source_path@, version@, *look) == Some(
                    lifecycle::fault_of(error),
                ),
                Ok(plan) => {
                    let preview = plan.shown();
                    &&& install_fault(host, prefix@, source_path@, version@, *look) is None
                    &&& plan.directory() == path::parent(prefix@)
                    &&& plan.leaf() == path::leaf(prefix@)
                    &&& plan.found() == (look.existing->Ok_0 is Some)
                    &&& preview.action == Action::Install
                    &&& preview.prefix@ == prefix@
                    &&& preview.executable@ == path::joined(prefix@, package::executable_name())
                    &&& preview.version@ == version@
                    &&& preview.sha256@ == look.source->Ok_0.digest@
                    &&& preview.executable_bytes == look.source->Ok_0.bytes
                    &&& preview.already_installed == (look.existing->Ok_0 is Some)
                    &&& match look.existing->Ok_0 {
                        Some(receipt) => preview.current matches Some(current)
                            && receipt.is_shown_as(
                            "owned installed manifest"@,
                            running_arch@,
                            current,
                        ),
                        None => preview.current is None,
                    }
                    &&& preview.candidate matches Some(candidate) && describes_source(
                        look.source->Ok_0,
                        version@,
                        candidate,
                    )
                    &&& gate_of(path::leaf(prefix@), look.gate) == Ok::<Option<Seq<char>>, Fault>(
                        text::opt_text(preview.decision),
                    )
                    &&& preview.can_execute == (preview.decision is None)
                },
            },
    {
        if host != Host::MacOs {
            return Err(unsupported());
        }
        if !version::version_valid(version) {
            return Err(
                Error::new(ErrorKind::InvalidInput, "invalid bounded installation version"),
            );
        }
        let (parent, name): (Vec<u8>, Vec<u8>) = match open_parent(prefix, &look.parent) {
            Ok(parts) => parts,
            Err(error) => {
                return Err(error);
            },
        };
        if let Err(error) = installation::physical_absolute(source_path) {
            return Err(error);
        }
        let source = match &look.source {
            Ok(source) => source,
            Err(error) => {
                return Err(lifecycle::pass_on(error));
            },
        };
        let existing = match &look.existing {
            Ok(existing) => existing,
            Err(error) => {
                return Err(lifecycle::pass_on(error));
            },
        };
        let current: Option<ArtifactMetadata> = match existing {
            Some(receipt) => {
                if !text::text_eq(receipt.sha256.as_str(), source.digest.as_str())
                    || receipt.executable_bytes != source.bytes || !text::text_eq(
                    receipt.version.as_str(),
                    version,
                ) {
                    return Err(
                        Error::new(
                            ErrorKind::AlreadyExists,
                            "verified prefix contains a different image or version; no local update fallback",
                        ),
                    );
                }
                Some(receipt.metadata("owned installed manifest", running_arch))
            },
            None => None,
        };
        let decision: Option<String> = match gate(name.as_slice(), &look.gate) {
            Ok(decision) => decision,
            Err(error) => {
                return Err(error);
            },
        };
        let preview = Preview {
            action: Action::Install,
            prefix: text::copy_bytes(prefix),
            executable: package::executable_below(prefix),
            version: version.to_owned(),
            sha256: source.digest.clone(),
            executable_bytes: source.bytes,
            already_installed: existing.is_some(),
            current,
            candidate: Some(source_metadata(source, version)),
            can_execute: decision.is_none(),
            decision,
        };
        Ok(InstallPlan { preview, existing: existing.is_some(), parent, name })
    }

    pub fn preview(&self) -> (preview: &Preview)
        ensures
            *preview == self.shown(),
    {
        &self.preview
    }

    /// Starts the installation; `stage_name` is the name under which it is staged.
    pub fn execute(self, cancelled: bool, look: &GateLook, stage_name: &[u8]) -> (result: Result<
        Begun,
        Error,
    >)
        ensures
            ({
                let preview = self.shown();
                let lifecycle = self.lifecycle_path();
                let stage = path::joined(self.directory(), stage_name@);
                if cancelled {
                    result matches Ok(begun) && ends(
                        begun,
                        OutcomeState::Cancelled,
                        preview,
                        Seq::empty(),
                        None,
                    )
                } else if !preview.can_execute {
                    result matches Ok(begun) && ends(
                        begun,
                        OutcomeState::Refused,
                        preview,
                        seq![lifecycle],
                        text::opt_text(preview.decision),
                    )
                } else {
                    match gate_of(self.leaf(), *look) {
                        Err(fault) => result matches Err(error) && lifecycle::fault_of(error)
                            == fault,
                        Ok(Some(reason)) => result matches Ok(begun) && ends(
                            begun,
                            OutcomeState::Refused,
                            preview,
                            seq![lifecycle],
                            Some(reason),
                        ),
                        Ok(None) => result matches Ok(begun) && keeps_no_record(begun)
                            && if self.found() {
                            starts(
                                begun,
                                existing_steps(),
                                3,
                                0,
                                seq![self.prefix_path()],
                                seq![self.prefix_path()],
                                preview,
                                OutcomeState::AlreadyInstalled,
                            )
                        } else {
                            starts(
                                begun,
                                fresh_steps(),
                                5,
                                13,
                                seq![stage],
                                seq![self.prefix_path()],
                                preview,
                                OutcomeState::Installed,
                            )
                        },
                    }
                }
            }),
    {
        let lifecycle_path = path::join(
            self.parent.as_slice(),
            lifecycle_name(self.name.as_slice()).as_slice(),
        );
        if cancelled {
            return Ok(end(self.preview, OutcomeState::Cancelled, none(), None));
        }
        if !self.preview.can_execute {
            let decision = copy_decision(&self.preview.decision);
            return Ok(
                end(self.preview, OutcomeState::Refused, one(lifecycle_path.as_slice()), decision),
            );
        }
        match gate(self.name.as_slice(), look) {
            Err(error) => {
                return Err(error);
            },
            Ok(Some(reason)) => {
                return Ok(
                    end(
                        self.preview,
                        OutcomeState::Refused,
                        one(lifecycle_path.as_slice()),
                        Some(reason),
                    ),
                );
            },
            Ok(None) => {},
        }
        let prefix_path = path::join(self.parent.as_slice(), self.name.as_slice());
        if self.existing {
            return Ok(
                Begun::Started(
                    Run {
                        steps: existing(),
                        position: 0,
                        boundary: 3,
                        turn: 0,
                        early: one(prefix_path.as_slice()),
                        late: one(prefix_path.as_slice()),
                        preview: self.preview,
                        success: OutcomeState::AlreadyInstalled,
                        footprint: None,
                        record: None,
                    },
                ),
            );
        }
        let stage = path::join(self.parent.as_slice(), stage_name);
        Ok(
            Begun::Started(
                Run {
                    steps: fresh(),
                    position: 0,
                    boundary: 5,
                    turn: 13,
                    early: one(stage.as_slice()),
                    late: one(prefix_path.as_slice()),
                    preview: self.preview,
                    success: OutcomeState::Installed,
                    footprint: None,
                    record: None,
                },
            ),
        )
    }
}

} // verus!
