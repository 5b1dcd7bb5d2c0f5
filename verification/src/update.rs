//! Local updates: the preview, the order of native steps, and what an interruption leaves.

use crate::error::{Error, ErrorKind};
use crate::installation;
use crate::installation::{Action, ArtifactMetadata, OutcomeState, Preview, UpdatePolicy};
use crate::lifecycle;
use crate::lifecycle::{LifecycleRecord, LifecycleStage};
use crate::model::Host;
use crate::operation::{Run, Step};
use crate::package;
use crate::package::Receipt;
use crate::path;
use crate::plan;
use crate::plan::{Begun, GateLook, ParentLook, SourceImage};
use crate::recover::Fault;
use crate::text;
use crate::version;
use crate::version::VersionOrder;
use vstd::prelude::*;
use vstd::string::*;

verus! {

/// Whether two images have the same bytes and the same version.
pub open spec fn same_release(current: ArtifactMetadata, candidate: ArtifactMetadata) -> bool {
    current.sha256@ == candidate.sha256@ && current.version@ == candidate.version@
}

/// Why a candidate cannot run here, if that is known.
pub open spec fn incompatible(
    verified_macho: bool,
    current: ArtifactMetadata,
    candidate: ArtifactMetadata,
    running_arch: Seq<char>,
) -> Option<Seq<char>> {
    if !verified_macho {
        Some("candidate Mach-O metadata is unavailable; compatibility is unproven"@)
    } else if candidate.target_os@ != "macos"@ {
        Some("candidate target OS is not macOS"@)
    } else if candidate.target_arch@ != running_arch {
        Some(
            "candidate arch "@ + candidate.target_arch@ + " does not match running arch "@
                + running_arch,
        )
    } else if candidate.min_macos is None {
        Some("candidate minOS metadata is unavailable; compatibility is unproven"@)
    } else if current.ownership_layout@ != "dedicated-macos-v1"@ && current.ownership_layout@
        != "dedicated-macos-v2"@ {
        Some("current ownership layout is unsupported for local update"@)
    } else {
        None
    }
}

/// What the order of two different images, and the user's policy, say.
pub open spec fn order_decision(order: VersionOrder, same_bytes: bool, policy: UpdatePolicy) -> (
    bool,
    Seq<char>,
) {
    match order {
        VersionOrder::Unknown => (false, "current/candidate versions are not SemVer-orderable"@),
        VersionOrder::Older => if policy.allow_downgrade {
            (true, "downgrade explicitly allowed by policy"@)
        } else {
            (false, "candidate is older; pass --allow-downgrade to execute"@)
        },
        VersionOrder::Equal => if same_bytes || policy.allow_same_version_replace {
            (true, "same-version replacement explicitly allowed"@)
        } else {
            (
                false,
                "same version has different bytes; pass --allow-same-version-replace to execute"@,
            )
        },
        VersionOrder::Newer => (true, "candidate is newer and compatible"@),
    }
}

/// Whether an update may run, and why.
pub open spec fn decision_of(
    gate: Option<Seq<char>>,
    verified_macho: bool,
    current: ArtifactMetadata,
    candidate: ArtifactMetadata,
    policy: UpdatePolicy,
    running_arch: Seq<char>,
    order: VersionOrder,
) -> (bool, Seq<char>) {
    if gate is Some {
        (false, gate->0)
    } else if incompatible(verified_macho, current, candidate, running_arch) is Some {
        (false, incompatible(verified_macho, current, candidate, running_arch)->0)
    } else if same_release(current, candidate) {
        (
            true,
            "candidate matches installed bytes; execute only reruns durability barriers"@,
        )
    } else {
        order_decision(order, current.sha256@ == candidate.sha256@, policy)
    }
}

fn find_incompatible(
    verified_macho: bool,
    current: &ArtifactMetadata,
    candidate: &ArtifactMetadata,
    running_arch: &str,
) -> (reason: Option<String>)
    ensures
        text::opt_text(reason) == incompatible(
            verified_macho,
            *current,
            *candidate,
            running_arch@,
        ),
{
    if !verified_macho {
        return Some(
            "candidate Mach-O metadata is unavailable; compatibility is unproven".to_owned(),
        );
    }
    if !text::text_eq(candidate.target_os.as_str(), "macos") {
        return Some("candidate target OS is not macOS".to_owned());
    }
    if !text::text_eq(candidate.target_arch.as_str(), running_arch) {
        let mut reason = text::concat3(
            "candidate arch ",
            candidate.target_arch.as_str(),
            " does not match running arch ",
        );
        reason.append(running_arch);
        return Some(reason);
    }
    if candidate.min_macos.is_none() {
        return Some(
            "candidate minOS metadata is unavailable; compatibility is unproven".to_owned(),
        );
    }
    if !text::text_eq(current.ownership_layout.as_str(), "dedicated-macos-v1") && !text::text_eq(
        current.ownership_layout.as_str(),
        "dedicated-macos-v2",
    ) {
        return Some("current ownership layout is unsupported for local update".to_owned());
    }
    None
}

/// Decides whether an update may run, once the two versions are compared.
pub fn decide(
    gate: Option<String>,
    verified_macho: bool,
    current: &ArtifactMetadata,
    candidate: &ArtifactMetadata,
    policy: UpdatePolicy,
    running_arch: &str,
    order: VersionOrder,
) -> (decision: (bool, String))
    ensures
        (decision.0, decision.1@) == decision_of(
            text::opt_text(gate),
            verified_macho,
            *current,
            *candidate,
            policy,
            running_arch@,
            order,
        ),
{
    if let Some(reason) = gate {
        return (false, reason);
    }
    if let Some(reason) = find_incompatible(verified_macho, current, candidate, running_arch) {
        return (false, reason);
    }
    let same_bytes: bool = text::text_eq(current.sha256.as_str(), candidate.sha256.as_str());
    if same_bytes && text::text_eq(current.version.as_str(), candidate.version.as_str()) {
        return (
            true,
            "candidate matches installed bytes; execute only reruns durability barriers".to_owned(),
        );
    }
    match order {
        VersionOrder::Unknown => (
            false,
            "current/candidate versions are not SemVer-orderable".to_owned(),
        ),
        VersionOrder::Older => if policy.allow_downgrade {
            (true, "downgrade explicitly allowed by policy".to_owned())
        } else {
            (false, "candidate is older; pass --allow-downgrade to execute".to_owned())
        },
        VersionOrder::Equal => if same_bytes || policy.allow_same_version_replace {
            (true, "same-version replacement explicitly allowed".to_owned())
        } else {
            (
                false,
                "same version has different bytes; pass --allow-same-version-replace to execute".to_owned(),
            )
        },
        VersionOrder::Newer => (true, "candidate is newer and compatible".to_owned()),
    }
}

/// What is observed before an update.
#[derive(Debug)]
pub struct UpdateLook {
    pub parent: ParentLook,
    pub source: Result<SourceImage, Error>,
    /// The verified package.
    pub package: Result<Receipt, Error>,
    pub gate: GateLook,
}

/// Why an update cannot be prepared.
pub open spec fn update_fault(
    host: Host,
    prefix: Seq<u8>,
    source_path: Seq<u8>,
    version: Seq<char>,
    look: UpdateLook,
) -> Option<Fault> {
    if host != Host::MacOs {
        Some((ErrorKind::Unsupported, plan::unsupported_text()))
    } else if !version::is_version(version) {
        Some((ErrorKind::InvalidInput, "invalid bounded installation version"@))
    } else if plan::parent_fault(prefix, look.parent) is Some {
        plan::parent_fault(prefix, look.parent)
    } else if !installation::is_physical(source_path) {
        Some((ErrorKind::InvalidInput, "use an absolute physical path without '.' or '..'"@))
    } else {
        match (look.source, look.package) {
            (Err(error), _) => Some(lifecycle::fault_of(error)),
            (_, Err(error)) => Some(lifecycle::fault_of(error)),
            _ => match plan::gate_of(path::leaf(prefix), look.gate) {
                Err(fault) => Some(fault),
                Ok(_) => None,
            },
        }
    }
}

/// A verified image made durable anew.
pub open spec fn unchanged_steps() -> Seq<Step> {
    seq![Step::CheckParent, Step::Verify { removed: 0 }, Step::HashSource] + plan::barriers()
        + seq![Step::Verify { removed: 0 }, Step::Measure]
}

/// A replacement: the guard and the intent come first, each rename is preceded by a durable
/// record that announces it, and the guard goes last.
pub open spec fn replacing_steps() -> Seq<Step> {
    seq![
        Step::CheckParent,
        Step::Verify { removed: 0 },
        Step::HashSource,
        Step::CreateGuard,
        Step::Record { stage: LifecycleStage::IntentRecorded },
        Step::StageExecutable,
        Step::StageManifest,
        Step::SyncStaged,
        Step::Record { stage: LifecycleStage::StagedRecorded },
        Step::Verify { removed: 0 },
        Step::HashSource,
        Step::RenameExecutable,
        Step::SyncBin,
        Step::Record { stage: LifecycleStage::BinaryCommitted },
        Step::RenameManifest,
        Step::SyncRoot,
        Step::Record { stage: LifecycleStage::ManifestCommitted },
        Step::Reopen,
    ] + plan::barriers() + seq![
        Step::Verify { removed: 0 },
        Step::Measure,
        Step::Record { stage: LifecycleStage::OutcomeRecorded },
        Step::CheckGuard,
        Step::RemoveGuard,
        Step::SyncRoot,
    ]
}

fn unchanged() -> (steps: Vec<Step>)
    ensures
        steps@ == unchanged_steps(),
{
    let mut steps: Vec<Step> = Vec::new();
    plan::push_all(
        &mut steps,
        &[Step::CheckParent, Step::Verify { removed: 0 }, Step::HashSource],
    );
    plan::push_barriers(&mut steps);
    plan::push_all(&mut steps, &[Step::Verify { removed: 0 }, Step::Measure]);
    assert(steps@ =~= unchanged_steps());
    steps
}

fn replacing() -> (steps: Vec<Step>)
    ensures
        steps@ == replacing_steps(),
{
    let mut steps: Vec<Step> = Vec::new();
    plan::push_all(
        &mut steps,
        &[
            Step::CheckParent,
            Step::Verify { removed: 0 },
            Step::HashSource,
            Step::CreateGuard,
            Step::Record { stage: LifecycleStage::IntentRecorded },
            Step::StageExecutable,
            Step::StageManifest,
            Step::SyncStaged,
            Step::Record { stage: LifecycleStage::StagedRecorded },
            Step::Verify { removed: 0 },
            Step::HashSource,
            Step::RenameExecutable,
            Step::SyncBin,
            Step::Record { stage: LifecycleStage::BinaryCommitted },
            Step::RenameManifest,
            Step::SyncRoot,
            Step::Record { stage: LifecycleStage::ManifestCommitted },
            Step::Reopen,
        ],
    );
    plan::push_barriers(&mut steps);
    plan::push_all(
        &mut steps,
        &[
            Step::Verify { removed: 0 },
            Step::Measure,
            Step::Record { stage: LifecycleStage::OutcomeRecorded },
            Step::CheckGuard,
            Step::RemoveGuard,
            Step::SyncRoot,
        ],
    );
    assert(steps@ =~= replacing_steps());
    steps
}

/// A single-use plan of an update.
#[derive(Debug)]
pub struct UpdatePlan {
    preview: Preview,
    receipt: Receipt,
    current: ArtifactMetadata,
    candidate: ArtifactMetadata,
    parent: Vec<u8>,
    name: Vec<u8>,
}

impl UpdatePlan {
    pub closed spec fn shown(self) -> Preview {
        self.preview
    }

    pub closed spec fn installed(self) -> Receipt {
        self.receipt
    }

    pub closed spec fn directory(self) -> Seq<u8> {
        self.parent@
    }

    pub closed spec fn leaf(self) -> Seq<u8> {
        self.name@
    }

    pub closed spec fn old_image(self) -> ArtifactMetadata {
        self.current
    }

    pub closed spec fn new_image(self) -> ArtifactMetadata {
        self.candidate
    }

    pub open spec fn prefix_path(self) -> Seq<u8> {
        path::joined(self.directory(), self.leaf())
    }

    pub open spec fn lifecycle_path(self) -> Seq<u8> {
        path::joined(self.directory(), plan::lifecycle_name_of(self.leaf()))
    }

    /// Inspects both images; nothing is written.
    pub fn prepare(
        host: Host,
        prefix: &[u8],
        source_path: &[u8],
        version: &str,
        policy: UpdatePolicy,
        look: &UpdateLook,
        running_arch: &str,
    ) -> (result: Result<UpdatePlan, Error>)
        ensures
            match result {
                Err(error) => update_fault(host, prefix@, source_path@, version@, *look) == Some(
                    lifecycle::fault_of(error),
                ),
                Ok(plan) => {
                    let preview = plan.shown();
                    let current = plan.old_image();
                    let candidate = plan.new_image();
                    &&& update_fault(host, prefix@, source_path@, version@, *look) is None
                    &&& plan.directory() == path::parent(prefix@)
                    &&& plan.leaf() == path::leaf(prefix@)
                    &&& plan.installed().identities() == look.package->Ok_0.identities()
                    &&& look.package->Ok_0.is_shown_as(
                        "owned installed manifest"@,
                        running_arch@,
                        current,
                    )
                    &&& plan::describes_source(look.source->Ok_0, version@, candidate)
                    &&& preview.action == Action::Update
                    &&& preview.prefix@ == prefix@
                    &&& preview.executable@ == path::joined(prefix@, package::executable_name())
                    &&& preview.version == candidate.version
                    &&& preview.sha256 == candidate.sha256
                    &&& preview.executable_bytes == candidate.executable_bytes
                    &&& preview.already_installed == same_release(current, candidate)
                    &&& preview.current == Some(current)
                    &&& preview.candidate == Some(candidate)
                    &&& preview.decision matches Some(decision) && (
                        preview.can_execute,
                        decision@,
                    ) == decision_of(
                        plan::gate_of(path::leaf(prefix@), look.gate)->Ok_0,
                        look.source->Ok_0.target.verified_macho,
                        current,
                        candidate,
                        policy,
                        running_arch@,
                        version::version_order(current.version@, candidate.version@),
                    )
                },
            },
    {
        if host != Host::MacOs {
            return Err(plan::unsupported());
        }
        if !version::version_valid(version) {
            return Err(
                Error::new(ErrorKind::InvalidInput, "invalid bounded installation version"),
            );
        }
        let (parent, name): (Vec<u8>, Vec<u8>) = match plan::open_parent(prefix, &look.parent) {
            Ok(parts) => parts,
            Err(error) => {
                return Err(error);
            },
        };
        if let Err(error) = installation::physical_absolute(source_path) {
            return Err(error);
        }
        let source = match &look.source {
            Ok(source) => source,
            Err(error) => {
                return Err(lifecycle::pass_on(error));
            },
        };
        let receipt = match &look.package {
            Ok(receipt) => receipt,
            Err(error) => {
                return Err(lifecycle::pass_on(error));
            },
        };
        let waiting: Option<String> = match plan::gate(name.as_slice(), &look.gate) {
            Ok(decision) => decision,
            Err(error) => {
                return Err(error);
            },
        };
        let current = receipt.metadata("owned installed manifest", running_arch);
        let candidate = plan::source_metadata(source, version);
        let order: VersionOrder = version::compare_versions(
            current.version.as_str(),
            candidate.version.as_str(),
        );
        let (can_execute, decision): (bool, String) = decide(
            waiting,
            source.target.verified_macho,
            &current,
            &candidate,
            policy,
            running_arch,
            order,
        );
        let already_installed: bool = text::text_eq(
            current.sha256.as_str(),
            candidate.sha256.as_str(),
        ) && text::text_eq(current.version.as_str(), candidate.version.as_str());
        let preview = Preview {
            action: Action::Update,
            prefix: text::copy_bytes(prefix),
            executable: package::executable_below(prefix),
            version: candidate.version.clone(),
            sha256: candidate.sha256.clone(),
            executable_bytes: candidate.executable_bytes,
            already_installed,
            current: Some(current.copy()),
            candidate: Some(candidate.copy()),
            can_execute,
            decision: Some(decision),
        };
        Ok(
            UpdatePlan {
                preview,
                receipt: receipt.copy(),
                current,
                candidate,
                parent,
                name,
            },
        )
    }

    pub fn preview(&self) -> (preview: &Preview)
        ensures
            *preview == self.shown(),
    {
        &self.preview
    }

    /// The record of an update before anything is done.
    pub open spec fn opens_with(self, record: LifecycleRecord) -> bool {
        &&& record.schema_version == 1
        &&& record.action@ == "update"@
        &&& record.stage == LifecycleStage::IntentRecorded
        &&& record.prefix_name@ == self.leaf()
        &&& record.prefix == self.installed().prefix
        &&& record.lock == self.installed().lock
        &&& record.current == self.old_image()
        &&& record.candidate == self.new_image()
        &&& record.guard is None
        &&& record.staged_executable is None
        &&& record.staged_manifest is None
        &&& record.outcome is None
    }

    /// Starts the update.
    pub fn execute(self, cancelled: bool, look: &GateLook) -> (result: Result<Begun, Error>)
        ensures
            ({
                let preview = self.shown();
                let places = seq![self.prefix_path(), self.lifecycle_path()];
                if cancelled {
                    result matches Ok(begun) && plan::ends(
                        begun,
                        OutcomeState::Cancelled,
                        preview,
                        Seq::empty(),
                        None,
                    )
                } else if !preview.can_execute {
                    result matches Ok(begun) && plan::ends(
                        begun,
                        OutcomeState::Refused,
                        preview,
                        Seq::empty(),
                        text::opt_text(preview.decision),
                    )
                } else {
                    match plan::gate_of(self.leaf(), *look) {
                        Err(fault) => result matches Err(error) && lifecycle::fault_of(error)
                            == fault,
                        Ok(Some(reason)) => result matches Ok(begun) && plan::ends(
                            begun,
                            OutcomeState::Refused,
                            preview,
                            seq![self.lifecycle_path()],
                            Some(reason),
                        ),
                        Ok(None) => result matches Ok(begun) && if preview.already_installed {
                            &&& plan::keeps_no_record(begun)
                            &&& plan::starts(
                                begun,
                                unchanged_steps(),
                                3,
                                0,
                                places,
                                places,
                                preview,
                                OutcomeState::AlreadyInstalled,
                            )
                        } else {
                            &&& plan::starts(
                                begun,
                                replacing_steps(),
                                3,
                                0,
                                places,
                                places,
                                preview,
                                OutcomeState::Updated,
                            )
                            &&& begun matches Begun::Started(run)
                            &&& run.record matches Some(record)
                            &&& self.opens_with(record)
                        },
                    }
                }
            }),
    {
        let prefix_path = path::join(self.parent.as_slice(), self.name.as_slice());
        let lifecycle_path = path::join(
            self.parent.as_slice(),
            plan::lifecycle_name(self.name.as_slice()).as_slice(),
        );
        if cancelled {
            return Ok(plan::end(self.preview, OutcomeState::Cancelled, plan::none(), None));
        }
        if !self.preview.can_execute {
            let decision = plan::copy_decision(&self.preview.decision);
            return Ok(plan::end(self.preview, OutcomeState::Refused, plan::none(), decision));
        }
        match plan::gate(self.name.as_slice(), look) {
            Err(error) => {
                return Err(error);
            },
            Ok(Some(reason)) => {
                return Ok(
                    plan::end(
                        self.preview,
                        OutcomeState::Refused,
                        plan::one(lifecycle_path.as_slice()),
                        Some(reason),
                    ),
                );
            },
            Ok(None) => {},
        }
        if self.preview.already_installed {
            return Ok(
                Begun::Started(
                    Run {
                        steps: unchanged(),
                        position: 0,
                        boundary: 3,
                        turn: 0,
                        early: plan::two(prefix_path.as_slice(), lifecycle_path.as_slice()),
                        late: plan::two(prefix_path.as_slice(), lifecycle_path.as_slice()),
                        preview: self.preview,
                        success: OutcomeState::AlreadyInstalled,
                        footprint: None,
                        record: None,
                    },
                ),
            );
        }
        let record = LifecycleRecord {
            schema_version: 1,
            action: "update".to_owned(),
            stage: LifecycleStage::IntentRecorded,
            prefix_name: self.name,
            prefix: self.receipt.prefix,
            lock: self.receipt.lock,
            current: self.current,
            candidate: self.candidate,
            guard: None,
            staged_executable: None,
            staged_manifest: None,
            outcome: None,
        };
        Ok(
            Begun::Started(
                Run {
                    steps: replacing(),
                    position: 0,
                    boundary: 3,
                    turn: 0,
                    early: plan::two(prefix_path.as_slice(), lifecycle_path.as_slice()),
                    late: plan::two(prefix_path.as_slice(), lifecycle_path.as_slice()),
                    preview: self.preview,
                    success: OutcomeState::Updated,
                    footprint: None,
                    record: Some(record),
                },
            ),
        )
    }
}

} // verus!
