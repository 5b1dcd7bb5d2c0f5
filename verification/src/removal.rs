//! Recovery and removal: their previews and the order of their native steps.

use crate::error::{Error, ErrorKind};
use crate::installation::{Action, OutcomeState, Preview};
use crate::lifecycle;
use crate::lifecycle::{LifecycleRecord, LifecycleStage, RecoverMode, Recovery};
use crate::model::Host;
use crate::operation::{Run, Step};
use crate::package;
use crate::package::Receipt;
use crate::path;
use crate::plan;
use crate::plan::{Begun, GateLook, ParentLook};
use crate::recover;
use crate::recover::{Fault, Recover, RecoveryLooks};
use crate::text;
use vstd::prelude::*;
use vstd::string::*;

verus! {

/// What is observed before a recovery.
#[derive(Debug)]
pub struct RecoverLook {
    /// The package, opened without asking that its executable matches.
    pub package: Result<Receipt, Error>,
    pub next_marker: Result<bool, Error>,
    pub record: Result<Option<LifecycleRecord>, Error>,
    pub looks: RecoveryLooks,
    pub euid: u32,
}

/// Why a recovery cannot be prepared.
pub open spec fn recover_fault(
    host: Host,
    prefix: Seq<u8>,
    parent_look: ParentLook,
    look: RecoverLook,
) -> Option<Fault> {
    if host != Host::MacOs {
        Some((ErrorKind::Unsupported, plan::unsupported_text()))
    } else if plan::parent_fault(prefix, parent_look) is Some {
        plan::parent_fault(prefix, parent_look)
    } else {
        match look_plan(path::leaf(prefix), look, false) {
            Err(fault) => Some(fault),
            Ok(_) => None,
        }
    }
}

/// Why a removal cannot be prepared.
pub open spec fn remove_fault(
    host: Host,
    prefix: Seq<u8>,
    parent_look: ParentLook,
    package: Result<Receipt, Error>,
    look: GateLook,
) -> Option<Fault> {
    if host != Host::MacOs {
        Some((ErrorKind::Unsupported, plan::unsupported_text()))
    } else if plan::parent_fault(prefix, parent_look) is Some {
        plan::parent_fault(prefix, parent_look)
    } else {
        match package {
            Err(error) => Some(lifecycle::fault_of(error)),
            Ok(_) => match plan::gate_of(path::leaf(prefix), look) {
                Err(fault) => Some(fault),
                Ok(_) => None,
            },
        }
    }
}

/// What recovery decides, with the failures of the observations themselves in the order in
/// which they are made.
pub open spec fn look_plan(
    name: Seq<u8>,
    look: RecoverLook,
    marker_first: bool,
) -> Result<(RecoverMode, Seq<char>), Fault> {
    if marker_first && look.next_marker is Err {
        Err(lifecycle::fault_of(look.next_marker->Err_0))
    } else {
        match (look.package, look.next_marker, look.record) {
            (Err(error), _, _) => Err(lifecycle::fault_of(error)),
            (_, Err(error), _) => Err(lifecycle::fault_of(error)),
            (_, _, Err(error)) => Err(lifecycle::fault_of(error)),
            (Ok(receipt), Ok(marker), Ok(record)) => recover::recovery_plan(
                name,
                receipt,
                marker,
                record,
                look.looks,
                look.euid,
            ),
        }
    }
}

fn classify_look(name: &[u8], look: &RecoverLook, marker_first: bool) -> (result: Result<
    Recovery,
    Error,
>)
    ensures
        match result {
            Ok(recovery) => {
                &&& look_plan(name@, *look, marker_first) == Ok::<(RecoverMode, Seq<char>), Fault>(
                    (recovery.mode, recovery.decision@),
                )
                &&& recovery.can_execute == (recovery.mode != RecoverMode::Manual)
                &&& look.package is Ok
                &&& look.record is Ok
            },
            Err(error) => look_plan(name@, *look, marker_first) == Err::<
                (RecoverMode, Seq<char>),
                Fault,
            >(lifecycle::fault_of(error)),
        },
{
    if marker_first {
        if let Err(error) = &look.next_marker {
            return Err(lifecycle::pass_on(error));
        }
    }
    let receipt = match &look.package {
        Ok(receipt) => receipt,
        Err(error) => {
            return Err(lifecycle::pass_on(error));
        },
    };
    let marker: bool = match &look.next_marker {
        Ok(marker) => *marker,
        Err(error) => {
            return Err(lifecycle::pass_on(error));
        },
    };
    let record = match &look.record {
        Ok(record) => record,
        Err(error) => {
            return Err(lifecycle::pass_on(error));
        },
    };
    Recover::classify(name, receipt, marker, record, &look.looks, look.euid)
}

/// Whether recovery records an outcome: unless one is recorded and nothing else changes.
pub open spec fn writes_outcome(mode: RecoverMode, record: Option<LifecycleRecord>) -> bool {
    &&& record matches Some(written)
    &&& written.stage != LifecycleStage::OutcomeRecorded || mode == RecoverMode::AbandonStaged
        || mode == RecoverMode::FinalizeManifest
}

/// Whether the record speaks of a guard to remove.
pub open spec fn has_guard(record: Option<LifecycleRecord>) -> bool {
    record matches Some(written) && written.guard is Some
}

/// What a recovery does first.
pub open spec fn mode_steps(mode: RecoverMode) -> Seq<Step> {
    match mode {
        RecoverMode::AbandonStaged => seq![
            Step::CheckStagedExecutable,
            Step::UnlinkStagedExecutable,
            Step::CheckStagedManifest,
            Step::UnlinkStagedManifest,
        ],
        RecoverMode::FinalizeManifest => seq![
            Step::CheckStagedManifest,
            Step::CheckExecutable,
            Step::RenameManifest,
            Step::SyncRoot,
        ],
        _ => seq![],
    }
}

/// Records how the update ended.
pub open spec fn outcome_steps(mode: RecoverMode, record: Option<LifecycleRecord>) -> Seq<Step> {
    if writes_outcome(mode, record) {
        seq![Step::DecideOutcome, Step::Record { stage: LifecycleStage::OutcomeRecorded }]
    } else {
        seq![]
    }
}

/// Removes the guard, if it is there.
pub open spec fn guard_steps(record: Option<LifecycleRecord>) -> Seq<Step> {
    if has_guard(record) {
        seq![Step::CheckGuard, Step::RemoveGuard, Step::SyncRoot]
    } else {
        seq![]
    }
}

/// A whole recovery: the guard goes only after the outcome is durable.
pub open spec fn recover_steps(mode: RecoverMode, record: Option<LifecycleRecord>) -> Seq<Step> {
    mode_steps(mode) + seq![Step::Reopen] + plan::barriers() + outcome_steps(mode, record)
        + guard_steps(record) + seq![Step::Measure]
}

fn recovering(mode: RecoverMode, record: &Option<LifecycleRecord>) -> (steps: Vec<Step>)
    ensures
        steps@ == recover_steps(mode, *record),
        steps@.len() <= 64,
{
    let mut steps: Vec<Step> = Vec::new();
    match mode {
        RecoverMode::AbandonStaged => {
            plan::push_all(
                &mut steps,
                &[
                    Step::CheckStagedExecutable,
                    Step::UnlinkStagedExecutable,
                    Step::CheckStagedManifest,
                    Step::UnlinkStagedManifest,
                ],
            );
        },
        RecoverMode::FinalizeManifest => {
            plan::push_all(
                &mut steps,
                &[
                    Step::CheckStagedManifest,
                    Step::CheckExecutable,
                    Step::RenameManifest,
                    Step::SyncRoot,
                ],
            );
        },
        _ => {},
    }
    assert(steps@ =~= mode_steps(mode));
    steps.push(Step::Reopen);
    plan::push_barriers(&mut steps);
    assert(steps@ =~= mode_steps(mode) + seq![Step::Reopen] + plan::barriers());
    let (writes, guarded): (bool, bool) = match record {
        Some(written) => (
            written.stage != LifecycleStage::OutcomeRecorded || mode == RecoverMode::AbandonStaged
                || mode == RecoverMode::FinalizeManifest,
            written.guard.is_some(),
        ),
        None => (false, false),
    };
    if writes {
        steps.push(Step::DecideOutcome);
        steps.push(Step::Record { stage: LifecycleStage::OutcomeRecorded });
    }
    if guarded {
        steps.push(Step::CheckGuard);
        steps.push(Step::RemoveGuard);
        steps.push(Step::SyncRoot);
    }
    steps.push(Step::Measure);
    assert(steps@ =~= recover_steps(mode, *record));
    steps
}

/// A single-use plan of a recovery.
#[derive(Debug)]
pub struct RecoverPlan {
    preview: Preview,
    parent: Vec<u8>,
    name: Vec<u8>,
}

impl RecoverPlan {
    pub closed spec fn shown(self) -> Preview {
        self.preview
    }

    pub closed spec fn directory(self) -> Seq<u8> {
        self.parent@
    }

    pub closed spec fn leaf(self) -> Seq<u8> {
        self.name@
    }

    pub open spec fn lifecycle_path(self) -> Seq<u8> {
        path::joined(self.directory(), plan::lifecycle_name_of(self.leaf()))
    }

    /// Inspects what an update left behind; nothing is repaired.
    pub fn prepare(
        host: Host,
        prefix: &[u8],
        parent_look: &ParentLook,
        look: &RecoverLook,
        running_arch: &str,
    ) -> (result: Result<RecoverPlan, Error>)
        ensures
            match recover_fault(host, prefix@, *parent_look, *look) {
                Some(fault) => result matches Err(error) && lifecycle::fault_of(error) == fault,
                None => {
                    let (mode, decision) = look_plan(
                        path::leaf(prefix@),
                        *look,
                        false,
                    )->Ok_0;
                    let receipt = look.package->Ok_0;
                    &&& result matches Ok(plan)
                    &&& plan.directory() == path::parent(prefix@)
                    &&& plan.leaf() == path::leaf(prefix@)
                    &&& plan.shown().action == Action::Recover
                    &&& plan.shown().prefix@ == prefix@
                    &&& plan.shown().executable@ == path::joined(
                        prefix@,
                        package::executable_name(),
                    )
                    &&& plan.shown().version == receipt.version
                    &&& plan.shown().sha256 == receipt.sha256
                    &&& plan.shown().executable_bytes == receipt.executable_bytes
                    &&& !plan.shown().already_installed
                    &&& plan.shown().can_execute == (mode != RecoverMode::Manual)
                    &&& text::opt_text(plan.shown().decision) == Some(decision)
                    &&& match look.record->Ok_0 {
                        Some(record) => plan.shown().current == Some(record.current)
                            && plan.shown().candidate == Some(record.candidate),
                        None => {
                            &&& plan.shown().candidate is None
                            &&& plan.shown().current matches Some(current)
                            &&& receipt.is_shown_as(
                                "owned installed manifest"@,
                                running_arch@,
                                current,
                            )
                        },
                    }
                },
            },
    {
        if host != Host::MacOs {
            return Err(plan::unsupported());
        }
        let (parent, name): (Vec<u8>, Vec<u8>) = match plan::open_parent(prefix, parent_look) {
            Ok(parts) => parts,
            Err(error) => {
                return Err(error);
            },
        };
        let recovery: Recovery = match classify_look(name.as_slice(), look, false) {
            Ok(recovery) => recovery,
            Err(error) => {
                return Err(error);
            },
        };
        let receipt = match &look.package {
            Ok(receipt) => receipt,
            Err(error) => {
                return Err(lifecycle::pass_on(error));
            },
        };
        let mut preview = receipt.preview(prefix, Action::Recover, running_arch);
        if let Ok(Some(record)) = &look.record {
            preview.current = Some(record.current.copy());
            preview.candidate = Some(record.candidate.copy());
        }
        preview.can_execute = recovery.can_execute;
        preview.decision = Some(recovery.decision);
        Ok(RecoverPlan { preview, parent, name })
    }

    pub fn preview(&self) -> (preview: &Preview)
        ensures
            *preview == self.shown(),
    {
        &self.preview
    }

    /// Starts the recovery from what is observed now.
    pub fn execute(self, cancelled: bool, look: RecoverLook) -> (result: Result<Begun, Error>)
        ensures
            ({
                let preview = self.shown();
                let places = seq![self.lifecycle_path()];
                if cancelled {
                    result matches Ok(begun) && plan::ends(
                        begun,
                        OutcomeState::Cancelled,
                        preview,
                        Seq::empty(),
                        None,
                    )
                } else if !preview.can_execute {
                    result matches Ok(begun) && plan::ends(
                        begun,
                        OutcomeState::Refused,
                        preview,
                        places,
                        text::opt_text(preview.decision),
                    )
                } else {
                    match look_plan(self.leaf(), look, true) {
                        Err(fault) => result matches Err(error) && lifecycle::fault_of(error)
                            == fault,
                        Ok((mode, decision)) => result matches Ok(begun) && if mode
                            == RecoverMode::Manual {
                            plan::ends(
                                begun,
                                OutcomeState::Refused,
                                preview,
                                places,
                                Some(decision),
                            )
                        } else if mode == RecoverMode::Nothing && look.record->Ok_0 is None {
                            &&& plan::keeps_no_record(begun)
                            &&& plan::starts(
                                begun,
                                seq![Step::Verify { removed: 0 }, Step::Measure],
                                2,
                                0,
                                places,
                                places,
                                preview,
                                OutcomeState::Recovered,
                            )
                        } else {
                            &&& plan::starts(
                                begun,
                                recover_steps(mode, look.record->Ok_0),
                                0,
                                0,
                                places,
                                places,
                                preview,
                                OutcomeState::Recovered,
                            )
                            &&& begun matches Begun::Started(run)
                            &&& run.record == look.record->Ok_0
                        },
                    }
                }
            }),
    {
        let lifecycle_path = path::join(
            self.parent.as_slice(),
            plan::lifecycle_name(self.name.as_slice()).as_slice(),
        );
        if cancelled {
            return Ok(plan::end(self.preview, OutcomeState::Cancelled, plan::none(), None));
        }
        if !self.preview.can_execute {
            let decision = plan::copy_decision(&self.preview.decision);
            return Ok(
                plan::end(
                    self.preview,
                    OutcomeState::Refused,
                    plan::one(lifecycle_path.as_slice()),
                    decision,
                ),
            );
        }
        let recovery: Recovery = match classify_look(self.name.as_slice(), &look, true) {
            Ok(recovery) => recovery,
            Err(error) => {
                return Err(error);
            },
        };
        if !recovery.can_execute {
            return Ok(
                plan::end(
                    self.preview,
                    OutcomeState::Refused,
                    plan::one(lifecycle_path.as_slice()),
                    Some(recovery.decision),
                ),
            );
        }
        let record: Option<LifecycleRecord> = match look.record {
            Ok(record) => record,
            Err(error) => {
                return Err(error);
            },
        };
        let (steps, boundary): (Vec<Step>, usize) = if recovery.mode == RecoverMode::Nothing
            && record.is_none() {
            let mut steps: Vec<Step> = Vec::new();
            steps.push(Step::Verify { removed: 0 });
            steps.push(Step::Measure);
            assert(steps@ =~= seq![Step::Verify { removed: 0 }, Step::Measure]);
            (steps, 2)
        } else {
            (recovering(recovery.mode, &record), 0)
        };
        Ok(
            Begun::Started(
                Run {
                    steps,
                    position: 0,
                    boundary,
                    turn: 0,
                    early: plan::one(lifecycle_path.as_slice()),
                    late: plan::one(lifecycle_path.as_slice()),
                    preview: self.preview,
                    success: OutcomeState::Recovered,
                    footprint: None,
                    record,
                },
            ),
        )
    }
}

/// A removal: only the fully verified package is renamed away, and each piece goes after
/// what is left has been verified again.
pub open spec fn remove_steps() -> Seq<Step> {
    seq![
        Step::Verify { removed: 0 },
        Step::Measure,
        Step::RequireAbsent,
        Step::CheckCancel,
        Step::Detach,
        Step::SyncParent,
        Step::Verify { removed: 0 },
        Step::RemoveExecutable,
        Step::SyncBin,
        Step::Verify { removed: 1 },
        Step::RemoveBin,
        Step::SyncRoot,
        Step::Verify { removed: 2 },
        Step::RemoveLock,
        Step::SyncRoot,
        Step::Verify { removed: 3 },
        Step::RemoveManifest,
        Step::SyncRoot,
        Step::Verify { removed: 4 },
        Step::RemoveRoot,
        Step::SyncParent,
        Step::FinalFullSync,
    ]
}

fn removing() -> (steps: Vec<Step>)
    ensures
        steps@ == remove_steps(),
{
    let mut steps: Vec<Step> = Vec::new();
    plan::push_all(
        &mut steps,
        &[
            Step::Verify { removed: 0 },
            Step::Measure,
            Step::RequireAbsent,
            Step::CheckCancel,
            Step::Detach,
            Step::SyncParent,
            Step::Verify { removed: 0 },
            Step::RemoveExecutable,
            Step::SyncBin,
            Step::Verify { removed: 1 },
            Step::RemoveBin,
            Step::SyncRoot,
            Step::Verify { removed: 2 },
            Step::RemoveLock,
            Step::SyncRoot,
            Step::Verify { removed: 3 },
            Step::RemoveManifest,
            Step::SyncRoot,
            Step::Verify { removed: 4 },
            Step::RemoveRoot,
            Step::SyncParent,
            Step::FinalFullSync,
        ],
    );
    assert(steps@ =~= remove_steps());
    steps
}

/// A single-use plan of a removal.
#[derive(Debug)]
pub struct RemovePlan {
    preview: Preview,
    parent: Vec<u8>,
    name: Vec<u8>,
}

impl RemovePlan {
    pub closed spec fn shown(self) -> Preview {
        self.preview
    }

    pub closed spec fn directory(self) -> Seq<u8> {
        self.parent@
    }

    pub closed spec fn leaf(self) -> Seq<u8> {
        self.name@
    }

    pub open spec fn lifecycle_path(self) -> Seq<u8> {
        path::joined(self.directory(), plan::lifecycle_name_of(self.leaf()))
    }

    /// Verifies the entire fixed inventory; no files are removed by preparation.
    pub fn prepare(
        host: Host,
        prefix: &[u8],
        parent_look: &ParentLook,
        package: &Result<Receipt, Error>,
        look: &GateLook,
        running_arch: &str,
    ) -> (result: Result<RemovePlan, Error>)
        ensures
            match remove_fault(host, prefix@, *parent_look, *package, *look) {
                Some(fault) => result matches Err(error) && lifecycle::fault_of(error) == fault,
                None => {
                    let decision = plan::gate_of(path::leaf(prefix@), *look)->Ok_0;
                    let receipt = package->Ok_0;
                    &&& result matches Ok(plan)
                    &&& plan.directory() == path::parent(prefix@)
                    &&& plan.leaf() == path::leaf(prefix@)
                    &&& plan.shown().action == Action::Remove
                    &&& plan.shown().prefix@ == prefix@
                    &&& plan.shown().executable@ == path::joined(
                        prefix@,
                        package::executable_name(),
                    )
                    &&& plan.shown().version == receipt.version
                    &&& plan.shown().sha256 == receipt.sha256
                    &&& plan.shown().executable_bytes == receipt.executable_bytes
                    &&& !plan.shown().already_installed
                    &&& plan.shown().candidate is None
                    &&& plan.shown().current matches Some(current) && receipt.is_shown_as(
                        "owned installed manifest"@,
                        running_arch@,
                        current,
                    )
                    &&& plan.shown().can_execute == (decision is None)
                    &&& text::opt_text(plan.shown().decision) == decision
                },
            },
    {
        if host != Host::MacOs {
            return Err(plan::unsupported());
        }
        let (parent, name): (Vec<u8>, Vec<u8>) = match plan::open_parent(prefix, parent_look) {
            Ok(parts) => parts,
            Err(error) => {
                return Err(error);
            },
        };
        let receipt = match package {
            Ok(receipt) => receipt,
            Err(error) => {
                return Err(lifecycle::pass_on(error));
            },
        };
        let decision: Option<String> = match plan::gate(name.as_slice(), look) {
            Ok(decision) => decision,
            Err(error) => {
                return Err(error);
            },
        };
        let mut preview = receipt.preview(prefix, Action::Remove, running_arch);
        preview.can_execute = decision.is_none();
        preview.decision = decision;
        Ok(RemovePlan { preview, parent, name })
    }

    pub fn preview(&self) -> (preview: &Preview)
        ensures
            *preview == self.shown(),
    {
        &self.preview
    }

    /// Starts the removal; `detached_name` is the name that the package is renamed to.
    pub fn execute(self, cancelled: bool, look: &GateLook, detached_name: &[u8]) -> (result: Result<
        Begun,
        Error,
    >)
        ensures
            ({
                let preview = self.shown();
                let detached = path::joined(self.directory(), detached_name@);
                if cancelled {
                    result matches Ok(begun) && plan::ends(
                        begun,
                        OutcomeState::Cancelled,
                        preview,
                        Seq::empty(),
                        None,
                    )
                } else if !preview.can_execute {
                    result matches Ok(begun) && plan::ends(
                        begun,
                        OutcomeState::Refused,
                        preview,
                        seq![self.lifecycle_path()],
                        text::opt_text(preview.decision),
                    )
                } else {
                    match plan::gate_of(self.leaf(), *look) {
                        Err(fault) => result matches Err(error) && lifecycle::fault_of(error)
                            == fault,
                        Ok(Some(reason)) => result matches Ok(begun) && plan::ends(
                            begun,
                            OutcomeState::Refused,
                            preview,
                            seq![self.lifecycle_path()],
                            Some(reason),
                        ),
                        Ok(None) => result matches Ok(begun) && plan::keeps_no_record(begun)
                            && plan::starts(
                            begun,
                            remove_steps(),
                            5,
                            0,
                            seq![detached],
                            seq![detached],
                            preview,
                            OutcomeState::Removed,
                        ),
                    }
                }
            }),
    {
        let lifecycle_path = path::join(
            self.parent.as_slice(),
            plan::lifecycle_name(self.name.as_slice()).as_slice(),
        );
        if cancelled {
            return Ok(plan::end(self.preview, OutcomeState::Cancelled, plan::none(), None));
        }
        if !self.preview.can_execute {
            let decision = plan::copy_decision(&self.preview.decision);
            return Ok(
                plan::end(
                    self.preview,
                    OutcomeState::Refused,
                    plan::one(lifecycle_path.as_slice()),
                    decision,
                ),
            );
        }
        match plan::gate(self.name.as_slice(), look) {
            Err(error) => {
                return Err(error);
            },
            Ok(Some(reason)) => {
                return Ok(
                    plan::end(
                        self.preview,
                        OutcomeState::Refused,
                        plan::one(lifecycle_path.as_slice()),
                        Some(reason),
                    ),
                );
            },
            Ok(None) => {},
        }
        let detached = path::join(self.parent.as_slice(), detached_name);
        Ok(
            Begun::Started(
                Run {
                    steps: removing(),
                    position: 0,
                    boundary: 5,
                    turn: 0,
                    early: plan::one(detached.as_slice()),
                    late: plan::one(detached.as_slice()),
                    preview: self.preview,
                    success: OutcomeState::Removed,
                    footprint: None,
                    record: None,
                },
            ),
        )
    }
}

} // verus!
