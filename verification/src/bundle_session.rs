//! A Trash session for one application bundle.

use crate::app_inventory::{RunningObservation, RunningView};
use crate::app_uninstall;
use crate::batch::ReasonCode;
use crate::error::{Error, ErrorKind};
use crate::execute::{GuardDecision, GuardPoint, Plan, SelectionIssue, SelectionRefusal};
use crate::journal;
use crate::journal::NativePath;
use crate::lifecycle;
use crate::native::Retained;
use crate::text;
use crate::trash_session;
use crate::trash_session::Prepared;
use vstd::prelude::*;
use vstd::string::*;

verus! {

/// A Trash session for exactly one explicit bundle. Its scope is the bundle's parent
/// directory.
#[derive(Debug)]
pub struct BundleUninstallSession {
    pub retained: Retained,
    pub prepared: Prepared,
    pub bundle: NativePath,
}

/// Why a running state refuses approval: anything but a proven clear state does.
pub open spec fn running_fault(running: RunningView) -> Option<ReasonCode> {
    match running {
        RunningView::NotRunning => None,
        RunningView::Running(_) => Some(ReasonCode::OwnerRunning),
        _ => Some(ReasonCode::OwnerUnknown),
    }
}

/// How a running state is named.
pub open spec fn running_name(running: RunningView) -> Seq<char> {
    match running {
        RunningView::NotChecked => "not_checked"@,
        RunningView::NotAttributable(_) => "not_attributable"@,
        RunningView::NotRunning => "not_running"@,
        RunningView::Running(_) => "running"@,
        RunningView::Unknown => "unknown"@,
    }
}

/// What the guard of a bundle session decides: immediately before the sole native call, only
/// a bundle that is proven not to run goes on.
pub open spec fn bundle_decision(point: GuardPoint, running: RunningView) -> Option<Seq<char>> {
    if point != GuardPoint::LastNative {
        None
    } else {
        match running {
            RunningView::NotRunning => None,
            RunningView::Running(pids) => Some(
                "bundle executables are running (pids: ["@ + app_uninstall::listed(pids)
                    + "]); refused, never signaled"@,
            ),
            _ => Some(
                "running state is not proven clear ("@ + running_name(running) + "); refused"@,
            ),
        }
    }
}

/// The guard of a bundle session.
pub fn bundle_guard(point: GuardPoint, running: &RunningObservation) -> (decision: GuardDecision)
    ensures
        match decision {
            GuardDecision::Proceed => bundle_decision(point, running@) is None,
            GuardDecision::Refused(reason) => bundle_decision(point, running@) == Some(reason@),
        },
{
    if point != GuardPoint::LastNative {
        return GuardDecision::Proceed;
    }
    match running {
        RunningObservation::NotRunning => GuardDecision::Proceed,
        RunningObservation::Running(pids) => {
            let shown = app_uninstall::list_numbers(pids);
            GuardDecision::Refused(
                text::concat3(
                    "bundle executables are running (pids: [",
                    shown.as_str(),
                    "]); refused, never signaled",
                ),
            )
        },
        other => GuardDecision::Refused(
            text::concat3("running state is not proven clear (", other.as_str(), "); refused"),
        ),
    }
}

/// Whether the refusals are what the plan refuses, all of the one bundle.
pub open spec fn refuse_bundle(
    refusals: Seq<SelectionRefusal>,
    bundle: NativePath,
    rejected: Seq<trash_session::Rejected>,
) -> bool {
    &&& refusals.len() == rejected.len()
    &&& forall|i: int|
        0 <= i < rejected.len() ==> (#[trigger] refusals[i]).reason@ == rejected[i].code@
            && journal::same_native(refusals[i].path, bundle)
}

impl BundleUninstallSession {
    /// The resource that a plan is to be prepared from. `found` is what the plan made of the
    /// bundle.
    pub fn prepare(cancelled: bool, found: Result<u64, Error>) -> (result: Result<u64, Error>)
        ensures
            if cancelled {
                result matches Err(error) && lifecycle::fault_of(error) == ((
                    ErrorKind::Interrupted,
                    "cancelled during preview"@,
                ))
            } else {
                result == found
            },
    {
        if cancelled {
            return Err(Error::new(ErrorKind::Interrupted, "cancelled during preview"));
        }
        found
    }

    pub fn preview(&self) -> (plan: &Plan)
        ensures
            *plan == self.prepared.plan,
    {
        &self.prepared.plan
    }

    pub fn issues(&self) -> (issues: &Vec<SelectionIssue>)
        ensures
            *issues == self.retained.issues,
    {
        &self.retained.issues
    }

    pub fn refusals(&self) -> (refusals: Vec<SelectionRefusal>)
        ensures
            refuse_bundle(refusals@, self.bundle, self.prepared.rejected@),
    {
        let mut refusals: Vec<SelectionRefusal> = Vec::new();
        let mut i: usize = 0;
        while i < self.prepared.rejected.len()
            invariant
                0 <= i <= self.prepared.rejected@.len(),
                refusals@.len() == i,
                forall|j: int|
                    0 <= j < i ==> (#[trigger] refusals@[j]).reason@
                        == self.prepared.rejected@[j].code@ && journal::same_native(
                        refusals@[j].path,
                        self.bundle,
                    ),
            decreases self.prepared.rejected@.len() - i,
        {
            refusals.push(
                SelectionRefusal {
                    path: self.bundle.copy(),
                    reason: self.prepared.rejected[i].code.clone(),
                },
            );
            i += 1;
        }
        refusals
    }

    /// Approval re-observes the running state; anything but a proven clear state refuses it.
    /// `Ok` means that the plan may be asked.
    pub fn approve(&self, running: &RunningObservation) -> (result: Result<(), ReasonCode>)
        ensures
            match result {
                Ok(_) => running_fault(running@) is None,
                Err(code) => running_fault(running@) == Some(code),
            },
    {
        match running {
            RunningObservation::NotRunning => Ok(()),
            RunningObservation::Running(_) => Err(ReasonCode::OwnerRunning),
            _ => Err(ReasonCode::OwnerUnknown),
        }
    }
}

/// A bundle is approved, and goes to the native call, only where it is proven not to run.
pub proof fn only_a_stopped_bundle_moves(running: RunningView)
    ensures
        running_fault(running) is None <==> running == RunningView::NotRunning,
        bundle_decision(GuardPoint::LastNative, running) is None <==> running
            == RunningView::NotRunning,
{
}

} // verus!
