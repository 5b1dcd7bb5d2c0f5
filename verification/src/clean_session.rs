//! A Trash session for files that a clean discovery selected, under a clean policy.

use crate::clean_policy::UnixIdentity;
use crate::error::{Error, ErrorKind};
use crate::execute::{GuardDecision, GuardPoint, Plan, PlanItem};
use crate::journal::{CleanPolicyContextRecord, NativePath, MAX_ITEMS};
use crate::lifecycle;
use crate::model::{FileIdentity, Host};
use crate::path;
use crate::policy_snapshot;
use crate::policy_snapshot::{PolicyGuardStatus, PolicySnapshot, SnapshotLook};
use crate::policy_store;
use crate::policy_store::ShownSnapshot;
use crate::recover::Fault;
use crate::rule_binding::RuleCandidate;
use crate::text;
use crate::trash_session;
use crate::trash_session::{Gathered, PathLook, RuleLook, TrashSession};
use vstd::prelude::*;
use vstd::string::*;

verus! {

/// Under which rule, and with which device and inode, a path was discovered.
#[verifier::ext_equal]
pub struct Discovered {
    pub rule: Seq<char>,
    pub device: u64,
    pub inode: u64,
}

/// How a path was discovered; the last discovery with a Unix identity counts.
pub open spec fn discovery(candidates: Seq<RuleCandidate>, place: Seq<u8>) -> Option<Discovered>
    decreases candidates.len(),
{
    if candidates.len() == 0 {
        None
    } else {
        match candidates.last().target_identity {
            FileIdentity::Unix { device, inode } if path::same_path(
                candidates.last().target_path@,
                place,
            ) => Some(Discovered { rule: candidates.last().rule_id@, device, inode }),
            _ => discovery(candidates.drop_last(), place),
        }
    }
}

fn find_discovery(candidates: &Vec<RuleCandidate>, place: &[u8]) -> (found: Option<usize>)
    ensures
        match found {
            Some(at) => {
                &&& at < candidates@.len()
                &&& candidates@[at as int].target_identity matches FileIdentity::Unix {
                    device,
                    inode,
                }
                &&& discovery(candidates@, place@) == Some(
                    Discovered { rule: candidates@[at as int].rule_id@, device, inode },
                )
            },
            None => discovery(candidates@, place@) is None,
        },
{
    let mut i: usize = candidates.len();
    assert(candidates@.take(i as int) =~= candidates@);
    while i > 0
        invariant
            0 <= i <= candidates@.len(),
            discovery(candidates@, place@) == discovery(candidates@.take(i as int), place@),
        decreases i,
    {
        assert(candidates@.take(i as int).drop_last() =~= candidates@.take(i - 1));
        assert(candidates@.take(i as int).last() == candidates@[i - 1]);
        i -= 1;
        if path::paths_equal(candidates[i].target_path.as_slice(), place) {
            if let FileIdentity::Unix { .. } = candidates[i].target_identity {
                return Some(i);
            }
        }
    }
    None
}

/// Whether every selected path was discovered.
pub open spec fn all_discovered(candidates: Seq<RuleCandidate>, selected: Seq<NativePath>) -> bool {
    forall|i: int|
        0 <= i < selected.len() ==> discovery(candidates, (#[trigger] selected[i]).bytes@) is Some
}

/// Why a planned item is not what was discovered.
pub open spec fn item_fault(candidates: Seq<RuleCandidate>, item: PlanItem) -> Option<Fault> {
    match discovery(candidates, item.path.bytes@) {
        None => Some(
            (ErrorKind::InvalidData, "selected candidate is missing from discovery set"@),
        ),
        Some(expected) => if !(item.rule_binding matches Some(binding) && binding.rule_id@
            == expected.rule) {
            Some(
                (
                    ErrorKind::InvalidData,
                    "selected candidate rule binding changed; rerun clean preview"@,
                ),
            )
        } else {
            match item.identity {
                Some(FileIdentity::Unix { device, inode }) => if device != expected.device || inode
                    != expected.inode {
                    Some(
                        (
                            ErrorKind::InvalidData,
                            "selected candidate changed after discovery; rerun clean preview"@,
                        ),
                    )
                } else {
                    None
                },
                _ => Some(
                    (ErrorKind::InvalidData, "selected native candidate lacks Unix identity"@),
                ),
            }
        },
    }
}

/// Why the first planned item that is not what was discovered is not.
pub open spec fn items_fault(candidates: Seq<RuleCandidate>, items: Seq<PlanItem>) -> Option<Fault>
    decreases items.len(),
{
    if items.len() == 0 {
        None
    } else if item_fault(candidates, items[0]) is Some {
        item_fault(candidates, items[0])
    } else {
        items_fault(candidates, items.drop_first())
    }
}

/// Why selected paths cannot be those of a clean session.
pub open spec fn refused_selection(
    host: Host,
    candidates: Seq<RuleCandidate>,
    selected: Seq<NativePath>,
) -> Option<Fault> {
    if host != Host::MacOs {
        Some(trash_session::unsupported())
    } else if selected.len() == 0 || selected.len() > MAX_ITEMS {
        Some(
            (
                ErrorKind::InvalidData,
                "select between 1 and 32 explicit files for clean execution"@,
            ),
        )
    } else if !all_discovered(candidates, selected) {
        Some(
            (
                ErrorKind::InvalidData,
                "selected path is not a current clean discovery candidate"@,
            ),
        )
    } else {
        None
    }
}

/// What the selected paths of a clean session come to: what the policy excludes is left out.
pub open spec fn clean_gathered(
    host: Host,
    rule_known: bool,
    candidates: Seq<RuleCandidate>,
    selected: Seq<NativePath>,
    exclusions: Seq<NativePath>,
    looks: Seq<PathLook>,
    rules: Seq<RuleLook>,
) -> Result<(Seq<u64>, Seq<u64>), Fault> {
    match refused_selection(host, candidates, selected) {
        Some(fault) => Err(fault),
        None => trash_session::rule_gathered(
            host,
            rule_known,
            selected,
            exclusions,
            looks,
            rules,
        ),
    }
}

/// Why a clean session cannot be prepared. `root_identity` is what came of looking at the
/// root.
pub open spec fn clean_fault(
    host: Host,
    candidates: Seq<RuleCandidate>,
    selected: Seq<NativePath>,
    inner: Result<TrashSession, Error>,
    root_identity: Result<UnixIdentity, Error>,
) -> Option<Fault> {
    match refused_selection(host, candidates, selected) {
        Some(fault) => Some(fault),
        None => match inner {
            Err(error) => Some(lifecycle::fault_of(error)),
            Ok(session) => if items_fault(
                candidates,
                session.prepared.plan.items@,
            ) is Some {
                items_fault(candidates, session.prepared.plan.items@)
            } else {
                match root_identity {
                    Err(error) => Some(lifecycle::fault_of(error)),
                    Ok(_) => None,
                }
            },
        },
    }
}

fn check_selection(host: Host, candidates: &Vec<RuleCandidate>, selected: &Vec<NativePath>) -> (result:
    Result<(), Error>)
    ensures
        match result {
            Ok(_) => refused_selection(host, candidates@, selected@) is None,
            Err(error) => refused_selection(host, candidates@, selected@) == Some(
                lifecycle::fault_of(error),
            ),
        },
{
    if host != Host::MacOs {
        return Err(Error::new(ErrorKind::Unsupported, "native Trash is macOS-only"));
    }
    if selected.len() == 0 || selected.len() > MAX_ITEMS {
        return Err(
            Error::new(
                ErrorKind::InvalidData,
                "select between 1 and 32 explicit files for clean execution",
            ),
        );
    }
    let mut i: usize = 0;
    while i < selected.len()
        invariant
            0 <= i <= selected@.len(),
            host == Host::MacOs,
            0 < selected@.len() <= MAX_ITEMS,
            forall|j: int|
                0 <= j < i ==> discovery(candidates@, (#[trigger] selected@[j]).bytes@) is Some,
        decreases selected@.len() - i,
    {
        if find_discovery(candidates, selected[i].bytes.as_slice()).is_none() {
            assert(discovery(candidates@, selected@[i as int].bytes@) is None);
            return Err(
                Error::new(
                    ErrorKind::InvalidData,
                    "selected path is not a current clean discovery candidate",
                ),
            );
        }
        i += 1;
    }
    Ok(())
}

fn check_item(candidates: &Vec<RuleCandidate>, item: &PlanItem) -> (result: Result<(), Error>)
    ensures
        match result {
            Ok(_) => item_fault(candidates@, *item) is None,
            Err(error) => item_fault(candidates@, *item) == Some(lifecycle::fault_of(error)),
        },
{
    let at: usize = match find_discovery(candidates, item.path.bytes.as_slice()) {
        None => {
            return Err(
                Error::new(
                    ErrorKind::InvalidData,
                    "selected candidate is missing from discovery set",
                ),
            );
        },
        Some(at) => at,
    };
    let bound = match &item.rule_binding {
        None => false,
        Some(binding) => text::text_eq(
            binding.rule_id.as_str(),
            candidates[at].rule_id.as_str(),
        ),
    };
    if !bound {
        return Err(
            Error::new(
                ErrorKind::InvalidData,
                "selected candidate rule binding changed; rerun clean preview",
            ),
        );
    }
    let identity: FileIdentity = match &item.identity {
        Some(identity) => *identity,
        None => {
            return Err(
                Error::new(
                    ErrorKind::InvalidData,
                    "selected native candidate lacks Unix identity",
                ),
            );
        },
    };
    match identity {
        FileIdentity::Unix { .. } => {
            if identity != candidates[at].target_identity {
                return Err(
                    Error::new(
                        ErrorKind::InvalidData,
                        "selected candidate changed after discovery; rerun clean preview",
                    ),
                );
            }
            Ok(())
        },
        _ => Err(
            Error::new(ErrorKind::InvalidData, "selected native candidate lacks Unix identity"),
        ),
    }
}

/// A Trash session under a clean policy.
#[derive(Debug)]
pub struct CleanSession {
    pub root: NativePath,
    /// What the policy excluded when the session was prepared.
    pub policy_snapshot: PolicySnapshot,
    pub inner: TrashSession,
    pub clean_policy_context: CleanPolicyContextRecord,
}

/// Why a clean session is not approved: the policy, then the plan.
pub open spec fn approval_fault(
    policy: Result<Option<Seq<char>>, Fault>,
    planner: Result<(), String>,
) -> Option<Fault> {
    match policy {
        Err(fault) => Some(fault),
        Ok(Some(reason)) => Some((ErrorKind::PermissionDenied, reason + "; no_native_call"@)),
        Ok(None) => match planner {
            Ok(_) => None,
            Err(message) => Some((ErrorKind::InvalidInput, message@)),
        },
    }
}

impl CleanSession {
    /// The resources that a plan is to be prepared from, for selected paths of a clean
    /// discovery: those that the policy excludes are left out.
    pub fn gather(
        host: Host,
        rule_known: bool,
        candidates: &Vec<RuleCandidate>,
        selected: &Vec<NativePath>,
        shown: &ShownSnapshot,
        snapshot: &PolicySnapshot,
        looks: &Vec<PathLook>,
        rules: &Vec<RuleLook>,
    ) -> (result: Result<Gathered, Error>)
        requires
            policy_store::is_shown(*shown, snapshot@),
            trash_session::looks_at(selected@, shown.effective_exclusions@, looks@),
            rules@.len() == selected@.len(),
        ensures
            trash_session::gathered_result(result) == clean_gathered(
                host,
                rule_known,
                candidates@,
                selected@,
                shown.effective_exclusions@,
                looks@,
                rules@,
            ),
    {
        if let Err(error) = check_selection(host, candidates, selected) {
            return Err(error);
        }
        TrashSession::prepare_rule_selection(
            host,
            rule_known,
            selected,
            &shown.effective_exclusions,
            looks,
            rules,
        )
    }

    /// Prepares a session for selected paths of a clean discovery, under a policy. `inner` is
    /// the session over those paths.
    pub fn prepare_rule_selection(
        host: Host,
        candidates: &Vec<RuleCandidate>,
        selected: &Vec<NativePath>,
        inner: Result<TrashSession, Error>,
        shown: ShownSnapshot,
        snapshot: PolicySnapshot,
        root_identity: Result<UnixIdentity, Error>,
    ) -> (result: Result<CleanSession, Error>)
        requires
            policy_store::is_shown(shown, snapshot@),
            inner matches Ok(session) ==> session.paths@ == selected@,
        ensures
            match result {
                Ok(session) => {
                    &&& clean_fault(host, candidates@, selected@, inner, root_identity) is None
                    &&& inner == Ok::<TrashSession, Error>(session.inner)
                    &&& session.root == shown.root
                    &&& session.policy_snapshot == snapshot
                    &&& root_identity matches Ok(identity)
                    &&& policy_store::records_context(
                        session.clean_policy_context,
                        shown,
                        identity,
                        snapshot.file_state,
                    )
                },
                Err(error) => clean_fault(host, candidates@, selected@, inner, root_identity)
                    == Some(lifecycle::fault_of(error)),
            },
    {
        if let Err(error) = check_selection(host, candidates, selected) {
            return Err(error);
        }
        let session: TrashSession = match inner {
            Err(error) => {
                return Err(error);
            },
            Ok(session) => session,
        };
        let items: &Vec<PlanItem> = &session.prepared.plan.items;
        let mut k: usize = 0;
        assert(items@.skip(0) =~= items@);
        while k < items.len()
            invariant
                0 <= k <= items@.len(),
                items@ == session.prepared.plan.items@,
                inner == Ok::<TrashSession, Error>(session),
                refused_selection(host, candidates@, selected@) is None,
                items_fault(candidates@, items@) == items_fault(
                    candidates@,
                    items@.skip(k as int),
                ),
            decreases items@.len() - k,
        {
            assert(items@.skip(k as int)[0] == items@[k as int]);
            if let Err(error) = check_item(candidates, &items[k]) {
                return Err(error);
            }
            assert(items@.skip(k as int).drop_first() =~= items@.skip(k + 1));
            k += 1;
        }
        match policy_store::clean_policy_context_record(&shown, root_identity, &snapshot) {
            Err(error) => Err(error),
            Ok(clean_policy_context) => Ok(
                CleanSession {
                    root: shown.root,
                    policy_snapshot: snapshot,
                    inner: session,
                    clean_policy_context,
                },
            ),
        }
    }

    pub fn preview(&self) -> (plan: &Plan)
        ensures
            *plan == self.inner.prepared.plan,
    {
        self.inner.preview()
    }

    /// Approval needs the policy that the session was prepared under. `look` is a new look at
    /// the policy for the session's root, `planner` what the plan says to its approval.
    pub fn approve(
        &self,
        host: Host,
        look: &SnapshotLook,
        planner: Result<(), String>,
    ) -> (result: Result<(), Error>)
        requires
            look.root.raw@ == self.root.bytes@,
        ensures
            ({
                let policy = policy_snapshot::guard_answer(host, *look, self.policy_snapshot@);
                match result {
                    Ok(_) => approval_fault(policy, planner) is None,
                    Err(error) => approval_fault(policy, planner) == Some(
                        lifecycle::fault_of(error),
                    ),
                }
            }),
    {
        match policy_snapshot::guard_snapshot(host, look, &self.policy_snapshot) {
            Err(error) => Err(error),
            Ok(PolicyGuardStatus::Refused(reason)) => Err(
                Error {
                    kind: ErrorKind::PermissionDenied,
                    message: text::concat(reason.as_str(), "; no_native_call"),
                },
            ),
            Ok(PolicyGuardStatus::Unchanged) => match planner {
                Ok(_) => Ok(()),
                Err(message) => Err(Error { kind: ErrorKind::InvalidInput, message }),
            },
        }
    }

    /// The guard of the session, asked of every item at both points: an item goes on only
    /// under the policy that the session was prepared under.
    pub fn guard(&self, host: Host, point: GuardPoint, look: &SnapshotLook) -> (result: Result<
        GuardDecision,
        String,
    >)
        requires
            look.root.raw@ == self.root.bytes@,
        ensures
            trash_session::decided(result) == clean_decision(
                point,
                policy_snapshot::guard_answer(host, *look, self.policy_snapshot@),
            ),
    {
        clean_guard(point, policy_snapshot::guard_snapshot(host, look, &self.policy_snapshot))
    }
}

/// How a refusal of the policy is marked at each point.
pub open spec fn marker_at(point: GuardPoint) -> Seq<char> {
    match point {
        GuardPoint::AfterStarted => "policy_refused_after_started"@,
        GuardPoint::LastNative => "policy_refused_last_native_guard"@,
    }
}

/// What the guard of a clean session decides: at either point an item goes on only under the
/// policy that the session was approved under.
pub open spec fn clean_decision(
    point: GuardPoint,
    policy: Result<Option<Seq<char>>, Fault>,
) -> Result<Option<Seq<char>>, Seq<char>> {
    match policy {
        Err((_, message)) => Err(message),
        Ok(None) => Ok(None),
        Ok(Some(reason)) => Ok(Some(marker_at(point) + ":"@ + reason)),
    }
}

/// The guard of a clean session.
pub fn clean_guard(point: GuardPoint, policy: Result<PolicyGuardStatus, Error>) -> (result: Result<
    GuardDecision,
    String,
>)
    ensures
        trash_session::decided(result) == clean_decision(
            point,
            policy_snapshot::status_answer(policy),
        ),
{
    match policy {
        Err(error) => Err(error.message),
        Ok(PolicyGuardStatus::Unchanged) => Ok(GuardDecision::Proceed),
        Ok(PolicyGuardStatus::Refused(reason)) => {
            let marker: &str = match point {
                GuardPoint::AfterStarted => "policy_refused_after_started",
                GuardPoint::LastNative => "policy_refused_last_native_guard",
            };
            Ok(GuardDecision::Refused(text::concat3(marker, ":", reason.as_str())))
        },
    }
}

/// What a clean session executes is what was discovered: every item of its plan was
/// discovered, under the same rule and as the same file.
pub proof fn planned_items_were_discovered(
    candidates: Seq<RuleCandidate>,
    items: Seq<PlanItem>,
    i: int,
)
    requires
        items_fault(candidates, items) is None,
        0 <= i < items.len(),
    ensures
        discovery(candidates, items[i].path.bytes@) matches Some(found) && items[i].identity
            == Some(FileIdentity::Unix { device: found.device, inode: found.inode }) && (
        items[i].rule_binding matches Some(binding) && binding.rule_id@ == found.rule),
    decreases items.len(),
{
    if i > 0 {
        planned_items_were_discovered(candidates, items.drop_first(), i - 1);
        assert(items.drop_first()[i - 1] == items[i]);
    }
}

/// A policy that changed, or that cannot be read, refuses approval and refuses at both points,
/// so that no item moves under a policy that was not approved.
pub proof fn changed_policy_never_proceeds(
    host: Host,
    look: SnapshotLook,
    expected: PolicySnapshot,
    point: GuardPoint,
    planner: Result<(), String>,
)
    requires
        policy_snapshot::guard_answer(host, look, expected@) != Ok::<Option<Seq<char>>, Fault>(
            None,
        ),
    ensures
        approval_fault(policy_snapshot::guard_answer(host, look, expected@), planner) is Some,
        clean_decision(point, policy_snapshot::guard_answer(host, look, expected@)) != Ok::<
            Option<Seq<char>>,
            Seq<char>,
        >(None),
{
}

/// What the policy excludes is never planned: a selected path at, above or below an effective
/// exclusion is left out of what the plan is prepared from.
pub proof fn excluded_paths_are_left_out(
    rule_known: bool,
    candidates: Seq<RuleCandidate>,
    selected: Seq<NativePath>,
    shown: ShownSnapshot,
    snapshot: PolicySnapshot,
    looks: Seq<PathLook>,
    rules: Seq<RuleLook>,
    i: int,
    k: int,
)
    requires
        policy_store::is_shown(shown, snapshot@),
        clean_gathered(
            Host::MacOs,
            rule_known,
            candidates,
            selected,
            shown.effective_exclusions@,
            looks,
            rules,
        ) is Ok,
        0 <= i < selected.len(),
        0 <= k < snapshot@.effective.len(),
        path::overlap(selected[i].bytes@, snapshot@.effective[k]),
    ensures
        ({
            let (resources, left_out) = clean_gathered(
                Host::MacOs,
                rule_known,
                candidates,
                selected,
                shown.effective_exclusions@,
                looks,
                rules,
            )->Ok_0;
            resources.len() == selected.len() && left_out.contains(resources[i])
        }),
{
    let excluded = shown.effective_exclusions@;
    assert(excluded[k].bytes@ == snapshot@.effective[k]);
    assert(trash_session::overlaps_excluded(selected[i].bytes@, excluded));
    trash_session::exclusions_only_narrow(selected, excluded, looks, Some(rules), selected.len());
    trash_session::overlapping_resources_are_left_out(
        selected,
        excluded,
        looks,
        Some(rules),
        selected.len(),
        i,
    );
}

} // verus!
