//! Preparing a Trash session for explicitly selected files.
//!
//! Only the versioned preview of a session can authorize the candidates that it retains.

use crate::error::{Error, ErrorKind};
use crate::execute::{GuardDecision, Plan, SelectionRefusal};
use crate::journal;
use crate::journal::{NativePath, MAX_ITEMS};
use crate::lifecycle;
use crate::model::{FileIdentity, Host};
use crate::native::Retained;
use crate::path;
use crate::policy_snapshot::PolicyGuardStatus;
use crate::recover::Fault;
use crate::text;
use crate::wire;
use vstd::prelude::*;
use vstd::string::*;

verus! {

/// Whether a path can be selected or excluded: absolute, without traversal.
pub open spec fn is_plain(place: Seq<u8>) -> bool {
    path::is_absolute(place) && !wire::wanders(place)
}

pub fn valid_absolute_path(place: &[u8]) -> (valid: bool)
    ensures
        valid == is_plain(place@),
{
    path::absolute(place) && !wire::find_wandering(place)
}

/// What came of asking the platform whether a target is an excluded object.
#[derive(Debug)]
pub struct ExclusionLook {
    pub cancelled: bool,
    pub matches: Result<bool, Error>,
}

/// What a plan found at a path.
#[derive(Debug)]
pub struct Finding {
    pub resource: u64,
    /// Whether the platform holds the target.
    pub retained: bool,
}

/// What came of one selected path. Nothing is looked at behind the first failure.
#[derive(Debug)]
pub struct PathLook {
    pub cancelled: bool,
    pub found: Result<Finding, Error>,
    /// For each exclusion in order, whether the target is that object.
    pub exclusions: Vec<ExclusionLook>,
}

/// What came of capturing a path under a rule.
#[derive(Debug)]
pub struct RuleLook {
    /// Whether the rule has the path for an explicit target.
    pub supported: bool,
    pub captured: Result<(), Error>,
}

/// Why a selection cannot be prepared at all.
pub open spec fn selection_fault(paths: Seq<NativePath>, excluded: Seq<NativePath>) -> Option<
    Fault,
> {
    if paths.len() == 0 || paths.len() > MAX_ITEMS || excluded.len() > MAX_ITEMS {
        Some(
            (
                ErrorKind::InvalidData,
                "select between 1 and 32 explicit files, with at most 32 exclusions"@,
            ),
        )
    } else if exists|i: int|
        0 <= i < excluded.len() && !is_plain((#[trigger] excluded[i]).bytes@) {
        Some(
            (
                ErrorKind::InvalidData,
                "exclusions must be absolute native paths without traversal"@,
            ),
        )
    } else {
        None
    }
}

fn check_selection(paths: &Vec<NativePath>, excluded: &Vec<NativePath>) -> (result: Result<
    (),
    Error,
>)
    ensures
        match result {
            Ok(_) => selection_fault(paths@, excluded@) is None,
            Err(error) => selection_fault(paths@, excluded@) == Some(lifecycle::fault_of(error)),
        },
{
    if paths.len() == 0 || paths.len() > MAX_ITEMS || excluded.len() > MAX_ITEMS {
        return Err(
            Error::new(
                ErrorKind::InvalidData,
                "select between 1 and 32 explicit files, with at most 32 exclusions",
            ),
        );
    }
    let mut i: usize = 0;
    while i < excluded.len()
        invariant
            0 <= i <= excluded@.len(),
            !(paths@.len() == 0 || paths@.len() > MAX_ITEMS || excluded@.len() > MAX_ITEMS),
            forall|j: int| 0 <= j < i ==> is_plain((#[trigger] excluded@[j]).bytes@),
        decreases excluded@.len() - i,
    {
        if !valid_absolute_path(excluded[i].bytes.as_slice()) {
            return Err(
                Error::new(
                    ErrorKind::InvalidData,
                    "exclusions must be absolute native paths without traversal",
                ),
            );
        }
        i += 1;
    }
    Ok(())
}

/// Whether a path lies at, above or below an excluded one.
pub open spec fn overlaps_excluded(place: Seq<u8>, excluded: Seq<NativePath>) -> bool {
    exists|i: int| 0 <= i < excluded.len() && path::overlap(place, (#[trigger] excluded[i]).bytes@)
}

fn find_overlap(place: &[u8], excluded: &Vec<NativePath>) -> (found: bool)
    ensures
        found == overlaps_excluded(place@, excluded@),
{
    let mut i: usize = 0;
    while i < excluded.len()
        invariant
            0 <= i <= excluded@.len(),
            forall|j: int|
                0 <= j < i ==> !path::overlap(place@, (#[trigger] excluded@[j]).bytes@),
        decreases excluded@.len() - i,
    {
        if path::overlaps(place, excluded[i].bytes.as_slice()) {
            return true;
        }
        i += 1;
    }
    false
}

/// Whether a target that the platform holds is an excluded object, or why that cannot be
/// said. The first answer that decides counts.
pub open spec fn is_excluded_object(
    excluded: Seq<NativePath>,
    looks: Seq<ExclusionLook>,
) -> Result<bool, Fault>
    decreases looks.len(),
{
    if looks.len() == 0 || excluded.len() == 0 {
        Ok(false)
    } else if looks[0].cancelled {
        Err((ErrorKind::Interrupted, "cancelled during exclusion checks"@))
    } else {
        match looks[0].matches {
            Err(error) => Err(
                (
                    error.kind,
                    "cannot verify exclusion "@ + excluded[0].display@ + ": "@ + error.message@,
                ),
            ),
            Ok(true) => Ok(true),
            Ok(false) => is_excluded_object(excluded.drop_first(), looks.drop_first()),
        }
    }
}

fn check_exclusions(excluded: &Vec<NativePath>, looks: &Vec<ExclusionLook>) -> (result: Result<
    bool,
    Error,
>)
    ensures
        match result {
            Ok(found) => is_excluded_object(excluded@, looks@) == Ok::<bool, Fault>(found),
            Err(error) => is_excluded_object(excluded@, looks@) == Err::<bool, Fault>(
                lifecycle::fault_of(error),
            ),
        },
{
    let mut i: usize = 0;
    assert(looks@.skip(0) =~= looks@ && excluded@.skip(0) =~= excluded@);
    while i < looks.len() && i < excluded.len()
        invariant
            0 <= i <= looks@.len(),
            i <= excluded@.len(),
            is_excluded_object(excluded@, looks@) == is_excluded_object(
                excluded@.skip(i as int),
                looks@.skip(i as int),
            ),
        decreases looks@.len() - i,
    {
        assert(looks@.skip(i as int)[0] == looks@[i as int]);
        assert(excluded@.skip(i as int)[0] == excluded@[i as int]);
        if looks[i].cancelled {
            return Err(Error::new(ErrorKind::Interrupted, "cancelled during exclusion checks"));
        }
        match &looks[i].matches {
            Err(error) => {
                let mut message = text::concat3(
                    "cannot verify exclusion ",
                    excluded[i].display.as_str(),
                    ": ",
                );
                message.append(error.message.as_str());
                return Err(Error { kind: error.kind, message });
            },
            Ok(found) => {
                if *found {
                    return Ok(true);
                }
            },
        }
        assert(looks@.skip(i as int).drop_first() =~= looks@.skip(i + 1));
        assert(excluded@.skip(i as int).drop_first() =~= excluded@.skip(i + 1));
        i += 1;
    }
    Ok(false)
}

/// What becomes of one selected path: its resource, and whether it is excluded.
pub open spec fn path_outcome(
    place: NativePath,
    excluded: Seq<NativePath>,
    look: PathLook,
    rule: Option<RuleLook>,
) -> Result<(u64, bool), Fault> {
    if look.cancelled {
        Err((ErrorKind::Interrupted, "cancelled during preview"@))
    } else if rule matches Some(rule) && !rule.supported {
        Err(
            (
                ErrorKind::InvalidData,
                "selected path is not a supported explicit rule target"@,
            ),
        )
    } else if rule matches Some(rule) && rule.captured is Err {
        Err(lifecycle::fault_of(rule->0.captured->Err_0))
    } else {
        match look.found {
            Err(error) => Err(lifecycle::fault_of(error)),
            Ok(finding) => if overlaps_excluded(place.bytes@, excluded) {
                Ok((finding.resource, true))
            } else if !finding.retained {
                Ok((finding.resource, false))
            } else {
                match is_excluded_object(excluded, look.exclusions@) {
                    Ok(found) => Ok((finding.resource, found)),
                    Err(fault) => Err(fault),
                }
            },
        }
    }
}

/// Whether the platform was asked of every exclusion, up to the first answer that decides.
pub open spec fn answers(excluded: Seq<NativePath>, looks: Seq<ExclusionLook>) -> bool
    decreases excluded.len(),
{
    excluded.len() == 0 || (looks.len() > 0 && (looks[0].cancelled || looks[0].matches != Ok::<
        bool,
        Error,
    >(false) || answers(excluded.drop_first(), looks.drop_first())))
}

/// Whether a look says all that is asked of a selected path: where the platform holds the
/// target and no exclusion overlaps its path, also whether it is an excluded object.
pub open spec fn is_answered(
    place: NativePath,
    excluded: Seq<NativePath>,
    look: PathLook,
) -> bool {
    look.cancelled || !(look.found matches Ok(finding) && finding.retained) || overlaps_excluded(
        place.bytes@,
        excluded,
    ) || answers(excluded, look.exclusions@)
}

/// Whether every selected path was looked at, in order.
pub open spec fn looks_at(
    paths: Seq<NativePath>,
    excluded: Seq<NativePath>,
    looks: Seq<PathLook>,
) -> bool {
    &&& looks.len() == paths.len()
    &&& forall|i: int|
        0 <= i < paths.len() ==> is_answered(paths[i], excluded, #[trigger] looks[i])
}

fn copy_error(error: &Error) -> (copy: Error)
    ensures
        lifecycle::fault_of(copy) == lifecycle::fault_of(*error),
{
    Error { kind: error.kind, message: error.message.clone() }
}

fn take_path(
    place: &NativePath,
    excluded: &Vec<NativePath>,
    look: &PathLook,
    rule: Option<&RuleLook>,
) -> (result: Result<(u64, bool), Error>)
    ensures
        match result {
            Ok(found) => path_outcome(
                *place,
                excluded@,
                *look,
                match rule {
                    Some(rule) => Some(*rule),
                    None => None,
                },
            ) == Ok::<(u64, bool), Fault>(found),
            Err(error) => path_outcome(
                *place,
                excluded@,
                *look,
                match rule {
                    Some(rule) => Some(*rule),
                    None => None,
                },
            ) == Err::<(u64, bool), Fault>(lifecycle::fault_of(error)),
        },
{
    if look.cancelled {
        return Err(Error::new(ErrorKind::Interrupted, "cancelled during preview"));
    }
    if let Some(rule) = rule {
        if !rule.supported {
            return Err(
                Error::new(
                    ErrorKind::InvalidData,
                    "selected path is not a supported explicit rule target",
                ),
            );
        }
        if let Err(error) = &rule.captured {
            return Err(copy_error(error));
        }
    }
    match &look.found {
        Err(error) => Err(copy_error(error)),
        Ok(finding) => {
            if find_overlap(place.bytes.as_slice(), excluded) {
                return Ok((finding.resource, true));
            }
            if !finding.retained {
                return Ok((finding.resource, false));
            }
            match check_exclusions(excluded, &look.exclusions) {
                Ok(found) => Ok((finding.resource, found)),
                Err(error) => Err(error),
            }
        },
    }
}

/// What a plan is prepared from.
#[derive(Debug)]
pub struct Gathered {
    /// The resources of the selected paths, in their order.
    pub selected: Vec<u64>,
    /// Those of them that are excluded.
    pub excluded: Vec<u64>,
}

/// The look at a path under a rule, if the selection is made under one.
pub open spec fn rule_at(rules: Option<Seq<RuleLook>>, i: int) -> Option<RuleLook> {
    match rules {
        Some(rules) => Some(rules[i]),
        None => None,
    }
}

/// What the first paths of a selection come to: the resources, and those that are excluded.
pub open spec fn gathered(
    paths: Seq<NativePath>,
    excluded: Seq<NativePath>,
    looks: Seq<PathLook>,
    rules: Option<Seq<RuleLook>>,
    n: nat,
) -> Result<(Seq<u64>, Seq<u64>), Fault>
    decreases n,
{
    if n == 0 {
        Ok((Seq::empty(), Seq::empty()))
    } else {
        match gathered(paths, excluded, looks, rules, (n - 1) as nat) {
            Err(fault) => Err(fault),
            Ok((selected, left_out)) => match path_outcome(
                paths[n - 1],
                excluded,
                looks[n - 1],
                rule_at(rules, n - 1),
            ) {
                Err(fault) => Err(fault),
                Ok((resource, found)) => Ok(
                    (
                        selected.push(resource),
                        if found {
                            left_out.push(resource)
                        } else {
                            left_out
                        },
                    ),
                ),
            },
        }
    }
}

/// What a selection under a rule comes to.
pub open spec fn rule_gathered(
    host: Host,
    rule_known: bool,
    paths: Seq<NativePath>,
    excluded: Seq<NativePath>,
    looks: Seq<PathLook>,
    rules: Seq<RuleLook>,
) -> Result<(Seq<u64>, Seq<u64>), Fault> {
    if host != Host::MacOs {
        Err(unsupported())
    } else if !rule_known {
        Err((ErrorKind::InvalidData, "unsupported rule for native trash"@))
    } else if selection_fault(paths, excluded) is Some {
        Err(selection_fault(paths, excluded)->0)
    } else {
        gathered(paths, excluded, looks, Some(rules), paths.len())
    }
}

pub open spec fn gathered_result(result: Result<Gathered, Error>) -> Result<
    (Seq<u64>, Seq<u64>),
    Fault,
> {
    match result {
        Ok(found) => Ok((found.selected@, found.excluded@)),
        Err(error) => Err(lifecycle::fault_of(error)),
    }
}

proof fn lemma_fault_stays(
    paths: Seq<NativePath>,
    excluded: Seq<NativePath>,
    looks: Seq<PathLook>,
    rules: Option<Seq<RuleLook>>,
    n: nat,
    m: nat,
)
    requires
        n <= m,
        gathered(paths, excluded, looks, rules, n) is Err,
    ensures
        gathered(paths, excluded, looks, rules, m) == gathered(paths, excluded, looks, rules, n),
    decreases m - n,
{
    if n < m {
        lemma_fault_stays(paths, excluded, looks, rules, n, (m - 1) as nat);
    }
}

fn gather(
    paths: &Vec<NativePath>,
    excluded: &Vec<NativePath>,
    looks: &Vec<PathLook>,
    rules: Option<&Vec<RuleLook>>,
) -> (result: Result<Gathered, Error>)
    requires
        looks@.len() == paths@.len(),
        rules matches Some(rules) ==> rules@.len() == paths@.len(),
    ensures
        ({
            let expected = gathered(
                paths@,
                excluded@,
                looks@,
                match rules {
                    Some(rules) => Some(rules@),
                    None => None,
                },
                paths@.len(),
            );
            match result {
                Ok(found) => expected == Ok::<(Seq<u64>, Seq<u64>), Fault>(
                    (found.selected@, found.excluded@),
                ),
                Err(error) => expected == Err::<(Seq<u64>, Seq<u64>), Fault>(
                    lifecycle::fault_of(error),
                ),
            }
        }),
{
    let ghost under: Option<Seq<RuleLook>> = match rules {
        Some(rules) => Some(rules@),
        None => None,
    };
    let mut selected: Vec<u64> = Vec::new();
    let mut left_out: Vec<u64> = Vec::new();
    let mut i: usize = 0;
    assert(selected@ =~= Seq::empty() && left_out@ =~= Seq::empty());
    while i < paths.len()
        invariant
            0 <= i <= paths@.len(),
            looks@.len() == paths@.len(),
            rules matches Some(rules) ==> rules@.len() == paths@.len(),
            under == match rules {
                Some(rules) => Some(rules@),
                None => None,
            },
            gathered(paths@, excluded@, looks@, under, i as nat) == Ok::<
                (Seq<u64>, Seq<u64>),
                Fault,
            >((selected@, left_out@)),
        decreases paths@.len() - i,
    {
        let rule: Option<&RuleLook> = match rules {
            Some(rules) => Some(&rules[i]),
            None => None,
        };
        match take_path(&paths[i], excluded, &looks[i], rule) {
            Err(error) => {
                proof {
                    assert(gathered(paths@, excluded@, looks@, under, (i + 1) as nat) is Err);
                    lemma_fault_stays(
                        paths@,
                        excluded@,
                        looks@,
                        under,
                        (i + 1) as nat,
                        paths@.len(),
                    );
                }
                return Err(error);
            },
            Ok((resource, found)) => {
                selected.push(resource);
                if found {
                    left_out.push(resource);
                }
            },
        }
        i += 1;
    }
    Ok(Gathered { selected, excluded: left_out })
}

/// A resource that a plan refuses.
#[derive(Debug)]
pub struct Rejected {
    pub resource: u64,
    pub code: String,
}

/// A plan, with what it refuses.
#[derive(Debug)]
pub struct Prepared {
    pub plan: Plan,
    pub rejected: Vec<Rejected>,
}

/// A Trash session for explicitly selected files.
#[derive(Debug)]
pub struct TrashSession {
    pub retained: Retained,
    pub prepared: Prepared,
    /// The selected paths, and their resources in the same order.
    pub paths: Vec<NativePath>,
    pub resources: Vec<u64>,
}

/// What is said where there is no native Trash.
pub open spec fn unsupported() -> Fault {
    (ErrorKind::Unsupported, "native Trash is macOS-only"@)
}

/// The path of a resource: of the last selected path that has it.
pub open spec fn path_of(paths: Seq<NativePath>, resources: Seq<u64>, resource: u64) -> Option<
    NativePath,
>
    decreases resources.len(),
{
    if resources.len() == 0 || resources.len() > paths.len() {
        None
    } else if resources.last() == resource {
        Some(paths[resources.len() - 1])
    } else {
        path_of(paths, resources.drop_last(), resource)
    }
}

/// Whether a refusal says what a plan refuses.
pub open spec fn says_refusal(
    refusal: SelectionRefusal,
    paths: Seq<NativePath>,
    resources: Seq<u64>,
    rejected: Rejected,
) -> bool {
    &&& refusal.reason@ == rejected.code@
    &&& path_of(paths, resources, rejected.resource) matches Some(place)
    &&& journal::same_native(refusal.path, place)
}

fn find_path(paths: &Vec<NativePath>, resources: &Vec<u64>, resource: u64) -> (found: Option<usize>)
    requires
        resources@.len() == paths@.len(),
    ensures
        match found {
            Some(at) => at < paths@.len() && path_of(paths@, resources@, resource) == Some(
                paths@[at as int],
            ),
            None => path_of(paths@, resources@, resource) is None,
        },
{
    let mut i: usize = resources.len();
    assert(resources@.take(i as int) =~= resources@);
    while i > 0
        invariant
            0 <= i <= resources@.len(),
            resources@.len() == paths@.len(),
            path_of(paths@, resources@, resource) == path_of(
                paths@,
                resources@.take(i as int),
                resource,
            ),
        decreases i,
    {
        assert(resources@.take(i as int).drop_last() =~= resources@.take(i - 1));
        i -= 1;
        if resources[i] == resource {
            return Some(i);
        }
    }
    None
}

impl TrashSession {
    /// The resources that a plan is to be prepared from, for explicitly selected files.
    pub fn prepare(
        host: Host,
        paths: &Vec<NativePath>,
        excluded: &Vec<NativePath>,
        looks: &Vec<PathLook>,
    ) -> (result: Result<Gathered, Error>)
        requires
            looks_at(paths@, excluded@, looks@),
        ensures
            ({
                let expected = if host != Host::MacOs {
                    Err(unsupported())
                } else if selection_fault(paths@, excluded@) is Some {
                    Err(selection_fault(paths@, excluded@)->0)
                } else {
                    gathered(paths@, excluded@, looks@, None, paths@.len())
                };
                match result {
                    Ok(found) => expected == Ok::<(Seq<u64>, Seq<u64>), Fault>(
                        (found.selected@, found.excluded@),
                    ),
                    Err(error) => expected == Err::<(Seq<u64>, Seq<u64>), Fault>(
                        lifecycle::fault_of(error),
                    ),
                }
            }),
    {
        if host != Host::MacOs {
            return Err(Error::new(ErrorKind::Unsupported, "native Trash is macOS-only"));
        }
        if let Err(error) = check_selection(paths, excluded) {
            return Err(error);
        }
        gather(paths, excluded, looks, None)
    }

    /// The resources that a plan is to be prepared from, for files selected under a rule.
    /// `rule_known` says whether the rule can be bound to native targets.
    pub fn prepare_rule_selection(
        host: Host,
        rule_known: bool,
        paths: &Vec<NativePath>,
        excluded: &Vec<NativePath>,
        looks: &Vec<PathLook>,
        rules: &Vec<RuleLook>,
    ) -> (result: Result<Gathered, Error>)
        requires
            looks_at(paths@, excluded@, looks@),
            rules@.len() == paths@.len(),
        ensures
            gathered_result(result) == rule_gathered(
                host,
                rule_known,
                paths@,
                excluded@,
                looks@,
                rules@,
            ),
    {
        if host != Host::MacOs {
            return Err(Error::new(ErrorKind::Unsupported, "native Trash is macOS-only"));
        }
        if !rule_known {
            return Err(Error::new(ErrorKind::InvalidData, "unsupported rule for native trash"));
        }
        if let Err(error) = check_selection(paths, excluded) {
            return Err(error);
        }
        gather(paths, excluded, looks, Some(rules))
    }

    /// The session over what a plan made of the selection.
    pub fn seal(
        retained: Retained,
        paths: Vec<NativePath>,
        gathered: Gathered,
        prepared: Prepared,
    ) -> (session: TrashSession)
        ensures
            session.retained == retained,
            session.prepared == prepared,
            session.paths == paths,
            session.resources == gathered.selected,
    {
        TrashSession { retained, prepared, paths, resources: gathered.selected }
    }

    pub fn preview(&self) -> (plan: &Plan)
        ensures
            *plan == self.prepared.plan,
    {
        &self.prepared.plan
    }

    /// A Finder metadata preview is only approvable if every native candidate captured for
    /// this plan still has the scan-observed file identity.
    pub fn matches_observed_identities(&self, expected: &Vec<(Vec<u8>, FileIdentity)>) -> (answer:
        bool)
        ensures
            answer == forall|i: int|
                0 <= i < expected@.len() ==> crate::native::held_as(
                    self.retained.candidates@,
                    #[trigger] expected@[i],
                ),
    {
        self.retained.matches_observed_identities(expected)
    }

    pub fn issues(&self) -> (issues: &Vec<crate::execute::SelectionIssue>)
        ensures
            *issues == self.retained.issues,
    {
        &self.retained.issues
    }

    /// What the plan refuses, by path. The plan refuses only what was selected.
    pub fn refusals(&self) -> (refusals: Vec<SelectionRefusal>)
        requires
            self.resources@.len() == self.paths@.len(),
            forall|i: int|
                0 <= i < self.prepared.rejected@.len() ==> self.resources@.contains(
                    (#[trigger] self.prepared.rejected@[i]).resource,
                ),
        ensures
            refusals@.len() == self.prepared.rejected@.len(),
            forall|i: int|
                0 <= i < refusals@.len() ==> says_refusal(
                    #[trigger] refusals@[i],
                    self.paths@,
                    self.resources@,
                    self.prepared.rejected@[i],
                ),
    {
        let mut refusals: Vec<SelectionRefusal> = Vec::new();
        let mut i: usize = 0;
        while i < self.prepared.rejected.len()
            invariant
                0 <= i <= self.prepared.rejected@.len(),
                self.resources@.len() == self.paths@.len(),
                forall|j: int|
                    0 <= j < self.prepared.rejected@.len() ==> self.resources@.contains(
                        (#[trigger] self.prepared.rejected@[j]).resource,
                    ),
                refusals@.len() == i,
                forall|j: int|
                    0 <= j < i ==> says_refusal(
                        #[trigger] refusals@[j],
                        self.paths@,
                        self.resources@,
                        self.prepared.rejected@[j],
                    ),
            decreases self.prepared.rejected@.len() - i,
        {
            let resource: u64 = self.prepared.rejected[i].resource;
            assert(self.resources@.contains(self.prepared.rejected@[i as int].resource));
            if let Some(at) = find_path(&self.paths, &self.resources, resource) {
                refusals.push(
                    SelectionRefusal {
                        path: self.paths[at].copy(),
                        reason: self.prepared.rejected[i].code.clone(),
                    },
                );
            } else {
                proof {
                    lemma_selected_has_path(self.paths@, self.resources@, resource);
                }
            }
            i += 1;
        }
        refusals
    }
}

proof fn lemma_selected_has_path(paths: Seq<NativePath>, resources: Seq<u64>, resource: u64)
    requires
        resources.len() <= paths.len(),
        resources.contains(resource),
    ensures
        path_of(paths, resources, resource) is Some,
    decreases resources.len(),
{
    if resources.last() != resource {
        let k = choose|k: int| 0 <= k < resources.len() && resources[k] == resource;
        assert(resources.drop_last()[k] == resource);
        lemma_selected_has_path(paths, resources.drop_last(), resource);
    }
}

/// The decision of the policy alone: a guard that fails is passed on.
pub open spec fn policy_decision(policy: Option<Result<PolicyGuardStatus, Error>>) -> Result<
    Option<Seq<char>>,
    Seq<char>,
> {
    match policy {
        None => Ok(None),
        Some(Err(error)) => Err(error.message@),
        Some(Ok(PolicyGuardStatus::Unchanged)) => Ok(None),
        Some(Ok(PolicyGuardStatus::Refused(reason))) => Ok(Some(reason@)),
    }
}

/// A decision as its refusal, or the failure of the guard.
pub open spec fn decided(result: Result<GuardDecision, String>) -> Result<
    Option<Seq<char>>,
    Seq<char>,
> {
    match result {
        Ok(GuardDecision::Proceed) => Ok(None),
        Ok(GuardDecision::Refused(reason)) => Ok(Some(reason@)),
        Err(error) => Err(error@),
    }
}

/// The guard of a session with exclusions: an item goes on only under the policy that the
/// session was approved under.
pub fn exclusion_guard(policy: Option<Result<PolicyGuardStatus, Error>>) -> (result: Result<
    GuardDecision,
    String,
>)
    ensures
        decided(result) == policy_decision(policy),
{
    match policy {
        None => Ok(GuardDecision::Proceed),
        Some(Err(error)) => Err(error.message),
        Some(Ok(PolicyGuardStatus::Unchanged)) => Ok(GuardDecision::Proceed),
        Some(Ok(PolicyGuardStatus::Refused(reason))) => Ok(GuardDecision::Refused(reason)),
    }
}

/// A selection that is prepared has a resource for every selected path, in order, and
/// excludes only resources that were selected.
pub proof fn exclusions_only_narrow(
    paths: Seq<NativePath>,
    excluded: Seq<NativePath>,
    looks: Seq<PathLook>,
    rules: Option<Seq<RuleLook>>,
    n: nat,
)
    requires
        gathered(paths, excluded, looks, rules, n) is Ok,
    ensures
        gathered(paths, excluded, looks, rules, n)->Ok_0.0.len() == n,
        forall|i: int|
            0 <= i < gathered(paths, excluded, looks, rules, n)->Ok_0.1.len() ==> gathered(
                paths,
                excluded,
                looks,
                rules,
                n,
            )->Ok_0.0.contains(#[trigger] gathered(paths, excluded, looks, rules, n)->Ok_0.1[i]),
    decreases n,
{
    if n > 0 {
        exclusions_only_narrow(paths, excluded, looks, rules, (n - 1) as nat);
        let before = gathered(paths, excluded, looks, rules, (n - 1) as nat)->Ok_0;
        let after = gathered(paths, excluded, looks, rules, n)->Ok_0;
        assert forall|i: int| 0 <= i < after.1.len() implies after.0.contains(
            #[trigger] after.1[i],
        ) by {
            if i < before.1.len() {
                assert(after.1[i] == before.1[i]);
                assert(before.0.contains(before.1[i]));
                let k = choose|k: int| 0 <= k < before.0.len() && before.0[k] == before.1[i];
                assert(after.0[k] == before.0[k]);
            } else {
                assert(after.0[n - 1] == after.1[i]);
            }
        }
    }
}

/// Whatever lies at, above or below an excluded path is left out of a selection that is
/// prepared.
pub proof fn overlapping_resources_are_left_out(
    paths: Seq<NativePath>,
    excluded: Seq<NativePath>,
    looks: Seq<PathLook>,
    rules: Option<Seq<RuleLook>>,
    n: nat,
    i: int,
)
    requires
        gathered(paths, excluded, looks, rules, n) is Ok,
        0 <= i < n,
        overlaps_excluded(paths[i].bytes@, excluded),
    ensures
        ({
            let (selected, left_out) = gathered(paths, excluded, looks, rules, n)->Ok_0;
            i < selected.len() && left_out.contains(selected[i])
        }),
    decreases n,
{
    exclusions_only_narrow(paths, excluded, looks, rules, (n - 1) as nat);
    let (before, left) = gathered(paths, excluded, looks, rules, (n - 1) as nat)->Ok_0;
    let (selected, left_out) = gathered(paths, excluded, looks, rules, n)->Ok_0;
    if i < n - 1 {
        overlapping_resources_are_left_out(paths, excluded, looks, rules, (n - 1) as nat, i);
        let k = choose|k: int| 0 <= k < left.len() && left[k] == before[i];
        assert(left_out[k] == selected[i]);
    } else {
        assert(left_out[left_out.len() - 1] == selected[i]);
    }
}

/// A selected path at, above or below an excluded one is always excluded, whatever the
/// platform says.
pub proof fn overlapping_paths_are_excluded(
    place: NativePath,
    excluded: Seq<NativePath>,
    look: PathLook,
    rule: Option<RuleLook>,
)
    requires
        overlaps_excluded(place.bytes@, excluded),
        path_outcome(place, excluded, look, rule) is Ok,
    ensures
        path_outcome(place, excluded, look, rule)->Ok_0.1,
{
}

} // verus!
