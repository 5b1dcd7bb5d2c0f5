//! Finishing the preview of related data: what is shown and counted.

use crate::app_inventory;
use crate::app_inventory::{AppInventory, AppRecord, RecordView};
use crate::app_related;
use crate::app_related::{
    AppCopySummary, AppRelatedIssue, AppRelatedMetrics, AppRelatedPreview, AppRelatedStatus,
    CandidateView, RelatedDataCandidate, RelatedEvidence, RelatedIssueView, Standing, SummaryView,
};
use crate::candidates;
use crate::order;
use crate::path;
use crate::related_plan;
use crate::related_plan::{CandidateSpec, SpecView};
use crate::related_preview;
use crate::related_preview::RelatedRun;
use crate::related_probe;
use crate::text;
use crate::unicode;
use crate::version;
use vstd::prelude::*;
use vstd::string::*;

verus! {

/// What a probe found of a candidate.
#[derive(Debug)]
pub struct ProbeOutcome {
    pub state: &'static str,
    pub issue: Option<AppRelatedIssue>,
}

/// Where a rule is documented.
pub open spec fn urls_of(rule: Seq<char>) -> Seq<Seq<char>> {
    if text::has_prefix(rule, "org.chromium"@) {
        seq![related_plan::CHROMIUM_URL@]
    } else if text::has_prefix(rule, "org.mozilla"@) {
        seq![related_plan::MOZILLA_URL@]
    } else {
        seq![related_plan::APPLE_FS_URL@, related_plan::APPLE_BUNDLE_URL@]
    }
}

/// What is said of who owns a candidate.
pub open spec fn statement(
    rule: Seq<char>,
    certainty: Seq<char>,
    relative: Seq<char>,
) -> Seq<char> {
    if text::has_prefix(rule, "org.chromium"@) {
        relative
            + " matches Chromium-documented default location and app declaration; this is not proof of active profile usage."@
    } else if text::has_prefix(rule, "org.mozilla"@) {
        relative
            + " is a Firefox-family shared default profile location; it is not attributed to a single app copy."@
    } else {
        relative + " follows Apple Library conventions ("@ + certainty
            + "); ownership remains a hypothesis only."@
    }
}

fn starts_with(whole: &str, prefix: &str) -> (answer: bool)
    ensures
        answer == text::has_prefix(whole@, prefix@),
{
    let a = unicode::characters(whole);
    let b = unicode::characters(prefix);
    if b.len() > a.len() {
        return false;
    }
    let mut i: usize = 0;
    while i < b.len()
        invariant
            0 <= i <= b@.len() <= a@.len(),
            a@ == whole@,
            b@ == prefix@,
            forall|j: int| 0 <= j < i ==> a@[j] == b@[j],
        decreases b@.len() - i,
    {
        if a[i] != b[i] {
            assert(a@.subrange(0, b@.len() as int)[i as int] != b@[i as int]);
            return false;
        }
        i += 1;
    }
    assert(a@.subrange(0, b@.len() as int) =~= b@);
    true
}

/// Where a rule is documented.
pub fn source_urls(rule: &str) -> (urls: Vec<&'static str>)
    ensures
        order::literals(urls@) == urls_of(rule@),
{
    let mut urls: Vec<&'static str> = Vec::new();
    if starts_with(rule, "org.chromium") {
        urls.push(related_plan::CHROMIUM_URL);
    } else if starts_with(rule, "org.mozilla") {
        urls.push(related_plan::MOZILLA_URL);
    } else {
        urls.push(related_plan::APPLE_FS_URL);
        urls.push(related_plan::APPLE_BUNDLE_URL);
    }
    assert(order::literals(urls@) =~= urls_of(rule@));
    urls
}

/// What is said of who owns a candidate.
pub fn ownership_statement(rule: &str, certainty: &str, relative: &str) -> (result: String)
    ensures
        result@ == statement(rule@, certainty@, relative@),
{
    if starts_with(rule, "org.chromium") {
        text::concat(
            relative,
            " matches Chromium-documented default location and app declaration; this is not proof of active profile usage.",
        )
    } else if starts_with(rule, "org.mozilla") {
        text::concat(
            relative,
            " is a Firefox-family shared default profile location; it is not attributed to a single app copy.",
        )
    } else {
        let start = text::concat3(relative, " follows Apple Library conventions (", certainty);
        text::concat(start.as_str(), "); ownership remains a hypothesis only.")
    }
}

/// Why a candidate is left alone.
pub open spec fn reasons_of(spec: SpecView, inventory_complete: bool) -> Seq<Seq<char>> {
    let shared = if spec.ids.len() > 1 {
        spec.reasons.push("multiple_physical_app_copies"@)
    } else {
        spec.reasons
    };
    order::sorted_texts(
        if inventory_complete {
            shared
        } else {
            shared.push("inventory_or_probe_partial"@)
        },
    )
}

/// A candidate as it is shown.
pub open spec fn candidate_of(
    spec: SpecView,
    at: int,
    state: Seq<char>,
    inventory_complete: bool,
) -> CandidateView {
    CandidateView {
        id: spec.rule + ":"@ + version::decimal((at + 1) as nat),
        path: spec.path,
        relative: spec.relative,
        rule: spec.rule,
        urls: urls_of(spec.rule),
        role: spec.role,
        state,
        certainty: if inventory_complete {
            spec.certainty
        } else {
            "unattributed_due_to_partial_inventory"@
        },
        statement: statement(spec.rule, spec.certainty, spec.relative),
        evidence: spec.evidence,
        ids: spec.ids,
        reasons: reasons_of(spec, inventory_complete),
        disposition: "protect_for_manual_review"@,
        deletable: false,
        authorized: false,
    }
}

fn copy_texts(list: &Vec<String>) -> (copy: Vec<String>)
    ensures
        order::texts(copy@) == order::texts(list@),
{
    let mut copy: Vec<String> = Vec::new();
    let mut i: usize = 0;
    while i < list.len()
        invariant
            0 <= i <= list@.len(),
            copy@.len() == i,
            forall|j: int| 0 <= j < i ==> (#[trigger] copy@[j])@ == list@[j]@,
        decreases list@.len() - i,
    {
        copy.push(list[i].clone());
        i += 1;
    }
    assert(order::texts(copy@) =~= order::texts(list@));
    copy
}

fn copy_evidence(list: &Vec<RelatedEvidence>) -> (copy: Vec<RelatedEvidence>)
    ensures
        app_related::evidence_views(copy@) == app_related::evidence_views(list@),
{
    let mut copy: Vec<RelatedEvidence> = Vec::new();
    let mut i: usize = 0;
    while i < list.len()
        invariant
            0 <= i <= list@.len(),
            copy@.len() == i,
            forall|j: int| 0 <= j < i ==> (#[trigger] copy@[j])@ == list@[j]@,
        decreases list@.len() - i,
    {
        copy.push(list[i].copy());
        i += 1;
    }
    assert(app_related::evidence_views(copy@) =~= app_related::evidence_views(list@));
    copy
}

fn gather_reasons(spec: &CandidateSpec, inventory_complete: bool) -> (reasons: Vec<&'static str>)
    ensures
        order::literals(reasons@) == reasons_of(spec@, inventory_complete),
{
    let mut reasons: Vec<&'static str> = Vec::new();
    let mut i: usize = 0;
    while i < spec.protection_reasons.len()
        invariant
            0 <= i <= spec.protection_reasons@.len(),
            reasons@ == spec.protection_reasons@.take(i as int),
        decreases spec.protection_reasons@.len() - i,
    {
        reasons.push(spec.protection_reasons[i]);
        i += 1;
        assert(reasons@ =~= spec.protection_reasons@.take(i as int));
    }
    assert(order::literals(reasons@) =~= spec@.reasons);
    assert(spec@.ids.len() == spec.matched_app_copy_ids@.len());
    if spec.matched_app_copy_ids.len() > 1 {
        let ghost before = order::literals(reasons@);
        reasons.push("multiple_physical_app_copies");
        assert(order::literals(reasons@) =~= before.push("multiple_physical_app_copies"@));
    }
    if !inventory_complete {
        let ghost before = order::literals(reasons@);
        reasons.push("inventory_or_probe_partial");
        assert(order::literals(reasons@) =~= before.push("inventory_or_probe_partial"@));
    }
    order::sort_literals(&reasons)
}

fn make_candidate(spec: &CandidateSpec, at: usize, state: &'static str, inventory_complete: bool) -> (
    candidate: RelatedDataCandidate)
    requires
        at < usize::MAX,
    ensures
        candidate@ == candidate_of(spec@, at as int, state@, inventory_complete),
{
    let number = version::decimal_text(at as u64 + 1);
    RelatedDataCandidate {
        candidate_id: text::concat3(spec.source_rule_id, ":", number.as_str()),
        path: text::copy_bytes(spec.path.as_slice()),
        relative_library_path: spec.relative_library_path.clone(),
        source_rule_id: spec.source_rule_id,
        source_urls: source_urls(spec.source_rule_id),
        role: spec.role,
        path_state: state,
        ownership_certainty: if inventory_complete {
            spec.ownership_certainty
        } else {
            "unattributed_due_to_partial_inventory"
        },
        ownership_statement: ownership_statement(
            spec.source_rule_id,
            spec.ownership_certainty,
            spec.relative_library_path.as_str(),
        ),
        evidence: copy_evidence(&spec.evidence),
        matched_app_copy_ids: copy_texts(&spec.matched_app_copy_ids),
        protection_reasons: gather_reasons(spec, inventory_complete),
        preview_disposition: "protect_for_manual_review",
        deletable: false,
        authorized_action: None,
    }
}

/// Whether a text holds what the user asked for, ASCII case aside; asking for nothing lets
/// everything pass.
pub open spec fn passes(value: Seq<char>, filter: Seq<char>) -> bool {
    unicode::occurs(unicode::ascii_lower(value), unicode::ascii_lower(filter))
}

/// Whether a copy of an application is one that the user asked for.
pub open spec fn copy_passes(app: RecordView, filter: Seq<char>) -> bool {
    ||| filter.len() == 0
    ||| passes(app.name, filter)
    ||| passes(unicode::lossy_text(app.path), filter)
    ||| app.bundle_id.value is Some && passes(app.bundle_id.value->0, filter)
}

/// Whether a name is that of a copy that the user asked for.
pub open spec fn asked_for(
    apps: Seq<RecordView>,
    task: Seq<char>,
    filter: Seq<char>,
    id: Seq<char>,
) -> bool {
    exists|i: int|
        0 <= i < apps.len() && copy_passes(#[trigger] apps[i], filter) && related_plan::copy_id(
            task,
            i,
        ) == id
}

fn copy_matches(app: &AppRecord, filter: &str) -> (answer: bool)
    ensures
        answer == copy_passes(app@, filter@),
{
    if filter.is_empty() || unicode::occurs_ignoring_case(app.display_name.as_str(), filter) {
        return true;
    }
    let shown = unicode::from_utf8_lossy(app.bundle_path.as_slice());
    if unicode::occurs_ignoring_case(shown.as_str(), filter) {
        return true;
    }
    match &app.bundle_id.value {
        Some(id) => unicode::occurs_ignoring_case(id.as_str(), filter),
        None => false,
    }
}

/// The names of the copies that the user asked for.
pub fn filtered_copy_ids(apps: &Vec<AppRecord>, task: &str, filter: &str) -> (ids: Vec<String>)
    ensures
        forall|id: Seq<char>| #[trigger]
            order::texts(ids@).contains(id) == asked_for(
                app_inventory::record_views(apps@),
                task@,
                filter@,
                id,
            ),
{
    let ghost views = app_inventory::record_views(apps@);
    let mut ids: Vec<String> = Vec::new();
    let mut i: usize = 0;
    while i < apps.len()
        invariant
            0 <= i <= apps@.len(),
            views == app_inventory::record_views(apps@),
            forall|id: Seq<char>| #[trigger]
                order::texts(ids@).contains(id) == asked_for(
                    views.take(i as int),
                    task@,
                    filter@,
                    id,
                ),
        decreases apps@.len() - i,
    {
        let ghost before = order::texts(ids@);
        let ghost here = related_plan::copy_id(task@, i as int);
        let ghost next = views.take(i + 1);
        let add: bool = copy_matches(&apps[i], filter);
        if add {
            ids.push(related_plan::copy_name(task, i));
            assert(order::texts(ids@) =~= before.push(here));
        }
        proof {
            assert forall|id: Seq<char>| #[trigger] order::texts(ids@).contains(id) == asked_for(
                next,
                task@,
                filter@,
                id,
            ) by {
                if add {
                    assert(before.push(here)[before.len() as int] == here);
                    if before.contains(id) {
                        let k = choose|k: int| 0 <= k < before.len() && before[k] == id;
                        assert(before.push(here)[k] == id);
                    }
                    if before.push(here).contains(id) && id != here {
                        let k = choose|k: int|
                            0 <= k < before.push(here).len() && before.push(here)[k] == id;
                        assert(before[k] == id);
                    }
                }
                if before.contains(id) {
                    let k = choose|k: int|
                        0 <= k < i && copy_passes(#[trigger] views.take(i as int)[k], filter@)
                            && related_plan::copy_id(task@, k) == id;
                    assert(next[k] == views.take(i as int)[k]);
                }
                if asked_for(next, task@, filter@, id) {
                    let k = choose|k: int|
                        0 <= k < next.len() && copy_passes(#[trigger] next[k], filter@)
                            && related_plan::copy_id(task@, k) == id;
                    if k < i {
                        assert(views.take(i as int)[k] == next[k]);
                        assert(before.contains(id));
                    } else {
                        assert(next[k] == apps@[i as int]@);
                    }
                }
                if add && id == here {
                    assert(next[i as int] == apps@[i as int]@);
                }
            }
        }
        i += 1;
    }
    assert(views.take(views.len() as int) =~= views);
    ids
}

/// Whether a candidate is shown.
pub open spec fn is_shown(
    candidate: CandidateView,
    filter: Seq<char>,
    apps: Seq<RecordView>,
    task: Seq<char>,
) -> bool {
    ||| filter.len() == 0
    ||| passes(candidate.relative, filter)
    ||| exists|i: int|
        0 <= i < candidate.ids.len() && asked_for(apps, task, filter, #[trigger] candidate.ids[i])
}

fn holds_text(list: &Vec<String>, item: &str) -> (held: bool)
    ensures
        held == order::texts(list@).contains(item@),
{
    let mut i: usize = 0;
    while i < list.len()
        invariant
            0 <= i <= list@.len(),
            forall|j: int| 0 <= j < i ==> (#[trigger] order::texts(list@)[j]) != item@,
        decreases list@.len() - i,
    {
        if text::text_eq(list[i].as_str(), item) {
            assert(order::texts(list@)[i as int] == item@);
            return true;
        }
        i += 1;
    }
    false
}

fn candidate_matches_filter(candidate: &RelatedDataCandidate, filter: &str, asked: &Vec<String>) -> (
    answer: bool)
    ensures
        answer == (filter@.len() == 0 || passes(candidate@.relative, filter@) || exists|i: int|
            0 <= i < candidate@.ids.len() && order::texts(asked@).contains(
                #[trigger] candidate@.ids[i],
            )),
{
    if filter.is_empty() || unicode::occurs_ignoring_case(
        candidate.relative_library_path.as_str(),
        filter,
    ) {
        return true;
    }
    let ids = &candidate.matched_app_copy_ids;
    let mut i: usize = 0;
    while i < ids.len()
        invariant
            0 <= i <= ids@.len(),
            candidate@.ids == order::texts(ids@),
            forall|j: int|
                0 <= j < i ==> !order::texts(asked@).contains(#[trigger] candidate@.ids[j]),
        decreases ids@.len() - i,
    {
        assert(candidate@.ids[i as int] == ids@[i as int]@);
        if holds_text(asked, ids[i].as_str()) {
            return true;
        }
        i += 1;
    }
    false
}

pub open spec fn outcome_issue(outcome: ProbeOutcome) -> Option<RelatedIssueView> {
    related_probe::opt_issue(outcome.issue)
}

/// How a preview fares after the probes.
pub open spec fn probed_standing(standing: Standing, outcomes: Seq<ProbeOutcome>) -> Standing
    decreases outcomes.len(),
{
    if outcomes.len() == 0 {
        standing
    } else {
        let before = probed_standing(standing, outcomes.drop_last());
        match outcome_issue(outcomes.last()) {
            None => before,
            Some(issue) => before.troubled(related_preview::status_of_code(issue.code), issue),
        }
    }
}

/// How a finished preview fares: it is complete only if nothing went wrong.
pub open spec fn settled(standing: Standing) -> Standing {
    Standing { complete: standing.status == AppRelatedStatus::Complete, ..standing }
}

/// The candidates that are shown, in order.
pub open spec fn shown_candidates(
    specs: Seq<SpecView>,
    outcomes: Seq<ProbeOutcome>,
    inventory_complete: bool,
    filter: Seq<char>,
    apps: Seq<RecordView>,
    task: Seq<char>,
) -> Seq<CandidateView>
    decreases specs.len(),
{
    if specs.len() == 0 {
        Seq::empty()
    } else {
        let before = shown_candidates(
            specs.drop_last(),
            outcomes,
            inventory_complete,
            filter,
            apps,
            task,
        );
        let candidate = candidate_of(
            specs.last(),
            specs.len() - 1,
            outcomes[specs.len() - 1].state@,
            inventory_complete,
        );
        if is_shown(candidate, filter, apps, task) {
            before.push(candidate)
        } else {
            before
        }
    }
}

/// Whether something stands where a candidate is.
pub open spec fn is_present(candidate: CandidateView) -> bool {
    candidate.state == "present_directory"@ || candidate.state == "present_file"@
        || candidate.state == "present_other"@
}

/// How many candidates something holds of.
pub open spec fn tally(list: Seq<CandidateView>, keep: spec_fn(CandidateView) -> bool) -> nat
    decreases list.len(),
{
    if list.len() == 0 {
        0
    } else {
        tally(list.drop_last(), keep) + if keep(list.last()) {
            1nat
        } else {
            0
        }
    }
}

/// A copy as it is shown.
pub open spec fn summary_of(
    apps: Seq<RecordView>,
    task: Seq<char>,
    at: int,
    inventory_complete: bool,
) -> SummaryView {
    let app = apps[at];
    SummaryView {
        id: related_plan::copy_id(task, at),
        path: app.path,
        roots: app.roots,
        identity: app.identity,
        name: app.name,
        bundle_id: app.bundle_id.value,
        short_version: app.short_version.value,
        build_version: app.build_version.value,
        executable: app.executable.status.name(),
        rules: related_plan::rules_for(app),
        state: related_plan::copy_state(apps, app, inventory_complete),
    }
}

/// Whether a copy is named by one of the candidates.
pub open spec fn is_named(id: Seq<char>, shown: Seq<CandidateView>) -> bool {
    exists|i: int| 0 <= i < shown.len() && (#[trigger] shown[i]).ids.contains(id)
}

/// The copies that are shown: those that were asked for, and those that a shown candidate
/// names.
pub open spec fn shown_copies(
    apps: Seq<RecordView>,
    task: Seq<char>,
    upto: int,
    inventory_complete: bool,
    filter: Seq<char>,
    shown: Seq<CandidateView>,
) -> Seq<SummaryView>
    decreases upto,
{
    if upto <= 0 {
        Seq::empty()
    } else {
        let before = shown_copies(apps, task, upto - 1, inventory_complete, filter, shown);
        let id = related_plan::copy_id(task, upto - 1);
        if filter.len() == 0 || asked_for(apps, task, filter, id) || is_named(id, shown) {
            before.push(summary_of(apps, task, upto - 1, inventory_complete))
        } else {
            before
        }
    }
}

/// How many copies fall under a rule.
pub open spec fn matched_copies(list: Seq<SummaryView>) -> nat
    decreases list.len(),
{
    if list.len() == 0 {
        0
    } else {
        matched_copies(list.drop_last()) + if list.last().rules.len() > 0 {
            1nat
        } else {
            0
        }
    }
}

fn take_outcomes(preview: &mut AppRelatedPreview, outcomes: &Vec<ProbeOutcome>)
    ensures
        final(preview).standing() == probed_standing(old(preview).standing(), outcomes@),
        app_related::same_body(*final(preview), *old(preview)),
{
    let ghost start = preview.standing();
    let ghost body = *preview;
    let mut i: usize = 0;
    assert(outcomes@.take(0) =~= Seq::empty());
    while i < outcomes.len()
        invariant
            0 <= i <= outcomes@.len(),
            preview.standing() == probed_standing(start, outcomes@.take(i as int)),
            app_related::same_body(*preview, body),
        decreases outcomes@.len() - i,
    {
        assert(outcomes@.take(i + 1).drop_last() =~= outcomes@.take(i as int));
        assert(outcomes@.take(i + 1).last() == outcomes@[i as int]);
        if let Some(issue) = &outcomes[i].issue {
            let copy = AppRelatedIssue {
                path: match &issue.path {
                    Some(place) => Some(text::copy_bytes(place.as_slice())),
                    None => None,
                },
                code: issue.code,
                message: issue.message.clone(),
                os_code: issue.os_code,
            };
            assert(copy@ =~= issue@);
            let status: AppRelatedStatus = related_preview::status_for_code(issue.code);
            app_related::trouble(preview, status, copy);
        }
        i += 1;
    }
    assert(outcomes@.take(outcomes@.len() as int) =~= outcomes@);
}

fn show_candidates(
    specs: &Vec<CandidateSpec>,
    outcomes: &Vec<ProbeOutcome>,
    inventory: &AppInventory,
    filter: &str,
    asked: &Vec<String>,
) -> (shown: Vec<RelatedDataCandidate>)
    requires
        outcomes@.len() == specs@.len(),
        specs@.len() <= app_related::MAX_CANDIDATES,
        forall|id: Seq<char>| #[trigger]
            order::texts(asked@).contains(id) == asked_for(
                app_inventory::record_views(inventory.apps@),
                inventory.scan_task_id@,
                filter@,
                id,
            ),
    ensures
        app_related::candidate_views(shown@) == shown_candidates(
            related_plan::spec_views(specs@),
            outcomes@,
            inventory.complete,
            filter@,
            app_inventory::record_views(inventory.apps@),
            inventory.scan_task_id@,
        ),
        shown@.len() <= specs@.len(),
{
    let ghost views = related_plan::spec_views(specs@);
    let ghost apps = app_inventory::record_views(inventory.apps@);
    let mut shown: Vec<RelatedDataCandidate> = Vec::new();
    let mut i: usize = 0;
    assert(views.take(0) =~= Seq::empty());
    assert(app_related::candidate_views(shown@) =~= Seq::empty());
    while i < specs.len()
        invariant
            0 <= i <= specs@.len(),
            shown@.len() <= i,
            outcomes@.len() == specs@.len(),
            specs@.len() <= app_related::MAX_CANDIDATES,
            views == related_plan::spec_views(specs@),
            apps == app_inventory::record_views(inventory.apps@),
            forall|id: Seq<char>| #[trigger]
                order::texts(asked@).contains(id) == asked_for(
                    apps,
                    inventory.scan_task_id@,
                    filter@,
                    id,
                ),
            app_related::candidate_views(shown@) == shown_candidates(
                views.take(i as int),
                outcomes@,
                inventory.complete,
                filter@,
                apps,
                inventory.scan_task_id@,
            ),
        decreases specs@.len() - i,
    {
        assert(views.take(i + 1).drop_last() =~= views.take(i as int));
        assert(views.take(i + 1).last() == specs@[i as int]@);
        let candidate = make_candidate(&specs[i], i, outcomes[i].state, inventory.complete);
        if candidate_matches_filter(&candidate, filter, asked) {
            let ghost before = app_related::candidate_views(shown@);
            let ghost view = candidate@;
            shown.push(candidate);
            assert(app_related::candidate_views(shown@) =~= before.push(view));
        }
        i += 1;
    }
    assert(views.take(views.len() as int) =~= views);
    shown
}

fn count_candidates(list: &Vec<RelatedDataCandidate>) -> (counts: (usize, usize, usize))
    ensures
        counts.0 == tally(
            app_related::candidate_views(list@),
            |candidate: CandidateView| is_present(candidate),
        ),
        counts.1 == tally(
            app_related::candidate_views(list@),
            |candidate: CandidateView| candidate.state == "missing"@,
        ),
        counts.2 == tally(
            app_related::candidate_views(list@),
            |candidate: CandidateView| candidate.ids.len() > 1,
        ),
{
    let ghost views = app_related::candidate_views(list@);
    let ghost present_of = |candidate: CandidateView| is_present(candidate);
    let ghost missing_of = |candidate: CandidateView| candidate.state == "missing"@;
    let ghost shared_of = |candidate: CandidateView| candidate.ids.len() > 1;
    let mut present: usize = 0;
    let mut missing: usize = 0;
    let mut shared: usize = 0;
    let mut i: usize = 0;
    assert(views.take(0) =~= Seq::empty());
    while i < list.len()
        invariant
            0 <= i <= list@.len(),
            views == app_related::candidate_views(list@),
            present_of == (|candidate: CandidateView| is_present(candidate)),
            missing_of == (|candidate: CandidateView| candidate.state == "missing"@),
            shared_of == (|candidate: CandidateView| candidate.ids.len() > 1),
            present <= i,
            missing <= i,
            shared <= i,
            present == tally(views.take(i as int), present_of),
            missing == tally(views.take(i as int), missing_of),
            shared == tally(views.take(i as int), shared_of),
        decreases list@.len() - i,
    {
        assert(views.take(i + 1).drop_last() =~= views.take(i as int));
        assert(views.take(i + 1).last() == list@[i as int]@);
        let state: &'static str = list[i].path_state;
        if text::text_eq(state, "present_directory") || text::text_eq(state, "present_file")
            || text::text_eq(state, "present_other") {
            present += 1;
        }
        if text::text_eq(state, "missing") {
            missing += 1;
        }
        assert(list@[i as int]@.ids.len() == list@[i as int].matched_app_copy_ids@.len());
        if list[i].matched_app_copy_ids.len() > 1 {
            shared += 1;
        }
        i += 1;
    }
    assert(views.take(views.len() as int) =~= views);
    (present, missing, shared)
}

fn names_copy(shown: &Vec<RelatedDataCandidate>, id: &str) -> (answer: bool)
    ensures
        answer == is_named(id@, app_related::candidate_views(shown@)),
{
    let ghost views = app_related::candidate_views(shown@);
    let mut i: usize = 0;
    while i < shown.len()
        invariant
            0 <= i <= shown@.len(),
            views == app_related::candidate_views(shown@),
            forall|j: int| 0 <= j < i ==> !(#[trigger] views[j]).ids.contains(id@),
        decreases shown@.len() - i,
    {
        assert(views[i as int] == shown@[i as int]@);
        if holds_text(&shown[i].matched_app_copy_ids, id) {
            return true;
        }
        i += 1;
    }
    false
}

fn copy_option(value: &Option<String>) -> (copy: Option<String>)
    ensures
        text::opt_text(copy) == text::opt_text(*value),
{
    match value {
        Some(text) => Some(text.clone()),
        None => None,
    }
}

fn summarize(inventory: &AppInventory, at: usize) -> (summary: AppCopySummary)
    requires
        at < inventory.apps@.len(),
    ensures
        summary@ == summary_of(
            app_inventory::record_views(inventory.apps@),
            inventory.scan_task_id@,
            at as int,
            inventory.complete,
        ),
{
    let app = &inventory.apps[at];
    AppCopySummary {
        app_copy_id: related_plan::copy_name(inventory.scan_task_id.as_str(), at),
        bundle_path: text::copy_bytes(app.bundle_path.as_slice()),
        observed_roots: candidates::copy_paths(&app.observed_roots),
        bundle_identity: app.bundle_identity,
        display_name: app.display_name.clone(),
        bundle_id: copy_option(&app.bundle_id.value),
        short_version: copy_option(&app.short_version.value),
        build_version: copy_option(&app.build_version.value),
        executable_path_status: app.executable.path_status.as_str(),
        match_rules: related_plan::match_rules(app),
        copy_state: related_plan::state_of_copy(&inventory.apps, at, inventory.complete),
    }
}

fn show_copies(
    inventory: &AppInventory,
    filter: &str,
    asked: &Vec<String>,
    shown: &Vec<RelatedDataCandidate>,
) -> (result: (Vec<AppCopySummary>, usize))
    requires
        forall|id: Seq<char>| #[trigger]
            order::texts(asked@).contains(id) == asked_for(
                app_inventory::record_views(inventory.apps@),
                inventory.scan_task_id@,
                filter@,
                id,
            ),
    ensures
        app_related::summaries(result.0@) == shown_copies(
            app_inventory::record_views(inventory.apps@),
            inventory.scan_task_id@,
            inventory.apps@.len() as int,
            inventory.complete,
            filter@,
            app_related::candidate_views(shown@),
        ),
        result.1 == matched_copies(app_related::summaries(result.0@)),
{
    let ghost apps = app_inventory::record_views(inventory.apps@);
    let ghost task = inventory.scan_task_id@;
    let ghost listed = app_related::candidate_views(shown@);
    let mut copies: Vec<AppCopySummary> = Vec::new();
    let mut matched: usize = 0;
    let mut i: usize = 0;
    assert(app_related::summaries(copies@) =~= Seq::empty());
    while i < inventory.apps.len()
        invariant
            0 <= i <= inventory.apps@.len(),
            apps == app_inventory::record_views(inventory.apps@),
            task == inventory.scan_task_id@,
            listed == app_related::candidate_views(shown@),
            forall|id: Seq<char>| #[trigger]
                order::texts(asked@).contains(id) == asked_for(apps, task, filter@, id),
            app_related::summaries(copies@) == shown_copies(
                apps,
                task,
                i as int,
                inventory.complete,
                filter@,
                listed,
            ),
            matched == matched_copies(app_related::summaries(copies@)),
            matched <= i,
        decreases inventory.apps@.len() - i,
    {
        let id = related_plan::copy_name(inventory.scan_task_id.as_str(), i);
        if filter.is_empty() || holds_text(asked, id.as_str()) || names_copy(shown, id.as_str()) {
            let summary = summarize(inventory, i);
            let ghost before = app_related::summaries(copies@);
            let ghost view = summary@;
            assert(view.rules.len() == summary.match_rules@.len());
            if summary.match_rules.len() > 0 {
                matched += 1;
            }
            copies.push(summary);
            assert(app_related::summaries(copies@) =~= before.push(view));
            assert(before.push(view).drop_last() =~= before);
        }
        i += 1;
    }
    (copies, matched)
}

/// What a finished preview says, given how it fares and what it shows.
pub open spec fn tells(
    preview: AppRelatedPreview,
    standing: Standing,
    shown: Seq<CandidateView>,
    copies: Seq<SummaryView>,
) -> bool {
    &&& preview.standing() == standing
    &&& app_related::candidate_views(preview.candidates@) == shown
    &&& app_related::summaries(preview.app_copies@) == copies
    &&& preview.counts.candidate_paths == shown.len()
    &&& preview.counts.protected_candidates == shown.len()
    &&& preview.counts.present_candidates == tally(
        shown,
        |candidate: CandidateView| is_present(candidate),
    )
    &&& preview.counts.missing_candidates == tally(
        shown,
        |candidate: CandidateView| candidate.state == "missing"@,
    )
    &&& preview.counts.shared_candidates == tally(
        shown,
        |candidate: CandidateView| candidate.ids.len() > 1,
    )
    &&& preview.counts.matched_app_copies == matched_copies(copies)
    &&& preview.counts.issues == standing.issues.len()
}

/// Whether the parts of a preview that do not depend on its candidates are the same.
pub open spec fn same_request(a: AppRelatedPreview, b: AppRelatedPreview) -> bool {
    &&& a.schema_version == b.schema_version
    &&& a.kind == b.kind
    &&& a.platform == b.platform
    &&& a.effects_performed == b.effects_performed
    &&& a.app_roots == b.app_roots
    &&& a.library_roots == b.library_roots
    &&& a.filter == b.filter
    &&& a.scan_task_id == b.scan_task_id
    &&& a.inventory_status == b.inventory_status
    &&& a.inventory_complete == b.inventory_complete
    &&& a.scan_issues == b.scan_issues
    &&& a.counts.inventoried_apps == b.counts.inventoried_apps
}

impl RelatedRun {
    /// Finishes a preview from what the probes found of its candidates.
    pub fn complete(
        self,
        inventory: &AppInventory,
        outcomes: &Vec<ProbeOutcome>,
        elapsed_ms: u64,
        probe_elapsed_ms: u64,
    ) -> (preview: AppRelatedPreview)
        requires
            !self.ended,
            related_preview::is_about(self.preview, *inventory),
            outcomes@.len() == self.specs@.len(),
            self.specs@.len() <= app_related::MAX_CANDIDATES,
        ensures
            same_request(preview, self.preview),
            preview.metrics == (AppRelatedMetrics {
                elapsed_ms,
                candidate_probe_elapsed_ms: probe_elapsed_ms,
                candidate_probe_count: self.specs@.len() as usize,
                ..self.preview.metrics
            }),
            ({
                let apps = app_inventory::record_views(inventory.apps@);
                let task = inventory.scan_task_id@;
                let filter = self.preview.filter@;
                let shown = shown_candidates(
                    related_plan::spec_views(self.specs@),
                    outcomes@,
                    inventory.complete,
                    filter,
                    apps,
                    task,
                );
                tells(
                    preview,
                    settled(probed_standing(self.preview.standing(), outcomes@)),
                    shown,
                    shown_copies(apps, task, apps.len() as int, inventory.complete, filter, shown),
                )
            }),
    {
        let specs = &self.specs;
        let mut preview = self.preview;
        take_outcomes(&mut preview, outcomes);
        let asked = filtered_copy_ids(
            &inventory.apps,
            inventory.scan_task_id.as_str(),
            preview.filter.as_str(),
        );
        let shown = show_candidates(specs, outcomes, inventory, preview.filter.as_str(), &asked);
        let (copies, matched) = show_copies(inventory, preview.filter.as_str(), &asked, &shown);
        let (present, missing, shared) = count_candidates(&shown);
        assert(app_related::candidate_views(shown@).len() == shown@.len());
        preview.counts.candidate_paths = shown.len();
        preview.counts.protected_candidates = shown.len();
        preview.counts.present_candidates = present;
        preview.counts.missing_candidates = missing;
        preview.counts.shared_candidates = shared;
        preview.counts.matched_app_copies = matched;
        preview.candidates = shown;
        preview.app_copies = copies;
        assert(app_related::related_issues(preview.issues@).len() == preview.issues@.len());
        preview.counts.issues = preview.issues.len();
        preview.complete = preview.status == AppRelatedStatus::Complete;
        preview.metrics.elapsed_ms = elapsed_ms;
        preview.metrics.candidate_probe_elapsed_ms = probe_elapsed_ms;
        preview.metrics.candidate_probe_count = specs.len();
        preview
    }
}

/// Whether nothing may be done with a candidate but look at it.
pub open spec fn is_protected(candidate: CandidateView, inventory_complete: bool) -> bool {
    &&& !candidate.deletable
    &&& !candidate.authorized
    &&& candidate.disposition == "protect_for_manual_review"@
    &&& !inventory_complete ==> candidate.certainty == "unattributed_due_to_partial_inventory"@
}

/// A preview never authorizes anything: whatever was probed, no candidate is deletable, none
/// has an action, and each is left for manual review; after a partial inventory none is
/// attributed to an application either.
pub proof fn candidates_are_never_deletable(
    specs: Seq<SpecView>,
    outcomes: Seq<ProbeOutcome>,
    inventory_complete: bool,
    filter: Seq<char>,
    apps: Seq<RecordView>,
    task: Seq<char>,
)
    ensures
        ({
            let shown = shown_candidates(specs, outcomes, inventory_complete, filter, apps, task);
            forall|i: int|
                0 <= i < shown.len() ==> is_protected(#[trigger] shown[i], inventory_complete)
        }),
    decreases specs.len(),
{
    if specs.len() > 0 {
        let before = shown_candidates(
            specs.drop_last(),
            outcomes,
            inventory_complete,
            filter,
            apps,
            task,
        );
        let shown = shown_candidates(specs, outcomes, inventory_complete, filter, apps, task);
        candidates_are_never_deletable(
            specs.drop_last(),
            outcomes,
            inventory_complete,
            filter,
            apps,
            task,
        );
        assert forall|i: int| 0 <= i < shown.len() implies is_protected(
            #[trigger] shown[i],
            inventory_complete,
        ) by {
            if i < before.len() {
                assert(shown[i] == before[i]);
            }
        }
    }
}

} // verus!
