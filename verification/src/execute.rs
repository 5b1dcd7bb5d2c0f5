//! The values of native Trash sessions: plans, effects, guards and reports.
//!
//! What is decided over them, item by item, is in [`crate::session`].

use crate::error::{Error, ErrorKind};
use crate::journal::{
    ItemRecord, ItemState, NativePath, NativeTime, Record, RecoveryEvidence, RuleBindingRecord,
    RuleWitnessRecord,
};
use crate::model::{ExecutionContract, FileIdentity, ResourceKind};
use crate::text;
use vstd::prelude::*;
use vstd::string::*;

verus! {

/// A selected path that the platform could not take as a candidate.
#[derive(Clone, Debug)]
pub struct SelectionIssue {
    pub path: NativePath,
    pub message: String,
    pub os_code: Option<i32>,
    pub native_phase: Option<String>,
    pub native_operation: Option<String>,
}

/// A selected path that the plan refuses.
#[derive(Clone, Debug)]
pub struct SelectionRefusal {
    pub path: NativePath,
    pub reason: String,
}

/// What an execution did, and whether its record is durable.
#[derive(Debug)]
pub struct ExecutionReport {
    pub record: Record,
    pub journal_error: Option<String>,
}

/// Whether some item is in the given state.
pub open spec fn any_state(items: Seq<ItemRecord>, state: ItemState) -> bool {
    exists|i: int| 0 <= i < items.len() && (#[trigger] items[i]).state == state
}

/// Whether every item was moved.
pub open spec fn all_succeeded(items: Seq<ItemRecord>) -> bool {
    forall|i: int| 0 <= i < items.len() ==> (#[trigger] items[i]).state == ItemState::Succeeded
}

/// Whether some item was left because the user cancelled.
pub open spec fn any_cancelled(items: Seq<ItemRecord>) -> bool {
    exists|i: int|
        0 <= i < items.len() && text::opt_text((#[trigger] items[i]).reason) == Some("cancelled"@)
}

impl ExecutionReport {
    /// The process exit code: an unconfirmed outcome beats success, success beats
    /// cancellation, and anything else is a partial result.
    pub open spec fn code(self) -> u8 {
        if self.journal_error is Some || any_state(self.record.items@, ItemState::Unknown) {
            1
        } else if all_succeeded(self.record.items@) {
            0
        } else if any_cancelled(self.record.items@) {
            130
        } else {
            3
        }
    }

    pub fn exit_code(&self) -> (code: u8)
        ensures
            code == self.code(),
    {
        let items = &self.record.items;
        let mut unknown: bool = false;
        let mut succeeded: bool = true;
        let mut cancelled: bool = false;
        let mut i: usize = 0;
        while i < items.len()
            invariant
                0 <= i <= items@.len(),
                unknown == any_state(items@.take(i as int), ItemState::Unknown),
                succeeded == all_succeeded(items@.take(i as int)),
                cancelled == any_cancelled(items@.take(i as int)),
            decreases items@.len() - i,
        {
            let ghost seen = items@.take(i as int);
            let ghost more = items@.take(i + 1);
            let item = &items[i];
            proof {
                assert(more =~= seen.push(items@[i as int]));
                assert(forall|j: int| 0 <= j < i ==> seen[j] == more[j]);
                assert(more[i as int] == items@[i as int]);
            }
            if item.state == ItemState::Unknown {
                unknown = true;
                assert(any_state(more, ItemState::Unknown));
            } else {
                assert(any_state(more, ItemState::Unknown) ==> any_state(seen, ItemState::Unknown));
                assert(any_state(seen, ItemState::Unknown) ==> any_state(
                    more,
                    ItemState::Unknown,
                )) by {
                    if any_state(seen, ItemState::Unknown) {
                        let j = choose|j: int|
                            0 <= j < seen.len() && (#[trigger] seen[j]).state == ItemState::Unknown;
                        assert(more[j].state == ItemState::Unknown);
                    }
                }
            }
            if item.state != ItemState::Succeeded {
                succeeded = false;
                assert(!all_succeeded(more));
            } else {
                assert(all_succeeded(more) ==> all_succeeded(seen)) by {
                    if all_succeeded(more) {
                        assert forall|j: int| 0 <= j < seen.len() implies (#[trigger] seen[j]).state
                            == ItemState::Succeeded by {
                            assert(more[j].state == ItemState::Succeeded);
                        }
                    }
                }
            }
            if text::opt_text_is(&item.reason, "cancelled") {
                cancelled = true;
                assert(any_cancelled(more));
            } else {
                assert(any_cancelled(seen) ==> any_cancelled(more)) by {
                    if any_cancelled(seen) {
                        let j = choose|j: int|
                            0 <= j < seen.len() && text::opt_text((#[trigger] seen[j]).reason)
                                == Some("cancelled"@);
                        assert(text::opt_text(more[j].reason) == Some("cancelled"@));
                    }
                }
            }
            i += 1;
        }
        assert(items@.take(items@.len() as int) =~= items@);
        if self.journal_error.is_some() || unknown {
            1
        } else if succeeded {
            0
        } else if cancelled {
            130
        } else {
            3
        }
    }
}

/// What a native effect reported.
#[derive(Debug)]
pub enum Effect {
    Moved(NativePath),
    Refused(String),
    Failed(String),
    Unknown { message: String, evidence: Option<RecoveryEvidence> },
}

/// Whether a guard lets an item go on.
#[derive(Debug)]
pub enum GuardDecision {
    Proceed,
    Refused(String),
}

/// The two moments at which a guard is asked.
#[derive(Clone, Copy, Debug, PartialEq, Eq, Structural)]
pub enum GuardPoint {
    AfterStarted,
    LastNative,
}

impl GuardPoint {
    pub open spec fn name(self) -> Seq<char> {
        match self {
            GuardPoint::AfterStarted => "after_started"@,
            GuardPoint::LastNative => "last_native"@,
        }
    }

    pub fn label(&self) -> (label: &'static str)
        ensures
            label@ == self.name(),
    {
        match self {
            GuardPoint::AfterStarted => "after_started",
            GuardPoint::LastNative => "last_native",
        }
    }
}

/// The reason for which a guard stops an item, if it does: a guard that fails refuses.
pub open spec fn guard_refusal(result: Result<GuardDecision, String>, point: GuardPoint) -> Option<
    Seq<char>,
> {
    match result {
        Ok(GuardDecision::Proceed) => None,
        Ok(GuardDecision::Refused(reason)) => Some(reason@),
        Err(error) => Some("policy_guard_error_"@ + point.name() + ": "@ + error@),
    }
}

/// A guard that fails refuses, and says at which point.
pub fn resolve_guard_decision(result: Result<GuardDecision, String>, point: GuardPoint) -> (decision:
    GuardDecision)
    ensures
        match decision {
            GuardDecision::Proceed => guard_refusal(result, point) is None,
            GuardDecision::Refused(reason) => guard_refusal(result, point) == Some(reason@),
        },
{
    match result {
        Ok(decision) => decision,
        Err(error) => {
            let mut reason = text::concat3("policy_guard_error_", point.label(), ": ");
            reason.append(error.as_str());
            GuardDecision::Refused(reason)
        },
    }
}

/// The metadata of one file that a rule looked at, as the plan holds it.
#[derive(Clone, Debug)]
pub struct RuleWitness {
    pub path: NativePath,
    pub identity: FileIdentity,
    pub kind: ResourceKind,
    pub logical_bytes: u64,
    pub modified_at: NativeTime,
    pub changed_at: NativeTime,
    pub created_at: NativeTime,
    pub uid: u32,
    pub gid: u32,
    pub mode: u32,
    pub nlink: u64,
    pub flags: u32,
}

/// The rule under which a plan item was selected.
#[derive(Clone, Debug)]
pub struct RuleBinding {
    pub schema_version: u32,
    pub rule_id: String,
    pub rule_version: u32,
    pub ruleset_schema_version: u32,
    pub ruleset_revision: u32,
    pub semantics: String,
    pub semantics_digest: String,
    pub selected_root: NativePath,
    pub exclusions: Vec<NativePath>,
    pub target: RuleWitness,
    pub source: RuleWitness,
    pub root: RuleWitness,
    pub target_ancestors: Vec<RuleWitness>,
    pub source_ancestors: Vec<RuleWitness>,
    pub warnings: Vec<String>,
}

/// One item of an approved plan.
#[derive(Clone, Debug)]
pub struct PlanItem {
    pub resource: u64,
    pub path: NativePath,
    pub identity: Option<FileIdentity>,
    pub logical_bytes: Option<u64>,
    pub rule_binding: Option<RuleBinding>,
}

/// An approved plan, as far as its execution reads it.
#[derive(Clone, Debug)]
pub struct Plan {
    pub schema_version: u32,
    pub engine_version: u32,
    pub rules_version: u32,
    pub contract: ExecutionContract,
    pub scope: NativePath,
    pub items: Vec<PlanItem>,
}

/// An item that validation found changed since the preview.
#[derive(Clone, Debug)]
pub struct PlanSkip {
    pub resource: u64,
    pub code: String,
    pub probe_error: Option<String>,
}

/// How a resource kind is spelled in a record.
pub open spec fn kind_name(kind: ResourceKind) -> Seq<char> {
    match kind {
        ResourceKind::File => "file"@,
        ResourceKind::Directory => "directory"@,
        ResourceKind::Link => "link"@,
        ResourceKind::Other => "other"@,
    }
}

/// Device and inode of a file; a file without Unix identity has neither.
pub open spec fn unix_parts(identity: FileIdentity) -> (u64, u64) {
    match identity {
        FileIdentity::Unix { device, inode } => (device, inode),
        FileIdentity::Windows { .. } => (0, 0),
    }
}

/// Whether `record` is what is written down of `witness`.
pub open spec fn records_witness(witness: RuleWitness, record: RuleWitnessRecord) -> bool {
    &&& record.path == witness.path
    &&& (record.device, record.inode) == unix_parts(witness.identity)
    &&& record.kind@ == kind_name(witness.kind)
    &&& record.logical_bytes == witness.logical_bytes
    &&& record.modified == witness.modified_at
    &&& record.changed == witness.changed_at
    &&& record.created == witness.created_at
    &&& record.uid == witness.uid
    &&& record.gid == witness.gid
    &&& record.mode == witness.mode
    &&& record.nlink == witness.nlink
    &&& record.flags == witness.flags
}

/// Whether `records` is what is written down of `witnesses`, in order.
pub open spec fn records_witnesses(
    witnesses: Seq<RuleWitness>,
    records: Seq<RuleWitnessRecord>,
) -> bool {
    &&& records.len() == witnesses.len()
    &&& forall|i: int|
        0 <= i < witnesses.len() ==> records_witness(witnesses[i], #[trigger] records[i])
}

/// Whether `record` is what is written down of `binding`.
pub open spec fn records_binding(binding: RuleBinding, record: RuleBindingRecord) -> bool {
    &&& record.schema_version == binding.schema_version
    &&& record.rule_id == binding.rule_id
    &&& record.rule_version == binding.rule_version
    &&& record.ruleset_schema_version == binding.ruleset_schema_version
    &&& record.ruleset_revision == binding.ruleset_revision
    &&& record.semantics == binding.semantics
    &&& record.semantics_digest == binding.semantics_digest
    &&& record.selected_root == binding.selected_root
    &&& record.exclusions == binding.exclusions
    &&& records_witness(binding.target, record.target)
    &&& records_witness(binding.source, record.source)
    &&& records_witness(binding.root, record.root)
    &&& records_witnesses(binding.target_ancestors@, record.target_ancestors@)
    &&& records_witnesses(binding.source_ancestors@, record.source_ancestors@)
    &&& record.warnings == binding.warnings
}

fn item_witness(witness: RuleWitness) -> (record: RuleWitnessRecord)
    ensures
        records_witness(witness, record),
{
    let (device, inode): (u64, u64) = match witness.identity {
        FileIdentity::Unix { device, inode } => (device, inode),
        FileIdentity::Windows { .. } => (0, 0),
    };
    let kind: &str = match witness.kind {
        ResourceKind::File => "file",
        ResourceKind::Directory => "directory",
        ResourceKind::Link => "link",
        ResourceKind::Other => "other",
    };
    RuleWitnessRecord {
        path: witness.path,
        device,
        inode,
        kind: kind.to_owned(),
        logical_bytes: witness.logical_bytes,
        modified: witness.modified_at,
        changed: witness.changed_at,
        created: witness.created_at,
        uid: witness.uid,
        gid: witness.gid,
        mode: witness.mode,
        nlink: witness.nlink,
        flags: witness.flags,
    }
}

fn item_witnesses(witnesses: Vec<RuleWitness>) -> (records: Vec<RuleWitnessRecord>)
    ensures
        records_witnesses(witnesses@, records@),
{
    let mut rest = witnesses;
    let mut records: Vec<RuleWitnessRecord> = Vec::new();
    let ghost all = rest@;
    while rest.len() > 0
        invariant
            all == witnesses@,
            records@.len() + rest@.len() == all.len(),
            forall|j: int| 0 <= j < rest@.len() ==> rest@[j] == all[records@.len() + j],
            forall|j: int|
                0 <= j < records@.len() ==> records_witness(all[j], #[trigger] records@[j]),
        decreases rest@.len(),
    {
        let witness = rest.remove(0);
        records.push(item_witness(witness));
    }
    records
}

fn item_rule_binding(binding: RuleBinding) -> (record: RuleBindingRecord)
    ensures
        records_binding(binding, record),
{
    RuleBindingRecord {
        schema_version: binding.schema_version,
        rule_id: binding.rule_id,
        rule_version: binding.rule_version,
        ruleset_schema_version: binding.ruleset_schema_version,
        ruleset_revision: binding.ruleset_revision,
        semantics: binding.semantics,
        semantics_digest: binding.semantics_digest,
        selected_root: binding.selected_root,
        exclusions: binding.exclusions,
        target: item_witness(binding.target),
        source: item_witness(binding.source),
        root: item_witness(binding.root),
        target_ancestors: item_witnesses(binding.target_ancestors),
        source_ancestors: item_witnesses(binding.source_ancestors),
        warnings: binding.warnings,
    }
}

/// Why a plan item cannot be recorded, if it cannot.
pub open spec fn item_fault(item: PlanItem) -> Option<Seq<char>> {
    if !(item.identity matches Some(FileIdentity::Unix { .. })) {
        Some("native plan lacks Unix identity"@)
    } else if item.logical_bytes is None {
        Some("native size is unknown"@)
    } else {
        None
    }
}

/// Whether `record` is the planned state of `item`.
pub open spec fn records_item(item: PlanItem, now: u64, record: ItemRecord) -> bool {
    &&& record.path == item.path
    &&& item.identity == Some(FileIdentity::Unix { device: record.device, inode: record.inode })
    &&& item.logical_bytes == Some(record.logical_bytes)
    &&& record.state == ItemState::Planned
    &&& record.reason is None
    &&& record.destination is None
    &&& record.recovery_evidence is None
    &&& record.updated_unix_ms == now
    &&& match item.rule_binding {
        Some(binding) => record.rule_binding matches Some(written) && records_binding(
            binding,
            written,
        ),
        None => record.rule_binding is None,
    }
}

/// The first fault among the plan's items.
pub open spec fn first_fault(items: Seq<PlanItem>) -> Option<Seq<char>>
    decreases items.len(),
{
    if items.len() == 0 {
        None
    } else if first_fault(items.drop_last()) is Some {
        first_fault(items.drop_last())
    } else {
        item_fault(items.last())
    }
}

proof fn lemma_first_fault_prefix(items: Seq<PlanItem>, n: int)
    requires
        0 <= n <= items.len(),
        first_fault(items.take(n)) is Some,
    ensures
        first_fault(items) == first_fault(items.take(n)),
    decreases items.len() - n,
{
    if n < items.len() {
        assert(items.take(n + 1).drop_last() =~= items.take(n));
        lemma_first_fault_prefix(items, n + 1);
    } else {
        assert(items.take(n) =~= items);
    }
}

/// The planned records of a plan's items.
pub fn item_records(items: Vec<PlanItem>, now: u64) -> (result: Result<Vec<ItemRecord>, Error>)
    ensures
        match result {
            Ok(records) => {
                &&& first_fault(items@) is None
                &&& records@.len() == items@.len()
                &&& forall|i: int|
                    0 <= i < items@.len() ==> records_item(items@[i], now, #[trigger] records@[i])
            },
            Err(error) => {
                &&& first_fault(items@) == Some(error.message@)
                &&& error.kind == ErrorKind::InvalidData
            },
        },
{
    let ghost all = items@;
    let mut rest = items;
    let mut records: Vec<ItemRecord> = Vec::new();
    assert(all.take(0) =~= Seq::empty());
    while rest.len() > 0
        invariant
            all == items@,
            records@.len() + rest@.len() == all.len(),
            first_fault(all.take(records@.len() as int)) is None,
            forall|j: int| 0 <= j < rest@.len() ==> rest@[j] == all[records@.len() + j],
            forall|j: int|
                0 <= j < records@.len() ==> records_item(all[j], now, #[trigger] records@[j]),
        decreases rest@.len(),
    {
        let ghost n = records@.len() as int;
        let item = rest.remove(0);
        assert(item == all[n]);
        proof {
            assert(all.take(n + 1).drop_last() =~= all.take(n));
            if item_fault(item) is Some {
                lemma_first_fault_prefix(all, n + 1);
            }
        }
        let (device, inode): (u64, u64) = match item.identity {
            Some(FileIdentity::Unix { device, inode }) => (device, inode),
            _ => {
                return Err(Error::new(ErrorKind::InvalidData, "native plan lacks Unix identity"));
            },
        };
        let logical_bytes: u64 = match item.logical_bytes {
            Some(bytes) => bytes,
            None => {
                return Err(Error::new(ErrorKind::InvalidData, "native size is unknown"));
            },
        };
        let rule_binding: Option<RuleBindingRecord> = match item.rule_binding {
            Some(binding) => Some(item_rule_binding(binding)),
            None => None,
        };
        records.push(
            ItemRecord {
                path: item.path,
                device,
                inode,
                logical_bytes,
                state: ItemState::Planned,
                reason: None,
                destination: None,
                rule_binding,
                recovery_evidence: None,
                updated_unix_ms: now,
            },
        );
    }
    assert(all.take(all.len() as int) =~= all);
    Ok(records)
}

/// What a skipped item's record says.
pub open spec fn skip_text(skip: PlanSkip) -> Seq<char> {
    match skip.probe_error {
        Some(error) => skip.code@ + ": "@ + error@,
        None => skip.code@,
    }
}

/// What validation said of a resource: its first skip decides.
pub open spec fn skip_of(skips: Seq<PlanSkip>, resource: u64) -> Option<Seq<char>>
    decreases skips.len(),
{
    if skips.len() == 0 {
        None
    } else if skips[0].resource == resource {
        Some(skip_text(skips[0]))
    } else {
        skip_of(skips.drop_first(), resource)
    }
}

pub fn skip_reason(skips: &Vec<PlanSkip>, resource: u64) -> (reason: Option<String>)
    ensures
        text::opt_text(reason) == skip_of(skips@, resource),
{
    let mut i: usize = 0;
    assert(skips@.skip(0) =~= skips@);
    while i < skips.len()
        invariant
            0 <= i <= skips@.len(),
            skip_of(skips@, resource) == skip_of(skips@.skip(i as int), resource),
        decreases skips@.len() - i,
    {
        let skip = &skips[i];
        if skip.resource == resource {
            return Some(
                match &skip.probe_error {
                    Some(error) => text::concat3(skip.code.as_str(), ": ", error.as_str()),
                    None => skip.code.clone(),
                },
            );
        }
        assert(skips@.skip(i as int).drop_first() =~= skips@.skip(i + 1));
        i += 1;
    }
    None
}

} // verus!
