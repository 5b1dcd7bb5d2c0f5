//! The operation record that is made durable around every native effect.

use crate::error::{Error, ErrorKind};
use crate::text;
use vstd::prelude::*;
use vstd::string::*;

verus! {

/// The newest record layout without a clean policy context.
pub const SCHEMA_VERSION: u32 = 2;

/// The record layout that carries a clean policy context.
pub const CLEAN_SCHEMA_VERSION: u32 = 3;

/// How many files one operation may hold.
pub const MAX_ITEMS: usize = 32;

/// How many operations the store keeps.
pub const MAX_RECORDS: usize = 1024;

/// A path as the platform spells it, with the text shown to the user.
#[derive(Clone, Debug, PartialEq, Eq)]
pub struct NativePath {
    pub encoding: String,
    pub bytes: Vec<u8>,
    pub display: String,
}

/// Whether two paths are spelled and shown alike.
pub open spec fn same_native(a: NativePath, b: NativePath) -> bool {
    a.encoding@ == b.encoding@ && a.bytes@ == b.bytes@ && a.display@ == b.display@
}

/// Whether two lists of paths are spelled and shown alike.
pub open spec fn same_natives(a: Seq<NativePath>, b: Seq<NativePath>) -> bool {
    a.len() == b.len() && forall|i: int| 0 <= i < a.len() ==> same_native(#[trigger] a[i], b[i])
}

impl NativePath {
    pub fn copy(&self) -> (copy: NativePath)
        ensures
            same_native(copy, *self),
    {
        NativePath {
            encoding: self.encoding.clone(),
            bytes: text::copy_bytes(self.bytes.as_slice()),
            display: self.display.clone(),
        }
    }
}

/// Copies a list of paths.
pub fn copy_natives(list: &Vec<NativePath>) -> (copy: Vec<NativePath>)
    ensures
        same_natives(copy@, list@),
{
    let mut copy: Vec<NativePath> = Vec::new();
    let mut i: usize = 0;
    while i < list.len()
        invariant
            0 <= i <= list@.len(),
            copy@.len() == i,
            forall|j: int| 0 <= j < i ==> same_native(#[trigger] copy@[j], list@[j]),
        decreases list@.len() - i,
    {
        copy.push(list[i].copy());
        i += 1;
    }
    copy
}

/// A point in time, relative to the Unix epoch.
#[derive(Clone, Copy, Debug, PartialEq, Eq, Structural)]
pub struct NativeTime {
    pub seconds: i64,
    pub nanoseconds: u32,
}

/// What is known of one item of an operation.
#[derive(Clone, Copy, Debug, PartialEq, Eq, Structural)]
pub enum ItemState {
    Planned,
    Started,
    Succeeded,
    Skipped,
    Failed,
    Unknown,
}

/// The identity of a file that an effect was asked to move.
#[derive(Clone, Copy, Debug, PartialEq, Eq, Structural)]
pub struct FileEvidence {
    pub device: u64,
    pub inode: u64,
    pub logical_bytes: u64,
    pub modified: NativeTime,
}

/// What an ambiguous effect left behind.
#[derive(Clone, Debug, PartialEq, Eq)]
pub struct RecoveryEvidence {
    pub approved: FileEvidence,
    pub returned_destination: Option<NativePath>,
    pub held_source: Option<FileEvidence>,
    pub held_source_path: Option<NativePath>,
    pub observation_errors: Vec<String>,
}

/// The metadata of one file that a rule looked at.
#[derive(Clone, Debug, PartialEq, Eq)]
pub struct RuleWitnessRecord {
    pub path: NativePath,
    pub device: u64,
    pub inode: u64,
    pub kind: String,
    pub logical_bytes: u64,
    pub modified: NativeTime,
    pub changed: NativeTime,
    pub created: NativeTime,
    pub uid: u32,
    pub gid: u32,
    pub mode: u32,
    pub nlink: u64,
    pub flags: u32,
}

/// The rule, and the files that it looked at, under which an item was selected.
#[derive(Clone, Debug, PartialEq, Eq)]
pub struct RuleBindingRecord {
    pub schema_version: u32,
    pub rule_id: String,
    pub rule_version: u32,
    pub ruleset_schema_version: u32,
    pub ruleset_revision: u32,
    pub semantics: String,
    pub semantics_digest: String,
    pub selected_root: NativePath,
    pub exclusions: Vec<NativePath>,
    pub target: RuleWitnessRecord,
    pub source: RuleWitnessRecord,
    pub root: RuleWitnessRecord,
    pub target_ancestors: Vec<RuleWitnessRecord>,
    pub source_ancestors: Vec<RuleWitnessRecord>,
    pub warnings: Vec<String>,
}

/// A path of the clean policy, with its bytes in hexadecimal.
#[derive(Clone, Debug, PartialEq, Eq)]
pub struct CleanPolicyPathRecord {
    pub encoding: String,
    pub bytes_hex: String,
    pub display: String,
}

/// Device and inode of a directory of the clean policy.
#[derive(Clone, Copy, Debug, PartialEq, Eq, Structural)]
pub struct CleanPolicyIdentityRecord {
    pub device: u64,
    pub inode: u64,
}

/// What was known of the policy file when an operation was approved.
#[derive(Clone, Debug, PartialEq, Eq)]
pub enum CleanPolicyFileRecord {
    Absent {
        expected_path: CleanPolicyPathRecord,
        nearest_existing_parent: Option<CleanPolicyPathRecord>,
        nearest_existing_parent_identity: Option<CleanPolicyIdentityRecord>,
    },
    Present {
        path: CleanPolicyPathRecord,
        identity: CleanPolicyIdentityRecord,
        length: u64,
        modified_unix_ms: Option<u64>,
        sha256: String,
    },
}

/// The clean policy that an operation was approved under.
#[derive(Clone, Debug, PartialEq, Eq)]
pub struct CleanPolicyContextRecord {
    pub schema_version: u32,
    pub kind: String,
    pub root_path: CleanPolicyPathRecord,
    pub root_identity: CleanPolicyIdentityRecord,
    pub file_state: CleanPolicyFileRecord,
    pub effective_exclusions: Vec<CleanPolicyPathRecord>,
}

/// One item of an operation.
#[derive(Clone, Debug, PartialEq, Eq)]
pub struct ItemRecord {
    pub path: NativePath,
    pub device: u64,
    pub inode: u64,
    pub logical_bytes: u64,
    pub state: ItemState,
    pub reason: Option<String>,
    pub destination: Option<NativePath>,
    pub rule_binding: Option<RuleBindingRecord>,
    pub recovery_evidence: Option<RecoveryEvidence>,
    pub updated_unix_ms: u64,
}

/// The mathematical value of an [`ItemRecord`].
pub struct ItemView {
    pub path: NativePath,
    pub device: u64,
    pub inode: u64,
    pub logical_bytes: u64,
    pub state: ItemState,
    pub reason: Option<Seq<char>>,
    pub destination: Option<NativePath>,
    pub rule_binding: Option<RuleBindingRecord>,
    pub recovery_evidence: Option<RecoveryEvidence>,
    pub updated_unix_ms: u64,
}

impl View for ItemRecord {
    type V = ItemView;

    open spec fn view(&self) -> ItemView {
        ItemView {
            path: self.path,
            device: self.device,
            inode: self.inode,
            logical_bytes: self.logical_bytes,
            state: self.state,
            reason: text::opt_text(self.reason),
            destination: self.destination,
            rule_binding: self.rule_binding,
            recovery_evidence: self.recovery_evidence,
            updated_unix_ms: self.updated_unix_ms,
        }
    }
}

/// The mathematical values of a list of items.
pub open spec fn item_views(items: Seq<ItemRecord>) -> Seq<ItemView> {
    Seq::new(items.len(), |i: int| items[i]@)
}

/// The durable record of one operation.
#[derive(Clone, Debug, PartialEq, Eq)]
pub struct Record {
    pub schema_version: u32,
    pub plan_schema_version: u32,
    pub engine_version: u32,
    pub rules_version: u32,
    pub operation_id: String,
    pub contract: String,
    pub scope: NativePath,
    pub clean_policy: Option<CleanPolicyContextRecord>,
    pub created_unix_ms: u64,
    pub items: Vec<ItemRecord>,
}

/// Everything of a record but its items.
pub struct RecordHeader {
    pub schema_version: u32,
    pub plan_schema_version: u32,
    pub engine_version: u32,
    pub rules_version: u32,
    pub operation_id: Seq<char>,
    pub contract: Seq<char>,
    pub scope: NativePath,
    pub clean_policy: Option<CleanPolicyContextRecord>,
    pub created_unix_ms: u64,
}

/// What an interrupted item is reported as: an intent without an outcome is unknown.
pub open spec fn reconciled_state(state: ItemState) -> ItemState {
    if state == ItemState::Started {
        ItemState::Unknown
    } else {
        state
    }
}

/// The item with its interrupted state resolved.
pub open spec fn reconciled_item(item: ItemView) -> ItemView {
    ItemView { state: reconciled_state(item.state), ..item }
}

/// The logical bytes of the items that were moved.
pub open spec fn moved_bytes(items: Seq<ItemRecord>) -> nat
    decreases items.len(),
{
    if items.len() == 0 {
        0
    } else {
        moved_bytes(items.drop_last()) + (if items.last().state == ItemState::Succeeded {
            items.last().logical_bytes as nat
        } else {
            0
        })
    }
}

proof fn lemma_moved_bytes_grows(items: Seq<ItemRecord>, n: int)
    requires
        0 <= n <= items.len(),
    ensures
        moved_bytes(items.take(n)) <= moved_bytes(items),
    decreases items.len() - n,
{
    if n < items.len() {
        lemma_moved_bytes_grows(items, n + 1);
        assert(items.take(n + 1).drop_last() =~= items.take(n));
    } else {
        assert(items.take(n) =~= items);
    }
}

/// Whether a record has a layout that this engine reads.
pub open spec fn readable(record: Record) -> bool {
    1 <= record.schema_version <= CLEAN_SCHEMA_VERSION
}

impl Record {
    pub open spec fn header(self) -> RecordHeader {
        RecordHeader {
            schema_version: self.schema_version,
            plan_schema_version: self.plan_schema_version,
            engine_version: self.engine_version,
            rules_version: self.rules_version,
            operation_id: self.operation_id@,
            contract: self.contract@,
            scope: self.scope,
            clean_policy: self.clean_policy,
            created_unix_ms: self.created_unix_ms,
        }
    }

    /// Refuses a record whose layout this engine does not read.
    pub fn validate(&self) -> (result: Result<(), Error>)
        ensures
            result is Ok <==> readable(*self),
            result matches Err(error) ==> error.says(
                ErrorKind::InvalidData,
                "unsupported journal record"@,
            ),
    {
        if self.schema_version == 0 || self.schema_version > CLEAN_SCHEMA_VERSION {
            return Err(Error::new(ErrorKind::InvalidData, "unsupported journal record"));
        }
        Ok(())
    }

    /// The record with every interrupted item reported as unknown.
    pub fn reconciled(self) -> (record: Record)
        ensures
            record.header() == self.header(),
            record.items@.len() == self.items@.len(),
            forall|i: int| 0 <= i < self.items@.len() ==> (#[trigger] record.items@[i])@
                == reconciled_item(self.items@[i]@),
    {
        let mut record = self;
        let ghost before = record.items@;
        let mut i: usize = 0;
        while i < record.items.len()
            invariant
                0 <= i <= record.items@.len(),
                record.items@.len() == before.len(),
                record.header() == self.header(),
                before == self.items@,
                forall|j: int| 0 <= j < i ==> (#[trigger] record.items@[j])@ == reconciled_item(
                    before[j]@,
                ),
                forall|j: int| i <= j < before.len() ==> record.items@[j] == before[j],
            decreases record.items@.len() - i,
        {
            if record.items[i].state == ItemState::Started {
                record.items[i].state = ItemState::Unknown;
            }
            i += 1;
        }
        record
    }

    /// The logical bytes of the items that were moved, if the sum fits.
    pub fn handled_bytes(&self) -> (total: Option<u64>)
        ensures
            total == if moved_bytes(self.items@) <= u64::MAX {
                Some(moved_bytes(self.items@) as u64)
            } else {
                None
            },
    {
        let mut total: u64 = 0;
        let mut i: usize = 0;
        while i < self.items.len()
            invariant
                0 <= i <= self.items@.len(),
                total == moved_bytes(self.items@.take(i as int)),
            decreases self.items@.len() - i,
        {
            proof {
                lemma_moved_bytes_grows(self.items@, i + 1);
                assert(self.items@.take(i + 1).drop_last() =~= self.items@.take(i as int));
            }
            if self.items[i].state == ItemState::Succeeded {
                match total.checked_add(self.items[i].logical_bytes) {
                    Some(sum) => {
                        total = sum;
                    },
                    None => {
                        return None;
                    },
                }
            }
            i += 1;
        }
        assert(self.items@.take(self.items@.len() as int) =~= self.items@);
        Some(total)
    }
}

/// What came back from reading the whole store.
#[derive(Debug)]
pub struct JournalRead {
    pub records: Vec<Record>,
    pub uncommitted_snapshots: Vec<String>,
}

/// Letters, digits and hyphens name an operation.
pub open spec fn id_char(c: char) -> bool {
    ('a' <= c && c <= 'z') || ('A' <= c && c <= 'Z') || ('0' <= c && c <= '9') || c == '-'
}

/// Whether a text can name an operation.
pub open spec fn is_valid_id(id: Seq<char>) -> bool {
    id.len() > 0 && forall|i: int| 0 <= i < id.len() ==> id_char(#[trigger] id[i])
}

/// Whether a text can name an operation.
pub fn valid_id(id: &str) -> (valid: bool)
    ensures
        valid == is_valid_id(id@),
{
    let count: usize = id.unicode_len();
    let mut i: usize = 0;
    while i < count
        invariant
            0 <= i <= count,
            count == id@.len(),
            forall|j: int| 0 <= j < i ==> id_char(#[trigger] id@[j]),
        decreases count - i,
    {
        let c: char = id.get_char(i);
        if !(('a' <= c && c <= 'z') || ('A' <= c && c <= 'Z') || ('0' <= c && c <= '9') || c
            == '-') {
            assert(!id_char(id@[i as int]));
            return false;
        }
        i += 1;
    }
    count > 0
}

} // verus!
