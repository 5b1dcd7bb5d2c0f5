//! Binding planned items to the rule under which they were selected.

use crate::error::{Error, ErrorKind};
use crate::execute::{PlanItem, RuleBinding, RuleWitness};
use crate::journal;
use crate::journal::{NativePath, NativeTime};
use crate::lifecycle;
use crate::model::{FileIdentity, ResourceKind};
use crate::native;
use crate::native::Retained;
use crate::order;
use crate::recover::Fault;
use crate::text;
use vstd::prelude::*;
use vstd::string::*;

verus! {

/// The metadata of one file, as the platform reports it.
#[derive(Debug)]
pub struct NativeWitnessInfo {
    pub path: NativePath,
    pub device: u64,
    pub inode: u64,
    pub kind: String,
    pub logical_bytes: u64,
    pub modified_unix_seconds: i64,
    pub modified_nanoseconds: i64,
    pub changed_unix_seconds: i64,
    pub changed_nanoseconds: i64,
    pub created_unix_seconds: i64,
    pub created_nanoseconds: i64,
    pub uid: u32,
    pub gid: u32,
    pub mode: u32,
    pub nlink: u64,
    pub flags: u32,
}

/// The files that a rule looked at to select a target.
#[derive(Debug)]
pub struct NativeRuleBindingWitness {
    pub target: NativeWitnessInfo,
    pub source: NativeWitnessInfo,
    pub root: NativeWitnessInfo,
    pub target_ancestors: Vec<NativeWitnessInfo>,
    pub source_ancestors: Vec<NativeWitnessInfo>,
}

/// The rule itself.
#[derive(Debug)]
pub struct RuleBindingMetadata {
    pub rule_id: String,
    pub rule_version: u32,
    pub ruleset_schema_version: u32,
    pub ruleset_revision: u32,
    pub semantics: String,
    pub semantics_digest: String,
}

/// The time that seconds and nanoseconds name; one before the epoch counts as the epoch.
pub open spec fn time_of(seconds: i64, nanos: i64) -> NativeTime {
    NativeTime {
        seconds: if seconds < 0 {
            0
        } else {
            seconds
        },
        nanoseconds: nanos as u32,
    }
}

pub open spec fn is_nanos(nanos: i64) -> bool {
    0 <= nanos < 1_000_000_000
}

pub open spec fn nanos_fault(label: Seq<char>) -> Fault {
    (ErrorKind::Other, "invalid witness "@ + label + " nanoseconds"@)
}

/// The time that seconds and nanoseconds name.
pub fn time_from_parts(seconds: i64, nanos: i64, label: &str) -> (result: Result<NativeTime, Error>)
    ensures
        match result {
            Ok(time) => is_nanos(nanos) && time == time_of(seconds, nanos),
            Err(error) => !is_nanos(nanos) && lifecycle::fault_of(error) == nanos_fault(label@),
        },
{
    if nanos < 0 || nanos >= 1_000_000_000 {
        let message = text::concat3("invalid witness ", label, " nanoseconds");
        return Err(Error { kind: ErrorKind::Other, message });
    }
    Ok(
        NativeTime {
            seconds: if seconds < 0 {
                0
            } else {
                seconds
            },
            nanoseconds: nanos as u32,
        },
    )
}

/// The kind that the platform's word for it means.
pub open spec fn kind_of(word: Seq<char>) -> ResourceKind {
    if word == "file"@ {
        ResourceKind::File
    } else if word == "directory"@ {
        ResourceKind::Directory
    } else if word == "link"@ {
        ResourceKind::Link
    } else {
        ResourceKind::Other
    }
}

fn kind_from(word: &str) -> (kind: ResourceKind)
    ensures
        kind == kind_of(word@),
{
    if text::text_eq(word, "file") {
        ResourceKind::File
    } else if text::text_eq(word, "directory") {
        ResourceKind::Directory
    } else if text::text_eq(word, "link") {
        ResourceKind::Link
    } else {
        ResourceKind::Other
    }
}

/// Why the metadata of a file cannot be kept.
pub open spec fn witness_fault(info: NativeWitnessInfo) -> Option<Fault> {
    if !is_nanos(info.modified_nanoseconds) {
        Some(nanos_fault("modified"@))
    } else if !is_nanos(info.changed_nanoseconds) {
        Some(nanos_fault("changed"@))
    } else if !is_nanos(info.created_nanoseconds) {
        Some(nanos_fault("created"@))
    } else {
        None
    }
}

/// Whether a witness keeps the metadata of a file.
pub open spec fn keeps(witness: RuleWitness, info: NativeWitnessInfo) -> bool {
    &&& journal::same_native(witness.path, info.path)
    &&& witness.identity == (FileIdentity::Unix { device: info.device, inode: info.inode })
    &&& witness.kind == kind_of(info.kind@)
    &&& witness.logical_bytes == info.logical_bytes
    &&& witness.modified_at == time_of(info.modified_unix_seconds, info.modified_nanoseconds)
    &&& witness.changed_at == time_of(info.changed_unix_seconds, info.changed_nanoseconds)
    &&& witness.created_at == time_of(info.created_unix_seconds, info.created_nanoseconds)
    &&& witness.uid == info.uid
    &&& witness.gid == info.gid
    &&& witness.mode == info.mode
    &&& witness.nlink == info.nlink
    &&& witness.flags == info.flags
}

/// Keeps the metadata of a file.
pub fn to_witness(info: &NativeWitnessInfo) -> (result: Result<RuleWitness, Error>)
    ensures
        match result {
            Ok(witness) => witness_fault(*info) is None && keeps(witness, *info),
            Err(error) => witness_fault(*info) == Some(lifecycle::fault_of(error)),
        },
{
    let modified_at: NativeTime = match time_from_parts(
        info.modified_unix_seconds,
        info.modified_nanoseconds,
        "modified",
    ) {
        Ok(time) => time,
        Err(error) => {
            return Err(error);
        },
    };
    let changed_at: NativeTime = match time_from_parts(
        info.changed_unix_seconds,
        info.changed_nanoseconds,
        "changed",
    ) {
        Ok(time) => time,
        Err(error) => {
            return Err(error);
        },
    };
    let created_at: NativeTime = match time_from_parts(
        info.created_unix_seconds,
        info.created_nanoseconds,
        "created",
    ) {
        Ok(time) => time,
        Err(error) => {
            return Err(error);
        },
    };
    Ok(
        RuleWitness {
            path: info.path.copy(),
            identity: FileIdentity::Unix { device: info.device, inode: info.inode },
            kind: kind_from(info.kind.as_str()),
            logical_bytes: info.logical_bytes,
            modified_at,
            changed_at,
            created_at,
            uid: info.uid,
            gid: info.gid,
            mode: info.mode,
            nlink: info.nlink,
            flags: info.flags,
        },
    )
}

/// Why the first of some files that cannot be kept cannot.
pub open spec fn list_fault(list: Seq<NativeWitnessInfo>) -> Option<Fault>
    decreases list.len(),
{
    if list.len() == 0 {
        None
    } else if witness_fault(list[0]) is Some {
        witness_fault(list[0])
    } else {
        list_fault(list.drop_first())
    }
}

/// Whether witnesses keep the metadata of files, in order.
pub open spec fn keep_all(witnesses: Seq<RuleWitness>, list: Seq<NativeWitnessInfo>) -> bool {
    &&& witnesses.len() == list.len()
    &&& forall|i: int| 0 <= i < list.len() ==> keeps(#[trigger] witnesses[i], list[i])
}

fn to_witnesses(list: &Vec<NativeWitnessInfo>) -> (result: Result<Vec<RuleWitness>, Error>)
    ensures
        match result {
            Ok(witnesses) => list_fault(list@) is None && keep_all(witnesses@, list@),
            Err(error) => list_fault(list@) == Some(lifecycle::fault_of(error)),
        },
{
    let mut witnesses: Vec<RuleWitness> = Vec::new();
    let mut i: usize = 0;
    assert(list@.skip(0) =~= list@);
    while i < list.len()
        invariant
            0 <= i <= list@.len(),
            list_fault(list@) == list_fault(list@.skip(i as int)),
            witnesses@.len() == i,
            forall|j: int| 0 <= j < i ==> keeps(#[trigger] witnesses@[j], list@[j]),
        decreases list@.len() - i,
    {
        assert(list@.skip(i as int)[0] == list@[i as int]);
        match to_witness(&list[i]) {
            Ok(witness) => {
                witnesses.push(witness);
            },
            Err(error) => {
                return Err(error);
            },
        }
        assert(list@.skip(i as int).drop_first() =~= list@.skip(i + 1));
        i += 1;
    }
    Ok(witnesses)
}

/// What every rule-bound item is shown with.
pub open spec fn warning_texts() -> Seq<Seq<char>> {
    seq![
        "Marker/source evidence is bounded identity metadata only; provenance and rebuild success are not guaranteed."@,
        "A file or ancestor replaced after the last check can still move a different object."@,
        "Trash does not guarantee restoration and does not measure freed space."@,
    ]
}

/// Why an item cannot be bound to its rule.
pub open spec fn binding_fault(witness: NativeRuleBindingWitness) -> Option<Fault> {
    if witness_fault(witness.target) is Some {
        witness_fault(witness.target)
    } else if witness_fault(witness.source) is Some {
        witness_fault(witness.source)
    } else if witness_fault(witness.root) is Some {
        witness_fault(witness.root)
    } else if list_fault(witness.target_ancestors@) is Some {
        list_fault(witness.target_ancestors@)
    } else {
        list_fault(witness.source_ancestors@)
    }
}

/// Whether a binding says under which rule, below which root and over which files an item was
/// selected.
pub open spec fn binds(
    binding: RuleBinding,
    metadata: RuleBindingMetadata,
    root: NativePath,
    excluded: Seq<NativePath>,
    witness: NativeRuleBindingWitness,
) -> bool {
    &&& binding.schema_version == 1
    &&& binding.rule_id@ == metadata.rule_id@
    &&& binding.rule_version == metadata.rule_version
    &&& binding.ruleset_schema_version == metadata.ruleset_schema_version
    &&& binding.ruleset_revision == metadata.ruleset_revision
    &&& binding.semantics@ == metadata.semantics@
    &&& binding.semantics_digest@ == metadata.semantics_digest@
    &&& journal::same_native(binding.selected_root, root)
    &&& journal::same_natives(binding.exclusions@, excluded)
    &&& keeps(binding.target, witness.target)
    &&& keeps(binding.source, witness.source)
    &&& keeps(binding.root, witness.root)
    &&& keep_all(binding.target_ancestors@, witness.target_ancestors@)
    &&& keep_all(binding.source_ancestors@, witness.source_ancestors@)
    &&& order::texts(binding.warnings@) == warning_texts()
}

/// Binds one item to its rule.
pub fn to_rule_binding(
    metadata: &RuleBindingMetadata,
    root: &NativePath,
    excluded: &Vec<NativePath>,
    witness: &NativeRuleBindingWitness,
) -> (result: Result<RuleBinding, Error>)
    ensures
        match result {
            Ok(binding) => binding_fault(*witness) is None && binds(
                binding,
                *metadata,
                *root,
                excluded@,
                *witness,
            ),
            Err(error) => binding_fault(*witness) == Some(lifecycle::fault_of(error)),
        },
{
    let target: RuleWitness = match to_witness(&witness.target) {
        Ok(kept) => kept,
        Err(error) => {
            return Err(error);
        },
    };
    let source: RuleWitness = match to_witness(&witness.source) {
        Ok(kept) => kept,
        Err(error) => {
            return Err(error);
        },
    };
    let selected: RuleWitness = match to_witness(&witness.root) {
        Ok(kept) => kept,
        Err(error) => {
            return Err(error);
        },
    };
    let target_ancestors: Vec<RuleWitness> = match to_witnesses(&witness.target_ancestors) {
        Ok(kept) => kept,
        Err(error) => {
            return Err(error);
        },
    };
    let source_ancestors: Vec<RuleWitness> = match to_witnesses(&witness.source_ancestors) {
        Ok(kept) => kept,
        Err(error) => {
            return Err(error);
        },
    };
    let mut warnings: Vec<String> = Vec::new();
    warnings.push(
        "Marker/source evidence is bounded identity metadata only; provenance and rebuild success are not guaranteed.".to_owned(),
    );
    warnings.push(
        "A file or ancestor replaced after the last check can still move a different object.".to_owned(),
    );
    warnings.push(
        "Trash does not guarantee restoration and does not measure freed space.".to_owned(),
    );
    assert(order::texts(warnings@) =~= warning_texts());
    Ok(
        RuleBinding {
            schema_version: 1,
            rule_id: metadata.rule_id.clone(),
            rule_version: metadata.rule_version,
            ruleset_schema_version: metadata.ruleset_schema_version,
            ruleset_revision: metadata.ruleset_revision,
            semantics: metadata.semantics.clone(),
            semantics_digest: metadata.semantics_digest.clone(),
            selected_root: root.copy(),
            exclusions: journal::copy_natives(excluded),
            target,
            source,
            root: selected,
            target_ancestors,
            source_ancestors,
            warnings,
        },
    )
}

/// Why one item cannot be bound: the platform has to hold it, and to have captured it with the
/// files that the rule looked at.
pub open spec fn item_fault(
    candidates: Seq<native::Candidate>,
    item: PlanItem,
    witness: Option<NativeRuleBindingWitness>,
) -> Option<Fault> {
    if native::held(candidates, item.path.bytes@) is None {
        Some((ErrorKind::InvalidData, "rule-bound candidate unavailable"@))
    } else {
        match witness {
            None => Some((ErrorKind::InvalidData, "missing rule-bound witness"@)),
            Some(witness) => binding_fault(witness),
        }
    }
}

/// Why the first of some items that cannot be bound cannot.
pub open spec fn items_fault(
    candidates: Seq<native::Candidate>,
    items: Seq<PlanItem>,
    witnesses: Seq<Option<NativeRuleBindingWitness>>,
) -> Option<Fault>
    decreases items.len(),
{
    if items.len() == 0 {
        None
    } else if item_fault(candidates, items[0], witnesses[0]) is Some {
        item_fault(candidates, items[0], witnesses[0])
    } else {
        items_fault(candidates, items.drop_first(), witnesses.drop_first())
    }
}

/// Whether a binding is that of an item with what the platform captured of it.
pub open spec fn binds_item(
    binding: RuleBinding,
    metadata: RuleBindingMetadata,
    root: NativePath,
    excluded: Seq<NativePath>,
    witness: Option<NativeRuleBindingWitness>,
) -> bool {
    match witness {
        Some(witness) => binds(binding, metadata, root, excluded, witness),
        None => false,
    }
}

/// Binds every item of a plan to its rule, in the order of the plan. `witnesses` holds what the
/// platform captured of each.
pub fn bind_items(
    metadata: &RuleBindingMetadata,
    root: &NativePath,
    excluded: &Vec<NativePath>,
    retained: &Retained,
    items: &Vec<PlanItem>,
    witnesses: &Vec<Option<NativeRuleBindingWitness>>,
) -> (result: Result<Vec<RuleBinding>, Error>)
    requires
        witnesses@.len() == items@.len(),
    ensures
        match result {
            Ok(bindings) => {
                &&& items_fault(retained.candidates@, items@, witnesses@) is None
                &&& bindings@.len() == items@.len()
                &&& forall|i: int|
                    0 <= i < bindings@.len() ==> binds_item(
                        #[trigger] bindings@[i],
                        *metadata,
                        *root,
                        excluded@,
                        witnesses@[i],
                    )
            },
            Err(error) => items_fault(retained.candidates@, items@, witnesses@) == Some(
                lifecycle::fault_of(error),
            ),
        },
{
    let ghost held = retained.candidates@;
    let mut bindings: Vec<RuleBinding> = Vec::new();
    let mut i: usize = 0;
    assert(items@.skip(0) =~= items@ && witnesses@.skip(0) =~= witnesses@);
    while i < items.len()
        invariant
            0 <= i <= items@.len(),
            witnesses@.len() == items@.len(),
            held == retained.candidates@,
            items_fault(held, items@, witnesses@) == items_fault(
                held,
                items@.skip(i as int),
                witnesses@.skip(i as int),
            ),
            bindings@.len() == i,
            forall|j: int|
                0 <= j < i ==> binds_item(
                    #[trigger] bindings@[j],
                    *metadata,
                    *root,
                    excluded@,
                    witnesses@[j],
                ),
        decreases items@.len() - i,
    {
        assert(items@.skip(i as int)[0] == items@[i as int]);
        assert(witnesses@.skip(i as int)[0] == witnesses@[i as int]);
        if retained.find(items[i].path.bytes.as_slice()).is_none() {
            return Err(Error::new(ErrorKind::InvalidData, "rule-bound candidate unavailable"));
        }
        match &witnesses[i] {
            None => {
                return Err(Error::new(ErrorKind::InvalidData, "missing rule-bound witness"));
            },
            Some(witness) => match to_rule_binding(metadata, root, excluded, witness) {
                Ok(binding) => {
                    bindings.push(binding);
                },
                Err(error) => {
                    return Err(error);
                },
            },
        }
        assert(items@.skip(i as int).drop_first() =~= items@.skip(i + 1));
        assert(witnesses@.skip(i as int).drop_first() =~= witnesses@.skip(i + 1));
        i += 1;
    }
    Ok(bindings)
}

/// What was discovered under a rule: a target, and the rule that selected it.
#[derive(Debug)]
pub struct RuleCandidate {
    pub target_path: Vec<u8>,
    pub rule_id: String,
    pub target_identity: FileIdentity,
}

} // verus!
