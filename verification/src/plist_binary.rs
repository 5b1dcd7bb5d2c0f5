//! Property lists in Apple's binary format.

use crate::app_inventory::{
    AppInventoryLimits, AppInventoryMetadataReadMode, AppIssueCode, FieldView, PlistFormat,
    StringField, StringState,
};
use crate::plist;
use crate::plist::{ParsedPlist, ParsedView, Slot};
use crate::probe;
use crate::probe::{AppError, AppFault, ProbeBudget, ProbeContext};
use crate::text;
use crate::unicode;
use vstd::prelude::*;
use vstd::string::*;

verus! {

/// The number of bytes in a trailer.
pub const TRAILER: usize = 32;

/// The number that some bytes spell, the most significant first.
pub open spec fn be_value(bytes: Seq<u8>) -> nat
    decreases bytes.len(),
{
    if bytes.len() == 0 {
        0
    } else {
        be_value(bytes.drop_last()) * 256 + bytes.last() as nat
    }
}

/// The number of values that so many bytes can take.
pub open spec fn be_bound(count: nat) -> nat
    decreases count,
{
    if count == 0 {
        1
    } else {
        be_bound((count - 1) as nat) * 256
    }
}

proof fn lemma_be_bound(bytes: Seq<u8>)
    ensures
        be_value(bytes) < be_bound(bytes.len()),
    decreases bytes.len(),
{
    if bytes.len() > 0 {
        lemma_be_bound(bytes.drop_last());
    }
}

proof fn lemma_eight(count: nat)
    requires
        count <= 8,
    ensures
        be_bound(count) <= 0x1_0000_0000_0000_0000,
    decreases 8 - count,
{
    if count < 8 {
        lemma_eight(count + 1);
    } else {
        reveal_with_fuel(be_bound, 9);
    }
}

/// Reading a number of so many bytes at a place.
pub open spec fn read_uint(bytes: Seq<u8>, offset: int, size: int) -> Result<u64, AppFault> {
    if offset + size > usize::MAX {
        Err(plist::malformed("offset overflow"@))
    } else if offset + size > bytes.len() {
        Err(plist::malformed("out of bounds read"@))
    } else {
        Ok(be_value(bytes.subrange(offset, offset + size)) as u64)
    }
}

pub open spec fn uint_result(result: Result<u64, AppError>) -> Result<u64, AppFault> {
    match result {
        Ok(value) => Ok(value),
        Err(error) => Err(error@),
    }
}

/// Reads a number of so many bytes at a place.
pub fn read_be_uint(bytes: &[u8], offset: usize, size: usize) -> (result: Result<u64, AppError>)
    requires
        size <= 8,
    ensures
        uint_result(result) == read_uint(bytes@, offset as int, size as int),
{
    let end: usize = match offset.checked_add(size) {
        Some(end) => end,
        None => {
            return Err(plist::malformed_error("offset overflow"));
        },
    };
    if end > bytes.len() {
        return Err(plist::malformed_error("out of bounds read"));
    }
    let ghost whole = bytes@.subrange(offset as int, end as int);
    let mut value: u64 = 0;
    let mut i: usize = 0;
    assert(whole.take(0) =~= Seq::empty());
    while i < size
        invariant
            0 <= i <= size <= 8,
            end == offset + size,
            end <= bytes@.len(),
            whole == bytes@.subrange(offset as int, end as int),
            value == be_value(whole.take(i as int)),
        decreases size - i,
    {
        let byte: u8 = bytes[offset + i];
        proof {
            assert(whole.take(i + 1).drop_last() =~= whole.take(i as int));
            assert(whole.take(i + 1).last() == byte);
            lemma_be_bound(whole.take(i + 1));
            lemma_eight((i + 1) as nat);
        }
        value = value * 256 + byte as u64;
        i += 1;
    }
    assert(whole.take(size as int) =~= whole);
    Ok(value)
}

/// The size of an integer object's number, from the low half of its marker.
pub open spec fn int_size(power: u8) -> int {
    if power == 0 {
        1
    } else if power == 1 {
        2
    } else if power == 2 {
        4
    } else {
        8
    }
}

/// The length of an object and the number of bytes before its content.
pub open spec fn length_at(
    bytes: Seq<u8>,
    start: int,
    low: u8,
    limits: AppInventoryLimits,
    budget: ProbeBudget,
) -> (Result<(usize, usize), AppFault>, ProbeBudget) {
    if low < 0x0f {
        (Ok((low as usize, 1)), budget)
    } else if start + 1 >= bytes.len() {
        (Err(plist::malformed("missing length marker"@)), budget)
    } else if bytes[start + 1] >> 4 != 1 {
        (Err(plist::malformed("extended length marker is not integer"@)), budget)
    } else if bytes[start + 1] & 0x0f > 3 {
        (Err(plist::malformed("extended length integer too large"@)), budget)
    } else {
        let size = int_size(bytes[start + 1] & 0x0f);
        match read_uint(bytes, start + 2, size) {
            Err(found) => (Err(found), budget),
            Ok(value) => if value > usize::MAX {
                (Err(plist::over_limit("plist length is too large"@)), budget)
            } else {
                match budget.after_visit(limits) {
                    (Err(found), after) => (Err(found), after),
                    (Ok(()), after) => (Ok((value as usize, (2 + size) as usize)), after),
                }
            },
        }
    }
}

pub open spec fn pair_result(result: Result<(usize, usize), AppError>) -> Result<
    (usize, usize),
    AppFault,
> {
    match result {
        Ok(pair) => Ok(pair),
        Err(error) => Err(error@),
    }
}

fn decode_length(
    bytes: &[u8],
    start: usize,
    low: u8,
    limits: AppInventoryLimits,
    budget: &mut ProbeBudget,
) -> (result: Result<(usize, usize), AppError>)
    requires
        start + TRAILER <= bytes@.len(),
    ensures
        (pair_result(result), *final(budget)) == length_at(
            bytes@,
            start as int,
            low,
            limits,
            *old(budget),
        ),
        result matches Ok(pair) ==> pair.1 <= 10,
{
    if low < 0x0f {
        return Ok((low as usize, 1));
    }
    let count: usize = bytes.len();
    if start + 1 >= count {
        return Err(plist::malformed_error("missing length marker"));
    }
    let marker: u8 = bytes[start + 1];
    if marker >> 4 != 1 {
        return Err(plist::malformed_error("extended length marker is not integer"));
    }
    let power: u8 = marker & 0x0f;
    if power > 3 {
        return Err(plist::malformed_error("extended length integer too large"));
    }
    let size: usize = if power == 0 {
        1
    } else if power == 1 {
        2
    } else if power == 2 {
        4
    } else {
        8
    };
    let value: u64 = match read_be_uint(bytes, start + 2, size) {
        Ok(value) => value,
        Err(error) => {
            return Err(error);
        },
    };
    if value > usize::MAX as u64 {
        return Err(plist::limit_error("plist length is too large"));
    }
    if let Err(error) = budget.visit_ref(limits) {
        return Err(error);
    }
    Ok((value as usize, 2 + size))
}

/// The content of a string of single bytes.
pub open spec fn narrow_string(
    bytes: Seq<u8>,
    from: int,
    length: int,
    limits: AppInventoryLimits,
    budget: ProbeBudget,
) -> (Result<Option<Seq<char>>, AppFault>, ProbeBudget) {
    if from + length > usize::MAX {
        (Err(plist::malformed("string overflow"@)), budget)
    } else if from + length > bytes.len() {
        (Err(plist::malformed("string out of bounds"@)), budget)
    } else {
        match unicode::utf8_text(bytes.subrange(from, from + length)) {
            None => (Err(plist::malformed("invalid ASCII plist string"@)), budget),
            Some(text) => kept(text, limits, budget),
        }
    }
}

/// The units that pairs of bytes spell, the most significant byte first.
pub open spec fn units(bytes: Seq<u8>, from: int, count: nat) -> Seq<u16> {
    Seq::new(
        count,
        |i: int| (bytes[from + 2 * i] as int * 256 + bytes[from + 2 * i + 1] as int) as u16,
    )
}

/// The content of a string of pairs of bytes.
pub open spec fn wide_string(
    bytes: Seq<u8>,
    from: int,
    length: int,
    limits: AppInventoryLimits,
    budget: ProbeBudget,
) -> (Result<Option<Seq<char>>, AppFault>, ProbeBudget) {
    if length * 2 > usize::MAX {
        (Err(plist::malformed("UTF-16 length overflow"@)), budget)
    } else if from + length * 2 > usize::MAX {
        (Err(plist::malformed("UTF-16 overflow"@)), budget)
    } else if from + length * 2 > bytes.len() {
        (Err(plist::malformed("UTF-16 out of bounds"@)), budget)
    } else {
        match unicode::utf16_text(units(bytes, from, length as nat)) {
            None => (Err(plist::malformed("invalid UTF-16 plist string"@)), budget),
            Some(text) => kept(text, limits, budget),
        }
    }
}

/// A string that is kept, and paid for.
pub open spec fn kept(text: Seq<char>, limits: AppInventoryLimits, budget: ProbeBudget) -> (
    Result<Option<Seq<char>>, AppFault>,
    ProbeBudget,
) {
    match budget.after_retained(unicode::byte_len(text) as usize, limits) {
        (Err(found), after) => (Err(found), after),
        (Ok(()), after) => (Ok(Some(text)), after),
    }
}

/// The string of an object: nothing if the object is no string, or one that is too long.
pub open spec fn string_at(
    bytes: Seq<u8>,
    start: int,
    limits: AppInventoryLimits,
    budget: ProbeBudget,
) -> (Result<Option<Seq<char>>, AppFault>, ProbeBudget) {
    match budget.after_visit(limits) {
        (Err(found), visited) => (Err(found), visited),
        (Ok(()), visited) => if start >= bytes.len() {
            (Err(plist::malformed("object marker out of bounds"@)), visited)
        } else {
            let kind = bytes[start] >> 4;
            let low = bytes[start] & 0x0f;
            if kind == 5 || kind == 6 {
                match length_at(bytes, start, low, limits, visited) {
                    (Err(found), after) => (Err(found), after),
                    (Ok((length, header)), after) => if length > limits.max_string_bytes {
                        (Ok(None), after)
                    } else if kind == 5 {
                        narrow_string(bytes, start + header, length as int, limits, after)
                    } else {
                        wide_string(bytes, start + header, length as int, limits, after)
                    },
                }
            } else if kind == 7 {
                (
                    Err(
                        probe::fault(
                            AppIssueCode::UnsupportedPlistFormat,
                            "binary plist UTF-8 string marker is unsupported in this slice"@,
                        ),
                    ),
                    visited,
                )
            } else {
                (Ok(None), visited)
            }
        },
    }
}

pub open spec fn string_result(result: Result<Option<String>, AppError>) -> Result<
    Option<Seq<char>>,
    AppFault,
> {
    match result {
        Ok(value) => Ok(text::opt_text(value)),
        Err(error) => Err(error@),
    }
}

fn keep(value: String, limits: AppInventoryLimits, budget: &mut ProbeBudget) -> (result: Result<
    Option<String>,
    AppError,
>)
    ensures
        (string_result(result), *final(budget)) == kept(value@, limits, *old(budget)),
{
    let length: usize = unicode::length_in_bytes(value.as_str());
    if let Err(error) = budget.charge_retained(length, limits) {
        return Err(error);
    }
    Ok(Some(value))
}

fn read_narrow(
    bytes: &[u8],
    from: usize,
    length: usize,
    limits: AppInventoryLimits,
    budget: &mut ProbeBudget,
) -> (result: Result<Option<String>, AppError>)
    ensures
        (string_result(result), *final(budget)) == narrow_string(
            bytes@,
            from as int,
            length as int,
            limits,
            *old(budget),
        ),
{
    let to: usize = match from.checked_add(length) {
        Some(to) => to,
        None => {
            return Err(plist::malformed_error("string overflow"));
        },
    };
    if to > bytes.len() {
        return Err(plist::malformed_error("string out of bounds"));
    }
    let raw = text::slice_bytes(bytes, from, to);
    match unicode::from_utf8(raw.as_slice()) {
        None => Err(plist::malformed_error("invalid ASCII plist string")),
        Some(value) => keep(value, limits, budget),
    }
}

fn read_wide(
    bytes: &[u8],
    from: usize,
    length: usize,
    limits: AppInventoryLimits,
    budget: &mut ProbeBudget,
) -> (result: Result<Option<String>, AppError>)
    ensures
        (string_result(result), *final(budget)) == wide_string(
            bytes@,
            from as int,
            length as int,
            limits,
            *old(budget),
        ),
{
    let byte_len: usize = match length.checked_mul(2) {
        Some(byte_len) => byte_len,
        None => {
            return Err(plist::malformed_error("UTF-16 length overflow"));
        },
    };
    let to: usize = match from.checked_add(byte_len) {
        Some(to) => to,
        None => {
            return Err(plist::malformed_error("UTF-16 overflow"));
        },
    };
    if to > bytes.len() {
        return Err(plist::malformed_error("UTF-16 out of bounds"));
    }
    let mut list: Vec<u16> = Vec::new();
    let mut i: usize = 0;
    while i < length
        invariant
            0 <= i <= length,
            to == from + length * 2,
            to <= bytes@.len(),
            list@.len() == i,
            forall|j: int|
                0 <= j < i ==> list@[j] == #[trigger] units(bytes@, from as int, length as nat)[j],
        decreases length - i,
    {
        let high: u16 = bytes[from + 2 * i] as u16;
        let low: u16 = bytes[from + 2 * i + 1] as u16;
        list.push(high * 256 + low);
        i += 1;
    }
    assert(list@ =~= units(bytes@, from as int, length as nat));
    match unicode::from_utf16(&list) {
        None => Err(plist::malformed_error("invalid UTF-16 plist string")),
        Some(value) => keep(value, limits, budget),
    }
}

fn decode_string(
    bytes: &[u8],
    start: usize,
    context: &ProbeContext<'_>,
    budget: &mut ProbeBudget,
) -> (result: Result<Option<String>, AppError>)
    requires
        start + TRAILER <= bytes@.len(),
    ensures
        final(budget).grown_from(*old(budget)),
        context.stopped(result) || (string_result(result), *final(budget)) == string_at(
            bytes@,
            start as int,
            context.limits,
            *old(budget),
        ),
{
    let limits: AppInventoryLimits = context.limits;
    if let Err(error) = context.check() {
        return Err(error);
    }
    if let Err(error) = budget.visit_ref(limits) {
        return Err(error);
    }
    let marker: u8 = bytes[start];
    let kind: u8 = marker >> 4;
    let low: u8 = marker & 0x0f;
    if kind == 5 || kind == 6 {
        let (length, header): (usize, usize) = match decode_length(
            bytes,
            start,
            low,
            limits,
            budget,
        ) {
            Ok(pair) => pair,
            Err(error) => {
                return Err(error);
            },
        };
        let count: usize = bytes.len();
        assert(start + header <= count);
        if length > limits.max_string_bytes {
            return Ok(None);
        }
        if kind == 5 {
            return read_narrow(bytes, start + header, length, limits, budget);
        }
        return read_wide(bytes, start + header, length, limits, budget);
    }
    if kind == 7 {
        return Err(
            AppError::new(
                AppIssueCode::UnsupportedPlistFormat,
                "binary plist UTF-8 string marker is unsupported in this slice",
            ),
        );
    }
    Ok(None)
}

/// What an object's string makes of a slot.
pub open spec fn field_of(value: Option<Seq<char>>, limits: AppInventoryLimits) -> FieldView {
    match value {
        Some(text) => if unicode::byte_len(text) > limits.max_string_bytes {
            FieldView { state: StringState::TooLong, value: None }
        } else {
            FieldView { state: StringState::Present, value: Some(text) }
        },
        None => FieldView { state: StringState::NotString, value: None },
    }
}

/// Where the references of a dictionary stand.
#[derive(Clone, Copy, Debug, PartialEq, Eq, Structural)]
pub struct DictShape {
    pub keys_start: usize,
    pub values_start: usize,
    pub count: usize,
    pub ref_size: usize,
}

impl DictShape {
    pub open spec fn fits(self, length: nat) -> bool {
        &&& 1 <= self.ref_size <= 8
        &&& self.values_start == self.keys_start + self.count * self.ref_size
        &&& self.values_start + self.count * self.ref_size <= length
    }
}

/// What one entry of a dictionary makes of what was read before.
pub open spec fn entry_step(
    bytes: Seq<u8>,
    offsets: Seq<usize>,
    shape: DictShape,
    at: int,
    limits: AppInventoryLimits,
    mode: AppInventoryMetadataReadMode,
    parsed: ParsedView,
    budget: ProbeBudget,
) -> (Result<ParsedView, AppFault>, ProbeBudget) {
    if at > limits.max_plist_refs_visited {
        (Err(plist::over_limit("plist key iteration limit exceeded"@)), budget)
    } else {
        match (
            read_uint(bytes, shape.keys_start + at * shape.ref_size, shape.ref_size as int),
            read_uint(bytes, shape.values_start + at * shape.ref_size, shape.ref_size as int),
        ) {
            (Err(found), _) => (Err(found), budget),
            (Ok(_), Err(found)) => (Err(found), budget),
            (Ok(key), Ok(value)) => if key as usize >= offsets.len() || value as usize
                >= offsets.len() {
                (Err(plist::malformed("dictionary object reference out of bounds"@)), budget)
            } else {
                match string_at(bytes, offsets[key as usize as int] as int, limits, budget) {
                    (Err(found), after) => (Err(found), after),
                    (Ok(None), after) => (Ok(parsed), after),
                    (Ok(Some(name)), after) => match plist::slot_of(name, mode) {
                        None => (Ok(parsed), after),
                        Some(slot) => if parsed.holds(slot) {
                            (
                                Err(
                                    plist::malformed("duplicate selected key in plist dictionary"@),
                                ),
                                after,
                            )
                        } else {
                            match string_at(
                                bytes,
                                offsets[value as usize as int] as int,
                                limits,
                                after,
                            ) {
                                (Err(found), done) => (Err(found), done),
                                (Ok(content), done) => (
                                    Ok(parsed.with(slot, field_of(content, limits))),
                                    done,
                                ),
                            }
                        },
                    },
                }
            },
        }
    }
}

/// What the entries of a dictionary from one on make of what was read before.
pub open spec fn entries_from(
    bytes: Seq<u8>,
    offsets: Seq<usize>,
    shape: DictShape,
    at: int,
    limits: AppInventoryLimits,
    mode: AppInventoryMetadataReadMode,
    parsed: ParsedView,
    budget: ProbeBudget,
) -> (Result<ParsedView, AppFault>, ProbeBudget)
    decreases shape.count - at,
{
    if at >= shape.count {
        (Ok(parsed), budget)
    } else {
        match entry_step(bytes, offsets, shape, at, limits, mode, parsed, budget) {
            (Err(found), after) => (Err(found), after),
            (Ok(parsed), after) => entries_from(
                bytes,
                offsets,
                shape,
                at + 1,
                limits,
                mode,
                parsed,
                after,
            ),
        }
    }
}

/// What the dictionary at a place gives.
pub open spec fn dict_at(
    bytes: Seq<u8>,
    offsets: Seq<usize>,
    start: int,
    ref_size: usize,
    limits: AppInventoryLimits,
    mode: AppInventoryMetadataReadMode,
    budget: ProbeBudget,
) -> (Result<ParsedView, AppFault>, ProbeBudget) {
    match budget.after_visit(limits) {
        (Err(found), visited) => (Err(found), visited),
        (Ok(()), visited) => if start >= bytes.len() {
            (Err(plist::malformed("top object out of bounds"@)), visited)
        } else if bytes[start] >> 4 != 0xD {
            (Err(plist::malformed("top object is not a dictionary"@)), visited)
        } else {
            match length_at(bytes, start, bytes[start] & 0x0f, limits, visited) {
                (Err(found), after) => (Err(found), after),
                (Ok((count, header)), after) => {
                    let keys_start = start + header;
                    let refs = count * ref_size;
                    if keys_start + 2 * refs > usize::MAX {
                        (Err(plist::malformed("dictionary refs overflow"@)), after)
                    } else if keys_start + 2 * refs > bytes.len() {
                        (Err(plist::malformed("dictionary references out of bounds"@)), after)
                    } else {
                        entries_from(
                            bytes,
                            offsets,
                            (DictShape {
                                keys_start: keys_start as usize,
                                values_start: (keys_start + refs) as usize,
                                count,
                                ref_size,
                            }),
                            0,
                            limits,
                            mode,
                            plist::nothing_read(PlistFormat::Binary),
                            after,
                        )
                    }
                },
            }
        },
    }
}

/// Every object stands before the trailer.
pub open spec fn offsets_fit(offsets: Seq<usize>, length: nat) -> bool {
    forall|i: int| 0 <= i < offsets.len() ==> #[trigger] offsets[i] + TRAILER <= length
}

proof fn lemma_place(at: int, count: int, size: int)
    requires
        0 <= at < count,
        1 <= size,
    ensures
        0 <= at * size,
        at * size + size <= count * size,
{
    assert(0 <= at * size && at * size + size <= count * size) by (nonlinear_arith)
        requires
            0 <= at < count,
            1 <= size,
    ;
}

pub open spec fn unit_step(result: Result<(), AppError>, parsed: ParsedView) -> Result<
    ParsedView,
    AppFault,
> {
    match result {
        Ok(()) => Ok(parsed),
        Err(error) => Err(error@),
    }
}

fn read_entry(
    bytes: &[u8],
    offsets: &Vec<usize>,
    shape: DictShape,
    at: usize,
    context: &ProbeContext<'_>,
    parsed: &mut ParsedPlist,
    budget: &mut ProbeBudget,
) -> (result: Result<(), AppError>)
    requires
        at < shape.count,
        shape.fits(bytes@.len()),
        offsets_fit(offsets@, bytes@.len()),
    ensures
        final(budget).grown_from(*old(budget)),
        context.stopped(result) || (unit_step(result, final(parsed)@), *final(budget))
            == entry_step(
            bytes@,
            offsets@,
            shape,
            at as int,
            context.limits,
            context.metadata_read_mode,
            old(parsed)@,
            *old(budget),
        ),
{
    let limits: AppInventoryLimits = context.limits;
    let count: usize = bytes.len();
    proof {
        lemma_place(at as int, shape.count as int, shape.ref_size as int);
    }
    if at > limits.max_plist_refs_visited {
        return Err(plist::limit_error("plist key iteration limit exceeded"));
    }
    assert(shape.values_start + at * shape.ref_size + shape.ref_size <= count);
    let key: u64 = match read_be_uint(
        bytes,
        shape.keys_start + at * shape.ref_size,
        shape.ref_size,
    ) {
        Ok(key) => key,
        Err(error) => {
            return Err(error);
        },
    };
    let value: u64 = match read_be_uint(
        bytes,
        shape.values_start + at * shape.ref_size,
        shape.ref_size,
    ) {
        Ok(value) => value,
        Err(error) => {
            return Err(error);
        },
    };
    if key as usize >= offsets.len() || value as usize >= offsets.len() {
        return Err(plist::malformed_error("dictionary object reference out of bounds"));
    }
    let name: String = match decode_string(bytes, offsets[key as usize], context, budget) {
        Err(error) => {
            return Err(error);
        },
        Ok(None) => {
            return Ok(());
        },
        Ok(Some(name)) => name,
    };
    let slot: Slot = match plist::selected_key_index(name.as_str(), context.metadata_read_mode) {
        None => {
            return Ok(());
        },
        Some(slot) => slot,
    };
    if parsed.has(slot) {
        return Err(plist::malformed_error("duplicate selected key in plist dictionary"));
    }
    let field: StringField = match decode_string(bytes, offsets[value as usize], context, budget) {
        Err(error) => {
            return Err(error);
        },
        Ok(None) => StringField { state: StringState::NotString, value: None },
        Ok(Some(content)) => if unicode::length_in_bytes(content.as_str())
            > limits.max_string_bytes {
            StringField { state: StringState::TooLong, value: None }
        } else {
            StringField { state: StringState::Present, value: Some(content) }
        },
    };
    parsed.fill(slot, field);
    Ok(())
}

fn decode_top_dict(
    bytes: &[u8],
    offsets: &Vec<usize>,
    start: usize,
    ref_size: usize,
    context: &ProbeContext<'_>,
    budget: &mut ProbeBudget,
) -> (result: Result<ParsedPlist, AppError>)
    requires
        start + TRAILER <= bytes@.len(),
        offsets_fit(offsets@, bytes@.len()),
        1 <= ref_size <= 8,
    ensures
        final(budget).grown_from(*old(budget)),
        context.stopped(result) || (plist::parsed_result(result), *final(budget)) == dict_at(
            bytes@,
            offsets@,
            start as int,
            ref_size,
            context.limits,
            context.metadata_read_mode,
            *old(budget),
        ),
{
    let limits: AppInventoryLimits = context.limits;
    if let Err(error) = budget.visit_ref(limits) {
        return Err(error);
    }
    let marker: u8 = bytes[start];
    if marker >> 4 != 0xD {
        return Err(plist::malformed_error("top object is not a dictionary"));
    }
    let (count, header): (usize, usize) = match decode_length(
        bytes,
        start,
        marker & 0x0f,
        limits,
        budget,
    ) {
        Ok(pair) => pair,
        Err(error) => {
            return Err(error);
        },
    };
    let length: usize = bytes.len();
    assert(start + header <= length);
    let keys_start: usize = start + header;
    let refs: usize = match count.checked_mul(ref_size) {
        Some(refs) => refs,
        None => {
            return Err(plist::malformed_error("dictionary refs overflow"));
        },
    };
    let values_start: usize = match keys_start.checked_add(refs) {
        Some(values_start) => values_start,
        None => {
            return Err(plist::malformed_error("dictionary refs overflow"));
        },
    };
    let values_end: usize = match values_start.checked_add(refs) {
        Some(values_end) => values_end,
        None => {
            return Err(plist::malformed_error("dictionary refs overflow"));
        },
    };
    if values_end > length {
        return Err(plist::malformed_error("dictionary references out of bounds"));
    }
    let shape = DictShape { keys_start, values_start, count, ref_size };
    let mut parsed = plist::missing_fields(PlistFormat::Binary);
    let mut at: usize = 0;
    let ghost after = *budget;
    while at < count
        invariant
            0 <= at <= count,
            shape.count == count,
            shape.fits(bytes@.len()),
            offsets_fit(offsets@, bytes@.len()),
            limits == context.limits,
            budget.grown_from(*old(budget)),
            entries_from(
                bytes@,
                offsets@,
                shape,
                at as int,
                context.limits,
                context.metadata_read_mode,
                parsed@,
                *budget,
            ) == entries_from(
                bytes@,
                offsets@,
                shape,
                0,
                context.limits,
                context.metadata_read_mode,
                plist::nothing_read(PlistFormat::Binary),
                after,
            ),
            dict_at(
                bytes@,
                offsets@,
                start as int,
                ref_size,
                context.limits,
                context.metadata_read_mode,
                *old(budget),
            ) == entries_from(
                bytes@,
                offsets@,
                shape,
                0,
                context.limits,
                context.metadata_read_mode,
                plist::nothing_read(PlistFormat::Binary),
                after,
            ),
        decreases count - at,
    {
        if let Err(error) = context.check() {
            return Err(error);
        }
        if let Err(error) = read_entry(
            bytes,
            offsets,
            shape,
            at,
            context,
            &mut parsed,
            budget,
        ) {
            return Err(error);
        }
        at += 1;
    }
    Ok(parsed)
}

/// The number in the trailer at a place.
pub open spec fn trailer_word(bytes: Seq<u8>, at: int) -> usize {
    let start = bytes.len() - TRAILER + at;
    be_value(bytes.subrange(start, start + 8)) as u64 as usize
}

/// Where the objects of a list stand, by its table of offsets.
pub open spec fn table(bytes: Seq<u8>, start: int, size: int, count: nat) -> Seq<usize> {
    Seq::new(
        count,
        |i: int| be_value(bytes.subrange(start + i * size, start + i * size + size)) as u64 as usize,
    )
}

/// Whether every object stands before the table.
pub open spec fn table_sound(offsets: Seq<usize>, start: usize) -> bool {
    forall|i: int| 0 <= i < offsets.len() ==> #[trigger] offsets[i] < start
}

/// The first bytes of a binary list.
pub open spec fn magic() -> Seq<u8> {
    vstd::utf8::encode_utf8("bplist00"@)
}

/// Why a binary list is refused by its size, its first bytes or its trailer, before any of its
/// objects is looked at.
pub open spec fn header_fault(bytes: Seq<u8>, limits: AppInventoryLimits) -> Option<AppFault> {
    if bytes.len() < 40 {
        Some(plist::malformed("binary plist too short"@))
    } else if !text::has_prefix(bytes, magic()) {
        Some(
            probe::fault(AppIssueCode::UnsupportedPlistFormat, "unsupported binary plist magic"@),
        )
    } else {
        let offset_size = bytes[bytes.len() - TRAILER + 6] as int;
        let ref_size = bytes[bytes.len() - TRAILER + 7] as int;
        let count = trailer_word(bytes, 8);
        let top = trailer_word(bytes, 16);
        let start = trailer_word(bytes, 24);
        if offset_size == 0 || ref_size == 0 || offset_size > 8 || ref_size > 8 {
            Some(plist::malformed("invalid binary plist trailer"@))
        } else if count == 0 || count > limits.max_plist_objects {
            Some(plist::over_limit("binary plist object limit exceeded"@))
        } else if top >= count {
            Some(plist::malformed("invalid top object index"@))
        } else if start + count * offset_size > usize::MAX {
            Some(plist::malformed("offset table overflow"@))
        } else if start + count * offset_size > bytes.len() - TRAILER {
            Some(plist::malformed("offset table outside binary plist bounds"@))
        } else {
            None
        }
    }
}

/// What a binary list gives, and what reading it costs.
pub open spec fn binary_plist(
    bytes: Seq<u8>,
    limits: AppInventoryLimits,
    mode: AppInventoryMetadataReadMode,
    budget: ProbeBudget,
) -> (Result<ParsedView, AppFault>, ProbeBudget) {
    match header_fault(bytes, limits) {
        Some(found) => (Err(found), budget),
        None => {
            let offset_size = bytes[bytes.len() - TRAILER + 6] as int;
            let ref_size = bytes[bytes.len() - TRAILER + 7] as usize;
            let count = trailer_word(bytes, 8);
            let top = trailer_word(bytes, 16);
            let start = trailer_word(bytes, 24);
            let offsets = table(bytes, start as int, offset_size, count as nat);
            if !table_sound(offsets, start) {
                (
                    Err(plist::malformed("object offset points into offset table or trailer"@)),
                    budget,
                )
            } else {
                dict_at(
                    bytes,
                    offsets,
                    offsets[top as int] as int,
                    ref_size,
                    limits,
                    mode,
                    budget,
                )
            }
        },
    }
}

fn read_word(bytes: &[u8], at: usize) -> (value: usize)
    requires
        bytes@.len() >= 40,
        at <= 24,
    ensures
        value == trailer_word(bytes@, at as int),
{
    let count: usize = bytes.len();
    match read_be_uint(bytes, count - TRAILER + at, 8) {
        Ok(value) => value as usize,
        Err(_) => 0,
    }
}

pub open spec fn table_result(result: Result<Vec<usize>, AppError>) -> Result<
    Seq<usize>,
    AppFault,
> {
    match result {
        Ok(list) => Ok(list@),
        Err(error) => Err(error@),
    }
}

fn read_table(
    bytes: &[u8],
    start: usize,
    size: usize,
    count: usize,
    context: &ProbeContext<'_>,
) -> (result: Result<Vec<usize>, AppError>)
    requires
        1 <= size <= 8,
        start + count * size <= bytes@.len(),
    ensures
        ({
            let offsets = table(bytes@, start as int, size as int, count as nat);
            context.stopped(result) || table_result(result) == if table_sound(offsets, start) {
                Ok(offsets)
            } else {
                Err(plist::malformed("object offset points into offset table or trailer"@))
            }
        }),
{
    let ghost offsets = table(bytes@, start as int, size as int, count as nat);
    let length: usize = bytes.len();
    let mut list: Vec<usize> = Vec::new();
    let mut i: usize = 0;
    while i < count
        invariant
            0 <= i <= count,
            1 <= size <= 8,
            length == bytes@.len(),
            start + count * size <= length,
            offsets == table(bytes@, start as int, size as int, count as nat),
            list@ == offsets.take(i as int),
            forall|j: int| 0 <= j < i ==> #[trigger] offsets[j] < start,
        decreases count - i,
    {
        if let Err(error) = context.check() {
            return Err(error);
        }
        proof {
            lemma_place(i as int, count as int, size as int);
        }
        match read_be_uint(bytes, start + i * size, size) {
            Err(error) => {
                return Err(error);
            },
            Ok(value) => {
                assert(value as usize == offsets[i as int]);
                if value as usize >= start {
                    return Err(
                        plist::malformed_error("object offset points into offset table or trailer"),
                    );
                }
                list.push(value as usize);
            },
        }
        i += 1;
        assert(list@ =~= offsets.take(i as int));
    }
    assert(offsets.take(count as int) =~= offsets);
    Ok(list)
}

/// Reads a property list in the binary format, unless it is stopped. What its size, its first
/// bytes or its trailer refuse is refused whatever the clock says.
pub fn parse_binary_plist(bytes: &[u8], context: &ProbeContext<'_>, budget: &mut ProbeBudget) -> (
    result: Result<ParsedPlist, AppError>)
    ensures
        final(budget).grown_from(*old(budget)),
        context.stopped(result) || (plist::parsed_result(result), *final(budget))
            == binary_plist(bytes@, context.limits, context.metadata_read_mode, *old(budget)),
        header_fault(bytes@, context.limits) matches Some(found) ==> result matches Err(error)
            && error@ == found && *final(budget) == *old(budget),
{
    let length: usize = bytes.len();
    if length < 40 {
        return Err(plist::malformed_error("binary plist too short"));
    }
    if !text::bytes_have_prefix(bytes, "bplist00".as_bytes()) {
        return Err(
            AppError::new(AppIssueCode::UnsupportedPlistFormat, "unsupported binary plist magic"),
        );
    }
    let offset_size: usize = bytes[length - TRAILER + 6] as usize;
    let ref_size: usize = bytes[length - TRAILER + 7] as usize;
    if offset_size == 0 || ref_size == 0 || offset_size > 8 || ref_size > 8 {
        return Err(plist::malformed_error("invalid binary plist trailer"));
    }
    let count: usize = read_word(bytes, 8);
    let top: usize = read_word(bytes, 16);
    let start: usize = read_word(bytes, 24);
    if count == 0 || count > context.limits.max_plist_objects {
        return Err(plist::limit_error("binary plist object limit exceeded"));
    }
    if top >= count {
        return Err(plist::malformed_error("invalid top object index"));
    }
    let table_bytes: usize = match count.checked_mul(offset_size) {
        Some(table_bytes) => table_bytes,
        None => {
            return Err(plist::malformed_error("offset table overflow"));
        },
    };
    let table_end: usize = match start.checked_add(table_bytes) {
        Some(table_end) => table_end,
        None => {
            return Err(plist::malformed_error("offset table overflow"));
        },
    };
    if table_end > length - TRAILER {
        return Err(plist::malformed_error("offset table outside binary plist bounds"));
    }
    let offsets: Vec<usize> = match read_table(bytes, start, offset_size, count, context) {
        Ok(offsets) => offsets,
        Err(error) => {
            return Err(error);
        },
    };
    decode_top_dict(bytes, &offsets, offsets[top], ref_size, context, budget)
}

} // verus!
