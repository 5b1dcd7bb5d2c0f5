//! What holds of every property list that is read, and of the numbers and texts in it.

use crate::app_inventory::{
    AppInventoryLimits, AppInventoryMetadataReadMode, FieldView, StringState,
};
use crate::hex;
use crate::macho;
use crate::plist;
use crate::plist::{ParsedView, Slot};
use crate::plist_binary;
use crate::plist_binary::DictShape;
use crate::plist_xml;
use crate::plist_xml::{EventView, XmlState};
use crate::probe::{AppFault, ProbeBudget};
use crate::unicode;
use crate::version;
use crate::xml_text;
use vstd::prelude::*;
use vstd::string::*;
use vstd::utf8;

verus! {

/// Whether an XML list is being read right between two members of its dictionary.
pub open spec fn between_members(state: XmlState) -> bool {
    &&& state.root_seen && !state.root_closed
    &&& state.in_root_dict && !state.root_dict_closed
    &&& state.depth == 2
    &&& state.value_depth == 0
    &&& !state.pending_string
    &&& state.pending_key is None
    &&& !state.key_next_is_value
    &&& state.key_buffer.len() == 0
    &&& state.string_buffer.len() == 0
    &&& !state.in_key && !state.in_string
}

/// The events of a key and the string that belongs to it.
pub open spec fn string_member(key: Seq<u8>, value: Seq<u8>) -> Seq<EventView> {
    seq![
        EventView::Start(utf8::encode_utf8("key"@)),
        EventView::Text(key),
        EventView::End(utf8::encode_utf8("key"@)),
        EventView::Start(utf8::encode_utf8("string"@)),
        EventView::Text(value),
        EventView::End(utf8::encode_utf8("string"@)),
    ]
}

proof fn lemma_tags()
    ensures
        utf8::encode_utf8("key"@) != utf8::encode_utf8("string"@),
        utf8::encode_utf8("plist"@) != utf8::encode_utf8("key"@),
        utf8::encode_utf8("dict"@) != utf8::encode_utf8("key"@),
        utf8::encode_utf8("dict"@) != utf8::encode_utf8("string"@),
        utf8::encode_utf8("dict"@) != utf8::encode_utf8("plist"@),
        utf8::encode_utf8("plist"@) != utf8::encode_utf8("string"@),
{
    reveal_strlit("key");
    reveal_strlit("string");
    reveal_strlit("plist");
    reveal_strlit("dict");
    utf8::is_ascii_chars_encode_utf8("key"@);
    utf8::is_ascii_chars_encode_utf8("string"@);
    utf8::is_ascii_chars_encode_utf8("plist"@);
    utf8::is_ascii_chars_encode_utf8("dict"@);
    assert("key"@.len() == 3 && "string"@.len() == 6 && "plist"@.len() == 5 && "dict"@.len() == 4);
}

proof fn lemma_run_step(
    events: Seq<EventView>,
    state: XmlState,
    next: XmlState,
    limits: AppInventoryLimits,
    mode: AppInventoryMetadataReadMode,
    budget: ProbeBudget,
    after: ProbeBudget,
)
    requires
        events.len() > 0,
        !(events[0] is Eof),
        state.next(events[0], limits, mode, budget) == (Ok::<XmlState, AppFault>(next), after),
    ensures
        plist_xml::run(events, state, limits, mode, budget) == plist_xml::run(
            events.drop_first(),
            next,
            limits,
            mode,
            after,
        ),
{
}

proof fn lemma_key_read(
    state: XmlState,
    key_raw: Seq<u8>,
    key: Seq<char>,
    rest: Seq<EventView>,
    limits: AppInventoryLimits,
    mode: AppInventoryMetadataReadMode,
    budget: ProbeBudget,
) -> (next: XmlState)
    requires
        between_members(state),
        limits.max_xml_depth > 2,
        state.nodes < limits.max_xml_nodes,
        xml_text::decoded_text(key_raw) == Ok::<Seq<char>, AppFault>(key),
        unicode::byte_len(key) <= limits.max_string_bytes,
    ensures
        next == (XmlState {
            nodes: (state.nodes + 1) as usize,
            pending_key: Some(key),
            key_next_is_value: true,
            key_buffer: Seq::empty(),
            ..state
        }),
        plist_xml::run(
            seq![
                EventView::Start(utf8::encode_utf8("key"@)),
                EventView::Text(key_raw),
                EventView::End(utf8::encode_utf8("key"@)),
            ] + rest,
            state,
            limits,
            mode,
            budget,
        ) == plist_xml::run(rest, next, limits, mode, budget),
{
    lemma_tags();
    let k = utf8::encode_utf8("key"@);
    let all = seq![EventView::Start(k), EventView::Text(key_raw), EventView::End(k)] + rest;
    let one = XmlState {
        depth: 3,
        nodes: (state.nodes + 1) as usize,
        in_key: true,
        key_buffer: Seq::empty(),
        key_next_is_value: false,
        ..state
    };
    assert(state.key_buffer =~= Seq::empty());
    assert(all[0] == EventView::Start(k));
    assert(state.next(all[0], limits, mode, budget) == (Ok::<XmlState, AppFault>(one), budget));
    lemma_run_step(all, state, one, limits, mode, budget, budget);
    let all1 = all.drop_first();
    assert(all1[0] == EventView::Text(key_raw));
    assert(utf8::encode_utf8(Seq::<char>::empty()).len() == 0);
    assert(Seq::<char>::empty() + key =~= key);
    let two = XmlState { key_buffer: key, ..one };
    assert(one.next(all1[0], limits, mode, budget) == (Ok::<XmlState, AppFault>(two), budget));
    lemma_run_step(all1, one, two, limits, mode, budget, budget);
    let all2 = all1.drop_first();
    assert(all2[0] == EventView::End(k));
    let three = XmlState {
        depth: 2,
        in_key: false,
        pending_key: Some(key),
        key_buffer: Seq::empty(),
        key_next_is_value: true,
        ..two
    };
    assert(two.next(all2[0], limits, mode, budget) == (Ok::<XmlState, AppFault>(three), budget));
    lemma_run_step(all2, two, three, limits, mode, budget, budget);
    assert(all2.drop_first() =~= rest);
    three
}

/// A key and its string, wherever they stand in an XML list, are stored under the key, as long
/// as they are within the limits: a known key that was not seen before holds exactly the string
/// behind it, and any other key changes nothing.
pub proof fn strings_are_stored_under_the_key_before_them(
    state: XmlState,
    key_raw: Seq<u8>,
    key: Seq<char>,
    value_raw: Seq<u8>,
    value: Seq<char>,
    rest: Seq<EventView>,
    limits: AppInventoryLimits,
    mode: AppInventoryMetadataReadMode,
    budget: ProbeBudget,
)
    requires
        between_members(state),
        limits.max_xml_depth > 2,
        state.nodes + 1 < limits.max_xml_nodes,
        xml_text::decoded_text(key_raw) == Ok::<Seq<char>, AppFault>(key),
        unicode::byte_len(key) <= limits.max_string_bytes,
        xml_text::decoded_text(value_raw) == Ok::<Seq<char>, AppFault>(value),
        unicode::byte_len(value) <= limits.max_string_bytes,
        budget.retained_bytes + unicode::byte_len(value)
            <= limits.max_total_retained_metadata_string_bytes,
        plist::slot_of(key, mode) matches Some(slot) ==> state.parsed.field(slot).state
            == StringState::Missing,
    ensures
        ({
            let known = plist::slot_of(key, mode);
            let next = XmlState {
                nodes: (state.nodes + 2) as usize,
                parsed: match known {
                    Some(slot) => state.parsed.with(
                        slot,
                        FieldView { state: StringState::Present, value: Some(value) },
                    ),
                    None => state.parsed,
                },
                ..state
            };
            let after = if known is Some {
                ProbeBudget {
                    retained_bytes: (budget.retained_bytes + unicode::byte_len(value)) as usize,
                    ..budget
                }
            } else {
                budget
            };
            &&& between_members(next)
            &&& plist_xml::run(string_member(key_raw, value_raw) + rest, state, limits, mode, budget)
                == plist_xml::run(rest, next, limits, mode, after)
        }),
{
    lemma_tags();
    let k = utf8::encode_utf8("key"@);
    let s = utf8::encode_utf8("string"@);
    let tail = seq![EventView::Start(s), EventView::Text(value_raw), EventView::End(s)] + rest;
    let one = lemma_key_read(state, key_raw, key, tail, limits, mode, budget);
    assert(string_member(key_raw, value_raw) + rest =~= seq![
        EventView::Start(k),
        EventView::Text(key_raw),
        EventView::End(k),
    ] + tail);
    assert(state.key_buffer =~= Seq::empty());
    assert(state.string_buffer =~= Seq::empty());
    assert(tail[0] == EventView::Start(s));
    let two = XmlState {
        depth: 3,
        nodes: (state.nodes + 2) as usize,
        in_string: true,
        string_buffer: Seq::empty(),
        pending_string: true,
        value_depth: 1,
        ..one
    };
    assert(one.next(tail[0], limits, mode, budget) == (Ok::<XmlState, AppFault>(two), budget));
    lemma_run_step(tail, one, two, limits, mode, budget, budget);
    let tail1 = tail.drop_first();
    assert(tail1[0] == EventView::Text(value_raw));
    assert(utf8::encode_utf8(Seq::<char>::empty()).len() == 0);
    assert(Seq::<char>::empty() + value =~= value);
    let three = XmlState { string_buffer: value, ..two };
    assert(two.next(tail1[0], limits, mode, budget) == (Ok::<XmlState, AppFault>(three), budget));
    lemma_run_step(tail1, two, three, limits, mode, budget, budget);
    let tail2 = tail1.drop_first();
    assert(tail2[0] == EventView::End(s));
    let known = plist::slot_of(key, mode);
    let next = XmlState {
        nodes: (state.nodes + 2) as usize,
        parsed: match known {
            Some(slot) => state.parsed.with(
                slot,
                FieldView { state: StringState::Present, value: Some(value) },
            ),
            None => state.parsed,
        },
        ..state
    };
    let after = if known is Some {
        ProbeBudget {
            retained_bytes: (budget.retained_bytes + unicode::byte_len(value)) as usize,
            ..budget
        }
    } else {
        budget
    };
    assert(three.next(tail2[0], limits, mode, budget) == (Ok::<XmlState, AppFault>(next), after));
    lemma_run_step(tail2, three, next, limits, mode, budget, after);
    assert(tail2.drop_first() =~= rest);
}

/// A known key that comes twice makes an XML list malformed.
pub proof fn keys_come_once(
    state: XmlState,
    key_raw: Seq<u8>,
    key: Seq<char>,
    value_raw: Seq<u8>,
    value: Seq<char>,
    rest: Seq<EventView>,
    limits: AppInventoryLimits,
    mode: AppInventoryMetadataReadMode,
    budget: ProbeBudget,
    slot: Slot,
)
    requires
        between_members(state),
        limits.max_xml_depth > 2,
        state.nodes + 1 < limits.max_xml_nodes,
        xml_text::decoded_text(key_raw) == Ok::<Seq<char>, AppFault>(key),
        unicode::byte_len(key) <= limits.max_string_bytes,
        xml_text::decoded_text(value_raw) == Ok::<Seq<char>, AppFault>(value),
        unicode::byte_len(value) <= limits.max_string_bytes,
        plist::slot_of(key, mode) == Some(slot),
        state.parsed.field(slot).state != StringState::Missing,
    ensures
        plist_xml::run(
            string_member(key_raw, value_raw) + rest,
            state,
            limits,
            mode,
            budget,
        ).0 is Err,
{
    lemma_tags();
    let k = utf8::encode_utf8("key"@);
    let s = utf8::encode_utf8("string"@);
    let tail = seq![EventView::Start(s), EventView::Text(value_raw), EventView::End(s)] + rest;
    let one = lemma_key_read(state, key_raw, key, tail, limits, mode, budget);
    assert(string_member(key_raw, value_raw) + rest =~= seq![
        EventView::Start(k),
        EventView::Text(key_raw),
        EventView::End(k),
    ] + tail);
    assert(state.string_buffer =~= Seq::empty());
    assert(tail[0] == EventView::Start(s));
    let two = XmlState {
        depth: 3,
        nodes: (state.nodes + 2) as usize,
        in_string: true,
        string_buffer: Seq::empty(),
        pending_string: true,
        value_depth: 1,
        ..one
    };
    assert(one.next(tail[0], limits, mode, budget) == (Ok::<XmlState, AppFault>(two), budget));
    lemma_run_step(tail, one, two, limits, mode, budget, budget);
    let tail1 = tail.drop_first();
    assert(tail1[0] == EventView::Text(value_raw));
    assert(utf8::encode_utf8(Seq::<char>::empty()).len() == 0);
    assert(Seq::<char>::empty() + value =~= value);
    let three = XmlState { string_buffer: value, ..two };
    assert(two.next(tail1[0], limits, mode, budget) == (Ok::<XmlState, AppFault>(three), budget));
    lemma_run_step(tail1, two, three, limits, mode, budget, budget);
    let tail2 = tail1.drop_first();
    assert(tail2[0] == EventView::End(s));
    assert(three.next(tail2[0], limits, mode, budget).0 is Err);
    assert(plist_xml::run(tail2, three, limits, mode, budget).0 is Err);
}

/// A key whose value is an empty element, whatever its name, holds no string.
pub proof fn other_values_are_no_strings(
    state: XmlState,
    key_raw: Seq<u8>,
    key: Seq<char>,
    name: Seq<u8>,
    rest: Seq<EventView>,
    limits: AppInventoryLimits,
    mode: AppInventoryMetadataReadMode,
    budget: ProbeBudget,
    slot: Slot,
)
    requires
        between_members(state),
        limits.max_xml_depth > 2,
        state.nodes + 1 < limits.max_xml_nodes,
        xml_text::decoded_text(key_raw) == Ok::<Seq<char>, AppFault>(key),
        unicode::byte_len(key) <= limits.max_string_bytes,
        plist::slot_of(key, mode) == Some(slot),
        state.parsed.field(slot).state == StringState::Missing,
    ensures
        ({
            let next = XmlState {
                nodes: (state.nodes + 2) as usize,
                parsed: state.parsed.with(
                    slot,
                    FieldView { state: StringState::NotString, value: None },
                ),
                ..state
            };
            plist_xml::run(
                seq![
                    EventView::Start(utf8::encode_utf8("key"@)),
                    EventView::Text(key_raw),
                    EventView::End(utf8::encode_utf8("key"@)),
                    EventView::Empty(name),
                ] + rest,
                state,
                limits,
                mode,
                budget,
            ) == plist_xml::run(rest, next, limits, mode, budget)
        }),
{
    let k = utf8::encode_utf8("key"@);
    let tail = seq![EventView::Empty(name)] + rest;
    let one = lemma_key_read(state, key_raw, key, tail, limits, mode, budget);
    assert(seq![
        EventView::Start(k),
        EventView::Text(key_raw),
        EventView::End(k),
        EventView::Empty(name),
    ] + rest =~= seq![EventView::Start(k), EventView::Text(key_raw), EventView::End(k)] + tail);
    assert(state.key_buffer =~= Seq::empty());
    assert(tail[0] == EventView::Empty(name));
    let next = XmlState {
        nodes: (state.nodes + 2) as usize,
        parsed: state.parsed.with(slot, FieldView { state: StringState::NotString, value: None }),
        ..state
    };
    assert(one.next(tail[0], limits, mode, budget) == (Ok::<XmlState, AppFault>(next), budget));
    lemma_run_step(tail, one, next, limits, mode, budget, budget);
    assert(tail.drop_first() =~= rest);
}

/// An XML list is one `plist` that holds one `dict`: behind the two opening tags the members are
/// read with nothing held yet, and the two closing tags end the list with what was read.
pub proof fn lists_are_one_dictionary(
    rest: Seq<EventView>,
    state: XmlState,
    limits: AppInventoryLimits,
    mode: AppInventoryMetadataReadMode,
    budget: ProbeBudget,
)
    requires
        limits.max_xml_depth > 2,
        limits.max_xml_nodes > 2,
        between_members(state),
    ensures
        ({
            let first = XmlState {
                depth: 2,
                nodes: 2,
                root_seen: true,
                in_root_dict: true,
                ..plist_xml::at_start()
            };
            &&& between_members(first)
            &&& forall|slot: Slot| #[trigger] first.parsed.field(slot).state == StringState::Missing
            &&& plist_xml::xml_plist(
                seq![
                    EventView::Start(utf8::encode_utf8("plist"@)),
                    EventView::Start(utf8::encode_utf8("dict"@)),
                ] + rest,
                limits,
                mode,
                budget,
            ) == plist_xml::run(rest, first, limits, mode, budget)
            &&& plist_xml::run(
                seq![
                    EventView::End(utf8::encode_utf8("dict"@)),
                    EventView::End(utf8::encode_utf8("plist"@)),
                    EventView::Eof,
                ],
                state,
                limits,
                mode,
                budget,
            ) == (Ok::<ParsedView, AppFault>(state.parsed), budget)
        }),
{
    lemma_tags();
    let p = utf8::encode_utf8("plist"@);
    let d = utf8::encode_utf8("dict"@);
    let start = plist_xml::at_start();
    let all = seq![EventView::Start(p), EventView::Start(d)] + rest;
    assert(all[0] == EventView::Start(p));
    let one = XmlState { depth: 1, nodes: 1, root_seen: true, ..start };
    assert(start.next(all[0], limits, mode, budget) == (Ok::<XmlState, AppFault>(one), budget));
    lemma_run_step(all, start, one, limits, mode, budget, budget);
    let all1 = all.drop_first();
    assert(all1[0] == EventView::Start(d));
    let two = XmlState { depth: 2, nodes: 2, in_root_dict: true, ..one };
    assert(one.next(all1[0], limits, mode, budget) == (Ok::<XmlState, AppFault>(two), budget));
    lemma_run_step(all1, one, two, limits, mode, budget, budget);
    assert(all1.drop_first() =~= rest);
    let close = seq![EventView::End(d), EventView::End(p), EventView::Eof];
    let a = XmlState { depth: 1, root_dict_closed: true, ..state };
    assert(state.next(close[0], limits, mode, budget) == (Ok::<XmlState, AppFault>(a), budget));
    lemma_run_step(close, state, a, limits, mode, budget, budget);
    let close1 = close.drop_first();
    assert(close1[0] == EventView::End(p));
    let b = XmlState { depth: 0, root_closed: true, ..a };
    assert(a.next(close1[0], limits, mode, budget) == (Ok::<XmlState, AppFault>(b), budget));
    lemma_run_step(close1, a, b, limits, mode, budget, budget);
    let close2 = close1.drop_first();
    assert(close2[0] == EventView::Eof);
    assert(b.finished());
}

/// A list that ends before its dictionary and its root are closed, or with a key without a
/// value, is malformed.
pub proof fn unfinished_lists_are_malformed(
    state: XmlState,
    limits: AppInventoryLimits,
    mode: AppInventoryMetadataReadMode,
    budget: ProbeBudget,
)
    ensures
        plist_xml::run(seq![EventView::Eof], state, limits, mode, budget).0 is Ok <==> {
            &&& state.root_seen && state.root_closed
            &&& state.in_root_dict && state.root_dict_closed
            &&& state.depth == 0
            &&& state.value_depth == 0
            &&& !state.key_next_is_value
        },
        plist_xml::run(seq![EventView::Malformed], state, limits, mode, budget).0 is Err,
{
    let events = seq![EventView::Malformed];
    assert(state.next(events[0], limits, mode, budget).0 is Err);
}

proof fn lemma_kept(parsed: ParsedView, other: Slot, field: FieldView, slot: Slot)
    requires
        parsed.field(slot).state != StringState::Missing,
        !parsed.holds(other),
    ensures
        parsed.with(other, field).field(slot) == parsed.field(slot),
{
}

proof fn lemma_marked_keeps(
    parsed: ParsedView,
    key: Option<Seq<char>>,
    mode: AppInventoryMetadataReadMode,
    slot: Slot,
)
    requires
        parsed.field(slot).state != StringState::Missing,
    ensures
        plist_xml::marked(parsed, key, mode) matches Ok(next) ==> next.field(slot) == parsed.field(
            slot,
        ),
{
    if let Some(key) = key {
        if let Some(other) = plist::slot_of(key, mode) {
            if !parsed.holds(other) {
                lemma_kept(parsed, other, plist_xml::not_a_string(), slot);
            }
        }
    }
}

proof fn lemma_start_keeps(
    state: XmlState,
    name: Seq<u8>,
    limits: AppInventoryLimits,
    mode: AppInventoryMetadataReadMode,
    slot: Slot,
)
    requires
        state.parsed.field(slot).state != StringState::Missing,
    ensures
        state.on_start(name, limits, mode) matches Ok(next) ==> next.parsed.field(slot)
            == state.parsed.field(slot),
        state.on_empty(name, limits, mode) matches Ok(next) ==> next.parsed.field(slot)
            == state.parsed.field(slot),
{
    lemma_marked_keeps(state.parsed, state.pending_key, mode, slot);
}

proof fn lemma_end_keeps(
    state: XmlState,
    name: Seq<u8>,
    limits: AppInventoryLimits,
    mode: AppInventoryMetadataReadMode,
    budget: ProbeBudget,
    slot: Slot,
)
    requires
        state.parsed.field(slot).state != StringState::Missing,
    ensures
        state.on_end(name, limits, mode, budget).0 matches Ok(next) ==> next.parsed.field(slot)
            == state.parsed.field(slot),
{
    if let Some(key) = state.pending_key {
        if let Some(other) = plist::slot_of(key, mode) {
            if !state.parsed.holds(other) {
                lemma_kept(
                    state.parsed,
                    other,
                    FieldView { state: StringState::TooLong, value: None },
                    slot,
                );
                lemma_kept(
                    state.parsed,
                    other,
                    FieldView { state: StringState::Present, value: Some(state.string_buffer) },
                    slot,
                );
            }
        }
    }
}

proof fn lemma_next_keeps(
    state: XmlState,
    event: EventView,
    limits: AppInventoryLimits,
    mode: AppInventoryMetadataReadMode,
    budget: ProbeBudget,
    slot: Slot,
)
    requires
        state.parsed.field(slot).state != StringState::Missing,
    ensures
        state.next(event, limits, mode, budget).0 matches Ok(next) ==> next.parsed.field(slot)
            == state.parsed.field(slot),
{
    match event {
        EventView::Start(name) => lemma_start_keeps(state, name, limits, mode, slot),
        EventView::Empty(name) => lemma_start_keeps(state, name, limits, mode, slot),
        EventView::End(name) => lemma_end_keeps(state, name, limits, mode, budget, slot),
        _ => {},
    }
}

/// What an XML list holds of a string once it was read stays as it is to the end.
pub proof fn strings_stay_as_they_were_read(
    events: Seq<EventView>,
    state: XmlState,
    limits: AppInventoryLimits,
    mode: AppInventoryMetadataReadMode,
    budget: ProbeBudget,
    slot: Slot,
)
    requires
        state.parsed.field(slot).state != StringState::Missing,
    ensures
        plist_xml::run(events, state, limits, mode, budget).0 matches Ok(parsed) ==> parsed.field(
            slot,
        ) == state.parsed.field(slot),
    decreases events.len(),
{
    if events.len() > 0 && !(events[0] is Eof) {
        lemma_next_keeps(state, events[0], limits, mode, budget, slot);
        if let (Ok(next), after) = state.next(events[0], limits, mode, budget) {
            strings_stay_as_they_were_read(events.drop_first(), next, limits, mode, after, slot);
        }
    }
}

/// Text without an ampersand is what it is; an entity in it stands for its character, and the
/// text behind it is read on its own.
pub proof fn entities_stand_for_their_characters(
    before: Seq<char>,
    entity: Seq<char>,
    rest: Seq<char>,
)
    requires
        forall|i: int| 0 <= i < before.len() ==> #[trigger] before[i] != '&',
        forall|i: int| 0 <= i < entity.len() ==> #[trigger] entity[i] != ';',
    ensures
        xml_text::unescaped(before) == Ok::<Seq<char>, AppFault>(before),
        ({
            let text = before + seq!['&'] + entity + seq![';'] + rest;
            let read = xml_text::unescaped(text);
            &&& read is Ok <==> xml_text::entity_char(entity) is Ok && xml_text::unescaped(
                rest,
            ) is Ok
            &&& read matches Ok(whole) ==> whole == before + seq![
                xml_text::entity_char(entity)->Ok_0,
            ] + xml_text::unescaped(rest)->Ok_0
        }),
{
    lemma_no_place(before, '&');
    let text = before + seq!['&'] + entity + seq![';'] + rest;
    lemma_place(text, '&', before.len() as int);
    let suffix = text.skip(before.len() as int + 1);
    assert(suffix =~= entity + seq![';'] + rest);
    lemma_place(suffix, ';', entity.len() as int);
    assert(suffix.take(entity.len() as int) =~= entity);
    assert(suffix.skip(entity.len() as int + 1) =~= rest);
    assert(text.take(before.len() as int) =~= before);
}

proof fn lemma_place(text: Seq<char>, c: char, at: int)
    requires
        0 <= at < text.len(),
        text[at] == c,
        forall|i: int| 0 <= i < at ==> #[trigger] text[i] != c,
    ensures
        xml_text::place_of(text, c) == at,
    decreases at,
{
    if at > 0 {
        let rest = text.drop_first();
        assert(text[0] != c);
        assert(rest[at - 1] == text[at]);
        assert forall|i: int| 0 <= i < at - 1 implies #[trigger] rest[i] != c by {
            assert(rest[i] == text[i + 1]);
        }
        lemma_place(rest, c, at - 1);
    }
}

proof fn lemma_no_place(text: Seq<char>, c: char)
    requires
        forall|i: int| 0 <= i < text.len() ==> #[trigger] text[i] != c,
    ensures
        xml_text::place_of(text, c) == text.len(),
    decreases text.len(),
{
    if text.len() > 0 {
        let rest = text.drop_first();
        assert(text[0] != c);
        assert forall|i: int| 0 <= i < rest.len() implies #[trigger] rest[i] != c by {
            assert(rest[i] == text[i + 1]);
        }
        lemma_no_place(rest, c);
    }
}

/// The five named entities stand for the five characters that XML escapes.
pub proof fn named_entities_are_the_five_of_xml()
    ensures
        xml_text::entity_char("lt"@) == Ok::<char, AppFault>('<'),
        xml_text::entity_char("gt"@) == Ok::<char, AppFault>('>'),
        xml_text::entity_char("amp"@) == Ok::<char, AppFault>('&'),
        xml_text::entity_char("apos"@) == Ok::<char, AppFault>('\''),
        xml_text::entity_char("quot"@) == Ok::<char, AppFault>('"'),
        forall|name: Seq<char>|
            name.len() > 0 && name[0] != '#' && name != "lt"@ && name != "gt"@ && name != "amp"@
                && name != "apos"@ && name != "quot"@ ==> (#[trigger] xml_text::entity_char(
                name,
            )) is Err,
{
    reveal_strlit("lt");
    reveal_strlit("gt");
    reveal_strlit("amp");
    reveal_strlit("apos");
    reveal_strlit("quot");
    assert("lt"@.len() == 2 && "gt"@.len() == 2 && "amp"@.len() == 3 && "apos"@.len() == 4
        && "quot"@.len() == 4);
    assert("lt"@[0] == 'l' && "gt"@[0] == 'g' && "apos"@[0] == 'a' && "quot"@[0] == 'q');
}

/// A number written in decimal digits reads back as itself, and the entity with it stands for
/// the character of that number, where XML has one.
pub proof fn written_numbers_read_back(value: nat)
    ensures
        xml_text::digits_value(version::decimal(value), 10) == Some(value),
        value <= u32::MAX ==> xml_text::number(version::decimal(value), 10) == Some(value as u32),
        value <= u32::MAX && xml_text::is_xml_scalar(value as u32) ==> xml_text::entity_char(
            seq!['#'] + version::decimal(value),
        ) == Ok::<char, AppFault>(value as u32 as char),
{
    lemma_decimal(value);
    let digits = version::decimal(value);
    let entity = seq!['#'] + digits;
    assert(entity.skip(1) =~= digits);
    reveal_strlit("lt");
    reveal_strlit("gt");
    reveal_strlit("amp");
    reveal_strlit("apos");
    reveal_strlit("quot");
    assert("lt"@[0] == 'l' && "gt"@[0] == 'g' && "amp"@[0] == 'a' && "apos"@[0] == 'a'
        && "quot"@[0] == 'q');
    assert(entity[0] == '#');
    assert(entity[1] == digits[0]);
}

proof fn lemma_decimal(value: nat)
    ensures
        xml_text::digits_value(version::decimal(value), 10) == Some(value),
        version::decimal(value).len() > 0,
        '0' <= version::decimal(value)[0] <= '9',
    decreases value,
{
    let digits = version::decimal(value);
    let low = value % 10;
    lemma_digit(low);
    if value < 10 {
        assert(digits.drop_last() =~= Seq::empty());
        assert(xml_text::digits_value(Seq::<char>::empty(), 10) == Some(0nat));
        lemma_digit(value);
    } else {
        lemma_decimal(value / 10);
        assert(digits.drop_last() =~= version::decimal(value / 10));
        assert(digits[0] == version::decimal(value / 10)[0]);
    }
}

proof fn lemma_digit(value: nat)
    requires
        value < 10,
    ensures
        xml_text::digit_value(version::digit_char(value), 10) == Some(value),
        '0' <= version::digit_char(value) <= '9',
{
}

/// A packed version is written as its three numbers.
pub proof fn packed_versions_are_three_numbers(major: u32, minor: u32, patch: u32)
    requires
        major < 65536,
        minor < 256,
        patch < 256,
    ensures
        version::packed_version((major * 65536 + minor * 256 + patch) as u32) == version::decimal(
            major as nat,
        ) + "."@ + version::decimal(minor as nat) + "."@ + version::decimal(patch as nat),
{
    let raw: u32 = (major * 65536 + minor * 256 + patch) as u32;
    assert(raw / 65536 == major);
    assert((raw / 256) % 256 == minor);
    assert(raw % 256 == patch);
}

/// Words are read with the lowest byte first, or with the highest first where the format says
/// so.
pub proof fn words_have_their_byte_order(bytes: Seq<u8>, at: int, word: u32)
    requires
        0 <= at,
        at + 4 <= bytes.len(),
    ensures
        bytes[at] == word % 256 && bytes[at + 1] == (word / 256) % 256 && bytes[at + 2] == (word
            / 65536) % 256 && bytes[at + 3] == word / 16777216 ==> macho::le_u32(bytes, at) == word,
        bytes[at + 3] == word % 256 && bytes[at + 2] == (word / 256) % 256 && bytes[at + 1] == (word
            / 65536) % 256 && bytes[at] == word / 16777216 ==> macho::be_u32(bytes, at) == word,
{
}

/// The numbers of a binary list are read with the highest byte first: a byte more behind a
/// number makes it 256 times as large, plus the byte.
pub proof fn binary_numbers_have_the_highest_byte_first(bytes: Seq<u8>, more: u8)
    ensures
        plist_binary::be_value(Seq::<u8>::empty()) == 0,
        plist_binary::be_value(bytes.push(more)) == plist_binary::be_value(bytes) * 256 + more,
{
    assert(bytes.push(more).drop_last() =~= bytes);
}

/// A number is read exactly where all its bytes are there.
pub proof fn numbers_are_read_within_bounds(bytes: Seq<u8>, offset: int, size: int)
    requires
        0 <= offset,
        1 <= size <= 8,
    ensures
        plist_binary::read_uint(bytes, offset, size) is Ok <==> offset + size <= bytes.len()
            && offset + size <= usize::MAX,
        plist_binary::read_uint(bytes, offset, size) matches Ok(value) ==> value
            == plist_binary::be_value(bytes.subrange(offset, offset + size)) as u64,
{
}

/// A short string of a binary list is the text of the bytes behind its marker: one byte a
/// character under one marker, two under the other; anything else is no string.
pub proof fn binary_strings_stand_behind_their_marker(
    bytes: Seq<u8>,
    start: int,
    low: u8,
    limits: AppInventoryLimits,
    budget: ProbeBudget,
    text: Seq<char>,
)
    requires
        0 <= start < bytes.len() <= usize::MAX,
        low < 15,
        bytes[start] & 0x0f == low,
        low <= limits.max_string_bytes,
        budget.visited_refs < limits.max_plist_refs_visited,
        budget.retained_bytes + unicode::byte_len(text)
            <= limits.max_total_retained_metadata_string_bytes,
    ensures
        bytes[start] >> 4 == 5 && start + 1 + low <= bytes.len() && unicode::utf8_text(
            bytes.subrange(start + 1, start + 1 + low),
        ) == Some(text) ==> plist_binary::string_at(bytes, start, limits, budget).0 == Ok::<
            Option<Seq<char>>,
            AppFault,
        >(Some(text)),
        bytes[start] >> 4 == 6 && start + 1 + 2 * low <= bytes.len() && unicode::utf16_text(
            Seq::new(
                low as nat,
                |i: int|
                    (bytes[start + 1 + 2 * i] as int * 256 + bytes[start + 1 + 2 * i + 1] as int) as u16,
            ),
        ) == Some(text) ==> plist_binary::string_at(bytes, start, limits, budget).0 == Ok::<
            Option<Seq<char>>,
            AppFault,
        >(Some(text)),
        bytes[start] >> 4 != 5 && bytes[start] >> 4 != 6 && bytes[start] >> 4 != 7 ==>
            plist_binary::string_at(bytes, start, limits, budget).0 == Ok::<
            Option<Seq<char>>,
            AppFault,
        >(None),
        bytes[start] >> 4 == 7 ==> plist_binary::string_at(bytes, start, limits, budget).0 is Err,
{
    assert(plist_binary::units(bytes, start + 1, low as nat) =~= Seq::new(
        low as nat,
        |i: int|
            (bytes[start + 1 + 2 * i] as int * 256 + bytes[start + 1 + 2 * i + 1] as int) as u16,
    ));
}

/// What a binary list holds of a string once it was read stays as it is to the end.
pub proof fn binary_strings_stay_as_they_were_read(
    bytes: Seq<u8>,
    offsets: Seq<usize>,
    shape: DictShape,
    at: int,
    limits: AppInventoryLimits,
    mode: AppInventoryMetadataReadMode,
    parsed: ParsedView,
    budget: ProbeBudget,
    slot: Slot,
)
    requires
        parsed.field(slot).state != StringState::Missing,
    ensures
        plist_binary::entries_from(
            bytes,
            offsets,
            shape,
            at,
            limits,
            mode,
            parsed,
            budget,
        ).0 matches Ok(read) ==> read.field(slot) == parsed.field(slot),
    decreases shape.count - at,
{
    if at < shape.count {
        if let (Ok(next), after) = plist_binary::entry_step(
            bytes,
            offsets,
            shape,
            at,
            limits,
            mode,
            parsed,
            budget,
        ) {
            assert(next.field(slot) == parsed.field(slot));
            binary_strings_stay_as_they_were_read(
                bytes,
                offsets,
                shape,
                at + 1,
                limits,
                mode,
                next,
                after,
                slot,
            );
        }
    }
}

/// An entry of a binary dictionary stores, under the slot of its key's text, the text of the
/// value that stands at the same place among the values, and changes no other.
pub proof fn binary_entries_pair_keys_with_values(
    bytes: Seq<u8>,
    offsets: Seq<usize>,
    shape: DictShape,
    at: int,
    limits: AppInventoryLimits,
    mode: AppInventoryMetadataReadMode,
    parsed: ParsedView,
    budget: ProbeBudget,
    name: Seq<char>,
    slot: Slot,
)
    requires
        0 <= at < shape.count,
        at <= limits.max_plist_refs_visited,
        plist::slot_of(name, mode) == Some(slot),
        parsed.field(slot).state == StringState::Missing,
        ({
            let key = plist_binary::read_uint(
                bytes,
                shape.keys_start + at * shape.ref_size,
                shape.ref_size as int,
            );
            let value = plist_binary::read_uint(
                bytes,
                shape.values_start + at * shape.ref_size,
                shape.ref_size as int,
            );
            &&& key is Ok && value is Ok
            &&& (key->Ok_0 as usize) < offsets.len() && (value->Ok_0 as usize) < offsets.len()
            &&& plist_binary::string_at(
                bytes,
                offsets[key->Ok_0 as usize as int] as int,
                limits,
                budget,
            ).0 == Ok::<Option<Seq<char>>, AppFault>(Some(name))
        }),
    ensures
        ({
            let key = plist_binary::read_uint(
                bytes,
                shape.keys_start + at * shape.ref_size,
                shape.ref_size as int,
            )->Ok_0;
            let value = plist_binary::read_uint(
                bytes,
                shape.values_start + at * shape.ref_size,
                shape.ref_size as int,
            )->Ok_0;
            let spent = plist_binary::string_at(
                bytes,
                offsets[key as usize as int] as int,
                limits,
                budget,
            ).1;
            let content = plist_binary::string_at(
                bytes,
                offsets[value as usize as int] as int,
                limits,
                spent,
            ).0;
            let read = plist_binary::entry_step(
                bytes,
                offsets,
                shape,
                at,
                limits,
                mode,
                parsed,
                budget,
            ).0;
            &&& read is Ok <==> content is Ok
            &&& read matches Ok(next) ==> {
                &&& forall|other: Slot|
                    other != slot ==> #[trigger] next.field(other) == parsed.field(other)
                &&& content->Ok_0 is None ==> next.field(slot) == (FieldView {
                    state: StringState::NotString,
                    value: None,
                })
                &&& content->Ok_0 matches Some(text) ==> if unicode::byte_len(text)
                    <= limits.max_string_bytes {
                    next.field(slot) == (FieldView {
                        state: StringState::Present,
                        value: Some(text),
                    })
                } else {
                    next.field(slot) == (FieldView { state: StringState::TooLong, value: None })
                }
            }
        }),
{
}

/// A binary list is looked into exactly if it is long enough, starts with its mark, has sizes
/// between one and eight in its trailer, not too many objects, a top object that is one of them,
/// and room for the offsets of all of them before the trailer.
pub proof fn binary_lists_have_a_sound_trailer(bytes: Seq<u8>, limits: AppInventoryLimits)
    ensures
        plist_binary::header_fault(bytes, limits) is None ==> {
            let n = bytes.len() as int;
            let offset_size = bytes[n - 26] as int;
            let ref_size = bytes[n - 25] as int;
            let count = plist_binary::be_value(bytes.subrange(n - 24, n - 16)) as u64 as usize;
            let top = plist_binary::be_value(bytes.subrange(n - 16, n - 8)) as u64 as usize;
            let start = plist_binary::be_value(bytes.subrange(n - 8, n)) as u64 as usize;
            &&& n >= 40
            &&& 1 <= offset_size <= 8
            &&& 1 <= ref_size <= 8
            &&& 1 <= count <= limits.max_plist_objects
            &&& top < count
            &&& start + count * offset_size <= n - 32
        },
        bytes.len() < 40 ==> plist_binary::header_fault(bytes, limits) is Some,
{
}

/// Units that are no surrogates are the characters that they number, one for one.
pub proof fn plain_units_are_their_characters(units: Seq<u16>)
    requires
        forall|i: int|
            0 <= i < units.len() ==> #[trigger] units[i] < 0xD800 || units[i] > 0xDFFF,
    ensures
        unicode::utf16_text(units) matches Some(text) && text.len() == units.len() && (forall|
            i: int,
        |
            0 <= i < units.len() ==> #[trigger] text[i] == units[i] as char),
    decreases units.len(),
{
    if units.len() > 0 {
        let rest = units.skip(1);
        assert(units[0] < 0xD800 || units[0] > 0xDFFF);
        assert forall|i: int| 0 <= i < rest.len() implies #[trigger] rest[i] < 0xD800 || rest[i]
            > 0xDFFF by {
            assert(rest[i] == units[i + 1]);
        }
        plain_units_are_their_characters(rest);
        let tail = unicode::utf16_text(rest)->0;
        let text = seq![units[0] as char] + tail;
        assert forall|i: int| 0 <= i < units.len() implies #[trigger] text[i]
            == units[i] as char by {
            if i > 0 {
                assert(text[i] == tail[i - 1]);
                assert(rest[i - 1] == units[i]);
            }
        }
    }
}

/// Two units stand for one character exactly as a high surrogate with a low one behind it; a
/// surrogate alone is no text.
pub proof fn surrogates_come_in_pairs(a: u16, b: u16, rest: Seq<u16>)
    requires
        a < 0x400,
        b < 0x400,
    ensures
        ({
            let high = (0xD800 + a) as u16;
            let low = (0xDC00 + b) as u16;
            &&& unicode::utf16_text(rest) matches Some(tail) ==> unicode::utf16_text(
                seq![high, low] + rest,
            ) == Some(seq![(0x10000 + a * 0x400 + b) as u32 as char] + tail)
            &&& unicode::utf16_text(rest) is None ==> unicode::utf16_text(seq![high, low] + rest)
                is None
            &&& unicode::utf16_text(seq![low] + rest) is None
            &&& unicode::utf16_text(seq![high]) is None
        }),
{
    let high = (0xD800 + a) as u16;
    let low = (0xDC00 + b) as u16;
    assert((seq![high, low] + rest).skip(2) =~= rest);
    assert((seq![high, low] + rest)[0] == high && (seq![high, low] + rest)[1] == low);
    assert((seq![low] + rest)[0] == low);
    assert(seq![high].len() == 1);
}

/// Every byte is written as the two digits of its value, the higher first.
pub proof fn bytes_are_written_as_two_digits(bytes: Seq<u8>, at: int)
    requires
        0 <= at < bytes.len(),
    ensures
        hex::encoded(bytes).len() == 2 * bytes.len(),
        hex::encoded(bytes)[2 * at] == hex::digit((bytes[at] / 16) as int),
        hex::encoded(bytes)[2 * at + 1] == hex::digit((bytes[at] % 16) as int),
    decreases bytes.len(),
{
    let head = bytes.drop_last();
    lemma_encoded_len(head);
    if at < head.len() {
        bytes_are_written_as_two_digits(head, at);
        assert(head[at] == bytes[at]);
    }
}

proof fn lemma_encoded_len(bytes: Seq<u8>)
    ensures
        hex::encoded(bytes).len() == 2 * bytes.len(),
    decreases bytes.len(),
{
    if bytes.len() > 0 {
        lemma_encoded_len(bytes.drop_last());
    }
}

/// A number stands for a character of XML exactly if it is a Unicode scalar that is neither a
/// control character, but for the tab and the two line ends, nor one of the two that are no
/// characters at the end of the first plane.
pub proof fn xml_has_no_control_characters(code: u32)
    ensures
        xml_text::is_xml_scalar(code) <==> unicode::is_scalar(code) && (code >= 0x20 || code == 9
            || code == 10 || code == 13) && code != 0xFFFE && code != 0xFFFF,
        unicode::is_scalar(code) <==> code <= 0x10FFFF && !(0xD800 <= code <= 0xDFFF),
{
}

/// White space is cut off both ends of a text, and nothing else is.
pub proof fn trimming_keeps_what_stands_between(
    lead: Seq<char>,
    core: Seq<char>,
    trail: Seq<char>,
)
    requires
        forall|i: int| 0 <= i < lead.len() ==> unicode::is_white_space(#[trigger] lead[i]),
        forall|i: int| 0 <= i < trail.len() ==> unicode::is_white_space(#[trigger] trail[i]),
        core.len() > 0,
        !unicode::is_white_space(core[0]),
        !unicode::is_white_space(core.last()),
    ensures
        unicode::trimmed(lead + core + trail) == core,
{
    lemma_trim_start(lead, core + trail);
    assert(lead + core + trail =~= lead + (core + trail));
    assert((core + trail)[0] == core[0]);
    lemma_trim_end(core, trail);
}

proof fn lemma_trim_start(lead: Seq<char>, rest: Seq<char>)
    requires
        forall|i: int| 0 <= i < lead.len() ==> unicode::is_white_space(#[trigger] lead[i]),
        rest.len() > 0,
        !unicode::is_white_space(rest[0]),
    ensures
        unicode::trimmed_start(lead + rest) == rest,
    decreases lead.len(),
{
    let whole = lead + rest;
    if lead.len() == 0 {
        assert(whole =~= rest);
    } else {
        let less = lead.drop_first();
        assert(whole[0] == lead[0]);
        assert(whole.drop_first() =~= less + rest);
        assert forall|i: int| 0 <= i < less.len() implies unicode::is_white_space(
            #[trigger] less[i],
        ) by {
            assert(less[i] == lead[i + 1]);
        }
        lemma_trim_start(less, rest);
    }
}

proof fn lemma_trim_end(core: Seq<char>, trail: Seq<char>)
    requires
        forall|i: int| 0 <= i < trail.len() ==> unicode::is_white_space(#[trigger] trail[i]),
        core.len() > 0,
        !unicode::is_white_space(core.last()),
    ensures
        unicode::trimmed_end(core + trail) == core,
    decreases trail.len(),
{
    let whole = core + trail;
    if trail.len() == 0 {
        assert(whole =~= core);
    } else {
        let less = trail.drop_last();
        assert(whole.last() == trail.last());
        assert(trail[trail.len() - 1] == trail.last());
        assert(whole.drop_last() =~= core + less);
        assert forall|i: int| 0 <= i < less.len() implies unicode::is_white_space(
            #[trigger] less[i],
        ) by {
            assert(less[i] == trail[i]);
        }
        lemma_trim_end(core, less);
    }
}

/// White space is the twenty-five characters that Unicode calls so.
pub proof fn white_space_is_what_unicode_calls_so(c: char)
    ensures
        unicode::is_white_space(c) <==> {
            let code = c as u32;
            ||| code == 0x09 || code == 0x0A || code == 0x0B || code == 0x0C || code == 0x0D
            ||| code == 0x20 || code == 0x85 || code == 0xA0 || code == 0x1680
            ||| code == 0x2000 || code == 0x2001 || code == 0x2002 || code == 0x2003 || code
                == 0x2004 || code == 0x2005
            ||| code == 0x2006 || code == 0x2007 || code == 0x2008 || code == 0x2009 || code
                == 0x200A
            ||| code == 0x2028 || code == 0x2029 || code == 0x202F || code == 0x205F || code
                == 0x3000
        },
{
}

/// An XML list may say what it is by the one document type of property lists, with white space
/// around it, and by no other.
pub proof fn only_one_document_type_is_known(state: XmlState, raw: Seq<u8>)
    ensures
        state.on_doctype(raw) is Ok <==> (unicode::utf8_text(raw) matches Some(text)
            && unicode::trimmed(text)
            == "plist PUBLIC \"-//Apple//DTD PLIST 1.0//EN\" \"http://www.apple.com/DTDs/PropertyList-1.0.dtd\""@),
        state.on_doctype(raw) matches Ok(next) ==> next == state,
{
}

/// An XML list is read only down to the depth and up to the number of elements that are
/// allowed.
pub proof fn xml_lists_are_bounded(state: XmlState, limits: AppInventoryLimits)
    ensures
        state.deeper(limits) is Ok <==> state.depth < limits.max_xml_depth && state.nodes
            < limits.max_xml_nodes,
        state.deeper(limits) matches Ok(next) ==> next.depth == state.depth + 1 && next.nodes
            == state.nodes + 1 && next.parsed == state.parsed,
{
}

} // verus!
