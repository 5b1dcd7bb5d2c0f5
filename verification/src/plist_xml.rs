//! Property lists in XML.

use crate::app_inventory::{
    AppInventoryLimits, AppInventoryMetadataReadMode, FieldView, PlistFormat, StringField,
    StringState,
};
use crate::plist;
use crate::plist::{ParsedPlist, ParsedView, Slot};
use crate::probe;
use crate::probe::{AppError, AppFault, ProbeBudget, ProbeContext};
use crate::text;
use crate::unicode;
use crate::xml_text;
use quick_xml::events::Event;
use vstd::prelude::*;
use vstd::string::*;
use vstd::utf8;

verus! {

/// `quick_xml::Reader`, which reads a document event by event.
#[verifier::external_type_specification]
#[verifier::external_body]
#[verifier::reject_recursive_types(R)]
pub struct ExReader<R>(quick_xml::Reader<R>);

/// One event of an XML document.
#[derive(Debug)]
pub enum XmlEvent {
    /// An opening tag, with its name.
    Start(Vec<u8>),
    /// A tag that closes itself, with its name.
    Empty(Vec<u8>),
    /// Text between tags and references.
    Text(Vec<u8>),
    CData(Vec<u8>),
    /// A reference, without the ampersand and the semicolon.
    GeneralRef(Vec<u8>),
    /// A closing tag, with its name.
    End(Vec<u8>),
    DocType(Vec<u8>),
    /// A declaration, a comment or a processing instruction.
    Aside,
    Eof,
    /// The document is not well-formed.
    Malformed,
}

/// One event of an XML document.
#[verifier::ext_equal]
pub enum EventView {
    Start(Seq<u8>),
    Empty(Seq<u8>),
    Text(Seq<u8>),
    CData(Seq<u8>),
    GeneralRef(Seq<u8>),
    End(Seq<u8>),
    DocType(Seq<u8>),
    Aside,
    Eof,
    Malformed,
}

impl View for XmlEvent {
    type V = EventView;

    open spec fn view(&self) -> EventView {
        match self {
            XmlEvent::Start(name) => EventView::Start(name@),
            XmlEvent::Empty(name) => EventView::Empty(name@),
            XmlEvent::Text(raw) => EventView::Text(raw@),
            XmlEvent::CData(raw) => EventView::CData(raw@),
            XmlEvent::GeneralRef(raw) => EventView::GeneralRef(raw@),
            XmlEvent::End(name) => EventView::End(name@),
            XmlEvent::DocType(raw) => EventView::DocType(raw@),
            XmlEvent::Aside => EventView::Aside,
            XmlEvent::Eof => EventView::Eof,
            XmlEvent::Malformed => EventView::Malformed,
        }
    }
}

impl EventView {
    /// Whether nothing is read after this event.
    pub open spec fn ends(self) -> bool {
        self is Eof || self is Malformed
    }
}

/// The events of a document, up to the first that ends it.
pub uninterp spec fn xml_events(bytes: Seq<u8>) -> Seq<EventView>;

/// The events that a reader has still to give, up to the first that ends the document.
pub uninterp spec fn upcoming(reader: quick_xml::Reader<&[u8]>) -> Seq<EventView>;

/// `quick_xml::Reader::from_reader`: a reader at the start of a document, with the default
/// configuration, which trims no text and checks end tags. Reading comes to an end, because
/// every event but the last takes at least one byte of the document. Which events a document
/// has is left to that crate.
#[verifier::external_body]
fn open_document<'a>(bytes: &'a [u8]) -> (reader: quick_xml::Reader<&'a [u8]>)
    ensures
        upcoming(reader) == xml_events(bytes@),
        upcoming(reader).len() > 0,
        upcoming(reader).last().ends(),
        forall|i: int|
            0 <= i < upcoming(reader).len() - 1 ==> !(#[trigger] upcoming(reader)[i]).ends(),
{
    quick_xml::Reader::from_reader(bytes)
}

/// `quick_xml::Reader::read_event_into`: the next event of the document.
#[verifier::external_body]
fn next_event(reader: &mut quick_xml::Reader<&[u8]>) -> (event: XmlEvent)
    requires
        upcoming(*old(reader)).len() > 0,
    ensures
        event@ == upcoming(*old(reader))[0],
        upcoming(*final(reader)) == upcoming(*old(reader)).drop_first(),
{
    let mut buffer = Vec::new();
    let Ok(event) = reader.read_event_into(&mut buffer) else { return XmlEvent::Malformed };
    match event {
        Event::Start(tag) => XmlEvent::Start(tag.name().0.to_vec()),
        Event::Empty(tag) => XmlEvent::Empty(tag.name().0.to_vec()),
        Event::Text(raw) => XmlEvent::Text(raw.to_vec()),
        Event::CData(raw) => XmlEvent::CData(raw.to_vec()),
        Event::GeneralRef(raw) => XmlEvent::GeneralRef(raw.to_vec()),
        Event::End(tag) => XmlEvent::End(tag.name().0.to_vec()),
        Event::DocType(raw) => XmlEvent::DocType(raw.to_vec()),
        Event::Eof => XmlEvent::Eof,
        _ => XmlEvent::Aside,
    }
}

/// A list that is being read.
#[derive(Debug)]
pub struct XmlParser {
    pub depth: usize,
    pub nodes: usize,
    pub root_seen: bool,
    pub root_closed: bool,
    pub in_root_dict: bool,
    pub root_dict_closed: bool,
    /// How deep inside a value of the root dictionary.
    pub value_depth: usize,
    /// Whether the value being read is a string.
    pub pending_string: bool,
    pub pending_key: Option<String>,
    pub key_next_is_value: bool,
    pub key_buffer: String,
    pub string_buffer: String,
    pub in_key: bool,
    pub in_string: bool,
    pub parsed: ParsedPlist,
}

/// A list that is being read.
#[verifier::ext_equal]
pub struct XmlState {
    pub depth: usize,
    pub nodes: usize,
    pub root_seen: bool,
    pub root_closed: bool,
    pub in_root_dict: bool,
    pub root_dict_closed: bool,
    pub value_depth: usize,
    pub pending_string: bool,
    pub pending_key: Option<Seq<char>>,
    pub key_next_is_value: bool,
    pub key_buffer: Seq<char>,
    pub string_buffer: Seq<char>,
    pub in_key: bool,
    pub in_string: bool,
    pub parsed: ParsedView,
}

impl View for XmlParser {
    type V = XmlState;

    open spec fn view(&self) -> XmlState {
        XmlState {
            depth: self.depth,
            nodes: self.nodes,
            root_seen: self.root_seen,
            root_closed: self.root_closed,
            in_root_dict: self.in_root_dict,
            root_dict_closed: self.root_dict_closed,
            value_depth: self.value_depth,
            pending_string: self.pending_string,
            pending_key: text::opt_text(self.pending_key),
            key_next_is_value: self.key_next_is_value,
            key_buffer: self.key_buffer@,
            string_buffer: self.string_buffer@,
            in_key: self.in_key,
            in_string: self.in_string,
            parsed: self.parsed@,
        }
    }
}

/// Nothing has been read.
pub open spec fn at_start() -> XmlState {
    XmlState {
        depth: 0,
        nodes: 0,
        root_seen: false,
        root_closed: false,
        in_root_dict: false,
        root_dict_closed: false,
        value_depth: 0,
        pending_string: false,
        pending_key: None,
        key_next_is_value: false,
        key_buffer: Seq::empty(),
        string_buffer: Seq::empty(),
        in_key: false,
        in_string: false,
        parsed: plist::nothing_read(PlistFormat::Xml),
    }
}

/// The bytes of a tag's name.
pub open spec fn tag(name: Seq<char>) -> Seq<u8> {
    utf8::encode_utf8(name)
}

fn is_tag(name: &Vec<u8>, expected: &str) -> (same: bool)
    ensures
        same == (name@ == tag(expected@)),
{
    text::bytes_eq(name.as_slice(), expected.as_bytes())
}

/// A field that is there but holds no string.
pub open spec fn not_a_string() -> FieldView {
    FieldView { state: StringState::NotString, value: None }
}

/// Notes that the value of a key is no string.
pub open spec fn marked(
    parsed: ParsedView,
    key: Option<Seq<char>>,
    mode: AppInventoryMetadataReadMode,
) -> Result<ParsedView, AppFault> {
    match key {
        None => Ok(parsed),
        Some(key) => match plist::slot_of(key, mode) {
            None => Ok(parsed),
            Some(slot) => if parsed.holds(slot) {
                Err(plist::malformed("duplicate selected key in plist dictionary"@))
            } else {
                Ok(parsed.with(slot, not_a_string()))
            },
        },
    }
}

/// Stores the string of a key.
pub open spec fn stored(
    parsed: ParsedView,
    key: Seq<char>,
    value: Seq<char>,
    mode: AppInventoryMetadataReadMode,
    limits: AppInventoryLimits,
    budget: ProbeBudget,
) -> (Result<ParsedView, AppFault>, ProbeBudget) {
    match plist::slot_of(key, mode) {
        None => (Ok(parsed), budget),
        Some(slot) => if parsed.holds(slot) {
            (Err(plist::malformed("duplicate selected key in plist dictionary"@)), budget)
        } else if unicode::byte_len(value) > limits.max_string_bytes {
            (
                Ok(parsed.with(slot, (FieldView { state: StringState::TooLong, value: None }))),
                budget,
            )
        } else {
            match budget.after_retained(unicode::byte_len(value) as usize, limits) {
                (Err(found), after) => (Err(found), after),
                (Ok(()), after) => (
                    Ok(
                        parsed.with(
                            slot,
                            (FieldView { state: StringState::Present, value: Some(value) }),
                        ),
                    ),
                    after,
                ),
            }
        },
    }
}

/// A buffer with more text at its end, as long as it stays short enough.
pub open spec fn grown(
    buffer: Seq<char>,
    segment: Seq<char>,
    limits: AppInventoryLimits,
) -> Result<Seq<char>, AppFault> {
    if unicode::byte_len(buffer) + unicode::byte_len(segment) > usize::MAX {
        Err(plist::over_limit("XML text length overflow"@))
    } else if unicode::byte_len(buffer) + unicode::byte_len(segment) > limits.max_string_bytes {
        Err(plist::over_limit("XML selected string exceeds per-field budget"@))
    } else {
        Ok(buffer + segment)
    }
}

impl XmlState {
    /// After more text for the key or the string that is being read.
    pub open spec fn with_text(self, segment: Seq<char>, limits: AppInventoryLimits) -> Result<
        XmlState,
        AppFault,
    > {
        if self.in_key {
            match grown(self.key_buffer, segment, limits) {
                Ok(buffer) => Ok(XmlState { key_buffer: buffer, ..self }),
                Err(found) => Err(found),
            }
        } else if self.in_string && self.key_next_is_value {
            match grown(self.string_buffer, segment, limits) {
                Ok(buffer) => Ok(XmlState { string_buffer: buffer, ..self }),
                Err(found) => Err(found),
            }
        } else {
            Ok(self)
        }
    }

    /// Whether text that comes now is neither part of a key nor of a value.
    pub open spec fn idle(self) -> bool {
        !self.in_root_dict || (!self.in_key && self.value_depth == 0)
    }

    pub open spec fn on_text(self, raw: Seq<u8>, limits: AppInventoryLimits) -> Result<
        XmlState,
        AppFault,
    > {
        if self.idle() || !(self.in_key || (self.in_string && self.key_next_is_value)) {
            Ok(self)
        } else {
            match xml_text::decoded_text(raw) {
                Ok(segment) => self.with_text(segment, limits),
                Err(found) => Err(found),
            }
        }
    }

    pub open spec fn on_cdata(self, raw: Seq<u8>, limits: AppInventoryLimits) -> Result<
        XmlState,
        AppFault,
    > {
        if self.idle() {
            Ok(self)
        } else {
            match unicode::utf8_text(raw) {
                Some(segment) => self.with_text(segment, limits),
                None => Err(plist::malformed("invalid CDATA UTF-8"@)),
            }
        }
    }

    pub open spec fn on_ref(self, raw: Seq<u8>, limits: AppInventoryLimits) -> Result<
        XmlState,
        AppFault,
    > {
        match xml_text::decoded_ref(raw) {
            Ok(c) => self.with_text(seq![c], limits),
            Err(found) => Err(found),
        }
    }

    /// One tag deeper, if the limits allow it.
    pub open spec fn deeper(self, limits: AppInventoryLimits) -> Result<XmlState, AppFault> {
        if self.depth >= limits.max_xml_depth || self.nodes >= limits.max_xml_nodes {
            Err(plist::over_limit("XML plist structural limits exceeded"@))
        } else {
            Ok(
                XmlState {
                    depth: (self.depth + 1) as usize,
                    nodes: (self.nodes + 1) as usize,
                    ..self
                },
            )
        }
    }

    /// After the opening tag of a child of the root dictionary.
    pub open spec fn on_member(self, name: Seq<u8>, mode: AppInventoryMetadataReadMode) -> Result<
        XmlState,
        AppFault,
    > {
        if self.value_depth > 0 {
            Ok(
                XmlState {
                    value_depth: if self.value_depth < usize::MAX {
                        (self.value_depth + 1) as usize
                    } else {
                        usize::MAX
                    },
                    ..self
                },
            )
        } else if name == tag("key"@) {
            Ok(
                XmlState {
                    in_key: true,
                    key_buffer: Seq::empty(),
                    key_next_is_value: self.key_next_is_value && self.in_string,
                    ..self
                },
            )
        } else if self.key_next_is_value && name == tag("string"@) {
            Ok(
                XmlState {
                    in_string: true,
                    string_buffer: Seq::empty(),
                    pending_string: true,
                    value_depth: 1,
                    ..self
                },
            )
        } else if self.key_next_is_value {
            match marked(self.parsed, self.pending_key, mode) {
                Ok(parsed) => Ok(
                    XmlState {
                        parsed,
                        pending_key: None,
                        key_next_is_value: false,
                        pending_string: false,
                        value_depth: 1,
                        ..self
                    },
                ),
                Err(found) => Err(found),
            }
        } else {
            Ok(self)
        }
    }

    pub open spec fn on_start(
        self,
        name: Seq<u8>,
        limits: AppInventoryLimits,
        mode: AppInventoryMetadataReadMode,
    ) -> Result<XmlState, AppFault> {
        match self.deeper(limits) {
            Err(found) => Err(found),
            Ok(state) => if state.root_closed {
                Err(plist::malformed("content appears after plist root"@))
            } else if state.depth == 1 {
                if name != tag("plist"@) {
                    Err(plist::malformed("XML root is not plist"@))
                } else if state.root_seen {
                    Err(plist::malformed("multiple plist roots are not allowed"@))
                } else {
                    Ok(XmlState { root_seen: true, ..state })
                }
            } else if state.depth == 2 {
                if state.root_dict_closed {
                    Err(plist::malformed("multiple root dictionaries are not allowed"@))
                } else if name != tag("dict"@) {
                    Err(plist::malformed("plist root must contain one dict"@))
                } else {
                    Ok(XmlState { in_root_dict: true, ..state })
                }
            } else if state.in_root_dict {
                state.on_member(name, mode)
            } else {
                Ok(state)
            },
        }
    }

    pub open spec fn on_empty(
        self,
        name: Seq<u8>,
        limits: AppInventoryLimits,
        mode: AppInventoryMetadataReadMode,
    ) -> Result<XmlState, AppFault> {
        match self.deeper(limits) {
            Err(found) => Err(found),
            Ok(state) => if state.depth == 1 {
                if name != tag("plist"@) {
                    Err(plist::malformed("XML root is not plist"@))
                } else if state.root_seen {
                    Err(plist::malformed("multiple plist roots are not allowed"@))
                } else {
                    Ok(
                        XmlState { depth: self.depth, root_seen: true, root_closed: true, ..state },
                    )
                }
            } else if state.depth == 2 {
                if name != tag("dict"@) {
                    Err(plist::malformed("plist root must contain one dict"@))
                } else {
                    Ok(
                        XmlState {
                            depth: self.depth,
                            in_root_dict: true,
                            root_dict_closed: true,
                            ..state
                        },
                    )
                }
            } else if state.in_root_dict && state.value_depth == 0 && state.key_next_is_value
                && !state.in_string && !state.in_key {
                match marked(state.parsed, state.pending_key, mode) {
                    Ok(parsed) => Ok(
                        XmlState {
                            depth: self.depth,
                            parsed,
                            pending_key: None,
                            key_next_is_value: false,
                            ..state
                        },
                    ),
                    Err(found) => Err(found),
                }
            } else {
                Ok(XmlState { depth: self.depth, ..state })
            },
        }
    }

    /// After the closing tag of a key or a string of the root dictionary.
    pub open spec fn close_piece(
        self,
        name: Seq<u8>,
        limits: AppInventoryLimits,
        mode: AppInventoryMetadataReadMode,
        budget: ProbeBudget,
    ) -> (Result<XmlState, AppFault>, ProbeBudget) {
        if self.value_depth == 0 && name == tag("key"@) {
            (
                Ok(
                    XmlState {
                        in_key: false,
                        pending_key: Some(self.key_buffer),
                        key_buffer: Seq::empty(),
                        key_next_is_value: true,
                        ..self
                    },
                ),
                budget,
            )
        } else if self.in_string && name == tag("string"@) {
            if self.key_next_is_value && self.pending_string {
                match self.pending_key {
                    Some(key) => match stored(
                        self.parsed,
                        key,
                        self.string_buffer,
                        mode,
                        limits,
                        budget,
                    ) {
                        (Ok(parsed), after) => (
                            Ok(
                                XmlState {
                                    in_string: false,
                                    parsed,
                                    pending_key: None,
                                    key_next_is_value: false,
                                    string_buffer: Seq::empty(),
                                    ..self
                                },
                            ),
                            after,
                        ),
                        (Err(found), after) => (Err(found), after),
                    },
                    None => (
                        Ok(
                            XmlState {
                                in_string: false,
                                key_next_is_value: false,
                                string_buffer: Seq::empty(),
                                ..self
                            },
                        ),
                        budget,
                    ),
                }
            } else {
                (Ok(XmlState { in_string: false, string_buffer: Seq::empty(), ..self }), budget)
            }
        } else {
            (Ok(self), budget)
        }
    }

    /// One level out of the value that is being read.
    pub open spec fn leave_value(self) -> XmlState {
        if self.value_depth == 0 {
            self
        } else if self.value_depth > 1 {
            XmlState { value_depth: (self.value_depth - 1) as usize, ..self }
        } else {
            XmlState {
                value_depth: 0,
                pending_string: false,
                pending_key: if self.in_string {
                    self.pending_key
                } else {
                    None
                },
                ..self
            }
        }
    }

    /// One tag out.
    pub open spec fn shallower(self, name: Seq<u8>) -> XmlState {
        XmlState {
            root_dict_closed: self.root_dict_closed || (self.depth == 2 && name == tag("dict"@)),
            root_closed: self.root_closed || (self.depth == 1 && name == tag("plist"@)),
            depth: if self.depth > 0 {
                (self.depth - 1) as usize
            } else {
                0
            },
            ..self
        }
    }

    pub open spec fn on_end(
        self,
        name: Seq<u8>,
        limits: AppInventoryLimits,
        mode: AppInventoryMetadataReadMode,
        budget: ProbeBudget,
    ) -> (Result<XmlState, AppFault>, ProbeBudget) {
        if self.in_root_dict {
            match self.close_piece(name, limits, mode, budget) {
                (Ok(state), after) => (Ok(state.leave_value().shallower(name)), after),
                (Err(found), after) => (Err(found), after),
            }
        } else {
            (Ok(self.shallower(name)), budget)
        }
    }

    pub open spec fn on_doctype(self, raw: Seq<u8>) -> Result<XmlState, AppFault> {
        match unicode::utf8_text(raw) {
            None => Err(plist::malformed("invalid XML doctype"@)),
            Some(text) => if unicode::trimmed(text) == apple_doctype() {
                Ok(self)
            } else {
                Err(plist::malformed("unsupported XML doctype"@))
            },
        }
    }

    /// What the next event makes of a list that is being read.
    pub open spec fn next(
        self,
        event: EventView,
        limits: AppInventoryLimits,
        mode: AppInventoryMetadataReadMode,
        budget: ProbeBudget,
    ) -> (Result<XmlState, AppFault>, ProbeBudget) {
        match event {
            EventView::Start(name) => (self.on_start(name, limits, mode), budget),
            EventView::Empty(name) => (self.on_empty(name, limits, mode), budget),
            EventView::Text(raw) => (self.on_text(raw, limits), budget),
            EventView::CData(raw) => (self.on_cdata(raw, limits), budget),
            EventView::GeneralRef(raw) => (self.on_ref(raw, limits), budget),
            EventView::End(name) => self.on_end(name, limits, mode, budget),
            EventView::DocType(raw) => (self.on_doctype(raw), budget),
            EventView::Aside => (Ok(self), budget),
            EventView::Eof => (Ok(self), budget),
            EventView::Malformed => (Err(plist::malformed("malformed XML plist"@)), budget),
        }
    }

    /// Whether the document held one list with one dictionary, all closed.
    pub open spec fn finished(self) -> bool {
        &&& self.root_seen
        &&& self.in_root_dict
        &&& self.root_dict_closed
        &&& self.root_closed
        &&& self.depth == 0
        &&& self.value_depth == 0
        &&& !self.key_next_is_value
    }

    /// What a document gives that ends here.
    pub open spec fn end(self) -> Result<ParsedView, AppFault> {
        if self.finished() {
            Ok(self.parsed)
        } else {
            Err(plist::malformed("incomplete plist XML structure"@))
        }
    }
}

/// The document type that Apple's lists declare.
pub open spec fn apple_doctype() -> Seq<char> {
    "plist PUBLIC \"-//Apple//DTD PLIST 1.0//EN\" \"http://www.apple.com/DTDs/PropertyList-1.0.dtd\""@
}

/// What a run of events makes of a list that is being read.
pub open spec fn run(
    events: Seq<EventView>,
    state: XmlState,
    limits: AppInventoryLimits,
    mode: AppInventoryMetadataReadMode,
    budget: ProbeBudget,
) -> (Result<ParsedView, AppFault>, ProbeBudget)
    decreases events.len(),
{
    if events.len() == 0 || events[0] is Eof {
        (state.end(), budget)
    } else {
        match state.next(events[0], limits, mode, budget) {
            (Err(found), after) => (Err(found), after),
            (Ok(state), after) => run(events.drop_first(), state, limits, mode, after),
        }
    }
}

/// What a document gives, and what reading it costs.
pub open spec fn xml_plist(
    events: Seq<EventView>,
    limits: AppInventoryLimits,
    mode: AppInventoryMetadataReadMode,
    budget: ProbeBudget,
) -> (Result<ParsedView, AppFault>, ProbeBudget) {
    run(events, at_start(), limits, mode, budget)
}

/// Notes that the value of a key is no string.
fn mark_selected_xml_not_string(
    parsed: &mut ParsedPlist,
    key: &Option<String>,
    mode: AppInventoryMetadataReadMode,
) -> (result: Result<(), AppError>)
    ensures
        match result {
            Ok(()) => marked(old(parsed)@, text::opt_text(*key), mode) == Ok::<
                ParsedView,
                AppFault,
            >(final(parsed)@),
            Err(error) => marked(old(parsed)@, text::opt_text(*key), mode) == Err::<
                ParsedView,
                AppFault,
            >(error@),
        },
{
    let slot: Slot = match key {
        None => {
            return Ok(());
        },
        Some(key) => match plist::selected_key_index(key.as_str(), mode) {
            None => {
                return Ok(());
            },
            Some(slot) => slot,
        },
    };
    if parsed.has(slot) {
        return Err(plist::malformed_error("duplicate selected key in plist dictionary"));
    }
    parsed.fill(slot, StringField { state: StringState::NotString, value: None });
    Ok(())
}

/// Stores the string of a key.
fn set_selected_xml_field(
    parsed: &mut ParsedPlist,
    key: &str,
    value: &str,
    mode: AppInventoryMetadataReadMode,
    limits: AppInventoryLimits,
    budget: &mut ProbeBudget,
) -> (result: Result<(), AppError>)
    ensures
        ({
            let (outcome, after) = stored(
                old(parsed)@,
                key@,
                value@,
                mode,
                limits,
                *old(budget),
            );
            &&& *final(budget) == after
            &&& match result {
                Ok(()) => outcome == Ok::<ParsedView, AppFault>(final(parsed)@),
                Err(error) => outcome == Err::<ParsedView, AppFault>(error@),
            }
        }),
{
    let slot: Slot = match plist::selected_key_index(key, mode) {
        None => {
            return Ok(());
        },
        Some(slot) => slot,
    };
    if parsed.has(slot) {
        return Err(plist::malformed_error("duplicate selected key in plist dictionary"));
    }
    let length: usize = unicode::length_in_bytes(value);
    if length > limits.max_string_bytes {
        parsed.fill(slot, StringField { state: StringState::TooLong, value: None });
        return Ok(());
    }
    if let Err(error) = budget.charge_retained(length, limits) {
        return Err(error);
    }
    parsed.fill(slot, StringField { state: StringState::Present, value: Some(value.to_owned()) });
    Ok(())
}

/// Appends text to a buffer, as long as it stays short enough.
fn grow(buffer: &mut String, segment: &str, limits: AppInventoryLimits) -> (result: Result<
    (),
    AppError,
>)
    ensures
        match result {
            Ok(()) => grown(old(buffer)@, segment@, limits) == Ok::<Seq<char>, AppFault>(
                final(buffer)@,
            ),
            Err(error) => grown(old(buffer)@, segment@, limits) == Err::<Seq<char>, AppFault>(
                error@,
            ),
        },
{
    let held: usize = unicode::length_in_bytes(buffer.as_str());
    match held.checked_add(unicode::length_in_bytes(segment)) {
        None => Err(plist::limit_error("XML text length overflow")),
        Some(total) => {
            if total > limits.max_string_bytes {
                return Err(plist::limit_error("XML selected string exceeds per-field budget"));
            }
            buffer.append(segment);
            Ok(())
        },
    }
}

impl XmlParser {
    pub fn new() -> (parser: XmlParser)
        ensures
            parser@ == at_start(),
    {
        let parser = XmlParser {
            depth: 0,
            nodes: 0,
            root_seen: false,
            root_closed: false,
            in_root_dict: false,
            root_dict_closed: false,
            value_depth: 0,
            pending_string: false,
            pending_key: None,
            key_next_is_value: false,
            key_buffer: String::new(),
            string_buffer: String::new(),
            in_key: false,
            in_string: false,
            parsed: plist::missing_fields(PlistFormat::Xml),
        };
        assert(parser@ =~= at_start());
        parser
    }

    fn take_text(&mut self, segment: &str, limits: AppInventoryLimits) -> (result: Result<
        (),
        AppError,
    >)
        ensures
            step_result(result, final(self)@) == old(self)@.with_text(segment@, limits),
    {
        if self.in_key {
            grow(&mut self.key_buffer, segment, limits)
        } else if self.in_string && self.key_next_is_value {
            grow(&mut self.string_buffer, segment, limits)
        } else {
            Ok(())
        }
    }

    fn idle(&self) -> (answer: bool)
        ensures
            answer == self@.idle(),
    {
        !self.in_root_dict || (!self.in_key && self.value_depth == 0)
    }

    fn take_raw_text(&mut self, raw: &[u8], limits: AppInventoryLimits) -> (result: Result<
        (),
        AppError,
    >)
        ensures
            step_result(result, final(self)@) == old(self)@.on_text(raw@, limits),
    {
        if self.idle() || !(self.in_key || (self.in_string && self.key_next_is_value)) {
            return Ok(());
        }
        match xml_text::decode_xml_text(raw) {
            Ok(segment) => self.take_text(segment.as_str(), limits),
            Err(error) => Err(error),
        }
    }

    fn take_cdata(&mut self, raw: &[u8], limits: AppInventoryLimits) -> (result: Result<
        (),
        AppError,
    >)
        ensures
            step_result(result, final(self)@) == old(self)@.on_cdata(raw@, limits),
    {
        if self.idle() {
            return Ok(());
        }
        match unicode::from_utf8(raw) {
            Some(segment) => self.take_text(segment.as_str(), limits),
            None => Err(plist::malformed_error("invalid CDATA UTF-8")),
        }
    }

    fn take_ref(&mut self, raw: &[u8], limits: AppInventoryLimits) -> (result: Result<(), AppError>)
        ensures
            step_result(result, final(self)@) == old(self)@.on_ref(raw@, limits),
    {
        match xml_text::decode_xml_general_ref(raw) {
            Ok(segment) => self.take_text(segment.as_str(), limits),
            Err(error) => Err(error),
        }
    }

    fn go_deeper(&mut self, limits: AppInventoryLimits) -> (result: Result<(), AppError>)
        ensures
            step_result(result, final(self)@) == old(self)@.deeper(limits),
    {
        if self.depth >= limits.max_xml_depth || self.nodes >= limits.max_xml_nodes {
            return Err(plist::limit_error("XML plist structural limits exceeded"));
        }
        self.depth = self.depth + 1;
        self.nodes = self.nodes + 1;
        Ok(())
    }

    fn open_member(&mut self, name: &Vec<u8>, mode: AppInventoryMetadataReadMode) -> (result:
        Result<(), AppError>)
        ensures
            step_result(result, final(self)@) == old(self)@.on_member(name@, mode),
    {
        if self.value_depth > 0 {
            if self.value_depth < usize::MAX {
                self.value_depth = self.value_depth + 1;
            }
            return Ok(());
        }
        if is_tag(name, "key") {
            self.in_key = true;
            self.key_buffer = String::new();
            assert(self.key_buffer@ =~= Seq::empty());
            self.key_next_is_value = self.key_next_is_value && self.in_string;
            return Ok(());
        }
        if self.key_next_is_value && is_tag(name, "string") {
            self.in_string = true;
            self.string_buffer = String::new();
            assert(self.string_buffer@ =~= Seq::empty());
            self.pending_string = true;
            self.value_depth = 1;
            return Ok(());
        }
        if self.key_next_is_value {
            if let Err(error) = mark_selected_xml_not_string(
                &mut self.parsed,
                &self.pending_key,
                mode,
            ) {
                return Err(error);
            }
            self.pending_key = None;
            self.key_next_is_value = false;
            self.pending_string = false;
            self.value_depth = 1;
        }
        Ok(())
    }

    fn open_tag(
        &mut self,
        name: &Vec<u8>,
        limits: AppInventoryLimits,
        mode: AppInventoryMetadataReadMode,
    ) -> (result: Result<(), AppError>)
        ensures
            step_result(result, final(self)@) == old(self)@.on_start(name@, limits, mode),
    {
        if let Err(error) = self.go_deeper(limits) {
            return Err(error);
        }
        if self.root_closed {
            return Err(plist::malformed_error("content appears after plist root"));
        }
        if self.depth == 1 {
            if !is_tag(name, "plist") {
                return Err(plist::malformed_error("XML root is not plist"));
            }
            if self.root_seen {
                return Err(plist::malformed_error("multiple plist roots are not allowed"));
            }
            self.root_seen = true;
            return Ok(());
        }
        if self.depth == 2 {
            if self.root_dict_closed {
                return Err(plist::malformed_error("multiple root dictionaries are not allowed"));
            }
            if !is_tag(name, "dict") {
                return Err(plist::malformed_error("plist root must contain one dict"));
            }
            self.in_root_dict = true;
            return Ok(());
        }
        if self.in_root_dict {
            return self.open_member(name, mode);
        }
        Ok(())
    }

    fn empty_tag(
        &mut self,
        name: &Vec<u8>,
        limits: AppInventoryLimits,
        mode: AppInventoryMetadataReadMode,
    ) -> (result: Result<(), AppError>)
        ensures
            step_result(result, final(self)@) == old(self)@.on_empty(name@, limits, mode),
    {
        if let Err(error) = self.go_deeper(limits) {
            return Err(error);
        }
        if self.depth == 1 {
            if !is_tag(name, "plist") {
                return Err(plist::malformed_error("XML root is not plist"));
            }
            if self.root_seen {
                return Err(plist::malformed_error("multiple plist roots are not allowed"));
            }
            self.root_seen = true;
            self.root_closed = true;
        } else if self.depth == 2 {
            if !is_tag(name, "dict") {
                return Err(plist::malformed_error("plist root must contain one dict"));
            }
            self.in_root_dict = true;
            self.root_dict_closed = true;
        } else if self.in_root_dict && self.value_depth == 0 && self.key_next_is_value
            && !self.in_string && !self.in_key {
            if let Err(error) = mark_selected_xml_not_string(
                &mut self.parsed,
                &self.pending_key,
                mode,
            ) {
                return Err(error);
            }
            self.pending_key = None;
            self.key_next_is_value = false;
        }
        self.depth = self.depth - 1;
        Ok(())
    }

    fn finish_piece(
        &mut self,
        name: &Vec<u8>,
        limits: AppInventoryLimits,
        mode: AppInventoryMetadataReadMode,
        budget: &mut ProbeBudget,
    ) -> (result: Result<(), AppError>)
        ensures
            (step_result(result, final(self)@), *final(budget)) == old(self)@.close_piece(
                name@,
                limits,
                mode,
                *old(budget),
            ),
    {
        if self.value_depth == 0 && is_tag(name, "key") {
            self.in_key = false;
            let mut key = String::new();
            std::mem::swap(&mut key, &mut self.key_buffer);
            assert(self.key_buffer@ =~= Seq::empty());
            self.pending_key = Some(key);
            self.key_next_is_value = true;
            return Ok(());
        }
        if self.in_string && is_tag(name, "string") {
            self.in_string = false;
            let mut value = String::new();
            std::mem::swap(&mut value, &mut self.string_buffer);
            assert(self.string_buffer@ =~= Seq::empty());
            if self.key_next_is_value && self.pending_string {
                let mut pending: Option<String> = None;
                std::mem::swap(&mut pending, &mut self.pending_key);
                if let Some(key) = pending {
                    if let Err(error) = set_selected_xml_field(
                        &mut self.parsed,
                        key.as_str(),
                        value.as_str(),
                        mode,
                        limits,
                        budget,
                    ) {
                        return Err(error);
                    }
                }
                self.key_next_is_value = false;
            }
        }
        Ok(())
    }

    fn close_tag(
        &mut self,
        name: &Vec<u8>,
        limits: AppInventoryLimits,
        mode: AppInventoryMetadataReadMode,
        budget: &mut ProbeBudget,
    ) -> (result: Result<(), AppError>)
        ensures
            (step_result(result, final(self)@), *final(budget)) == old(self)@.on_end(
                name@,
                limits,
                mode,
                *old(budget),
            ),
    {
        if self.in_root_dict {
            if let Err(error) = self.finish_piece(name, limits, mode, budget) {
                return Err(error);
            }
            self.exit_value();
        }
        self.go_up(name);
        Ok(())
    }

    fn exit_value(&mut self)
        ensures
            final(self)@ == old(self)@.leave_value(),
    {
        if self.value_depth > 0 {
            self.value_depth = self.value_depth - 1;
            if self.value_depth == 0 {
                self.pending_string = false;
                if !self.in_string {
                    self.pending_key = None;
                }
            }
        }
    }

    fn go_up(&mut self, name: &Vec<u8>)
        ensures
            final(self)@ == old(self)@.shallower(name@),
    {
        if self.depth == 2 && is_tag(name, "dict") {
            self.root_dict_closed = true;
        }
        if self.depth == 1 && is_tag(name, "plist") {
            self.root_closed = true;
        }
        if self.depth > 0 {
            self.depth = self.depth - 1;
        }
    }

    fn take_doctype(&mut self, raw: &[u8]) -> (result: Result<(), AppError>)
        ensures
            step_result(result, final(self)@) == old(self)@.on_doctype(raw@),
    {
        match unicode::from_utf8(raw) {
            None => Err(plist::malformed_error("invalid XML doctype")),
            Some(declared) => {
                let declared = unicode::trim(declared.as_str());
                if text::text_eq(
                    declared.as_str(),
                    "plist PUBLIC \"-//Apple//DTD PLIST 1.0//EN\" \"http://www.apple.com/DTDs/PropertyList-1.0.dtd\"",
                ) {
                    Ok(())
                } else {
                    Err(plist::malformed_error("unsupported XML doctype"))
                }
            },
        }
    }

    /// Takes the next event.
    pub fn feed(
        &mut self,
        event: &XmlEvent,
        limits: AppInventoryLimits,
        mode: AppInventoryMetadataReadMode,
        budget: &mut ProbeBudget,
    ) -> (result: Result<(), AppError>)
        ensures
            (step_result(result, final(self)@), *final(budget)) == old(self)@.next(
                event@,
                limits,
                mode,
                *old(budget),
            ),
    {
        match event {
            XmlEvent::Start(name) => self.open_tag(name, limits, mode),
            XmlEvent::Empty(name) => self.empty_tag(name, limits, mode),
            XmlEvent::Text(raw) => self.take_raw_text(raw.as_slice(), limits),
            XmlEvent::CData(raw) => self.take_cdata(raw.as_slice(), limits),
            XmlEvent::GeneralRef(raw) => self.take_ref(raw.as_slice(), limits),
            XmlEvent::End(name) => self.close_tag(name, limits, mode, budget),
            XmlEvent::DocType(raw) => self.take_doctype(raw.as_slice()),
            XmlEvent::Aside => Ok(()),
            XmlEvent::Eof => Ok(()),
            XmlEvent::Malformed => Err(plist::malformed_error("malformed XML plist")),
        }
    }

    /// What the document gives, if it ends here.
    pub fn finish(self) -> (result: Result<ParsedPlist, AppError>)
        ensures
            plist::parsed_result(result) == self@.end(),
    {
        if !self.root_seen || !self.in_root_dict || !self.root_dict_closed || !self.root_closed
            || self.depth != 0 || self.value_depth != 0 || self.key_next_is_value {
            return Err(plist::malformed_error("incomplete plist XML structure"));
        }
        Ok(self.parsed)
    }
}

/// What a step came to.
pub open spec fn step_result(result: Result<(), AppError>, state: XmlState) -> Result<
    XmlState,
    AppFault,
> {
    match result {
        Ok(()) => Ok(state),
        Err(error) => Err(error@),
    }
}

/// Reads a property list in XML, unless it is stopped.
pub fn parse_xml_plist(bytes: &[u8], context: &ProbeContext<'_>, budget: &mut ProbeBudget) -> (
    result: Result<ParsedPlist, AppError>)
    ensures
        final(budget).grown_from(*old(budget)),
        context.stopped(result) || (plist::parsed_result(result), *final(budget)) == xml_plist(
            xml_events(bytes@),
            context.limits,
            context.metadata_read_mode,
            *old(budget),
        ),
{
    let limits: AppInventoryLimits = context.limits;
    let mode: AppInventoryMetadataReadMode = context.metadata_read_mode;
    let mut reader = open_document(bytes);
    let mut parser = XmlParser::new();
    loop
        invariant
            limits == context.limits,
            mode == context.metadata_read_mode,
            upcoming(reader).len() > 0,
            upcoming(reader).last().ends(),
            forall|i: int|
                0 <= i < upcoming(reader).len() - 1 ==> !(#[trigger] upcoming(reader)[i]).ends(),
            budget.grown_from(*old(budget)),
            run(upcoming(reader), parser@, limits, mode, *budget) == xml_plist(
                xml_events(bytes@),
                limits,
                mode,
                *old(budget),
            ),
        decreases upcoming(reader).len(),
    {
        if let Err(error) = context.check() {
            return Err(error);
        }
        let ghost events = upcoming(reader);
        let event = next_event(&mut reader);
        if let XmlEvent::Eof = event {
            return parser.finish();
        }
        if let Err(error) = parser.feed(&event, limits, mode, budget) {
            return Err(error);
        }
        proof {
            assert(!events[0].ends());
            assert(events.len() > 1);
            assert(events.drop_first().last() == events.last());
            assert forall|i: int| 0 <= i < events.drop_first().len() - 1 implies !(
            #[trigger] events.drop_first()[i]).ends() by {
                assert(events.drop_first()[i] == events[i + 1]);
            }
        }
    }
}

} // verus!
