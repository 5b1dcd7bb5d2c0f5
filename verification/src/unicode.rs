//! Characters, UTF-8 and UTF-16.

use vstd::prelude::*;
use vstd::string::*;
use vstd::utf8;

verus! {

/// The text that a byte string spells in UTF-8.
pub open spec fn utf8_text(bytes: Seq<u8>) -> Option<Seq<char>> {
    if utf8::valid_utf8(bytes) {
        Some(utf8::decode_utf8(bytes))
    } else {
        None
    }
}

/// `std::str::from_utf8`: the text that a byte string spells in UTF-8, or nothing where it
/// is not UTF-8.
#[verifier::external_body]
pub(crate) fn from_utf8(bytes: &[u8]) -> (text: Option<String>)
    ensures
        match text {
            Some(text) => utf8_text(bytes@) == Some(text@),
            None => utf8_text(bytes@) is None,
        },
{
    std::str::from_utf8(bytes).ok().map(str::to_owned)
}

/// The text of a byte string, with a replacement character for what is not UTF-8.
pub uninterp spec fn lossy_text(bytes: Seq<u8>) -> Seq<char>;

/// `String::from_utf8_lossy`: the text of a byte string, with replacement characters for
/// what is not UTF-8, and exact where all of it is. How many replacements a faulty stretch
/// gets is left to the standard library.
#[verifier::external_body]
pub(crate) fn from_utf8_lossy(bytes: &[u8]) -> (text: String)
    ensures
        text@ == lossy_text(bytes@),
        utf8_text(bytes@) is Some ==> text@ == utf8_text(bytes@)->0,
{
    String::from_utf8_lossy(bytes).into_owned()
}

/// Whether a number is a Unicode scalar value.
pub open spec fn is_scalar(code: u32) -> bool {
    code <= 0xD7FF || 0xE000 <= code <= 0x10FFFF
}

/// `char::from_u32`: the character with the given number, if there is one.
#[verifier::external_body]
pub(crate) fn scalar(code: u32) -> (result: Option<char>)
    ensures
        match result {
            Some(c) => is_scalar(code) && c as u32 == code,
            None => !is_scalar(code),
        },
{
    char::from_u32(code)
}

/// `String::push`: the string with one more character.
#[verifier::external_body]
pub(crate) fn push(text: &mut String, c: char)
    ensures
        final(text)@ == old(text)@.push(c),
{
    text.push(c);
}

/// The characters of a string.
pub fn characters(text: &str) -> (list: Vec<char>)
    ensures
        list@ == text@,
{
    broadcast use vstd::string::axiom_spec_iter, vstd::string::next_postcondition;

    let mut list: Vec<char> = Vec::new();
    let mut chars = text.chars();
    assert(vstd::std_specs::iter::IteratorSpec::remaining(&chars) == text@);
    loop
        invariant
            vstd::std_specs::iter::IteratorSpec::obeys_prophetic_iter_laws(&chars),
            text@ == list@ + vstd::std_specs::iter::IteratorSpec::remaining(&chars),
        decreases text@.len() - list@.len(),
    {
        let ghost left = vstd::std_specs::iter::IteratorSpec::remaining(&chars);
        let ghost done = list@;
        match chars.next() {
            Some(c) => {
                list.push(c);
                assert(left =~= seq![c] + left.drop_first());
                assert(done + left =~= done.push(c) + left.drop_first());
            },
            None => {
                assert(list@ + left =~= list@);
                return list;
            },
        }
    }
}

/// The string that holds the given characters from `from` up to but excluding `to`.
pub fn text_of(list: &Vec<char>, from: usize, to: usize) -> (text: String)
    requires
        from <= to <= list@.len(),
    ensures
        text@ == list@.subrange(from as int, to as int),
{
    let mut text = String::new();
    let mut i: usize = from;
    assert(text@ =~= list@.subrange(from as int, i as int));
    while i < to
        invariant
            from <= i <= to <= list@.len(),
            text@ == list@.subrange(from as int, i as int),
        decreases to - i,
    {
        push(&mut text, list[i]);
        i += 1;
        assert(text@ =~= list@.subrange(from as int, i as int));
    }
    text
}

/// Unicode's White_Space property.
pub open spec fn is_white_space(c: char) -> bool {
    let code = c as u32;
    ||| 0x09 <= code <= 0x0D
    ||| code == 0x20
    ||| code == 0x85
    ||| code == 0xA0
    ||| code == 0x1680
    ||| 0x2000 <= code <= 0x200A
    ||| code == 0x2028
    ||| code == 0x2029
    ||| code == 0x202F
    ||| code == 0x205F
    ||| code == 0x3000
}

fn white_space(c: char) -> (answer: bool)
    ensures
        answer == is_white_space(c),
{
    let code: u32 = c as u32;
    (0x09 <= code && code <= 0x0D) || code == 0x20 || code == 0x85 || code == 0xA0 || code == 0x1680
        || (0x2000 <= code && code <= 0x200A) || code == 0x2028 || code == 0x2029 || code == 0x202F
        || code == 0x205F || code == 0x3000
}

pub open spec fn trimmed_start(text: Seq<char>) -> Seq<char>
    decreases text.len(),
{
    if text.len() > 0 && is_white_space(text[0]) {
        trimmed_start(text.drop_first())
    } else {
        text
    }
}

pub open spec fn trimmed_end(text: Seq<char>) -> Seq<char>
    decreases text.len(),
{
    if text.len() > 0 && is_white_space(text.last()) {
        trimmed_end(text.drop_last())
    } else {
        text
    }
}

/// A text without the white space around it.
pub open spec fn trimmed(text: Seq<char>) -> Seq<char> {
    trimmed_end(trimmed_start(text))
}

/// A text without the white space around it.
pub fn trim(text: &str) -> (result: String)
    ensures
        result@ == trimmed(text@),
{
    let list = characters(text);
    let mut from: usize = 0;
    assert(list@.skip(0) =~= list@);
    while from < list.len() && white_space(list[from])
        invariant
            0 <= from <= list@.len(),
            trimmed_start(list@) == trimmed_start(list@.skip(from as int)),
        decreases list@.len() - from,
    {
        assert(list@.skip(from as int).drop_first() =~= list@.skip(from + 1));
        from += 1;
    }
    assert(trimmed_start(list@) == list@.skip(from as int));
    let mut to: usize = list.len();
    assert(list@.skip(from as int) =~= list@.subrange(from as int, to as int));
    while to > from && white_space(list[to - 1])
        invariant
            0 <= from <= to <= list@.len(),
            trimmed(list@) == trimmed_end(list@.subrange(from as int, to as int)),
        decreases to,
    {
        assert(list@.subrange(from as int, to as int).drop_last() =~= list@.subrange(
            from as int,
            to - 1,
        ));
        to -= 1;
    }
    text_of(&list, from, to)
}

/// One character in lower case, as far as it is an ASCII letter.
pub open spec fn lowered(c: char) -> char {
    if 'A' <= c && c <= 'Z' {
        ((c as u32 + 32) as u32) as char
    } else {
        c
    }
}

/// A text with its ASCII letters in lower case.
pub open spec fn ascii_lower(text: Seq<char>) -> Seq<char> {
    text.map_values(|c: char| lowered(c))
}

/// Whether `part` stands somewhere in `whole`.
pub open spec fn occurs(whole: Seq<char>, part: Seq<char>) -> bool {
    exists|at: int| #[trigger] stands_at(whole, part, at)
}

pub open spec fn stands_at(whole: Seq<char>, part: Seq<char>, at: int) -> bool {
    0 <= at && at + part.len() <= whole.len() && whole.subrange(at, at + part.len()) == part
}

fn lower(c: char) -> (result: char)
    ensures
        result == lowered(c),
{
    if 'A' <= c && c <= 'Z' {
        match scalar(c as u32 + 32) {
            Some(result) => {
                proof {
                    utf8::char_u32_cast(result, (c as u32 + 32) as u32);
                }
                result
            },
            None => c,
        }
    } else {
        c
    }
}

fn lower_all(text: &str) -> (list: Vec<char>)
    ensures
        list@ == ascii_lower(text@),
{
    let source = characters(text);
    let mut list: Vec<char> = Vec::new();
    let mut i: usize = 0;
    while i < source.len()
        invariant
            0 <= i <= source@.len(),
            list@.len() == i,
            forall|j: int| 0 <= j < i ==> list@[j] == lowered(source@[j]),
        decreases source@.len() - i,
    {
        list.push(lower(source[i]));
        i += 1;
    }
    assert(list@ =~= ascii_lower(text@));
    list
}

/// Whether two texts are the same, ASCII case aside.
pub fn same_ignoring_case(a: &str, b: &str) -> (same: bool)
    ensures
        same == (ascii_lower(a@) == ascii_lower(b@)),
{
    let left = lower_all(a);
    let right = lower_all(b);
    if left.len() != right.len() {
        return false;
    }
    let mut i: usize = 0;
    while i < left.len()
        invariant
            0 <= i <= left@.len(),
            left@ == ascii_lower(a@),
            right@ == ascii_lower(b@),
            left@.len() == right@.len(),
            forall|j: int| 0 <= j < i ==> left@[j] == right@[j],
        decreases left@.len() - i,
    {
        if left[i] != right[i] {
            return false;
        }
        i += 1;
    }
    assert(left@ =~= right@);
    true
}

/// Whether `part` stands somewhere in `whole`, ASCII case aside.
pub fn occurs_ignoring_case(whole: &str, part: &str) -> (found: bool)
    ensures
        found == occurs(ascii_lower(whole@), ascii_lower(part@)),
{
    let hay = lower_all(whole);
    let needle = lower_all(part);
    if needle.len() > hay.len() {
        return false;
    }
    let mut at: usize = 0;
    while at <= hay.len() - needle.len()
        invariant
            needle@.len() <= hay@.len() <= usize::MAX,
            hay@ == ascii_lower(whole@),
            needle@ == ascii_lower(part@),
            0 <= at <= hay@.len() - needle@.len() + 1,
            forall|k: int| 0 <= k < at ==> !#[trigger] stands_at(hay@, needle@, k),
        decreases hay@.len() - needle@.len() + 1 - at,
    {
        let mut i: usize = 0;
        while i < needle.len() && hay[at + i] == needle[i]
            invariant
                0 <= i <= needle@.len(),
                at + needle@.len() <= hay@.len() <= usize::MAX,
                forall|j: int| 0 <= j < i ==> hay@[at + j] == needle@[j],
            decreases needle@.len() - i,
        {
            i += 1;
        }
        if i == needle.len() {
            assert(hay@.subrange(at as int, at + needle@.len()) =~= needle@);
            assert(stands_at(hay@, needle@, at as int));
            return true;
        }
        assert(hay@.subrange(at as int, at + needle@.len())[i as int] != needle@[i as int]);
        if at == hay.len() - needle.len() {
            return false;
        }
        at += 1;
    }
    false
}

pub open spec fn is_high_surrogate(unit: u16) -> bool {
    0xD800 <= unit <= 0xDBFF
}

pub open spec fn is_low_surrogate(unit: u16) -> bool {
    0xDC00 <= unit <= 0xDFFF
}

/// The number that a pair of surrogates stands for.
pub open spec fn paired(high: u16, low: u16) -> u32 {
    (0x10000 + (high - 0xD800) * 0x400 + (low - 0xDC00)) as u32
}

/// The text that a sequence of units spells in UTF-16, if every surrogate is paired.
pub open spec fn utf16_text(units: Seq<u16>) -> Option<Seq<char>>
    decreases units.len(),
{
    if units.len() == 0 {
        Some(Seq::empty())
    } else if is_high_surrogate(units[0]) {
        if units.len() > 1 && is_low_surrogate(units[1]) {
            match utf16_text(units.skip(2)) {
                Some(rest) => Some(seq![paired(units[0], units[1]) as char] + rest),
                None => None,
            }
        } else {
            None
        }
    } else if is_low_surrogate(units[0]) {
        None
    } else {
        match utf16_text(units.skip(1)) {
            Some(rest) => Some(seq![units[0] as char] + rest),
            None => None,
        }
    }
}

/// What is known of a text whose first units have been read.
pub open spec fn utf16_after(done: Seq<char>, rest: Option<Seq<char>>) -> Option<Seq<char>> {
    match rest {
        Some(rest) => Some(done + rest),
        None => None,
    }
}

/// The text that a sequence of units spells in UTF-16, if every surrogate is paired.
pub fn from_utf16(units: &Vec<u16>) -> (result: Option<String>)
    ensures
        match result {
            Some(text) => utf16_text(units@) == Some(text@),
            None => utf16_text(units@) is None,
        },
{
    let mut text = String::new();
    let count: usize = units.len();
    let mut i: usize = 0;
    assert(units@.skip(0) =~= units@);
    assert(forall|rest: Seq<char>| text@ + rest =~= rest);
    while i < count
        invariant
            count == units@.len(),
            0 <= i <= count,
            utf16_text(units@) == utf16_after(text@, utf16_text(units@.skip(i as int))),
        decreases units@.len() - i,
    {
        let ghost left = units@.skip(i as int);
        let ghost before = text@;
        let unit: u16 = units[i];
        if 0xD800 <= unit && unit <= 0xDBFF {
            if count - i < 2 {
                return None;
            }
            let low: u16 = units[i + 1];
            assert(left[1] == low);
            if !(0xDC00 <= low && low <= 0xDFFF) {
                return None;
            }
            let code: u32 = 0x10000 + (unit as u32 - 0xD800) * 0x400 + (low as u32 - 0xDC00);
            match scalar(code) {
                Some(c) => {
                    push(&mut text, c);
                    proof {
                        assert(code == paired(unit, low));
                        utf8::char_u32_cast(c, code);
                        assert(left.skip(2) =~= units@.skip(i + 2));
                        if let Some(rest) = utf16_text(units@.skip(i + 2)) {
                            assert(before + (seq![c] + rest) =~= before.push(c) + rest);
                        }
                    }
                },
                None => {
                    return None;
                },
            }
            i += 2;
        } else if 0xDC00 <= unit && unit <= 0xDFFF {
            return None;
        } else {
            match scalar(unit as u32) {
                Some(c) => {
                    push(&mut text, c);
                    proof {
                        utf8::char_u32_cast(c, unit as u32);
                        assert(c == unit as char);
                        assert(left.skip(1) =~= units@.skip(i + 1));
                        if let Some(rest) = utf16_text(units@.skip(i + 1)) {
                            assert(before + (seq![c] + rest) =~= before.push(c) + rest);
                        }
                    }
                },
                None => {
                    return None;
                },
            }
            i += 1;
        }
    }
    assert(units@.skip(units@.len() as int) =~= Seq::empty());
    assert(text@ + Seq::<char>::empty() =~= text@);
    Some(text)
}

/// The number of bytes that a text takes in UTF-8.
pub open spec fn byte_len(text: Seq<char>) -> nat {
    utf8::encode_utf8(text).len()
}

/// The number of bytes that a text takes in UTF-8.
pub fn length_in_bytes(text: &str) -> (length: usize)
    ensures
        length == byte_len(text@),
{
    text.as_bytes().len()
}

} // verus!
