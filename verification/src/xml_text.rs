//! Character references in XML text.

use crate::plist;
use crate::probe::{AppError, AppFault};
use crate::text;
use crate::unicode;
use vstd::prelude::*;
use vstd::string::*;

verus! {

/// The value of a digit, in a number system with at most sixteen digits.
pub open spec fn digit_value(c: char, radix: nat) -> Option<nat> {
    let value: Option<nat> = if '0' <= c && c <= '9' {
        Some((c as nat - '0' as nat) as nat)
    } else if 'a' <= c && c <= 'f' {
        Some((c as nat - 'a' as nat + 10) as nat)
    } else if 'A' <= c && c <= 'F' {
        Some((c as nat - 'A' as nat + 10) as nat)
    } else {
        None
    };
    match value {
        Some(value) if value < radix => Some(value),
        _ => None,
    }
}

/// The number that a string of digits spells.
pub open spec fn digits_value(digits: Seq<char>, radix: nat) -> Option<nat>
    decreases digits.len(),
{
    if digits.len() == 0 {
        Some(0)
    } else {
        match (digits_value(digits.drop_last(), radix), digit_value(digits.last(), radix)) {
            (Some(high), Some(low)) => Some(high * radix + low),
            _ => None,
        }
    }
}

/// The digits of a number, which may have a plus sign in front.
pub open spec fn unsigned(text: Seq<char>) -> Seq<char> {
    if text.len() > 0 && text[0] == '+' {
        text.skip(1)
    } else {
        text
    }
}

/// The number that a text spells, if it is one that fits in thirty-two bits.
pub open spec fn number(text: Seq<char>, radix: nat) -> Option<u32> {
    let digits = unsigned(text);
    if digits.len() == 0 {
        None
    } else {
        match digits_value(digits, radix) {
            Some(value) if value <= u32::MAX => Some(value as u32),
            _ => None,
        }
    }
}

fn digit_of(c: char, radix: u32) -> (result: Option<u32>)
    requires
        radix <= 16,
    ensures
        match result {
            Some(value) => digit_value(c, radix as nat) == Some(value as nat) && value < radix,
            None => digit_value(c, radix as nat) is None,
        },
{
    let code: u32 = c as u32;
    let value: u32 = if '0' <= c && c <= '9' {
        code - 48
    } else if 'a' <= c && c <= 'f' {
        code - 97 + 10
    } else if 'A' <= c && c <= 'F' {
        code - 65 + 10
    } else {
        return None;
    };
    if value < radix {
        Some(value)
    } else {
        None
    }
}

proof fn lemma_digits_fail(digits: Seq<char>, radix: nat, n: int)
    requires
        0 <= n <= digits.len(),
        digits_value(digits.take(n), radix) is None,
    ensures
        digits_value(digits, radix) is None,
    decreases digits.len() - n,
{
    if n < digits.len() {
        assert(digits.take(n + 1).drop_last() =~= digits.take(n));
        lemma_digits_fail(digits, radix, n + 1);
    } else {
        assert(digits.take(n) =~= digits);
    }
}

proof fn lemma_digits_grow(digits: Seq<char>, radix: nat, n: int)
    requires
        0 <= n <= digits.len(),
        radix >= 1,
        digits_value(digits.take(n), radix) matches Some(part) && part > u32::MAX,
    ensures
        digits_value(digits, radix) matches Some(whole) ==> whole > u32::MAX,
    decreases digits.len() - n,
{
    if n < digits.len() {
        assert(digits.take(n + 1).drop_last() =~= digits.take(n));
        let part = digits_value(digits.take(n), radix)->0;
        if digits_value(digits.take(n + 1), radix) is None {
            lemma_digits_fail(digits, radix, n + 1);
        } else {
            assert(part * radix >= part) by (nonlinear_arith)
                requires
                    radix >= 1,
                    part >= 0,
            ;
            lemma_digits_grow(digits, radix, n + 1);
        }
    } else {
        assert(digits.take(n) =~= digits);
    }
}

/// The number that the characters from `from` on spell.
fn read_number(list: &Vec<char>, from: usize, radix: u32) -> (result: Option<u32>)
    requires
        from <= list@.len(),
        radix == 10 || radix == 16,
    ensures
        result == number(list@.skip(from as int), radix as nat),
{
    let count: usize = list.len();
    let mut start: usize = from;
    if start < count && list[start] == '+' {
        start += 1;
    }
    let ghost digits = list@.skip(start as int);
    assert(unsigned(list@.skip(from as int)) =~= digits);
    if start == count {
        return None;
    }
    let mut value: u32 = 0;
    let mut i: usize = start;
    assert(digits.take(0) =~= Seq::empty());
    while i < count
        invariant
            start <= i <= count,
            count == list@.len(),
            radix == 10 || radix == 16,
            digits == list@.skip(start as int),
            digits.len() > 0,
            digits == unsigned(list@.skip(from as int)),
            digits_value(digits.take(i - start), radix as nat) == Some(value as nat),
        decreases count - i,
    {
        proof {
            assert(digits.take(i - start + 1).drop_last() =~= digits.take(i - start));
            assert(digits.take(i - start + 1).last() == list@[i as int]);
        }
        let digit: u32 = match digit_of(list[i], radix) {
            Some(digit) => digit,
            None => {
                proof {
                    lemma_digits_fail(digits, radix as nat, i - start + 1);
                }
                return None;
            },
        };
        let wide: u64 = value as u64 * radix as u64 + digit as u64;
        if wide > u32::MAX as u64 {
            proof {
                lemma_digits_grow(digits, radix as nat, i - start + 1);
            }
            return None;
        }
        value = wide as u32;
        i += 1;
    }
    assert(digits.take(count - start) =~= digits);
    Some(value)
}

/// The characters that XML lets a document hold.
pub open spec fn is_xml_scalar(code: u32) -> bool {
    ||| code == 0x9
    ||| code == 0xA
    ||| code == 0xD
    ||| 0x20 <= code <= 0xD7FF
    ||| 0xE000 <= code <= 0xFFFD
    ||| 0x10000 <= code <= 0x10FFFF
}

/// Whether XML lets a document hold a character.
pub fn is_valid_xml_scalar(c: char) -> (valid: bool)
    ensures
        valid == is_xml_scalar(c as u32),
{
    let code: u32 = c as u32;
    code == 0x9 || code == 0xA || code == 0xD || (0x20 <= code && code <= 0xD7FF) || (0xE000 <= code
        && code <= 0xFFFD) || (0x10000 <= code && code <= 0x10FFFF)
}

/// The character with the given number, if XML lets a document hold it.
pub open spec fn numbered(code: Option<u32>) -> Result<char, AppFault> {
    match code {
        None => Err(plist::malformed("invalid XML character entity"@)),
        Some(code) => if is_xml_scalar(code) {
            Ok(code as char)
        } else {
            Err(plist::malformed("invalid XML scalar"@))
        },
    }
}

/// The character that a reference stands for.
pub open spec fn entity_char(entity: Seq<char>) -> Result<char, AppFault> {
    if entity == "lt"@ {
        Ok('<')
    } else if entity == "gt"@ {
        Ok('>')
    } else if entity == "amp"@ {
        Ok('&')
    } else if entity == "apos"@ {
        Ok('\'')
    } else if entity == "quot"@ {
        Ok('"')
    } else if entity.len() >= 2 && entity[0] == '#' && (entity[1] == 'x' || entity[1] == 'X') {
        numbered(number(entity.skip(2), 16))
    } else if entity.len() >= 1 && entity[0] == '#' {
        numbered(number(entity.skip(1), 10))
    } else {
        Err(plist::malformed("unsupported XML entity"@))
    }
}

pub open spec fn char_result(result: Result<char, AppError>) -> Result<char, AppFault> {
    match result {
        Ok(c) => Ok(c),
        Err(error) => Err(error@),
    }
}

fn numbered_char(code: Option<u32>) -> (result: Result<char, AppError>)
    ensures
        char_result(result) == numbered(code),
{
    let code: u32 = match code {
        Some(code) => code,
        None => {
            return Err(plist::malformed_error("invalid XML character entity"));
        },
    };
    match unicode::scalar(code) {
        Some(c) => {
            proof {
                vstd::utf8::char_u32_cast(c, code);
            }
            if is_valid_xml_scalar(c) {
                Ok(c)
            } else {
                Err(plist::malformed_error("invalid XML scalar"))
            }
        },
        None => Err(plist::malformed_error("invalid XML scalar")),
    }
}

/// The character that a reference stands for.
pub fn decode_xml_entity(entity: &str) -> (result: Result<char, AppError>)
    ensures
        char_result(result) == entity_char(entity@),
{
    if text::text_eq(entity, "lt") {
        return Ok('<');
    }
    if text::text_eq(entity, "gt") {
        return Ok('>');
    }
    if text::text_eq(entity, "amp") {
        return Ok('&');
    }
    if text::text_eq(entity, "apos") {
        return Ok('\'');
    }
    if text::text_eq(entity, "quot") {
        return Ok('"');
    }
    let list = unicode::characters(entity);
    if list.len() >= 2 && list[0] == '#' && (list[1] == 'x' || list[1] == 'X') {
        return numbered_char(read_number(&list, 2, 16));
    }
    if list.len() >= 1 && list[0] == '#' {
        return numbered_char(read_number(&list, 1, 10));
    }
    Err(plist::malformed_error("unsupported XML entity"))
}

/// Where a character first stands in a text: its length if it does not.
pub open spec fn place_of(text: Seq<char>, c: char) -> nat
    decreases text.len(),
{
    if text.len() == 0 || text[0] == c {
        0
    } else {
        1 + place_of(text.drop_first(), c)
    }
}

proof fn lemma_place_of(text: Seq<char>, c: char)
    ensures
        place_of(text, c) <= text.len(),
    decreases text.len(),
{
    if text.len() > 0 && text[0] != c {
        lemma_place_of(text.drop_first(), c);
    }
}

fn find(list: &Vec<char>, from: usize, c: char) -> (at: usize)
    requires
        from <= list@.len(),
    ensures
        at == from + place_of(list@.skip(from as int), c),
        from <= at <= list@.len(),
{
    let mut at: usize = from;
    while at < list.len() && list[at] != c
        invariant
            from <= at <= list@.len(),
            from + place_of(list@.skip(from as int), c) == at + place_of(
                list@.skip(at as int),
                c,
            ),
        decreases list@.len() - at,
    {
        assert(list@.skip(at as int).drop_first() =~= list@.skip(at + 1));
        at += 1;
    }
    at
}

/// A text with its references replaced by what they stand for.
pub open spec fn unescaped(text: Seq<char>) -> Result<Seq<char>, AppFault>
    decreases text.len(),
    via unescaped_decreases
{
    let at = place_of(text, '&') as int;
    if at >= text.len() {
        Ok(text)
    } else {
        let suffix = text.skip(at + 1);
        let end = place_of(suffix, ';') as int;
        if end >= suffix.len() {
            Err(plist::malformed("unterminated XML entity"@))
        } else {
            match entity_char(suffix.take(end)) {
                Err(found) => Err(found),
                Ok(c) => match unescaped(suffix.skip(end + 1)) {
                    Err(found) => Err(found),
                    Ok(rest) => Ok(text.take(at) + seq![c] + rest),
                },
            }
        }
    }
}

#[via_fn]
proof fn unescaped_decreases(text: Seq<char>) {
    lemma_place_of(text, '&');
    lemma_place_of(text.skip(place_of(text, '&') as int + 1), ';');
}

pub open spec fn text_result(result: Result<String, AppError>) -> Result<Seq<char>, AppFault> {
    match result {
        Ok(text) => Ok(text@),
        Err(error) => Err(error@),
    }
}

/// What a text comes to when its first part is done.
pub open spec fn continued(done: Seq<char>, rest: Result<Seq<char>, AppFault>) -> Result<
    Seq<char>,
    AppFault,
> {
    match rest {
        Ok(rest) => Ok(done + rest),
        Err(found) => Err(found),
    }
}

/// The text of raw bytes, with its references replaced by what they stand for.
pub open spec fn decoded_text(raw: Seq<u8>) -> Result<Seq<char>, AppFault> {
    match unicode::utf8_text(raw) {
        None => Err(plist::malformed("invalid UTF-8 text"@)),
        Some(text) => unescaped(text),
    }
}

/// The text of raw bytes, with its references replaced by what they stand for.
pub fn decode_xml_text(raw: &[u8]) -> (result: Result<String, AppError>)
    ensures
        text_result(result) == decoded_text(raw@),
{
    let whole: String = match unicode::from_utf8(raw) {
        Some(whole) => whole,
        None => {
            return Err(plist::malformed_error("invalid UTF-8 text"));
        },
    };
    let list = unicode::characters(whole.as_str());
    let count: usize = list.len();
    let mut output = String::new();
    let mut from: usize = 0;
    assert(list@.skip(0) =~= list@);
    proof {
        match unescaped(list@) {
            Ok(rest) => {
                assert(output@ + rest =~= rest);
            },
            Err(_) => {},
        }
    }
    loop
        invariant
            count == list@.len(),
            0 <= from <= count,
            unescaped(list@) == continued(output@, unescaped(list@.skip(from as int))),
            decoded_text(raw@) == unescaped(list@),
        decreases count - from,
    {
        let ghost rest = list@.skip(from as int);
        let at: usize = find(&list, from, '&');
        let piece = unicode::text_of(&list, from, at);
        assert(piece@ =~= rest.take(at - from));
        if at == count {
            assert(piece@ =~= rest);
            output.append(piece.as_str());
            return Ok(output);
        }
        let ghost suffix = rest.skip(at - from + 1);
        assert(suffix =~= list@.skip(at + 1));
        let end: usize = find(&list, at + 1, ';');
        if end == count {
            return Err(plist::malformed_error("unterminated XML entity"));
        }
        let entity = unicode::text_of(&list, at + 1, end);
        assert(entity@ =~= suffix.take(end - at - 1));
        let c: char = match decode_xml_entity(entity.as_str()) {
            Ok(c) => c,
            Err(error) => {
                return Err(error);
            },
        };
        let ghost before = output@;
        output.append(piece.as_str());
        unicode::push(&mut output, c);
        proof {
            assert(suffix.skip(end - at) =~= list@.skip(end + 1));
            match unescaped(list@.skip(end + 1)) {
                Ok(tail) => {
                    assert(before + (rest.take(at - from) + seq![c] + tail) =~= (before
                        + rest.take(at - from)).push(c) + tail);
                },
                Err(_) => {},
            }
        }
        from = end + 1;
    }
}

/// The character that a reference's raw name stands for.
pub open spec fn decoded_ref(raw: Seq<u8>) -> Result<char, AppFault> {
    match unicode::utf8_text(raw) {
        None => Err(plist::malformed("unsupported XML entity"@)),
        Some(entity) => entity_char(entity),
    }
}

/// The text that a reference's raw name stands for: one character.
pub fn decode_xml_general_ref(raw: &[u8]) -> (result: Result<String, AppError>)
    ensures
        text_result(result) == match decoded_ref(raw@) {
            Ok(c) => Ok(seq![c]),
            Err(found) => Err(found),
        },
{
    let entity: String = match unicode::from_utf8(raw) {
        Some(entity) => entity,
        None => {
            return Err(plist::malformed_error("unsupported XML entity"));
        },
    };
    match decode_xml_entity(entity.as_str()) {
        Ok(c) => {
            let mut one = String::new();
            unicode::push(&mut one, c);
            assert(one@ =~= seq![c]);
            Ok(one)
        },
        Err(error) => Err(error),
    }
}

} // verus!
