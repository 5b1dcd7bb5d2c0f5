//! Byte strings in hexadecimal.

use vstd::prelude::*;
use vstd::string::*;
use vstd::utf8::*;

verus! {

/// The lower-case hexadecimal digit of a number below sixteen.
pub open spec fn digit(value: int) -> char {
    match value as u8 {
        0 => '0',
        1 => '1',
        2 => '2',
        3 => '3',
        4 => '4',
        5 => '5',
        6 => '6',
        7 => '7',
        8 => '8',
        9 => '9',
        10 => 'a',
        11 => 'b',
        12 => 'c',
        13 => 'd',
        14 => 'e',
        _ => 'f',
    }
}

/// Two lower-case digits for each byte.
pub open spec fn encoded(bytes: Seq<u8>) -> Seq<char>
    decreases bytes.len(),
{
    if bytes.len() == 0 {
        Seq::empty()
    } else {
        encoded(bytes.drop_last()) + seq![
            digit((bytes.last() / 16) as int),
            digit((bytes.last() % 16) as int),
        ]
    }
}

fn digit_text(value: u8) -> (text: &'static str)
    requires
        value < 16,
    ensures
        text@ == seq![digit(value as int)],
{
    proof {
        reveal_strlit("0");
        reveal_strlit("1");
        reveal_strlit("2");
        reveal_strlit("3");
        reveal_strlit("4");
        reveal_strlit("5");
        reveal_strlit("6");
        reveal_strlit("7");
        reveal_strlit("8");
        reveal_strlit("9");
        reveal_strlit("a");
        reveal_strlit("b");
        reveal_strlit("c");
        reveal_strlit("d");
        reveal_strlit("e");
        reveal_strlit("f");
    }
    match value {
        0 => "0",
        1 => "1",
        2 => "2",
        3 => "3",
        4 => "4",
        5 => "5",
        6 => "6",
        7 => "7",
        8 => "8",
        9 => "9",
        10 => "a",
        11 => "b",
        12 => "c",
        13 => "d",
        14 => "e",
        _ => "f",
    }
}

/// Two lower-case digits for each byte.
pub fn encode_hex(bytes: &[u8]) -> (text: String)
    ensures
        text@ == encoded(bytes@),
{
    let mut text: String = String::new();
    let mut i: usize = 0;
    assert(bytes@.take(0) =~= Seq::empty());
    while i < bytes.len()
        invariant
            0 <= i <= bytes@.len(),
            text@ == encoded(bytes@.take(i as int)),
        decreases bytes@.len() - i,
    {
        text.append(digit_text(bytes[i] / 16));
        text.append(digit_text(bytes[i] % 16));
        assert(bytes@.take(i + 1).drop_last() =~= bytes@.take(i as int));
        assert(text@ =~= encoded(bytes@.take(i + 1)));
        i += 1;
    }
    assert(bytes@.take(bytes@.len() as int) =~= bytes@);
    text
}

/// The value of a hexadecimal digit of either case.
pub open spec fn digit_value(byte: u8) -> Option<u8> {
    if 48 <= byte && byte <= 57 {
        Some((byte - 48) as u8)
    } else if 97 <= byte && byte <= 102 {
        Some((byte - 87) as u8)
    } else if 65 <= byte && byte <= 70 {
        Some((byte - 55) as u8)
    } else {
        None
    }
}

/// The byte that two characters spell: two digits, or a plus sign and one digit.
pub open spec fn pair_value(high: u8, low: u8) -> Option<u8> {
    match (digit_value(high), digit_value(low)) {
        (Some(h), Some(l)) => Some((16 * h + l) as u8),
        (None, Some(l)) if high == 43 => Some(l),
        _ => None,
    }
}

/// The bytes that a text of pairs spells.
pub open spec fn decoded(text: Seq<u8>) -> Option<Seq<u8>>
    decreases text.len(),
{
    if text.len() == 0 {
        Some(Seq::empty())
    } else if text.len() == 1 {
        None
    } else {
        match (
            decoded(text.take(text.len() - 2)),
            pair_value(text[text.len() - 2], text[text.len() - 1]),
        ) {
            (Some(head), Some(byte)) => Some(head.push(byte)),
            _ => None,
        }
    }
}

fn value_of(byte: u8) -> (value: Option<u8>)
    ensures
        value == digit_value(byte),
{
    if 48 <= byte && byte <= 57 {
        Some(byte - 48)
    } else if 97 <= byte && byte <= 102 {
        Some(byte - 87)
    } else if 65 <= byte && byte <= 70 {
        Some(byte - 55)
    } else {
        None
    }
}

fn pair(high: u8, low: u8) -> (value: Option<u8>)
    ensures
        value == pair_value(high, low),
{
    match (value_of(high), value_of(low)) {
        (Some(h), Some(l)) => {
            assert(h < 16 && l < 16);
            Some(16 * h + l)
        },
        (None, Some(l)) => if high == 43 {
            Some(l)
        } else {
            None
        },
        _ => None,
    }
}

proof fn lemma_bad_prefix(text: Seq<u8>, n: int)
    requires
        0 <= n <= text.len(),
        (text.len() - n) % 2 == 0,
        decoded(text.take(n)) is None,
    ensures
        decoded(text) is None,
    decreases text.len() - n,
{
    if n < text.len() {
        assert(text.take(n + 2).take(n) =~= text.take(n));
        lemma_bad_prefix(text, n + 2);
    } else {
        assert(text.take(n) =~= text);
    }
}

proof fn lemma_odd(text: Seq<u8>)
    requires
        text.len() % 2 == 1,
    ensures
        decoded(text) is None,
    decreases text.len(),
{
    if text.len() > 1 {
        lemma_odd(text.take(text.len() - 2));
    }
}

/// The bytes that a text of pairs spells.
pub fn decode_hex(text: &str) -> (bytes: Option<Vec<u8>>)
    ensures
        match bytes {
            Some(list) => decoded(encode_utf8(text@)) == Some(list@),
            None => decoded(encode_utf8(text@)) is None,
        },
{
    let raw: &[u8] = text.as_bytes();
    if raw.len() % 2 != 0 {
        proof {
            lemma_odd(raw@);
        }
        return None;
    }
    let mut bytes: Vec<u8> = Vec::new();
    let mut i: usize = 0;
    assert(raw@.take(0) =~= Seq::empty());
    while i < raw.len()
        invariant
            0 <= i <= raw@.len(),
            raw@.len() <= usize::MAX,
            i % 2 == 0,
            raw@.len() % 2 == 0,
            raw@ == encode_utf8(text@),
            decoded(raw@.take(i as int)) == Some(bytes@),
        decreases raw@.len() - i,
    {
        proof {
            assert(raw@.take(i + 2).take(i as int) =~= raw@.take(i as int));
        }
        match pair(raw[i], raw[i + 1]) {
            Some(byte) => {
                bytes.push(byte);
            },
            None => {
                proof {
                    assert(decoded(raw@.take(i + 2)) is None);
                    lemma_bad_prefix(raw@, i + 2);
                }
                return None;
            },
        }
        assert(decoded(raw@.take(i + 2)) == Some(bytes@));
        i += 2;
    }
    assert(raw@.take(raw@.len() as int) =~= raw@);
    Some(bytes)
}

/// The code of a hexadecimal digit.
proof fn lemma_digit_code(value: int)
    requires
        0 <= value < 16,
    ensures
        '\0' <= digit(value) <= '\u{7f}',
        digit_value(digit(value) as u8) == Some(value as u8),
{
}

/// The characters of encoded bytes are one byte each.
proof fn lemma_encoded_bytes(bytes: Seq<u8>)
    ensures
        encoded(bytes).len() == 2 * bytes.len(),
        is_ascii_chars(encoded(bytes)),
        decoded(Seq::new(encoded(bytes).len(), |i: int| encoded(bytes)[i] as u8)) == Some(bytes),
    decreases bytes.len(),
{
    let text = encoded(bytes);
    let raw = Seq::new(text.len(), |i: int| text[i] as u8);
    if bytes.len() > 0 {
        let head = bytes.drop_last();
        let short = encoded(head);
        lemma_encoded_bytes(head);
        let last = bytes.last();
        lemma_digit_code((last / 16) as int);
        lemma_digit_code((last % 16) as int);
        assert(raw.take(raw.len() - 2) =~= Seq::new(short.len(), |i: int| short[i] as u8));
        assert(raw[raw.len() - 2] == digit((last / 16) as int) as u8);
        assert(raw[raw.len() - 1] == digit((last % 16) as int) as u8);
        assert(head.push(last) =~= bytes);
    } else {
        assert(raw =~= Seq::empty());
        assert(bytes =~= Seq::empty());
    }
}

/// Decoding what was encoded gives the bytes back.
pub proof fn decode_undoes_encode(bytes: Seq<u8>)
    ensures
        decoded(encode_utf8(encoded(bytes))) == Some(bytes),
{
    lemma_encoded_bytes(bytes);
    let text = encoded(bytes);
    is_ascii_chars_encode_utf8(text);
    assert(encode_utf8(text) =~= Seq::new(text.len(), |i: int| text[i] as u8));
}

} // verus!
