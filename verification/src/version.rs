//! The order of release versions.

use vstd::prelude::*;
use vstd::string::*;

verus! {

/// How a candidate version stands to the current one.
#[derive(Clone, Copy, Debug, PartialEq, Eq, Structural)]
pub enum VersionOrder {
    Newer,
    Equal,
    Older,
    Unknown,
}

/// How one value stands to another.
#[derive(Clone, Copy, Debug, PartialEq, Eq, Structural)]
pub enum Sign {
    Less,
    Same,
    Greater,
}

impl Sign {
    pub open spec fn flipped(self) -> Sign {
        match self {
            Sign::Less => Sign::Greater,
            Sign::Same => Sign::Same,
            Sign::Greater => Sign::Less,
        }
    }
}

/// Whether a text is a semantic version.
pub uninterp spec fn is_semver(text: Seq<char>) -> bool;

/// How the semantic version that one text spells stands to the one that another spells.
pub uninterp spec fn semver_sign(a: Seq<char>, b: Seq<char>) -> Sign;

/// `semver::Version::parse`: whether a text is a semantic version. Which texts are is
/// left to that crate.
#[verifier::external_body]
fn parses(text: &str) -> (valid: bool)
    ensures
        valid == is_semver(text@),
{
    semver::Version::parse(text).is_ok()
}

/// The order of `semver::Version` (`Ord`), which counts build metadata: a total order, so
/// that a version equals itself and exchanging the two flips the answer.
#[verifier::external_body]
fn compare_parsed(a: &str, b: &str) -> (sign: Sign)
    requires
        is_semver(a@),
        is_semver(b@),
    ensures
        sign == semver_sign(a@, b@),
        a@ == b@ ==> sign == Sign::Same,
        sign == semver_sign(b@, a@).flipped(),
{
    match semver::Version::parse(a).unwrap().cmp(&semver::Version::parse(b).unwrap()) {
        std::cmp::Ordering::Less => Sign::Less,
        std::cmp::Ordering::Equal => Sign::Same,
        std::cmp::Ordering::Greater => Sign::Greater,
    }
}

/// How a candidate stands to the current version: unknown unless both are semantic
/// versions.
pub open spec fn version_order(current: Seq<char>, candidate: Seq<char>) -> VersionOrder {
    if !is_semver(current) || !is_semver(candidate) {
        VersionOrder::Unknown
    } else {
        order_of(semver_sign(current, candidate))
    }
}

/// How a candidate stands to the current version, from how the current one compares
/// with it.
pub open spec fn order_of(sign: Sign) -> VersionOrder {
    match sign {
        Sign::Less => VersionOrder::Newer,
        Sign::Same => VersionOrder::Equal,
        Sign::Greater => VersionOrder::Older,
    }
}

/// How a candidate stands to the current version, from the comparison of the two.
pub fn classify_order(sign: Sign) -> (order: VersionOrder)
    ensures
        order == order_of(sign),
{
    match sign {
        Sign::Less => VersionOrder::Newer,
        Sign::Same => VersionOrder::Equal,
        Sign::Greater => VersionOrder::Older,
    }
}

/// How a candidate stands to the current version.
pub fn compare_versions(current: &str, candidate: &str) -> (order: VersionOrder)
    ensures
        order == version_order(current@, candidate@),
        current@ == candidate@ ==> order == VersionOrder::Equal || order == VersionOrder::Unknown,
{
    if !parses(current) || !parses(candidate) {
        return VersionOrder::Unknown;
    }
    classify_order(compare_parsed(current, candidate))
}

/// The characters that a release version may hold.
pub open spec fn version_char(c: char) -> bool {
    ('a' <= c && c <= 'z') || ('A' <= c && c <= 'Z') || ('0' <= c && c <= '9') || c == '.' || c
        == '+' || c == '-' || c == '_'
}

/// Whether a text can name a release: between one and 128 plain characters.
pub open spec fn is_version(version: Seq<char>) -> bool {
    &&& 0 < version.len() <= 128
    &&& forall|i: int| 0 <= i < version.len() ==> version_char(#[trigger] version[i])
}

/// Whether a text can name a release.
pub fn version_valid(version: &str) -> (valid: bool)
    ensures
        valid == is_version(version@),
{
    let count: usize = version.unicode_len();
    let mut i: usize = 0;
    while i < count
        invariant
            0 <= i <= count,
            count == version@.len(),
            forall|j: int| 0 <= j < i ==> version_char(#[trigger] version@[j]),
        decreases count - i,
    {
        let c: char = version.get_char(i);
        if !(('a' <= c && c <= 'z') || ('A' <= c && c <= 'Z') || ('0' <= c && c <= '9') || c == '.'
            || c == '+' || c == '-' || c == '_') {
            assert(!version_char(version@[i as int]));
            return false;
        }
        i += 1;
    }
    0 < count && count <= 128
}

/// The character of a decimal digit.
pub open spec fn digit_char(digit: nat) -> char {
    match digit as u8 {
        0 => '0',
        1 => '1',
        2 => '2',
        3 => '3',
        4 => '4',
        5 => '5',
        6 => '6',
        7 => '7',
        8 => '8',
        _ => '9',
    }
}

/// The decimal form of a number.
pub open spec fn decimal(value: nat) -> Seq<char>
    decreases value,
{
    if value < 10 {
        seq![digit_char(value)]
    } else {
        decimal(value / 10).push(digit_char(value % 10))
    }
}

fn digit_text(digit: u64) -> (text: &'static str)
    requires
        digit < 10,
    ensures
        text@ == seq![digit_char(digit as nat)],
{
    proof {
        reveal_strlit("0");
        reveal_strlit("1");
        reveal_strlit("2");
        reveal_strlit("3");
        reveal_strlit("4");
        reveal_strlit("5");
        reveal_strlit("6");
        reveal_strlit("7");
        reveal_strlit("8");
        reveal_strlit("9");
    }
    match digit {
        0 => "0",
        1 => "1",
        2 => "2",
        3 => "3",
        4 => "4",
        5 => "5",
        6 => "6",
        7 => "7",
        8 => "8",
        _ => "9",
    }
}

/// The decimal form of a number.
pub fn decimal_text(value: u64) -> (text: String)
    ensures
        text@ == decimal(value as nat),
    decreases value,
{
    if value < 10 {
        digit_text(value).to_owned()
    } else {
        let mut text: String = decimal_text(value / 10);
        text.append(digit_text(value % 10));
        assert(text@ =~= decimal(value as nat));
        text
    }
}

/// The octal form of a number.
pub open spec fn octal(value: nat) -> Seq<char>
    decreases value,
{
    if value < 8 {
        seq![digit_char(value)]
    } else {
        octal(value / 8).push(digit_char(value % 8))
    }
}

/// The octal form of a number.
pub fn octal_text(value: u64) -> (text: String)
    ensures
        text@ == octal(value as nat),
    decreases value,
{
    if value < 8 {
        digit_text(value).to_owned()
    } else {
        let mut text: String = octal_text(value / 8);
        text.append(digit_text(value % 8));
        assert(text@ =~= octal(value as nat));
        text
    }
}

/// The text of a packed version: sixteen bits of major, eight of minor and eight of
/// patch.
pub open spec fn packed_version(raw: u32) -> Seq<char> {
    decimal((raw / 65536) as nat) + "."@ + decimal(((raw / 256) % 256) as nat) + "."@ + decimal(
        (raw % 256) as nat,
    )
}

/// The text of a packed version.
pub fn decode_version(raw: u32) -> (text: String)
    ensures
        text@ == packed_version(raw),
{
    let mut text: String = decimal_text((raw / 65536) as u64);
    text.append(".");
    text.append(decimal_text(((raw / 256) % 256) as u64).as_str());
    text.append(".");
    text.append(decimal_text((raw % 256) as u64).as_str());
    text
}

} // verus!
