//! Small operations on strings and byte strings.

use vstd::prelude::*;
use vstd::string::*;

verus! {

/// Whether two strings hold the same characters.
pub fn text_eq(a: &str, b: &str) -> (same: bool)
    ensures
        same == (a@ == b@),
{
    let left: String = a.to_owned();
    let right: String = b.to_owned();
    left == right
}

/// The first string followed by the second.
pub fn concat(a: &str, b: &str) -> (joined: String)
    ensures
        joined@ == a@ + b@,
{
    let mut joined: String = a.to_owned();
    joined.append(b);
    joined
}

/// The three strings one after the other.
pub fn concat3(a: &str, b: &str, c: &str) -> (joined: String)
    ensures
        joined@ == a@ + b@ + c@,
{
    let mut joined = concat(a, b);
    joined.append(c);
    joined
}

/// The characters of an optional string.
pub open spec fn opt_text(value: Option<String>) -> Option<Seq<char>> {
    match value {
        Some(text) => Some(text@),
        None => None,
    }
}

/// Whether an optional string is present and holds exactly `expected`.
pub fn opt_text_is(value: &Option<String>, expected: &str) -> (same: bool)
    ensures
        same == (opt_text(*value) == Some(expected@)),
{
    match value {
        Some(text) => text_eq(text.as_str(), expected),
        None => false,
    }
}

/// Whether two byte strings hold the same bytes.
pub fn bytes_eq(a: &[u8], b: &[u8]) -> (same: bool)
    ensures
        same == (a@ == b@),
{
    if a.len() != b.len() {
        return false;
    }
    let mut i: usize = 0;
    while i < a.len()
        invariant
            a@.len() == b@.len(),
            0 <= i <= a@.len(),
            forall|j: int| 0 <= j < i ==> a@[j] == b@[j],
        decreases a@.len() - i,
    {
        if a[i] != b[i] {
            return false;
        }
        i += 1;
    }
    assert(a@ =~= b@);
    true
}

/// A copy of a byte string.
pub fn copy_bytes(source: &[u8]) -> (copy: Vec<u8>)
    ensures
        copy@ == source@,
{
    let mut copy: Vec<u8> = Vec::new();
    let mut i: usize = 0;
    while i < source.len()
        invariant
            0 <= i <= source@.len(),
            copy@ == source@.subrange(0, i as int),
        decreases source@.len() - i,
    {
        copy.push(source[i]);
        i += 1;
        assert(copy@ =~= source@.subrange(0, i as int));
    }
    assert(copy@ =~= source@);
    copy
}

/// Appends `tail` to `head`.
pub fn append_bytes(head: &mut Vec<u8>, tail: &[u8])
    ensures
        final(head)@ == old(head)@ + tail@,
{
    let ghost start = head@;
    let mut i: usize = 0;
    while i < tail.len()
        invariant
            0 <= i <= tail@.len(),
            head@ == start + tail@.subrange(0, i as int),
        decreases tail@.len() - i,
    {
        head.push(tail[i]);
        i += 1;
        assert(head@ =~= start + tail@.subrange(0, i as int));
    }
    assert(tail@.subrange(0, tail@.len() as int) =~= tail@);
}

/// The bytes of `whole` from `from` up to but excluding `to`.
pub fn slice_bytes(whole: &[u8], from: usize, to: usize) -> (part: Vec<u8>)
    requires
        from <= to <= whole@.len(),
    ensures
        part@ == whole@.subrange(from as int, to as int),
{
    let mut part: Vec<u8> = Vec::new();
    let mut i: usize = from;
    while i < to
        invariant
            from <= i <= to <= whole@.len(),
            part@ == whole@.subrange(from as int, i as int),
        decreases to - i,
    {
        part.push(whole[i]);
        i += 1;
        assert(part@ =~= whole@.subrange(from as int, i as int));
    }
    part
}

/// Whether `whole` starts with `prefix`.
pub open spec fn has_prefix<A>(whole: Seq<A>, prefix: Seq<A>) -> bool {
    prefix.len() <= whole.len() && whole.subrange(0, prefix.len() as int) == prefix
}

/// Whether the byte string `whole` starts with `prefix`.
pub fn bytes_have_prefix(whole: &[u8], prefix: &[u8]) -> (found: bool)
    ensures
        found == has_prefix(whole@, prefix@),
{
    if prefix.len() > whole.len() {
        return false;
    }
    let mut i: usize = 0;
    while i < prefix.len()
        invariant
            prefix@.len() <= whole@.len(),
            0 <= i <= prefix@.len(),
            forall|j: int| 0 <= j < i ==> whole@[j] == prefix@[j],
        decreases prefix@.len() - i,
    {
        if whole[i] != prefix[i] {
            assert(whole@.subrange(0, prefix@.len() as int)[i as int] != prefix@[i as int]);
            return false;
        }
        i += 1;
    }
    assert(whole@.subrange(0, prefix@.len() as int) =~= prefix@);
    true
}

/// Lexicographic order on byte strings: `a` comes strictly before `b`.
pub open spec fn bytes_less(a: Seq<u8>, b: Seq<u8>) -> bool
    decreases a.len(),
{
    if b.len() == 0 {
        false
    } else if a.len() == 0 {
        true
    } else if a[0] != b[0] {
        a[0] < b[0]
    } else {
        bytes_less(a.drop_first(), b.drop_first())
    }
}

/// Whether `a` comes strictly before `b` in lexicographic order.
pub fn bytes_before(a: &[u8], b: &[u8]) -> (before: bool)
    ensures
        before == bytes_less(a@, b@),
{
    let mut i: usize = 0;
    assert(a@.skip(0) =~= a@ && b@.skip(0) =~= b@);
    loop
        invariant
            0 <= i <= a@.len(),
            i <= b@.len(),
            bytes_less(a@, b@) == bytes_less(a@.skip(i as int), b@.skip(i as int)),
        decreases a@.len() - i,
    {
        if i >= b.len() {
            return false;
        }
        if i >= a.len() {
            return true;
        }
        if a[i] != b[i] {
            return a[i] < b[i];
        }
        assert(a@.skip(i as int).drop_first() =~= a@.skip(i + 1));
        assert(b@.skip(i as int).drop_first() =~= b@.skip(i + 1));
        i += 1;
    }
}

/// No byte string comes before itself.
pub proof fn lemma_bytes_less_irreflexive(a: Seq<u8>)
    ensures
        !bytes_less(a, a),
    decreases a.len(),
{
    if a.len() > 0 {
        lemma_bytes_less_irreflexive(a.drop_first());
    }
}

/// The order on byte strings is transitive.
pub proof fn lemma_bytes_less_transitive(a: Seq<u8>, b: Seq<u8>, c: Seq<u8>)
    requires
        bytes_less(a, b),
        bytes_less(b, c),
    ensures
        bytes_less(a, c),
    decreases a.len(),
{
    if a.len() > 0 && b.len() > 0 && c.len() > 0 && a[0] == b[0] && b[0] == c[0] {
        lemma_bytes_less_transitive(a.drop_first(), b.drop_first(), c.drop_first());
    }
}

/// Two different byte strings are ordered one way or the other.
pub proof fn lemma_bytes_less_total(a: Seq<u8>, b: Seq<u8>)
    requires
        a != b,
    ensures
        bytes_less(a, b) || bytes_less(b, a),
    decreases a.len(),
{
    if a.len() == 0 {
        if b.len() == 0 {
            assert(a =~= b);
        }
    } else if b.len() > 0 && a[0] == b[0] {
        if a.drop_first() == b.drop_first() {
            assert(a =~= seq![a[0]] + a.drop_first());
            assert(b =~= seq![b[0]] + b.drop_first());
        }
        lemma_bytes_less_total(a.drop_first(), b.drop_first());
    }
}

} // verus!
