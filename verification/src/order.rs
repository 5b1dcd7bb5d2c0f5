//! The order of texts and paths, and lists that are kept in it.

use crate::path;
use crate::text;
use vstd::prelude::*;
use vstd::string::*;
use vstd::utf8;

verus! {

/// The order of texts: by their bytes.
pub open spec fn text_less(a: Seq<char>, b: Seq<char>) -> bool {
    text::bytes_less(utf8::encode_utf8(a), utf8::encode_utf8(b))
}

/// Whether one text comes before another.
pub fn text_before(a: &str, b: &str) -> (before: bool)
    ensures
        before == text_less(a@, b@),
{
    text::bytes_before(a.as_bytes(), b.as_bytes())
}

/// The texts of a list.
pub open spec fn texts(list: Seq<String>) -> Seq<Seq<char>> {
    Seq::new(list.len(), |i: int| list[i]@)
}

/// The texts of a list of literals.
pub open spec fn literals(list: Seq<&'static str>) -> Seq<Seq<char>> {
    Seq::new(list.len(), |i: int| list[i]@)
}

/// A sorted list of texts with one more, unless it is there.
pub open spec fn with_text(list: Seq<Seq<char>>, item: Seq<char>) -> Seq<Seq<char>>
    decreases list.len(),
{
    if list.len() == 0 || text_less(list.last(), item) {
        list.push(item)
    } else if list.last() == item {
        list
    } else {
        with_text(list.drop_last(), item).push(list.last())
    }
}

/// A sorted list of texts with some more, each unless it is there.
pub open spec fn with_texts(list: Seq<Seq<char>>, more: Seq<Seq<char>>) -> Seq<Seq<char>>
    decreases more.len(),
{
    if more.len() == 0 {
        list
    } else {
        with_text(with_texts(list, more.drop_last()), more.last())
    }
}

/// A list of texts, sorted and each once.
pub open spec fn sorted_texts(list: Seq<Seq<char>>) -> Seq<Seq<char>> {
    with_texts(Seq::empty(), list)
}

proof fn lemma_with_text_at(list: Seq<Seq<char>>, item: Seq<char>, at: int)
    requires
        0 <= at <= list.len(),
        forall|i: int|
            at <= i < list.len() ==> !text_less(#[trigger] list[i], item) && list[i] != item,
        at == 0 || text_less(list[at - 1], item) || list[at - 1] == item,
    ensures
        with_text(list, item) == if at > 0 && !text_less(list[at - 1], item) {
            list
        } else {
            list.take(at).push(item) + list.skip(at)
        },
    decreases list.len(),
{
    if at == list.len() {
        assert(list.take(at) =~= list);
        assert(list.take(at).push(item) + list.skip(at) =~= list.push(item));
    } else {
        assert(!text_less(list[list.len() - 1], item));
        let shorter = list.drop_last();
        assert forall|i: int| at <= i < shorter.len() implies !text_less(
            #[trigger] shorter[i],
            item,
        ) && shorter[i] != item by {
            assert(shorter[i] == list[i]);
        }
        lemma_with_text_at(shorter, item, at);
        assert(shorter.push(list.last()) =~= list);
        assert(shorter.take(at) =~= list.take(at));
        assert((shorter.take(at).push(item) + shorter.skip(at)).push(list.last()) =~= list.take(
            at,
        ).push(item) + list.skip(at));
    }
}

/// Adds a text to a sorted list, unless it is there.
pub fn insert_text(list: &mut Vec<String>, item: &str)
    ensures
        texts(final(list)@) == with_text(texts(old(list)@), item@),
{
    let ghost before = texts(list@);
    let mut at: usize = list.len();
    while at > 0 && !text_before(list[at - 1].as_str(), item) && !text::text_eq(
        list[at - 1].as_str(),
        item,
    )
        invariant
            0 <= at <= list@.len(),
            before == texts(list@),
            forall|i: int|
                at <= i < before.len() ==> !text_less(#[trigger] before[i], item@) && before[i]
                    != item@,
        decreases at,
    {
        assert(before[at - 1] == list@[at - 1]@);
        at -= 1;
    }
    proof {
        if at > 0 {
            assert(before[at - 1] == list@[at - 1]@);
        }
        lemma_with_text_at(before, item@, at as int);
    }
    if at > 0 && !text_before(list[at - 1].as_str(), item) {
        return ;
    }
    list.insert(at, item.to_owned());
    assert(texts(list@) =~= before.take(at as int).push(item@) + before.skip(at as int));
}

/// Adds texts to a sorted list, each unless it is there.
pub fn insert_texts(list: &mut Vec<String>, more: &Vec<String>)
    ensures
        texts(final(list)@) == with_texts(texts(old(list)@), texts(more@)),
{
    let ghost before = texts(list@);
    let ghost all = texts(more@);
    let mut i: usize = 0;
    assert(all.take(0) =~= Seq::empty());
    while i < more.len()
        invariant
            0 <= i <= more@.len(),
            all == texts(more@),
            texts(list@) == with_texts(before, all.take(i as int)),
        decreases more@.len() - i,
    {
        assert(all.take(i + 1).drop_last() =~= all.take(i as int));
        assert(all.take(i + 1).last() == more@[i as int]@);
        insert_text(list, more[i].as_str());
        i += 1;
    }
    assert(all.take(all.len() as int) =~= all);
}

fn insert_literal(list: &mut Vec<&'static str>, item: &'static str)
    ensures
        literals(final(list)@) == with_text(literals(old(list)@), item@),
{
    let ghost before = literals(list@);
    let mut at: usize = list.len();
    while at > 0 && !text_before(list[at - 1], item) && !text::text_eq(list[at - 1], item)
        invariant
            0 <= at <= list@.len(),
            before == literals(list@),
            forall|i: int|
                at <= i < before.len() ==> !text_less(#[trigger] before[i], item@) && before[i]
                    != item@,
        decreases at,
    {
        assert(before[at - 1] == list@[at - 1]@);
        at -= 1;
    }
    proof {
        if at > 0 {
            assert(before[at - 1] == list@[at - 1]@);
        }
        lemma_with_text_at(before, item@, at as int);
    }
    if at > 0 && !text_before(list[at - 1], item) {
        return ;
    }
    list.insert(at, item);
    assert(literals(list@) =~= before.take(at as int).push(item@) + before.skip(at as int));
}

/// A list of literals, sorted and each once.
pub fn sort_literals(list: &Vec<&'static str>) -> (sorted: Vec<&'static str>)
    ensures
        literals(sorted@) == sorted_texts(literals(list@)),
{
    let ghost all = literals(list@);
    let mut sorted: Vec<&'static str> = Vec::new();
    let mut i: usize = 0;
    assert(all.take(0) =~= Seq::empty());
    assert(literals(sorted@) =~= Seq::empty());
    while i < list.len()
        invariant
            0 <= i <= list@.len(),
            all == literals(list@),
            literals(sorted@) == with_texts(Seq::empty(), all.take(i as int)),
        decreases list@.len() - i,
    {
        assert(all.take(i + 1).drop_last() =~= all.take(i as int));
        assert(all.take(i + 1).last() == list@[i as int]@);
        insert_literal(&mut sorted, list[i]);
        i += 1;
    }
    assert(all.take(all.len() as int) =~= all);
    sorted
}

/// Whether a list of texts is sorted and holds each text once.
pub open spec fn is_sorted(list: Seq<Seq<char>>) -> bool {
    forall|i: int, j: int|
        0 <= i < j < list.len() ==> text_less(#[trigger] list[i], #[trigger] list[j])
}

/// Adding a text to a sorted list keeps it sorted, and the list then holds that text and
/// what it held before.
pub proof fn adding_keeps_sorted(list: Seq<Seq<char>>, item: Seq<char>)
    requires
        is_sorted(list),
    ensures
        is_sorted(with_text(list, item)),
        forall|text: Seq<char>| #[trigger]
            with_text(list, item).contains(text) == (list.contains(text) || text == item),
    decreases list.len(),
{
    let result = with_text(list, item);
    if list.len() == 0 || text_less(list.last(), item) {
        assert forall|i: int, j: int| 0 <= i < j < result.len() implies text_less(
            #[trigger] result[i],
            #[trigger] result[j],
        ) by {
            if j == list.len() && i < list.len() - 1 {
                text::lemma_bytes_less_transitive(
                    utf8::encode_utf8(list[i]),
                    utf8::encode_utf8(list.last()),
                    utf8::encode_utf8(item),
                );
            }
        }
        assert forall|text: Seq<char>| #[trigger] result.contains(text) == (list.contains(text)
            || text == item) by {
            if list.contains(text) {
                let k = choose|k: int| 0 <= k < list.len() && list[k] == text;
                assert(result[k] == text);
            }
            if text == item {
                assert(result[list.len() as int] == item);
            }
            if result.contains(text) && text != item {
                let k = choose|k: int| 0 <= k < result.len() && result[k] == text;
                assert(list[k] == text);
            }
        }
    } else if list.last() == item {
        assert(list.contains(item)) by {
            assert(list[list.len() - 1] == item);
        }
    } else {
        let shorter = list.drop_last();
        let last = list.last();
        assert forall|i: int, j: int| 0 <= i < j < shorter.len() implies text_less(
            #[trigger] shorter[i],
            #[trigger] shorter[j],
        ) by {
            assert(shorter[i] == list[i] && shorter[j] == list[j]);
        }
        adding_keeps_sorted(shorter, item);
        let inner = with_text(shorter, item);
        lemma_encoding_distinct(last, item);
        text::lemma_bytes_less_total(utf8::encode_utf8(last), utf8::encode_utf8(item));
        assert forall|i: int, j: int| 0 <= i < j < result.len() implies text_less(
            #[trigger] result[i],
            #[trigger] result[j],
        ) by {
            if j == inner.len() {
                assert(inner.contains(inner[i]));
                if inner[i] != item {
                    let k = choose|k: int| 0 <= k < shorter.len() && shorter[k] == inner[i];
                    assert(list[k] == inner[i]);
                    assert(list[list.len() - 1] == last);
                }
            } else {
                assert(result[i] == inner[i] && result[j] == inner[j]);
            }
        }
        assert forall|text: Seq<char>| #[trigger] result.contains(text) == (list.contains(text)
            || text == item) by {
            assert(inner.contains(text) == (shorter.contains(text) || text == item));
            if inner.contains(text) {
                let k = choose|k: int| 0 <= k < inner.len() && inner[k] == text;
                assert(result[k] == text);
            }
            if text == last {
                assert(result[inner.len() as int] == last);
                assert(list[list.len() - 1] == last);
            }
            if list.contains(text) {
                let k = choose|k: int| 0 <= k < list.len() && list[k] == text;
                if k < list.len() - 1 {
                    assert(shorter[k] == text);
                }
            }
            if shorter.contains(text) {
                let k = choose|k: int| 0 <= k < shorter.len() && shorter[k] == text;
                assert(list[k] == text);
            }
            if result.contains(text) && text != last {
                let k = choose|k: int| 0 <= k < result.len() && result[k] == text;
                assert(inner[k] == text);
            }
        }
    }
}

proof fn lemma_encoding_distinct(a: Seq<char>, b: Seq<char>)
    requires
        a != b,
    ensures
        utf8::encode_utf8(a) != utf8::encode_utf8(b),
{
    utf8::encode_utf8_decode_utf8(a);
    utf8::encode_utf8_decode_utf8(b);
}

/// Where the kinds of components come: the root, then a dot that opens the path, then a step
/// up, then names.
pub open spec fn rank(piece: Seq<u8>) -> int {
    if piece == seq![path::SEPARATOR] {
        0
    } else if piece == seq![path::DOT] {
        1
    } else if piece == seq![path::DOT, path::DOT] {
        2
    } else {
        3
    }
}

/// The order of components: by their kind, and names byte by byte.
pub open spec fn piece_less(a: Seq<u8>, b: Seq<u8>) -> bool {
    rank(a) < rank(b) || (rank(a) == rank(b) && text::bytes_less(a, b))
}

/// The order of lists of components: component by component.
pub open spec fn pieces_less(a: Seq<Seq<u8>>, b: Seq<Seq<u8>>) -> bool
    decreases a.len(),
{
    if b.len() == 0 {
        false
    } else if a.len() == 0 {
        true
    } else if a[0] != b[0] {
        piece_less(a[0], b[0])
    } else {
        pieces_less(a.drop_first(), b.drop_first())
    }
}

/// The order of paths: component by component.
pub open spec fn path_less(a: Seq<u8>, b: Seq<u8>) -> bool {
    pieces_less(path::steps(a), path::steps(b))
}

fn rank_of(piece: &[u8]) -> (place: u8)
    ensures
        place == rank(piece@),
{
    let root: [u8; 1] = [path::SEPARATOR];
    let here: [u8; 1] = [path::DOT];
    let above: [u8; 2] = [path::DOT, path::DOT];
    assert(root@ =~= seq![path::SEPARATOR]);
    assert(here@ =~= seq![path::DOT]);
    assert(above@ =~= seq![path::DOT, path::DOT]);
    if text::bytes_eq(piece, &root) {
        0
    } else if text::bytes_eq(piece, &here) {
        1
    } else if text::bytes_eq(piece, &above) {
        2
    } else {
        3
    }
}

fn piece_before(a: &[u8], b: &[u8]) -> (before: bool)
    ensures
        before == piece_less(a@, b@),
{
    let left: u8 = rank_of(a);
    let right: u8 = rank_of(b);
    left < right || (left == right && text::bytes_before(a, b))
}

/// Whether one path comes before another.
pub fn path_before(a: &[u8], b: &[u8]) -> (before: bool)
    ensures
        before == path_less(a@, b@),
{
    let left = path::split_steps(a);
    let right = path::split_steps(b);
    let ghost x = path::steps(a@);
    let ghost y = path::steps(b@);
    assert(path::views(left@).len() == left@.len());
    assert(path::views(right@).len() == right@.len());
    let mut i: usize = 0;
    assert(x.skip(0) =~= x && y.skip(0) =~= y);
    loop
        invariant
            path::views(left@) == x,
            path::views(right@) == y,
            x.len() == left@.len(),
            y.len() == right@.len(),
            0 <= i <= x.len(),
            i <= y.len(),
            pieces_less(x, y) == pieces_less(x.skip(i as int), y.skip(i as int)),
            path_less(a@, b@) == pieces_less(x, y),
        decreases x.len() - i,
    {
        if i >= right.len() {
            return false;
        }
        if i >= left.len() {
            return true;
        }
        assert(x.skip(i as int)[0] == left@[i as int]@);
        assert(y.skip(i as int)[0] == right@[i as int]@);
        if !text::bytes_eq(left[i].as_slice(), right[i].as_slice()) {
            return piece_before(left[i].as_slice(), right[i].as_slice());
        }
        assert(x.skip(i as int).drop_first() =~= x.skip(i + 1));
        assert(y.skip(i as int).drop_first() =~= y.skip(i + 1));
        i += 1;
    }
}

/// One byte string comes before another exactly if it is a proper beginning of it, or has the
/// smaller byte where the two first differ.
pub proof fn byte_order_is_lexicographic(a: Seq<u8>, b: Seq<u8>, n: int)
    requires
        0 <= n <= a.len(),
        n <= b.len(),
        a.take(n) == b.take(n),
        n < a.len() && n < b.len() ==> a[n] != b[n],
    ensures
        text::bytes_less(a, b) <==> (n < b.len() && (n == a.len() || a[n] < b[n])),
    decreases n,
{
    if n > 0 {
        let start = a.take(n);
        assert(start[0] == a[0] && b.take(n)[0] == b[0]);
        let x = a.drop_first();
        let y = b.drop_first();
        assert forall|i: int| 0 <= i < n - 1 implies x[i] == y[i] by {
            assert(start[i + 1] == a[i + 1] && b.take(n)[i + 1] == b[i + 1]);
            assert(x[i] == a[i + 1] && y[i] == b[i + 1]);
        }
        assert(x.take(n - 1) =~= y.take(n - 1));
        byte_order_is_lexicographic(x, y, n - 1);
    }
}

} // verus!
