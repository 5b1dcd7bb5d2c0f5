//! What holds of every path, of its names and of the order of paths and texts.

use crate::order;
use crate::path;
use crate::text;
use vstd::prelude::*;

verus! {

/// Behind a directory and a separator stands a name: it is the last component of the whole, and
/// the components of the directory stand before it.
pub proof fn joining_adds_one_name(base: Seq<u8>, name: Seq<u8>)
    requires
        base.len() > 0,
        name.len() > 0,
        !name.contains(0x2f),
        name != seq![0x2eu8],
    ensures
        path::components(path::joined(base, name)) == path::components(base).push(name),
        name != seq![0x2eu8, 0x2e] ==> path::file_name(path::joined(base, name)) == Some(name),
        name == seq![0x2eu8, 0x2e] ==> path::file_name(path::joined(base, name)) is None,
{
    if path::is_absolute(name) {
        assert(name[0] == 0x2f);
        assert(name.contains(name[0]));
    }
    path::components_of_joined(base, name);
    lemma_one_piece(name);
    assert(path::names(name) =~= seq![name]);
    assert(path::components(base) + seq![name] =~= path::components(base).push(name));
    assert(seq![0x2eu8, 0x2e] =~= seq![path::DOT, path::DOT]);
    assert(seq![0x2eu8] =~= seq![path::DOT]);
    if name == seq![path::SEPARATOR] {
        assert(name[0] == 0x2f);
        assert(name.contains(name[0]));
    }
}

proof fn lemma_one_piece(name: Seq<u8>)
    requires
        !name.contains(0x2f),
    ensures
        path::component_state(name) == (Seq::<Seq<u8>>::empty(), name),
    decreases name.len(),
{
    if name.len() > 0 {
        let head = name.drop_last();
        assert(!head.contains(0x2f)) by {
            if head.contains(0x2f) {
                let i = choose|i: int| 0 <= i < head.len() && head[i] == 0x2f;
                assert(name[i] == 0x2f);
            }
        }
        lemma_one_piece(head);
        assert(name[name.len() - 1] == name.last());
        assert(name.last() != 0x2f) by {
            if name.last() == 0x2f {
                assert(name.contains(name[name.len() - 1]));
            }
        }
        assert(head.push(name.last()) =~= name);
    } else {
        assert(name =~= Seq::empty());
    }
}

/// Separators one behind the other, and a dot between two of them, name nothing.
pub proof fn empty_and_dot_pieces_name_nothing(base: Seq<u8>)
    requires
        base.len() > 0,
    ensures
        path::names(base.push(0x2f)) == path::names(base),
        path::names(base.push(0x2f).push(0x2f)) == path::names(base),
        path::names(base.push(0x2f).push(0x2e)) == path::names(base),
        path::names(base.push(0x2f).push(0x2e).push(0x2f)) == path::names(base),
{
    let one = base.push(0x2f);
    assert(one.drop_last() =~= base);
    let two = one.push(0x2f);
    assert(two.drop_last() =~= one);
    let dot = one.push(0x2e);
    assert(dot.drop_last() =~= one);
    assert(Seq::<u8>::empty().push(0x2e) =~= seq![path::DOT]);
    let more = dot.push(0x2f);
    assert(more.drop_last() =~= dot);
    assert(path::component_state(one).1 == Seq::<u8>::empty());
    assert(path::component_state(dot).1 =~= seq![path::DOT]);
}

/// A path lies within another exactly if the steps to the other are the first of its own.
pub proof fn lying_within_goes_by_steps(place: Seq<u8>, base: Seq<u8>)
    ensures
        path::is_within(place, base) <==> {
            let a = path::steps(place);
            let b = path::steps(base);
            &&& b.len() <= a.len()
            &&& forall|i: int| 0 <= i < b.len() ==> #[trigger] a[i] == b[i]
        },
        path::same_path(place, base) <==> path::steps(place) == path::steps(base),
        path::overlap(place, base) <==> path::is_within(place, base) || path::is_within(
            base,
            place,
        ),
{
    lemma_within(place, base);
    lemma_within(base, place);
    let a = path::steps(place);
    let b = path::steps(base);
    if path::same_path(place, base) {
        assert(a =~= b);
    }
}

proof fn lemma_within(place: Seq<u8>, base: Seq<u8>)
    ensures
        path::is_within(place, base) <==> {
            let a = path::steps(place);
            let b = path::steps(base);
            &&& b.len() <= a.len()
            &&& forall|i: int| 0 <= i < b.len() ==> #[trigger] a[i] == b[i]
        },
{
    let a = path::steps(place);
    let b = path::steps(base);
    if b.len() <= a.len() {
        let start = a.subrange(0, b.len() as int);
        if start == b {
            assert forall|i: int| 0 <= i < b.len() implies #[trigger] a[i] == b[i] by {
                assert(start[i] == a[i]);
            }
        }
        if forall|i: int| 0 <= i < b.len() ==> #[trigger] a[i] == b[i] {
            assert(start =~= b) by {
                assert forall|i: int| 0 <= i < b.len() implies start[i] == b[i] by {
                    assert(a[i] == b[i]);
                }
            }
        }
    }
}

/// The stem of a name is what stands before its last dot; a name without one, or with one only
/// at its start, is its own stem.
pub proof fn stems_end_at_the_last_dot(name: Seq<u8>, at: int)
    requires
        0 <= at < name.len(),
        name[at] == 0x2e,
        forall|i: int| at < i < name.len() ==> #[trigger] name[i] != 0x2e,
    ensures
        at > 0 ==> path::stem(name) == name.take(at),
        at == 0 ==> path::stem(name) == name,
{
    lemma_last_dot(name, at);
}

proof fn lemma_last_dot(name: Seq<u8>, at: int)
    requires
        0 <= at < name.len(),
        name[at] == 0x2e,
        forall|i: int| at < i < name.len() ==> #[trigger] name[i] != 0x2e,
    ensures
        path::last_dot(name) == at,
    decreases name.len(),
{
    if at < name.len() - 1 {
        let head = name.drop_last();
        assert(name[name.len() - 1] != 0x2e);
        assert(head[at] == name[at]);
        assert forall|i: int| at < i < head.len() implies #[trigger] head[i] != 0x2e by {
            assert(head[i] == name[i]);
        }
        lemma_last_dot(head, at);
    }
}

/// A name without a dot is its own stem.
pub proof fn names_without_dots_are_their_stem(name: Seq<u8>)
    requires
        forall|i: int| 0 <= i < name.len() ==> #[trigger] name[i] != 0x2e,
    ensures
        path::stem(name) == name,
{
    lemma_no_dot(name);
}

proof fn lemma_no_dot(name: Seq<u8>)
    requires
        forall|i: int| 0 <= i < name.len() ==> #[trigger] name[i] != 0x2e,
    ensures
        path::last_dot(name) == 0,
    decreases name.len(),
{
    if name.len() > 0 {
        let head = name.drop_last();
        assert(name[name.len() - 1] != 0x2e);
        assert forall|i: int| 0 <= i < head.len() implies #[trigger] head[i] != 0x2e by {
            assert(head[i] == name[i]);
        }
        lemma_no_dot(head);
    }
}

/// The leaf of a path is the name behind its last separator, whatever separators end the path,
/// and the parent is what stands before.
pub proof fn leaves_stand_behind_the_last_separator(head: Seq<u8>, name: Seq<u8>, ends: nat)
    requires
        head.len() > 0,
        head.last() != 0x2f,
        name.len() > 0,
        !name.contains(0x2f),
    ensures
        path::leaf(head + seq![0x2fu8] + name + separators(ends)) == name,
        path::parent(head + seq![0x2fu8] + name + separators(ends)) == head,
{
    let body = head + seq![0x2fu8] + name;
    assert(body.last() == name.last());
    assert(name.last() != 0x2f) by {
        if name.last() == 0x2f {
            assert(name[name.len() - 1] == 0x2f);
            assert(name.contains(name[name.len() - 1]));
        }
    }
    lemma_trimmed(body, ends);
    lemma_after(head + seq![0x2fu8], name);
    let front = body.take(body.len() - name.len());
    assert(front =~= head + seq![0x2fu8]);
    assert(front.drop_last() =~= head);
    assert(path::trimmed(head) == head);
    assert(path::trimmed(front) == head);
}

/// A number of separators.
pub open spec fn separators(count: nat) -> Seq<u8> {
    Seq::new(count, |i: int| 0x2fu8)
}

proof fn lemma_trimmed(body: Seq<u8>, ends: nat)
    requires
        body.len() > 0,
        body.last() != 0x2f,
    ensures
        path::trimmed(body + separators(ends)) == body,
    decreases ends,
{
    let whole = body + separators(ends);
    if ends == 0 {
        assert(whole =~= body);
    } else {
        assert(whole.last() == 0x2f);
        assert(whole.drop_last() =~= body + separators((ends - 1) as nat));
        lemma_trimmed(body, (ends - 1) as nat);
    }
}

proof fn lemma_after(head: Seq<u8>, name: Seq<u8>)
    requires
        head.len() > 0,
        head.last() == 0x2f,
        !name.contains(0x2f),
    ensures
        path::after_separator(head + name) == name,
    decreases name.len(),
{
    let whole = head + name;
    if name.len() == 0 {
        assert(whole =~= head);
        assert(name =~= Seq::empty());
    } else {
        let less = name.drop_last();
        assert(!less.contains(0x2f)) by {
            if less.contains(0x2f) {
                let i = choose|i: int| 0 <= i < less.len() && less[i] == 0x2f;
                assert(name[i] == 0x2f);
            }
        }
        assert(whole.drop_last() =~= head + less);
        assert(whole.last() == name.last());
        assert(name.last() != 0x2f) by {
            if name.last() == 0x2f {
                assert(name[name.len() - 1] == 0x2f);
                assert(name.contains(name[name.len() - 1]));
            }
        }
        lemma_after(head, less);
        assert(less.push(name.last()) =~= name);
    }
}

/// Paths are ordered by the first step in which they differ; a path comes before all that lies
/// within it.
pub proof fn paths_are_ordered_by_their_steps(a: Seq<u8>, b: Seq<u8>, n: int)
    requires
        0 <= n <= path::steps(a).len(),
        n <= path::steps(b).len(),
        path::steps(a).take(n) == path::steps(b).take(n),
        n < path::steps(a).len() && n < path::steps(b).len() ==> path::steps(a)[n] != path::steps(
            b,
        )[n],
    ensures
        order::path_less(a, b) <==> n < path::steps(b).len() && (n == path::steps(a).len()
            || order::piece_less(path::steps(a)[n], path::steps(b)[n])),
{
    lemma_pieces(path::steps(a), path::steps(b), n);
}

proof fn lemma_pieces(a: Seq<Seq<u8>>, b: Seq<Seq<u8>>, n: int)
    requires
        0 <= n <= a.len(),
        n <= b.len(),
        a.take(n) == b.take(n),
        n < a.len() && n < b.len() ==> a[n] != b[n],
    ensures
        order::pieces_less(a, b) <==> n < b.len() && (n == a.len() || order::piece_less(
            a[n],
            b[n],
        )),
    decreases n,
{
    if n > 0 {
        let start = a.take(n);
        assert(start[0] == a[0] && b.take(n)[0] == b[0]);
        let x = a.drop_first();
        let y = b.drop_first();
        assert(x.take(n - 1) =~= y.take(n - 1)) by {
            assert forall|i: int| 0 <= i < n - 1 implies x[i] == y[i] by {
                assert(start[i + 1] == a[i + 1] && b.take(n)[i + 1] == b[i + 1]);
            }
        }
        lemma_pieces(x, y, n - 1);
    }
}

/// Among steps the root comes first, then a directory itself, then its parent, then names, and
/// names by their bytes.
pub proof fn steps_are_ordered_by_kind_then_bytes(a: Seq<u8>, b: Seq<u8>)
    ensures
        a == seq![0x2fu8] && b != seq![0x2fu8] ==> order::piece_less(a, b),
        a == seq![0x2eu8] && b != seq![0x2fu8] && b != seq![0x2eu8] ==> order::piece_less(a, b),
        path::is_name(a) && path::is_name(b) ==> (order::piece_less(a, b) <==> text::bytes_less(
            a,
            b,
        )),
        path::is_name(a) && !path::is_name(b) ==> !order::piece_less(a, b),
{
    assert(seq![0x2fu8][0] == 0x2f && seq![0x2eu8][0] == 0x2e);
    assert(seq![0x2fu8] =~= seq![path::SEPARATOR]);
    assert(seq![0x2eu8] =~= seq![path::DOT]);
    assert(seq![path::DOT, path::DOT].len() == 2);
    assert(seq![path::SEPARATOR].len() == 1 && seq![path::DOT].len() == 1);
    assert(seq![path::SEPARATOR][0] != seq![path::DOT][0]);
}

} // verus!
