//! Native paths as byte strings.
//!
//! A path is the bytes that the platform uses for it, with `/` between components.

use crate::text;
use vstd::prelude::*;

verus! {

/// The byte between components.
pub const SEPARATOR: u8 = 47;

/// The byte of a dot.
pub const DOT: u8 = 46;

/// Whether a path starts at the root.
pub open spec fn is_absolute(path: Seq<u8>) -> bool {
    path.len() > 0 && path[0] == SEPARATOR
}

/// Whether a path starts at the root.
pub fn absolute(path: &[u8]) -> (answer: bool)
    ensures
        answer == is_absolute(path@),
{
    path.len() > 0 && path[0] == SEPARATOR
}

/// The names that are complete, and the bytes after the last separator.
pub open spec fn component_state(path: Seq<u8>) -> (Seq<Seq<u8>>, Seq<u8>)
    decreases path.len(),
{
    if path.len() == 0 {
        (Seq::empty(), Seq::empty())
    } else {
        let (done, current) = component_state(path.drop_last());
        if path.last() == SEPARATOR {
            (add_component(done, current), Seq::empty())
        } else {
            (done, current.push(path.last()))
        }
    }
}

/// Empty pieces and single dots are no names.
pub open spec fn add_component(done: Seq<Seq<u8>>, piece: Seq<u8>) -> Seq<Seq<u8>> {
    if piece.len() == 0 || piece == seq![DOT] {
        done
    } else {
        done.push(piece)
    }
}

/// The names of a path: its pieces between separators, without empty ones and single dots.
pub open spec fn names(path: Seq<u8>) -> Seq<Seq<u8>> {
    let (done, current) = component_state(path);
    add_component(done, current)
}

/// Whether a path starts at the current directory by name.
pub open spec fn opens_with_dot(path: Seq<u8>) -> bool {
    path.len() > 0 && path[0] == DOT && (path.len() == 1 || path[1] == SEPARATOR)
}

/// The components of a path behind its root: a single dot that opens a relative path, and
/// the names.
pub open spec fn components(path: Seq<u8>) -> Seq<Seq<u8>> {
    if opens_with_dot(path) {
        seq![seq![DOT]] + names(path)
    } else {
        names(path)
    }
}

/// The components of a path, the root among them.
pub open spec fn steps(path: Seq<u8>) -> Seq<Seq<u8>> {
    if is_absolute(path) {
        seq![seq![SEPARATOR]] + components(path)
    } else {
        components(path)
    }
}

/// Whether a component is an ordinary name: not the root, and neither here nor above.
pub open spec fn is_name(piece: Seq<u8>) -> bool {
    piece != seq![SEPARATOR] && piece != seq![DOT] && piece != seq![DOT, DOT]
}

/// Whether a component is an ordinary name.
pub fn ordinary(piece: &[u8]) -> (answer: bool)
    ensures
        answer == is_name(piece@),
{
    let root: [u8; 1] = [SEPARATOR];
    let here: [u8; 1] = [DOT];
    let above: [u8; 2] = [DOT, DOT];
    assert(root@ =~= seq![SEPARATOR] && here@ =~= seq![DOT] && above@ =~= seq![DOT, DOT]);
    !text::bytes_eq(piece, &root) && !text::bytes_eq(piece, &here) && !text::bytes_eq(piece, &above)
}

/// The byte strings of a list.
pub open spec fn views(list: Seq<Vec<u8>>) -> Seq<Seq<u8>> {
    Seq::new(list.len(), |i: int| list[i]@)
}

fn is_dot(piece: &Vec<u8>) -> (answer: bool)
    ensures
        answer == (piece@ == seq![DOT]),
{
    let answer: bool = piece.len() == 1 && piece[0] == DOT;
    assert(answer ==> piece@ =~= seq![DOT]);
    answer
}

/// A list of components, and the names of a path behind it.
fn split_behind(front: Vec<Vec<u8>>, path: &[u8]) -> (parts: Vec<Vec<u8>>)
    ensures
        views(parts@) == views(front@) + names(path@),
{
    let ghost head = views(front@);
    let mut done: Vec<Vec<u8>> = front;
    let mut current: Vec<u8> = Vec::new();
    let mut i: usize = 0;
    assert(path@.take(0) =~= Seq::empty());
    assert(views(done@) =~= head + component_state(path@.take(0)).0);
    assert(current@ =~= Seq::empty());
    while i < path.len()
        invariant
            0 <= i <= path@.len(),
            views(done@) == head + component_state(path@.take(i as int)).0,
            current@ == component_state(path@.take(i as int)).1,
        decreases path@.len() - i,
    {
        assert(path@.take(i + 1).drop_last() =~= path@.take(i as int));
        let ghost before = done@;
        let ghost complete = component_state(path@.take(i as int)).0;
        let b: u8 = path[i];
        if b == SEPARATOR {
            if current.len() != 0 && !is_dot(&current) {
                let ghost piece = current@;
                done.push(current);
                assert(views(done@) =~= views(before).push(piece));
                assert(views(done@) =~= head + complete.push(piece));
            }
            current = Vec::new();
            assert(current@ =~= Seq::<u8>::empty());
        } else {
            current.push(b);
        }
        i += 1;
    }
    assert(path@.take(path@.len() as int) =~= path@);
    let ghost before = done@;
    let ghost complete = component_state(path@).0;
    let ghost piece = current@;
    if current.len() != 0 && !is_dot(&current) {
        done.push(current);
        assert(views(done@) =~= views(before).push(piece));
        assert(views(done@) =~= head + complete.push(piece));
    }
    done
}

/// The components of a path behind its root.
pub fn split(path: &[u8]) -> (parts: Vec<Vec<u8>>)
    ensures
        views(parts@) == components(path@),
{
    let mut front: Vec<Vec<u8>> = Vec::new();
    if path.len() > 0 && path[0] == DOT && (path.len() == 1 || path[1] == SEPARATOR) {
        front.push(vec![DOT]);
        assert(views(front@)[0] =~= seq![DOT]);
        assert(views(front@) =~= seq![seq![DOT]]);
    } else {
        assert(views(front@) + names(path@) =~= names(path@));
    }
    split_behind(front, path)
}

/// The components of a path, the root among them.
pub fn split_steps(path: &[u8]) -> (parts: Vec<Vec<u8>>)
    ensures
        views(parts@) == steps(path@),
{
    if !absolute(path) {
        return split(path);
    }
    let mut front: Vec<Vec<u8>> = Vec::new();
    front.push(vec![SEPARATOR]);
    assert(views(front@)[0] =~= seq![SEPARATOR]);
    assert(views(front@) =~= seq![seq![SEPARATOR]]);
    split_behind(front, path)
}

/// Whether `path` lies at or below `base`, component by component. Everything lies below the
/// empty path.
pub open spec fn is_within(path: Seq<u8>, base: Seq<u8>) -> bool {
    text::has_prefix(steps(path), steps(base))
}

/// Whether `path` lies at or below `base`, component by component.
pub fn within(path: &[u8], base: &[u8]) -> (answer: bool)
    ensures
        answer == is_within(path@, base@),
{
    let parts = split_steps(path);
    let prefix = split_steps(base);
    let ghost whole = steps(path@);
    let ghost head = steps(base@);
    assert(views(parts@).len() == parts@.len() && views(prefix@).len() == prefix@.len());
    if prefix.len() > parts.len() {
        return false;
    }
    let mut i: usize = 0;
    while i < prefix.len()
        invariant
            0 <= i <= prefix@.len(),
            prefix@.len() <= parts@.len(),
            views(parts@) == whole,
            views(prefix@) == head,
            whole == steps(path@),
            head == steps(base@),
            forall|j: int| 0 <= j < i ==> whole[j] == head[j],
        decreases prefix@.len() - i,
    {
        assert(whole[i as int] == parts@[i as int]@ && head[i as int] == prefix@[i as int]@);
        if !text::bytes_eq(parts[i].as_slice(), prefix[i].as_slice()) {
            assert(whole.subrange(0, head.len() as int)[i as int] != head[i as int]);
            return false;
        }
        i += 1;
    }
    assert(whole.subrange(0, head.len() as int) =~= head);
    true
}

/// A path lies within itself.
pub proof fn within_is_reflexive(path: Seq<u8>)
    ensures
        is_within(path, path),
{
    assert(steps(path).subrange(0, steps(path).len() as int) =~= steps(path));
}

/// What lies within a path that lies within a third lies within the third.
pub proof fn within_is_transitive(a: Seq<u8>, b: Seq<u8>, c: Seq<u8>)
    requires
        is_within(a, b),
        is_within(b, c),
    ensures
        is_within(a, c),
{
    let n = steps(c).len() as int;
    assert(steps(a).subrange(0, n) =~= steps(a).subrange(0, steps(b).len() as int).subrange(0, n));
}

/// `rest` below `base`: an absolute `rest` stands alone, and a separator is put between
/// the two where `base` does not end in one.
pub open spec fn joined(base: Seq<u8>, rest: Seq<u8>) -> Seq<u8> {
    if is_absolute(rest) {
        rest
    } else if base.len() == 0 || base.last() == SEPARATOR {
        base + rest
    } else {
        base + seq![SEPARATOR] + rest
    }
}

/// `rest` below `base`.
pub fn join(base: &[u8], rest: &[u8]) -> (path: Vec<u8>)
    ensures
        path@ == joined(base@, rest@),
{
    if absolute(rest) {
        return text::copy_bytes(rest);
    }
    let mut path: Vec<u8> = text::copy_bytes(base);
    if base.len() != 0 && base[base.len() - 1] != SEPARATOR {
        path.push(SEPARATOR);
        assert(path@ =~= base@ + seq![SEPARATOR]);
    }
    text::append_bytes(&mut path, rest);
    path
}

/// What follows a complete list of components is appended to it.
proof fn lemma_components_append(head: Seq<u8>, rest: Seq<u8>)
    requires
        component_state(head).1 == Seq::<u8>::empty(),
    ensures
        component_state(head + rest) == (
            component_state(head).0 + component_state(rest).0,
            component_state(rest).1,
        ),
    decreases rest.len(),
{
    if rest.len() == 0 {
        assert(head + rest =~= head);
        assert(component_state(head).0 + component_state(rest).0 =~= component_state(head).0);
    } else {
        let shorter = rest.drop_last();
        lemma_components_append(head, shorter);
        assert((head + rest).drop_last() =~= head + shorter);
        assert((head + rest).last() == rest.last());
        let (done, current) = component_state(shorter);
        if rest.last() == SEPARATOR {
            assert(add_component(component_state(head).0 + done, current) =~= component_state(
                head,
            ).0 + add_component(done, current));
        }
    }
}

/// The components of a joined path are those of the base and the names of what is joined to
/// it: a dot that opens the second part is lost behind the first.
pub proof fn components_of_joined(base: Seq<u8>, rest: Seq<u8>)
    requires
        !is_absolute(rest),
        base.len() > 0,
    ensures
        components(joined(base, rest)) == components(base) + names(rest),
{
    let head = if base.last() == SEPARATOR {
        base
    } else {
        base + seq![SEPARATOR]
    };
    assert(joined(base, rest) =~= head + rest);
    if base.last() != SEPARATOR {
        assert(head.drop_last() =~= base);
        assert(head.last() == SEPARATOR);
    }
    assert(component_state(head) == (names(base), Seq::<u8>::empty()));
    lemma_components_append(head, rest);
    let (done, current) = component_state(rest);
    assert(add_component(names(base) + done, current) =~= names(base) + add_component(
        done,
        current,
    ));
    assert(opens_with_dot(joined(base, rest)) == opens_with_dot(base));
    assert(components(joined(base, rest)) =~= components(base) + names(rest));
}

/// What is joined to a base lies within the base.
pub proof fn joined_stays_within(base: Seq<u8>, rest: Seq<u8>)
    requires
        !is_absolute(rest),
    ensures
        is_within(joined(base, rest), base),
{
    let whole = steps(joined(base, rest));
    if base.len() > 0 {
        components_of_joined(base, rest);
        assert(joined(base, rest)[0] == base[0]);
    }
    assert(whole.subrange(0, steps(base).len() as int) =~= steps(base));
}

/// Pieces with one separator between any two.
pub open spec fn with_separators(pieces: Seq<Seq<u8>>) -> Seq<u8>
    decreases pieces.len(),
{
    if pieces.len() == 0 {
        Seq::empty()
    } else if pieces.len() == 1 {
        pieces[0]
    } else {
        with_separators(pieces.drop_last()) + seq![SEPARATOR] + pieces.last()
    }
}

/// The path with the given components.
pub open spec fn spelled(list: Seq<Seq<u8>>) -> Seq<u8> {
    if list.len() > 0 && list[0] == seq![SEPARATOR] {
        seq![SEPARATOR] + with_separators(list.skip(1))
    } else {
        with_separators(list)
    }
}

/// Whether a piece can stand between separators.
pub open spec fn is_piece(piece: Seq<u8>) -> bool {
    piece.len() > 0 && !piece.contains(SEPARATOR)
}

/// Whether a list could be the components of a path: the root and a single dot stand only in
/// front.
pub open spec fn are_steps(list: Seq<Seq<u8>>) -> bool {
    forall|i: int|
        0 <= i < list.len() ==> (i == 0 && #[trigger] list[i] == seq![SEPARATOR]) || (is_piece(
            list[i],
        ) && (list[i] == seq![DOT] ==> i == 0))
}

proof fn lemma_state_plain(path: Seq<u8>)
    ensures
        !component_state(path).1.contains(SEPARATOR),
        forall|i: int|
            0 <= i < component_state(path).0.len() ==> is_piece(
                #[trigger] component_state(path).0[i],
            ) && component_state(path).0[i] != seq![DOT],
    decreases path.len(),
{
    if path.len() > 0 {
        lemma_state_plain(path.drop_last());
        let (done, current) = component_state(path.drop_last());
        if path.last() != SEPARATOR {
            let longer = current.push(path.last());
            if longer.contains(SEPARATOR) {
                let k = choose|k: int| 0 <= k < longer.len() && longer[k] == SEPARATOR;
                assert(current[k] == SEPARATOR);
            }
        }
    }
}

/// The components of a path are such that they could be.
pub proof fn steps_are_steps(path: Seq<u8>)
    ensures
        are_steps(steps(path)),
{
    lemma_state_plain(path);
    let list = steps(path);
    let front = list.len() - names(path).len();
    assert forall|i: int| 0 <= i < list.len() implies (i == 0 && #[trigger] list[i]
        == seq![SEPARATOR]) || (is_piece(list[i]) && (list[i] == seq![DOT] ==> i == 0)) by {
        if i >= front {
            assert(list[i] == names(path)[i - front]);
        } else if !is_absolute(path) {
            assert(list[i] == seq![DOT]);
            assert(is_piece(seq![DOT]));
        }
    }
}

proof fn lemma_piece_state(piece: Seq<u8>)
    requires
        !piece.contains(SEPARATOR),
    ensures
        component_state(piece) == (Seq::<Seq<u8>>::empty(), piece),
    decreases piece.len(),
{
    if piece.len() > 0 {
        let shorter = piece.drop_last();
        if shorter.contains(SEPARATOR) {
            let k = choose|k: int| 0 <= k < shorter.len() && shorter[k] == SEPARATOR;
            assert(piece[k] == SEPARATOR);
        }
        lemma_piece_state(shorter);
        assert(piece[piece.len() - 1] != SEPARATOR);
        assert(shorter.push(piece.last()) =~= piece);
    } else {
        assert(piece =~= Seq::empty());
    }
}

proof fn lemma_with_separators(pieces: Seq<Seq<u8>>)
    requires
        pieces.len() > 0,
        forall|i: int| 0 <= i < pieces.len() ==> is_piece(#[trigger] pieces[i]),
        forall|i: int| 0 < i < pieces.len() ==> #[trigger] pieces[i] != seq![DOT],
    ensures
        ({
            let whole = with_separators(pieces);
            let n = pieces[0].len() as int;
            &&& n <= whole.len()
            &&& whole.take(n) == pieces[0]
            &&& n < whole.len() ==> whole[n] == SEPARATOR
            &&& names(whole) == if pieces[0] == seq![DOT] {
                pieces.skip(1)
            } else {
                pieces
            }
        }),
    decreases pieces.len(),
{
    let whole = with_separators(pieces);
    let n = pieces[0].len() as int;
    if pieces.len() == 1 {
        lemma_piece_state(pieces[0]);
        assert(whole.take(n) =~= pieces[0]);
        assert(pieces.skip(1) =~= Seq::empty());
        assert(Seq::<Seq<u8>>::empty().push(pieces[0]) =~= pieces);
    } else {
        let fewer = pieces.drop_last();
        lemma_with_separators(fewer);
        let start = with_separators(fewer);
        let head = start + seq![SEPARATOR];
        assert(whole =~= head + pieces.last());
        assert(whole.take(n) =~= start.take(n));
        assert(head.drop_last() =~= start);
        assert(head.last() == SEPARATOR);
        assert(component_state(head) == (names(start), Seq::<u8>::empty()));
        assert(is_piece(pieces[pieces.len() - 1]) && pieces[pieces.len() - 1] != seq![DOT]);
        lemma_piece_state(pieces.last());
        lemma_components_append(head, pieces.last());
        assert(component_state(whole) == (names(start) + Seq::<Seq<u8>>::empty(), pieces.last()));
        assert(names(start) + Seq::<Seq<u8>>::empty() =~= names(start));
        if pieces[0] == seq![DOT] {
            assert(fewer.skip(1).push(pieces.last()) =~= pieces.skip(1));
        } else {
            assert(fewer.push(pieces.last()) =~= pieces);
        }
    }
}

/// The components of a path that is spelled from components are those components.
pub proof fn steps_of_spelled(list: Seq<Seq<u8>>)
    requires
        are_steps(list),
    ensures
        steps(spelled(list)) == list,
{
    let place = spelled(list);
    if list.len() == 0 {
        assert(steps(place) =~= list);
    } else if list[0] == seq![SEPARATOR] {
        let rest = list.skip(1);
        let root = seq![SEPARATOR];
        assert(root.drop_last() =~= Seq::<u8>::empty());
        assert(component_state(root.drop_last()) == (
            Seq::<Seq<u8>>::empty(),
            Seq::<u8>::empty(),
        ));
        assert(component_state(root) == (Seq::<Seq<u8>>::empty(), Seq::<u8>::empty()));
        lemma_components_append(root, with_separators(rest));
        let (done, current) = component_state(with_separators(rest));
        assert(Seq::<Seq<u8>>::empty() + done =~= done);
        assert(place[0] == SEPARATOR);
        if rest.len() > 0 {
            assert forall|i: int| 0 <= i < rest.len() implies is_piece(#[trigger] rest[i])
                && rest[i] != seq![DOT] by {
                assert(list[i + 1] == rest[i]);
            }
            lemma_with_separators(rest);
        }
        assert(names(place) =~= rest);
        assert(steps(place) =~= list);
    } else {
        assert forall|i: int| 0 <= i < list.len() implies is_piece(#[trigger] list[i]) by {}
        lemma_with_separators(list);
        let n = list[0].len() as int;
        assert(place.take(n)[0] == list[0][0]);
        assert(list[0][0] != SEPARATOR) by {
            assert(list[0].contains(list[0][0]));
        }
        if opens_with_dot(place) && n >= 2 {
            assert(place.take(n)[1] == list[0][1]);
            assert(list[0].contains(list[0][1]));
        }
        if opens_with_dot(place) {
            assert(list[0] =~= seq![DOT]);
        }
        assert(steps(place) =~= list);
    }
}

/// What the components of a path begin with could be the components of one, too.
pub proof fn first_steps_are_steps(list: Seq<Seq<u8>>, n: int)
    requires
        are_steps(list),
        0 <= n <= list.len(),
    ensures
        are_steps(list.take(n)),
{
    let first = list.take(n);
    assert forall|i: int| 0 <= i < first.len() implies (i == 0 && #[trigger] first[i]
        == seq![SEPARATOR]) || (is_piece(first[i]) && (first[i] == seq![DOT] ==> i == 0)) by {
        assert(first[i] == list[i]);
    }
}

/// The path with some of the given components.
pub fn spell(parts: &Vec<Vec<u8>>, from: usize, to: usize) -> (place: Vec<u8>)
    requires
        from <= to <= parts@.len(),
    ensures
        place@ == spelled(views(parts@).subrange(from as int, to as int)),
{
    let ghost list = views(parts@).subrange(from as int, to as int);
    let root: [u8; 1] = [SEPARATOR];
    assert(root@ =~= seq![SEPARATOR]);
    let mut place: Vec<u8> = Vec::new();
    let mut start: usize = from;
    assert(from < to ==> list[0] == parts@[from as int]@);
    if from < to && text::bytes_eq(parts[from].as_slice(), &root) {
        place.push(SEPARATOR);
        start = from + 1;
    }
    let ghost lead = place@;
    let ghost rest = list.skip(start - from);
    assert(list.skip(0) =~= list);
    assert(lead + with_separators(rest) =~= spelled(list));
    let mut i: usize = start;
    assert(rest.take(0) =~= Seq::empty());
    assert(place@ =~= lead + with_separators(rest.take(0)));
    while i < to
        invariant
            from <= start <= i <= to <= parts@.len(),
            list == views(parts@).subrange(from as int, to as int),
            rest == list.skip(start - from),
            place@ == lead + with_separators(rest.take(i - start)),
        decreases to - i,
    {
        let ghost n = i - start;
        assert(rest.take(n + 1).drop_last() =~= rest.take(n));
        assert(rest.take(n + 1).last() == parts@[i as int]@);
        if i > start {
            place.push(SEPARATOR);
        }
        text::append_bytes(&mut place, parts[i].as_slice());
        assert(place@ =~= lead + with_separators(rest.take(n + 1)));
        i += 1;
    }
    assert(rest.take(rest.len() as int) =~= rest);
    place
}

/// What a path adds to the components of a base that it lies within.
pub open spec fn below(path: Seq<u8>, base: Seq<u8>) -> Seq<u8> {
    spelled(steps(path).skip(steps(base).len() as int))
}

/// What a path adds to the components of a base that it lies within.
pub fn relative_to(path: &[u8], base: &[u8]) -> (relative: Vec<u8>)
    requires
        is_within(path@, base@),
    ensures
        relative@ == below(path@, base@),
{
    let parts = split_steps(path);
    let above = split_steps(base);
    assert(views(parts@).len() == parts@.len() && views(above@).len() == above@.len());
    let relative = spell(&parts, above.len(), parts.len());
    assert(steps(path@).subrange(above@.len() as int, parts@.len() as int) =~= steps(path@).skip(
        above@.len() as int,
    ));
    relative
}

/// Whether two paths have the same components.
pub open spec fn same_path(a: Seq<u8>, b: Seq<u8>) -> bool {
    is_within(a, b) && is_within(b, a)
}

/// Whether two paths have the same components.
pub fn paths_equal(a: &[u8], b: &[u8]) -> (same: bool)
    ensures
        same == same_path(a@, b@),
{
    within(a, b) && within(b, a)
}

/// Whether one of two paths lies at or below the other.
pub open spec fn overlap(a: Seq<u8>, b: Seq<u8>) -> bool {
    is_within(a, b) || is_within(b, a)
}

/// Whether one of two paths lies at or below the other.
pub fn overlaps(a: &[u8], b: &[u8]) -> (answer: bool)
    ensures
        answer == overlap(a@, b@),
{
    within(a, b) || within(b, a)
}

/// The name at the end of a path, unless it ends in a step up or has none.
pub open spec fn file_name(path: Seq<u8>) -> Option<Seq<u8>> {
    let parts = components(path);
    if parts.len() == 0 || !is_name(parts.last()) {
        None
    } else {
        Some(parts.last())
    }
}

/// The name at the end of a path, unless it ends in a step up or has none.
pub fn name_of(path: &[u8]) -> (name: Option<Vec<u8>>)
    ensures
        match name {
            Some(name) => file_name(path@) == Some(name@),
            None => file_name(path@) is None,
        },
{
    let mut parts = split(path);
    let ghost all = components(path@);
    assert(views(parts@).len() == parts@.len());
    if parts.len() == 0 {
        return None;
    }
    assert(views(parts@)[parts@.len() - 1] == all.last());
    match parts.pop() {
        None => None,
        Some(last) => {
            assert(last@ == all.last());
            if ordinary(last.as_slice()) {
                Some(last)
            } else {
                None
            }
        },
    }
}

/// Where the last dot of a name stands: zero if there is none behind the first byte.
pub open spec fn last_dot(name: Seq<u8>) -> nat
    decreases name.len(),
{
    if name.len() == 0 {
        0
    } else if name.last() == DOT {
        (name.len() - 1) as nat
    } else {
        last_dot(name.drop_last())
    }
}

/// A name without what follows its last dot; a dot in front counts as part of the name.
pub open spec fn stem(name: Seq<u8>) -> Seq<u8> {
    if last_dot(name) == 0 {
        name
    } else {
        name.take(last_dot(name) as int)
    }
}

/// A name without what follows its last dot; a dot in front counts as part of the name.
pub fn stem_of(name: &[u8]) -> (result: Vec<u8>)
    ensures
        result@ == stem(name@),
{
    let mut at: usize = name.len();
    assert(name@.take(name@.len() as int) =~= name@);
    while at > 0 && name[at - 1] != DOT
        invariant
            0 <= at <= name@.len(),
            last_dot(name@) == last_dot(name@.take(at as int)),
        decreases at,
    {
        assert(name@.take(at as int).drop_last() =~= name@.take(at - 1));
        at -= 1;
    }
    if at <= 1 {
        return text::copy_bytes(name);
    }
    let result = text::slice_bytes(name, 0, at - 1);
    assert(result@ =~= name@.take(at - 1));
    result
}

/// A path without the separators at its end.
pub open spec fn trimmed(path: Seq<u8>) -> Seq<u8>
    decreases path.len(),
{
    if path.len() > 0 && path.last() == SEPARATOR {
        trimmed(path.drop_last())
    } else {
        path
    }
}

/// The bytes after the last separator.
pub open spec fn after_separator(path: Seq<u8>) -> Seq<u8>
    decreases path.len(),
{
    if path.len() == 0 || path.last() == SEPARATOR {
        Seq::empty()
    } else {
        after_separator(path.drop_last()).push(path.last())
    }
}

/// The last piece of a path.
pub open spec fn leaf(path: Seq<u8>) -> Seq<u8> {
    after_separator(trimmed(path))
}

/// What stands before the last piece of an absolute path.
pub open spec fn parent(path: Seq<u8>) -> Seq<u8> {
    let body = trimmed(path);
    let head = body.take(body.len() - leaf(path).len());
    if trimmed(head).len() == 0 {
        head.take(if head.len() > 0 {
            1
        } else {
            0
        })
    } else {
        trimmed(head)
    }
}

fn trimmed_len(path: &[u8], from: usize) -> (end: usize)
    requires
        from <= path@.len(),
    ensures
        end <= from,
        trimmed(path@.take(from as int)) == path@.take(end as int),
{
    let mut end: usize = from;
    while end > 0 && path[end - 1] == SEPARATOR
        invariant
            end <= from <= path@.len(),
            trimmed(path@.take(from as int)) == trimmed(path@.take(end as int)),
        decreases end,
    {
        assert(path@.take(end as int).drop_last() =~= path@.take(end - 1));
        end -= 1;
    }
    end
}

proof fn lemma_after_separator(path: Seq<u8>, start: int)
    requires
        0 <= start <= path.len(),
        start == 0 || path[start - 1] == SEPARATOR,
        forall|i: int| start <= i < path.len() ==> path[i] != SEPARATOR,
    ensures
        after_separator(path) == path.subrange(start, path.len() as int),
    decreases path.len(),
{
    if path.len() > start {
        lemma_after_separator(path.drop_last(), start);
        assert(path.drop_last().subrange(start, path.len() - 1).push(path.last())
            =~= path.subrange(start, path.len() as int));
    } else {
        assert(path.subrange(start, path.len() as int) =~= Seq::empty());
    }
}

/// Parent and last piece of an absolute path.
pub fn split_leaf(path: &[u8]) -> (parts: (Vec<u8>, Vec<u8>))
    ensures
        parts.0@ == parent(path@),
        parts.1@ == leaf(path@),
{
    let end: usize = trimmed_len(path, path.len());
    assert(path@.take(path@.len() as int) =~= path@);
    let mut start: usize = end;
    while start > 0 && path[start - 1] != SEPARATOR
        invariant
            start <= end <= path@.len(),
            forall|i: int| start <= i < end ==> path@[i] != SEPARATOR,
        decreases start,
    {
        start -= 1;
    }
    let ghost body = path@.take(end as int);
    proof {
        lemma_after_separator(body, start as int);
        assert(body.subrange(start as int, end as int) =~= path@.subrange(
            start as int,
            end as int,
        ));
        assert(body.take(start as int) =~= path@.take(start as int));
    }
    let name = text::slice_bytes(path, start, end);
    let cut: usize = trimmed_len(path, start);
    let above = if cut == 0 {
        let one: usize = if start > 0 {
            1
        } else {
            0
        };
        let above = text::slice_bytes(path, 0, one);
        assert(above@ =~= path@.take(start as int).take(one as int));
        above
    } else {
        let above = text::slice_bytes(path, 0, cut);
        assert(above@ =~= path@.take(cut as int));
        above
    };
    (above, name)
}

/// Whether some piece of `path` between separators is exactly `piece`.
pub open spec fn has_piece(path: Seq<u8>, piece: Seq<u8>) -> bool {
    exists|at: int| piece_at(path, piece, at)
}

/// Whether `piece` stands between separators at position `at`.
pub open spec fn piece_at(path: Seq<u8>, piece: Seq<u8>, at: int) -> bool {
    let end = at + piece.len();
    &&& 0 <= at
    &&& end <= path.len()
    &&& path.subrange(at, end) == piece
    &&& (at == 0 || path[at - 1] == SEPARATOR)
    &&& (end == path.len() || path[end] == SEPARATOR)
}

/// Whether some piece of `path` between separators is exactly `piece`.
pub fn contains_piece(path: &[u8], piece: &[u8]) -> (found: bool)
    ensures
        found == has_piece(path@, piece@),
{
    if piece.len() > path.len() {
        return false;
    }
    let mut at: usize = 0;
    let last: usize = path.len() - piece.len();
    loop
        invariant
            piece@.len() <= path@.len() <= usize::MAX,
            last == path@.len() - piece@.len(),
            0 <= at <= last,
            forall|k: int| 0 <= k < at ==> !piece_at(path@, piece@, k),
        decreases last - at,
    {
        let end: usize = at + piece.len();
        let starts: bool = at == 0 || path[at - 1] == SEPARATOR;
        let ends: bool = end == path.len() || path[end] == SEPARATOR;
        if starts && ends {
            let part = text::slice_bytes(path, at, end);
            if text::bytes_eq(part.as_slice(), piece) {
                assert(piece_at(path@, piece@, at as int));
                return true;
            }
        }
        assert(!piece_at(path@, piece@, at as int));
        if at == last {
            assert forall|k: int| !piece_at(path@, piece@, k) by {}
            return false;
        }
        at += 1;
    }
}

} // verus!
