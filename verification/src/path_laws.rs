//! How joining, stripping and normalizing act on the components of a path.

use vstd::prelude::*;

use crate::path::{
    absolute, components, is_component, is_normal, is_root, joined, lemma_piece_end, lemma_spans,
    normalized, piece_end, pieces, resolved, slash_joined, spans, stripped, tail_from,
};

verus! {

spec fn shifted(at: Seq<(int, int)>, by: int) -> Seq<(int, int)> {
    Seq::new(at.len(), |i: int| (at[i].0 + by, at[i].1 + by))
}

proof fn lemma_piece_end_suffix(head: Seq<char>, text: Seq<char>, i: int)
    requires
        0 <= i <= text.len(),
    ensures
        piece_end(head + text, head.len() + i) == head.len() + piece_end(text, i),
    decreases text.len() - i,
{
    let whole = head + text;
    if i < text.len() {
        assert(whole[head.len() + i] == text[i]);
        if text[i] != '/' {
            lemma_piece_end_suffix(head, text, i + 1);
        }
    }
}

proof fn lemma_spans_suffix(head: Seq<char>, text: Seq<char>, i: int)
    requires
        0 < i <= text.len() + 1,
    ensures
        spans(head + text, head.len() + i) == shifted(spans(text, i), head.len() as int),
    decreases text.len() + 1 - i,
{
    if i < text.len() {
        lemma_piece_end(text, i);
        lemma_piece_end_suffix(head, text, i);
        lemma_spans_suffix(head, text, piece_end(text, i) + 1);
        assert((head + text)[head.len() + i] == text[i]);
    }
}

/// Whether a path starts with a `.`.
pub open spec fn dotted(text: Seq<char>) -> bool {
    components(text).len() > 0 && components(text)[0] == seq!['.']
}

proof fn lemma_first_piece(text: Seq<char>)
    requires
        text.len() > 0,
        !absolute(text),
    ensures
        0 < piece_end(text, 0) <= text.len(),
        spans(text, 0) == seq![(0int, piece_end(text, 0))] + spans(text, piece_end(text, 0) + 1),
        dotted(text) <==> (piece_end(text, 0) == 1 && text[0] == '.'),
{
    lemma_piece_end(text, 0);
    let end = piece_end(text, 0);
    assert(spans(text, 0)[0] == (0int, end));
    assert(components(text)[0] == text.subrange(0, end));
    if end == 1 && text[0] == '.' {
        assert(text.subrange(0, 1) == seq!['.']);
    }
    if components(text)[0] == seq!['.'] {
        assert(text.subrange(0, end).len() == 1);
        assert(text.subrange(0, end)[0] == '.');
    }
}

proof fn lemma_spans_suffix_start(head: Seq<char>, text: Seq<char>)
    requires
        head.len() > 0,
        !absolute(text),
        !dotted(text),
    ensures
        spans(head + text, head.len() as int) == shifted(spans(text, 0), head.len() as int),
{
    if text.len() > 0 {
        lemma_first_piece(text);
        lemma_piece_end_suffix(head, text, 0);
        let end = piece_end(text, 0);
        lemma_spans_suffix(head, text, end + 1);
        assert((head + text)[head.len() as int] == text[0]);
    }
}

proof fn lemma_piece_end_prefix(head: Seq<char>, text: Seq<char>, i: int)
    requires
        head.len() > 0,
        head.last() == '/',
        0 <= i < head.len(),
    ensures
        piece_end(head + text, i) == piece_end(head, i),
        piece_end(head, i) < head.len(),
    decreases head.len() - i,
{
    assert((head + text)[i] == head[i]);
    if head[i] != '/' {
        lemma_piece_end_prefix(head, text, i + 1);
    }
}

proof fn lemma_spans_prefix(head: Seq<char>, text: Seq<char>, i: int)
    requires
        head.len() > 0,
        head.last() == '/',
        0 <= i <= head.len(),
    ensures
        spans(head + text, i) == spans(head, i) + spans(head + text, head.len() as int),
    decreases head.len() - i,
{
    if i < head.len() {
        lemma_piece_end(head, i);
        lemma_piece_end_prefix(head, text, i);
        assert((head + text)[i] == head[i]);
        lemma_spans_prefix(head, text, piece_end(head, i) + 1);
    }
}

proof fn lemma_piece_end_slash(text: Seq<char>, i: int)
    requires
        0 <= i <= text.len(),
    ensures
        piece_end(text + seq!['/'], i) == piece_end(text, i),
    decreases text.len() - i,
{
    let longer = text + seq!['/'];
    if i < text.len() {
        assert(longer[i] == text[i]);
        if text[i] != '/' {
            lemma_piece_end_slash(text, i + 1);
        }
    } else {
        assert(longer[i] == '/');
    }
}

proof fn lemma_spans_slash(text: Seq<char>, i: int)
    requires
        text.len() > 0,
        0 <= i <= text.len() + 1,
    ensures
        spans(text + seq!['/'], i) == spans(text, i),
    decreases text.len() + 1 - i,
{
    let longer = text + seq!['/'];
    if i <= text.len() {
        lemma_piece_end_slash(text, i);
        lemma_piece_end(text, i);
        let end = piece_end(text, i);
        lemma_spans_slash(text, end + 1);
        if i < text.len() {
            assert(longer[i] == text[i]);
        } else {
            assert(end == i);
            assert(spans(longer, i) == spans(longer, end + 1));
        }
    }
}

proof fn lemma_pieces_append(text: Seq<char>, more: Seq<char>, a: Seq<(int, int)>, b: Seq<(int, int)>)
    requires
        forall|i: int| 0 <= i < a.len() ==> 0 <= (#[trigger] a[i]).0 <= a[i].1 <= text.len(),
        forall|i: int| 0 <= i < b.len() ==> 0 <= (#[trigger] b[i]).0 <= b[i].1 <= more.len(),
    ensures
        pieces(text + more, a + shifted(b, text.len() as int)) == pieces(text, a) + pieces(more, b),
{
    let whole = text + more;
    let at = a + shifted(b, text.len() as int);
    let left = pieces(whole, at);
    let right = pieces(text, a) + pieces(more, b);
    assert forall|i: int| 0 <= i < at.len() implies left[i] == right[i] by {
        if i < a.len() {
            assert(at[i] == a[i]);
            assert(whole.subrange(a[i].0, a[i].1) == text.subrange(a[i].0, a[i].1));
        } else {
            let j = i - a.len();
            assert(at[i] == shifted(b, text.len() as int)[j]);
            assert(whole.subrange(at[i].0, at[i].1) == more.subrange(b[j].0, b[j].1));
            assert(right[i] == pieces(more, b)[j]);
        }
    }
    assert(left == right);
}

/// Joining a path that starts with `.` onto a base puts the components behind the `.` behind those
/// of the base.
pub proof fn components_of_join_dotted(base: Seq<char>, tail: Seq<char>)
    requires
        base.len() > 0,
        !absolute(tail),
        dotted(tail),
    ensures
        components(joined(base, tail)) == components(base) + components(tail).skip(1),
{
    let head = if base.last() == '/' {
        base
    } else {
        base + seq!['/']
    };
    assert(head.last() == '/');
    if base.last() != '/' {
        lemma_spans_slash(base, 0);
    }
    lemma_spans_prefix(head, tail, 0);
    lemma_first_piece(tail);
    lemma_piece_end_suffix(head, tail, 0);
    let n = head.len() as int;
    assert((head + tail)[n] == tail[0]);
    lemma_spans_suffix(head, tail, 2);
    assert(!is_component(head + tail, n, n + 1));
    assert(spans(head + tail, n) == spans(head + tail, n + 2));
    assert(joined(base, tail) == head + tail);
    assert(forall|i: int|
        0 <= i < spans(base, 0).len() ==> 0 <= (#[trigger] spans(base, 0)[i]).0
            <= spans(base, 0)[i].1 <= base.len()) by {
        lemma_spans(base, 0);
    }
    let behind = spans(tail, 2);
    assert(forall|i: int|
        0 <= i < behind.len() ==> 0 <= (#[trigger] behind[i]).0 <= behind[i].1 <= tail.len()) by {
        lemma_piece_end(tail, 0);
        lemma_spans(tail, 2);
    }
    lemma_pieces_append(head, tail, spans(base, 0), behind);
    assert(pieces(head, spans(base, 0)) == components(base)) by {
        assert forall|i: int| 0 <= i < spans(base, 0).len() implies pieces(head, spans(base, 0))[i]
            == components(base)[i] by {
            let at = spans(base, 0)[i];
            assert(head.subrange(at.0, at.1) == base.subrange(at.0, at.1));
        }
    }
    assert(pieces(tail, behind) == components(tail).skip(1)) by {
        assert(spans(tail, 0).skip(1) == behind);
        assert forall|i: int| 0 <= i < behind.len() implies pieces(tail, behind)[i] == components(
            tail,
        ).skip(1)[i] by {
            assert(spans(tail, 0)[i + 1] == behind[i]);
        }
    }
}

proof fn lemma_spans_of_join(base: Seq<char>, tail: Seq<char>)
    requires
        !absolute(tail),
        !dotted(tail),
    ensures
        joined(base, tail).len() >= tail.len(),
        joined(base, tail).skip(joined(base, tail).len() - tail.len()) == tail,
        spans(joined(base, tail), 0) == spans(base, 0) + shifted(
            spans(tail, 0),
            joined(base, tail).len() - tail.len(),
        ),
{
    let text = joined(base, tail);
    if base.len() == 0 {
        assert(text == tail);
        assert(spans(base, 0) + shifted(spans(tail, 0), 0) == spans(tail, 0));
    } else {
        let head = if base.last() == '/' {
            base
        } else {
            base + seq!['/']
        };
        assert(head.last() == '/');
        if base.last() != '/' {
            lemma_spans_slash(base, 0);
        }
        assert(spans(head, 0) == spans(base, 0));
        lemma_spans_prefix(head, tail, 0);
        lemma_spans_suffix_start(head, tail);
        assert(text == head + tail);
    }
    assert(text.skip(text.len() - tail.len()) == tail);
}

/// Joining a relative path that does not start with `.` puts its components behind those of the
/// base.
pub proof fn components_of_join(base: Seq<char>, tail: Seq<char>)
    requires
        !absolute(tail),
        !dotted(tail),
    ensures
        components(joined(base, tail)) == components(base) + components(tail),
{
    let text = joined(base, tail);
    let n = text.len() - tail.len();
    lemma_spans_of_join(base, tail);
    let a = spans(base, 0);
    let b = spans(tail, 0);
    let left = components(text);
    let right = components(base) + components(tail);
    assert(spans(text, 0).len() == a.len() + b.len());
    assert forall|i: int| 0 <= i < left.len() implies left[i] == right[i] by {
        let at = spans(text, 0)[i];
        if i < a.len() {
            assert(at == a[i]);
            assert(0 <= at.0 <= at.1 <= base.len()) by {
                lemma_spans(base, 0);
            }
            assert(text.subrange(at.0, at.1) == base.subrange(at.0, at.1));
        } else {
            let j = i - a.len();
            assert(at == shifted(b, n)[j]);
            assert(0 <= b[j].0 <= b[j].1 <= tail.len()) by {
                lemma_spans(tail, 0);
            }
            assert forall|k: int| 0 <= k < b[j].1 - b[j].0 implies text.subrange(at.0, at.1)[k]
                == tail.subrange(b[j].0, b[j].1)[k] by {
                assert(text.skip(n)[b[j].0 + k] == tail[b[j].0 + k]);
            }
            assert(text.subrange(at.0, at.1) == tail.subrange(b[j].0, b[j].1));
            assert(right[i] == components(tail)[j]);
        }
    }
    assert(left == right);
}

/// Whether a path is relative, and starts and ends with a component other than `.`.
pub open spec fn is_tidy(text: Seq<char>) -> bool {
    &&& text.len() > 0
    &&& !absolute(text)
    &&& !dotted(text)
    &&& spans(text, 0).last().1 == text.len()
}

/// A tidy path joined onto a base is what is left behind the base again.
pub proof fn join_then_strip(base: Seq<char>, tail: Seq<char>)
    requires
        is_tidy(tail),
    ensures
        stripped(joined(base, tail), base) == Some(tail),
{
    let text = joined(base, tail);
    let n = text.len() - tail.len();
    lemma_spans_of_join(base, tail);
    components_of_join(base, tail);
    lemma_first_piece(tail);
    let a = spans(base, 0);
    let b = spans(tail, 0);
    let at = spans(text, 0);
    assert(at[a.len() as int] == shifted(b, n)[0]);
    assert(at.last() == shifted(b, n).last());
    assert(text.subrange(n, text.len() as int) == text.skip(n));
    assert(components(base).is_prefix_of(components(text)));
}

proof fn lemma_tidy_join(base: Seq<char>, tail: Seq<char>)
    requires
        is_tidy(base),
        is_tidy(tail),
    ensures
        is_tidy(joined(base, tail)),
{
    let text = joined(base, tail);
    lemma_spans_of_join(base, tail);
    components_of_join(base, tail);
    lemma_first_piece(tail);
    lemma_first_piece(base);
    assert(spans(text, 0).last() == shifted(spans(tail, 0), text.len() - tail.len()).last());
    assert(text[0] == base[0]);
    assert(components(text)[0] == components(base)[0]);
}

proof fn lemma_spans_at(text: Seq<char>, from: int, n: int)
    requires
        0 <= from <= text.len() + 1,
        from == 0 || from > text.len() || text[from - 1] == '/',
        0 <= n < spans(text, from).len(),
    ensures
        spans(text, spans(text, from)[n].0) == spans(text, from).skip(n),
    decreases text.len() + 1 - from,
{
    lemma_piece_end(text, from);
    lemma_spans(text, from);
    let end = piece_end(text, from);
    let rest = spans(text, end + 1);
    if (from == 0 && end == 0) || is_component(text, from, end) {
        if n > 0 {
            assert(spans(text, from)[n] == rest[n - 1]);
            lemma_spans_at(text, end + 1, n - 1);
            assert(rest.skip(n - 1) == spans(text, from).skip(n));
        } else {
            assert(spans(text, from).skip(0) == spans(text, from));
        }
    } else {
        lemma_spans_at(text, end + 1, n);
    }
}

proof fn lemma_piece_end_take(text: Seq<char>, m: int, i: int)
    requires
        0 <= i <= m <= text.len(),
        piece_end(text, i) <= m,
    ensures
        piece_end(text.take(m), i) == piece_end(text, i),
    decreases text.len() - i,
{
    lemma_piece_end(text, i);
    if i < m {
        assert(text.take(m)[i] == text[i]);
        if text[i] != '/' {
            lemma_piece_end_take(text, m, i + 1);
        }
    }
}

/// Cutting a text behind its last component takes none away.
proof fn lemma_spans_take(text: Seq<char>, m: int, i: int)
    requires
        0 <= m <= text.len(),
        0 <= i <= text.len() + 1,
        i == 0 || i > text.len() || text[i - 1] == '/',
        forall|k: int| 0 <= k < spans(text, i).len() ==> (#[trigger] spans(text, i)[k]).1 <= m,
    ensures
        spans(text.take(m), i) == spans(text, i),
    decreases text.len() + 1 - i,
{
    lemma_spans(text, i);
    if i < text.len() {
        lemma_piece_end(text, i);
        let end = piece_end(text, i);
        let all = spans(text, i);
        let rest = spans(text, end + 1);
        assert forall|k: int| 0 <= k < rest.len() implies (#[trigger] rest[k]).1 <= m by {
            if all.len() == rest.len() {
                assert(all[k] == rest[k]);
            } else {
                assert(all[k + 1] == rest[k]);
            }
        }
        lemma_spans_take(text, m, end + 1);
        if i >= m {
            if all.len() > 0 {
                assert(all[0].1 <= m);
                assert(false);
            }
        } else {
            if end > m {
                assert(is_component(text, i, end));
                assert(all[0] == (i, end));
                assert(false);
            }
            lemma_piece_end_take(text, m, i);
            assert(text.take(m)[i] == text[i]);
        }
    } else if spans(text, i).len() > 0 {
        assert(false);
    }
}

proof fn lemma_spans_of_suffix(text: Seq<char>, n: int)
    requires
        0 <= n < spans(text, 0).len(),
    ensures
        0 <= spans(text, 0)[n].0 <= text.len(),
        spans(text, 0).skip(n) == shifted(
            spans(text.skip(spans(text, 0)[n].0), 0),
            spans(text, 0)[n].0,
        ),
{
    let at = spans(text, 0);
    let start = at[n].0;
    let head = text.take(start);
    let tail = text.skip(start);
    lemma_spans_at(text, 0, n);
    assert(0 <= start < at[n].1 <= text.len() && (start == 0 || (is_component(
        text,
        start,
        at[n].1,
    ) && at[n].1 == piece_end(text, start)))) by {
        lemma_spans(text, 0);
    }
    assert(text == head + tail);
    if start > 0 {
        assert(tail[0] == text[start]);
        lemma_piece_end(text, start);
        assert(text[start] != '/');
        assert(!absolute(tail));
        lemma_first_piece(tail);
        lemma_piece_end_suffix(head, tail, 0);
        assert(!dotted(tail));
        lemma_spans_suffix_start(head, tail);
    } else {
        assert(tail == text);
        assert(shifted(spans(tail, 0), 0) == spans(tail, 0));
    }
}

/// The text from the `n`th component on has the components from the `n`th on.
pub proof fn components_of_tail(text: Seq<char>, n: int)
    requires
        0 <= n <= components(text).len(),
    ensures
        components(tail_from(text, n)) == components(text).skip(n),
{
    let at = spans(text, 0);
    if n == at.len() {
        assert(components(tail_from(text, n)) == components(text).skip(n));
    } else {
        let start = at[n].0;
        let end = at.last().1;
        let tail = text.skip(start);
        let found = spans(tail, 0);
        lemma_spans_of_suffix(text, n);
        assert(forall|k: int|
            n <= k < at.len() ==> start <= (#[trigger] at[k]).0 < at[k].1 <= end <= text.len()) by {
            lemma_spans(text, 0);
            assert forall|k: int| n <= k < at.len() implies start <= (#[trigger] at[k]).0
                < at[k].1 <= end <= text.len() by {
                if k > n {
                    assert(at[n].1 <= at[k].0);
                }
                if k < at.len() - 1 {
                    assert(at[k].1 <= at[at.len() - 1].0);
                }
            }
        }
        assert(shifted(found, start).len() == found.len());
        assert(at.skip(n).len() == at.len() - n);
        assert forall|k: int| 0 <= k < found.len() implies (#[trigger] found[k]).0 == at[n + k].0
            - start && found[k].1 == at[n + k].1 - start by {
            assert(at.skip(n)[k] == at[n + k]);
            assert(shifted(found, start)[k] == (found[k].0 + start, found[k].1 + start));
        }
        lemma_spans_take(tail, end - start, 0);
        let piece = tail_from(text, n);
        assert(tail.take(end - start) == piece);
        assert forall|k: int| 0 <= k < found.len() implies #[trigger] components(piece)[k]
            == components(text).skip(n)[k] by {
            assert(piece.subrange(found[k].0, found[k].1) == text.subrange(at[n + k].0, at[n + k].1));
        }
        assert(components(piece) == components(text).skip(n));
    }
}

/// Only the empty path has no component.
pub proof fn lemma_no_components(text: Seq<char>)
    ensures
        components(text).len() == 0 <==> text.len() == 0,
        absolute(text) ==> components(text).len() > 0 && components(text)[0] == seq!['/'],
{
    if text.len() > 0 {
        if absolute(text) {
            assert(piece_end(text, 0) == 0);
            assert(spans(text, 0)[0] == (0int, 1int));
            assert(components(text)[0] == text.subrange(0, 1));
            assert(text.subrange(0, 1) == seq!['/']);
        } else {
            lemma_first_piece(text);
        }
    }
}

/// What is left of a path behind a prefix, joined onto that prefix, has the components of the
/// whole path again.
pub proof fn strip_then_join(text: Seq<char>, base: Seq<char>)
    requires
        stripped(text, base) is Some,
    ensures
        components(joined(base, stripped(text, base)->0)) == components(text),
        components(stripped(text, base)->0) == components(text).skip(components(base).len() as int),
{
    let n = components(base).len() as int;
    let tail = tail_from(text, n);
    components_of_tail(text, n);
    lemma_spans(text, 0);
    if n == 0 {
        lemma_no_components(base);
        assert(joined(base, tail) == tail);
        assert(components(text).skip(0) == components(text));
    } else {
        lemma_component_kinds(text);
        lemma_no_components(tail);
        if n < components(text).len() {
            assert(components(tail)[0] == components(text)[n]);
        }
        components_of_join(base, tail);
        assert(components(base) == components(text).take(n));
        assert(components(text).take(n) + components(text).skip(n) == components(text));
    }
}

/// Whether a component is a piece of a path's body: not empty, without a `/`, and not `.`.
pub open spec fn is_plain(component: Seq<char>) -> bool {
    component.len() > 0 && !component.contains('/') && component != seq!['.']
}

/// The root and `.` are components only at the start; every other component is a plain piece.
pub proof fn lemma_component_kinds(text: Seq<char>)
    ensures
        forall|i: int|
            0 < i < components(text).len() ==> is_plain(#[trigger] components(text)[i]),
        components(text).len() > 0 ==> {
            let first = components(text)[0];
            is_plain(first) || first == seq!['.'] || (absolute(text) && first == seq!['/'])
        },
        !absolute(text) && components(text).len() > 0 ==> !components(text)[0].contains('/'),
{
    lemma_spans(text, 0);
    let at = spans(text, 0);
    assert forall|i: int| 0 <= i < at.len() && !is_root(text, at[i]) implies !(
    #[trigger] components(text)[i]).contains('/') && components(text)[i].len() > 0 && (i > 0
        ==> components(text)[i] != seq!['.']) by {
        lemma_piece_end(text, at[i].0);
        let c = components(text)[i];
        assert(c == text.subrange(at[i].0, at[i].1));
        assert forall|k: int| 0 <= k < c.len() implies c[k] != '/' by {
            assert(c[k] == text[at[i].0 + k]);
        }
        if i > 0 {
            assert(at[0].1 <= at[i].0);
            if c == seq!['.'] {
                assert(c[0] == '.' && c.len() == 1);
                assert(false);
            }
        }
    }
    assert forall|i: int| 0 < i < at.len() implies is_plain(#[trigger] components(text)[i]) by {
        assert(at[0].1 <= at[i].0);
    }
    if at.len() > 0 && is_root(text, at[0]) {
        assert(components(text)[0] == text.subrange(0, 1));
        assert(text.subrange(0, 1) == seq!['/']);
    }
}

/// Whether every component is a plain piece.
pub open spec fn all_plain(names: Seq<Seq<char>>) -> bool {
    forall|i: int| 0 <= i < names.len() ==> is_plain(#[trigger] names[i])
}

/// Whether every component is a plain piece that names an entry of a directory.
pub open spec fn all_names(names: Seq<Seq<char>>) -> bool {
    all_plain(names) && forall|i: int| 0 <= i < names.len() ==> is_normal(#[trigger] names[i])
}

proof fn lemma_no_slash(text: Seq<char>, i: int)
    requires
        !text.contains('/'),
        0 <= i <= text.len(),
    ensures
        piece_end(text, i) == text.len(),
    decreases text.len() - i,
{
    if i < text.len() {
        assert(text.contains(text[i]));
        lemma_no_slash(text, i + 1);
    }
}

/// A plain piece is a path of one component.
pub proof fn components_of_piece(piece: Seq<char>)
    requires
        is_plain(piece),
    ensures
        components(piece) == seq![piece],
        !absolute(piece),
        !dotted(piece),
        is_tidy(piece),
{
    assert(piece.contains(piece[0]));
    lemma_no_slash(piece, 0);
    lemma_first_piece(piece);
    assert(spans(piece, 0) == seq![(0int, piece.len() as int)]);
    assert(piece.subrange(0, piece.len() as int) == piece);
    assert(components(piece) == seq![piece]);
}

/// Plain pieces with slashes between them are the components of the text that this gives.
pub proof fn components_of_slash_joined(names: Seq<Seq<char>>)
    requires
        all_plain(names),
    ensures
        components(slash_joined(names)) == names,
        !absolute(slash_joined(names)),
        !dotted(slash_joined(names)),
        names.len() > 0 ==> is_tidy(slash_joined(names)) && slash_joined(names).last() != '/',
    decreases names.len(),
{
    if names.len() == 0 {
        assert(components(slash_joined(names)) == names);
    } else {
        let last = names.last();
        assert(is_plain(names[names.len() - 1]));
        components_of_piece(last);
        assert(last.contains(last[last.len() - 1]));
        if names.len() == 1 {
            assert(names == seq![last]);
        } else {
            let front = names.drop_last();
            assert(all_plain(front));
            components_of_slash_joined(front);
            let head = slash_joined(front);
            let text = slash_joined(names);
            assert(text == joined(head, last));
            components_of_join(head, last);
            lemma_tidy_join(head, last);
            assert(front + seq![last] == names);
            assert(text[0] == head[0]);
            assert(components(text)[0] == names[0]);
            assert(is_plain(names[0]));
            assert(text.last() == last.last());
        }
    }
}

/// The components of an absolute path that is written from plain pieces.
pub proof fn components_of_rooted(names: Seq<Seq<char>>)
    requires
        all_plain(names),
    ensures
        components(seq!['/'] + slash_joined(names)) == seq![seq!['/']] + names,
        absolute(seq!['/'] + slash_joined(names)),
{
    let root: Seq<char> = seq!['/'];
    components_of_slash_joined(names);
    components_of_join(root, slash_joined(names));
    lemma_no_components(root);
    assert(piece_end(root, 0) == 0);
    assert(spans(root, 1) == Seq::<(int, int)>::empty());
    assert(components(root) == seq![root]);
}

/// What is resolved holds only names.
pub proof fn lemma_resolved_names(names: Seq<Seq<char>>)
    requires
        all_plain(names),
        resolved(names) is Some,
    ensures
        all_names(resolved(names)->0),
    decreases names.len(),
{
    if names.len() > 0 {
        assert(all_plain(names.drop_last()));
        assert(is_plain(names[names.len() - 1]));
        lemma_resolved_names(names.drop_last());
        let kept = resolved(names.drop_last())->0;
        assert(all_names(kept));
        let last = names.last();
        if last != seq!['.', '.'] {
            assert(last != seq!['/']) by {
                let slash: Seq<char> = seq!['/'];
                assert(slash[0] == '/');
                assert(slash.contains('/'));
            }
        }
    }
}

/// A list of names is already resolved.
pub proof fn lemma_resolved_fixed(names: Seq<Seq<char>>)
    requires
        all_names(names),
    ensures
        resolved(names) == Some(names),
    decreases names.len(),
{
    if names.len() > 0 {
        assert(all_names(names.drop_last()));
        lemma_resolved_fixed(names.drop_last());
        assert(is_normal(names[names.len() - 1]));
        assert(names.drop_last().push(names.last()) == names);
    } else {
        assert(names == Seq::<Seq<char>>::empty());
    }
}

/// The components of an absolute path behind its root are plain pieces.
pub proof fn lemma_rooted_plain(text: Seq<char>)
    requires
        absolute(text),
    ensures
        components(text).len() > 0,
        components(text)[0] == seq!['/'],
        all_plain(components(text).skip(1)),
{
    lemma_no_components(text);
    lemma_component_kinds(text);
    let names = components(text).skip(1);
    assert forall|i: int| 0 <= i < names.len() implies is_plain(#[trigger] names[i]) by {
        assert(names[i] == components(text)[i + 1]);
    }
}

/// A normalized absolute path is absolute, holds neither `.` nor `..`, and stays as it is when it
/// is normalized again.
pub proof fn normalized_is_normal(text: Seq<char>)
    requires
        absolute(text),
        normalized(text) is Some,
    ensures
        absolute(normalized(text)->0),
        components(normalized(text)->0)[0] == seq!['/'],
        all_names(components(normalized(text)->0).skip(1)),
        components(normalized(text)->0).skip(1) == resolved(components(text).skip(1))->0,
        normalized(normalized(text)->0) == normalized(text),
{
    lemma_rooted_plain(text);
    let names = components(text).skip(1);
    let kept = resolved(names)->0;
    lemma_resolved_names(names);
    components_of_rooted(kept);
    let result = normalized(text)->0;
    assert(components(result).skip(1) == kept);
    lemma_resolved_fixed(kept);
}

} // verus!
