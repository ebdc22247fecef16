//! What the operations on paths and names answer, character by character.

use vstd::prelude::*;

use crate::entry_laws::is_place;
use crate::error::{Error, ErrorView};
use crate::name::{lowercase, normal_name, valid_name, PackageName};
use crate::order::{ascending, before, name_texts, sorted_names};
use crate::path::{
    absolute, components, file_name, is_absolute, join, joined, lemma_piece_end,
    normalize_absolute_path, normalized, piece_end, resolved, same_text, slash_joined, spans,
    split_components, texts,
};
use crate::path_laws::{
    all_names, all_plain, components_of_join, components_of_join_dotted, components_of_piece,
    dotted, is_plain, lemma_no_components, lemma_resolved_fixed, lemma_resolved_names,
    lemma_rooted_plain,
};
use crate::resource_laws::lemma_resolved_append;

verus! {

/// A path is absolute exactly where its first character is `/`.
pub proof fn absolute_paths_start_with_a_slash(text: &str, r: bool)
    requires
        call_ensures(is_absolute, (text,), r),
    ensures
        r <==> text@.len() > 0 && text@[0] == '/',
{
}

/// Joining puts a relative path behind the base, with exactly one `/` more where the base is
/// neither empty nor ends with one. An absolute path stands alone.
pub proof fn joining_puts_behind(base: &str, tail: &str, r: String)
    requires
        call_ensures(join, (base, tail), r),
    ensures
        is_place(r@, base@, tail@),
{
}

proof fn lemma_piece_end_slash(text: Seq<char>, i: int)
    requires
        0 <= i <= text.len(),
    ensures
        piece_end(text.push('/'), i) == piece_end(text, i),
    decreases text.len() - i,
{
    if i < text.len() {
        assert(text.push('/')[i] == text[i]);
        if text[i] != '/' {
            lemma_piece_end_slash(text, i + 1);
        }
    }
}

proof fn lemma_spans_slash(text: Seq<char>, i: int)
    requires
        0 <= i <= text.len() + 1,
        text.len() > 0,
    ensures
        spans(text.push('/'), i) == spans(text, i),
    decreases text.len() + 1 - i,
{
    let longer = text.push('/');
    if i < text.len() {
        lemma_piece_end(text, i);
        lemma_piece_end_slash(text, i);
        lemma_spans_slash(text, piece_end(text, i) + 1);
        assert(longer[i] == text[i]);
    } else if i == text.len() {
        assert(piece_end(longer, i) == i);
        assert(spans(longer, i + 1) == Seq::<(int, int)>::empty());
    }
}

/// A `/` behind a path that is not empty changes none of its components.
proof fn lemma_slash_behind(text: Seq<char>)
    requires
        text.len() > 0,
    ensures
        components(text.push('/')) == components(text),
{
    lemma_spans_slash(text, 0);
    let at = spans(text, 0);
    crate::path::lemma_spans(text, 0);
    let a = components(text.push('/'));
    let b = components(text);
    assert forall|i: int| 0 <= i < a.len() implies a[i] == b[i] by {
        assert(at[i].1 <= text.len());
        assert(text.push('/').subrange(at[i].0, at[i].1) == text.subrange(at[i].0, at[i].1));
    }
    assert(a == b);
}

/// What a piece without a `/` adds to the components before it: itself, unless it is empty or a
/// `.`.
pub open spec fn added(piece: Seq<char>) -> Seq<Seq<char>> {
    if piece.len() == 0 || piece == seq!['.'] {
        Seq::empty()
    } else {
        seq![piece]
    }
}

proof fn lemma_last_piece(front: Seq<char>, piece: Seq<char>)
    requires
        forall|k: int| 0 <= k < piece.len() ==> #[trigger] piece[k] != '/',
    ensures
        components(front + seq!['/'] + piece) == (if front.len() == 0 {
            seq![seq!['/']]
        } else {
            components(front)
        }) + added(piece),
        components(piece) == (if piece.len() == 0 {
            Seq::<Seq<char>>::empty()
        } else {
            seq![piece]
        }),
{
    let base = front.push('/');
    let root: Seq<char> = seq!['/'];
    let dot: Seq<char> = seq!['.'];
    let whole = front + seq!['/'] + piece;
    assert(whole == base + piece);
    assert(joined(base, piece) == whole);
    if front.len() > 0 {
        lemma_slash_behind(front);
    } else {
        assert(base == root);
        lemma_no_components(root);
        assert(piece_end(root, 0) == 0);
        assert(spans(root, 1) == Seq::<(int, int)>::empty());
        assert(root.subrange(0, 1) == root);
        assert(components(root) == seq![root]);
    }
    if piece.len() == 0 {
        lemma_no_components(piece);
        assert(components(piece) == Seq::<Seq<char>>::empty());
        assert(whole == base);
        assert(components(base) + added(piece) == components(base));
    } else {
        assert(!piece.contains('/'));
        if piece == dot {
            assert(piece_end(dot, 1) == 1);
            assert(piece_end(dot, 0) == 1);
            assert(spans(dot, 2) == Seq::<(int, int)>::empty());
            assert(spans(dot, 0) == seq![(0int, 1int)]);
            assert(dot.subrange(0, 1) == dot);
            assert(components(dot) == seq![dot]);
            components_of_join_dotted(base, piece);
            assert(components(piece).skip(1) == Seq::<Seq<char>>::empty());
            assert(components(base) + components(piece).skip(1) == components(base) + added(piece));
        } else {
            components_of_piece(piece);
            components_of_join(base, piece);
        }
    }
}

/// A path without a `/` is one component, or none where it is empty.
pub proof fn text_without_slash_is_one_component<'a>(text: &'a str, r: Vec<&'a str>)
    requires
        call_ensures(split_components, (text,), r),
        forall|k: int| 0 <= k < text@.len() ==> #[trigger] text@[k] != '/',
    ensures
        text@.len() == 0 ==> r@.len() == 0,
        text@.len() > 0 ==> r@.len() == 1 && r@[0]@ == text@,
{
    lemma_last_piece(Seq::empty(), text@);
    assert(texts(r@).len() == r@.len());
    if text@.len() > 0 {
        assert(texts(r@)[0] == r@[0]@);
    }
}

/// What stands behind the last `/` is the last component, unless it is empty or a `.`. What stands
/// before it gives the components before; a `/` at the very start is a component itself.
pub proof fn last_slash_parts_components<'a, 'b>(
    text: &'a str,
    front: &'b str,
    piece: Seq<char>,
    r: Vec<&'a str>,
    s: Vec<&'b str>,
)
    requires
        call_ensures(split_components, (text,), r),
        call_ensures(split_components, (front,), s),
        text@ == front@ + seq!['/'] + piece,
        forall|k: int| 0 <= k < piece.len() ==> #[trigger] piece[k] != '/',
    ensures
        texts(r@) == (if front@.len() == 0 {
            seq![seq!['/']]
        } else {
            texts(s@)
        }) + added(piece),
{
    lemma_last_piece(front@, piece);
}

/// The name of a file is the last component, unless there is none or it is the root, a `.` or a
/// `..`.
pub proof fn file_name_is_the_last_component<'a>(
    text: &'a str,
    found: Vec<&'a str>,
    r: Option<&'a str>,
)
    requires
        call_ensures(split_components, (text,), found),
        call_ensures(file_name, (text,), r),
    ensures
        ({
            let last = found@[found@.len() - 1]@;
            if found@.len() == 0 || last == seq!['/'] || last == seq!['.'] || last == seq![
                '.',
                '.',
            ] {
                r is None
            } else {
                r is Some && r->0@ == last
            }
        }),
{
    let list = texts(found@);
    assert(list.len() == found@.len());
    if found@.len() > 0 {
        assert(list[list.len() - 1] == found@[found@.len() - 1]@);
    }
}

/// Taking a name and stepping out of it again changes nothing: of two absolute paths of which one
/// holds a name and a `..` more, side by side, both normalize alike.
pub proof fn stepping_out_undoes_a_name(
    longer: &str,
    shorter: &str,
    front: Seq<Seq<char>>,
    name: Seq<char>,
    back: Seq<Seq<char>>,
    r: Option<String>,
    s: Option<String>,
)
    requires
        call_ensures(normalize_absolute_path, (longer,), r),
        call_ensures(normalize_absolute_path, (shorter,), s),
        longer@.len() > 0 && longer@[0] == '/',
        shorter@.len() > 0 && shorter@[0] == '/',
        name != seq!['.', '.'],
        name != seq!['.'],
        components(longer@).skip(1) == front + seq![name, seq!['.', '.']] + back,
        components(shorter@).skip(1) == front + back,
    ensures
        match (r, s) {
            (Some(a), Some(b)) => a@ == b@,
            (None, None) => true,
            _ => false,
        },
{
    let up: Seq<char> = seq!['.', '.'];
    let dot: Seq<char> = seq!['.'];
    assert(up.len() != dot.len());
    let pair = front + seq![name, up];
    let half = front.push(name);
    assert(pair.drop_last() == half);
    assert(pair.last() == up);
    assert(half.drop_last() == front);
    assert(half.last() == name);
    if let Some(kept) = resolved(front) {
        assert(resolved(half) == Some(kept.push(name)));
        assert(kept.push(name).drop_last() == kept);
    }
    assert(resolved(pair) == resolved(front));
    lemma_resolved_append(pair, front, back);
}

/// No path leads above the root.
pub proof fn nothing_is_above_the_root(text: &str, r: Option<String>)
    requires
        call_ensures(normalize_absolute_path, (text,), r),
        text@.len() > 0 && text@[0] == '/',
        components(text@).len() > 1,
        components(text@)[1] == seq!['.', '.'],
    ensures
        r is None,
{
    let names = components(text@).skip(1);
    let first = names.take(1);
    assert(first.last() == names[0]);
    assert(first.drop_last() == Seq::<Seq<char>>::empty());
    assert(resolved(first.drop_last()) == Some(Seq::<Seq<char>>::empty()));
    assert(resolved(first) is None);
    crate::path::lemma_resolved_prefix(names, 1);
}

/// A relative path is normalized as the path from the root is that it gives with a `/` before it,
/// but for that `/`.
pub proof fn relative_paths_are_normalized_alike(
    text: &str,
    rooted: &str,
    r: Option<String>,
    s: Option<String>,
)
    requires
        call_ensures(normalize_absolute_path, (text,), r),
        call_ensures(normalize_absolute_path, (rooted,), s),
        text@.len() > 0 ==> text@[0] != '/',
        rooted@ == seq!['/'] + text@,
    ensures
        match (r, s) {
            (Some(a), Some(b)) => b@ == seq!['/'] + a@,
            (None, None) => true,
            _ => false,
        },
{
    let root: Seq<char> = seq!['/'];
    let dot: Seq<char> = seq!['.'];
    let up: Seq<char> = seq!['.', '.'];
    assert(up.len() != dot.len());
    assert(joined(root, text@) == rooted@);
    lemma_last_piece(Seq::empty(), Seq::empty());
    assert(Seq::<char>::empty() + root + Seq::<char>::empty() == root);
    assert(components(root) == seq![root]);
    let names = components(text@);
    if dotted(text@) {
        components_of_join_dotted(root, text@);
        let rest = names.skip(1);
        assert(components(rooted@).skip(1) == rest);
        let first = seq![dot];
        assert(first.drop_last() == Seq::<Seq<char>>::empty());
        assert(resolved(first.drop_last()) == Some(Seq::<Seq<char>>::empty()));
        assert(resolved(first) == resolved(Seq::<Seq<char>>::empty()));
        lemma_resolved_append(first, Seq::empty(), rest);
        assert(first + rest == names);
        assert(Seq::<Seq<char>>::empty() + rest == rest);
    } else {
        components_of_join(root, text@);
        assert(components(rooted@).skip(1) == names);
    }
}

/// Whether no two slashes stand side by side, and none at the end, unless it is the root alone.
pub open spec fn single_slashes(text: Seq<char>) -> bool {
    &&& forall|k: int| 0 < k < text.len() && text[k - 1] == '/' ==> #[trigger] text[k] != '/'
    &&& text.len() > 1 ==> text[text.len() - 1] != '/'
}

proof fn lemma_single_slashes(names: Seq<Seq<char>>)
    requires
        all_plain(names),
    ensures
        ({
            let text = slash_joined(names);
            &&& forall|k: int|
                0 < k < text.len() && text[k - 1] == '/' ==> #[trigger] text[k] != '/'
            &&& text.len() > 0 ==> text[0] != '/' && text[text.len() - 1] != '/'
            &&& names.len() > 0 ==> text.len() > 0
        }),
    decreases names.len(),
{
    if names.len() > 0 {
        let last = names[names.len() - 1];
        assert(is_plain(last));
        assert forall|k: int| 0 <= k < last.len() implies last[k] != '/' by {
            assert(last.contains(last[k]));
        }
        if names.len() > 1 {
            let front = names.drop_last();
            assert(all_plain(front));
            lemma_single_slashes(front);
            let head = slash_joined(front);
            let text = slash_joined(names);
            assert(text == head + seq!['/'] + last);
            assert forall|k: int| 0 < k < text.len() && text[k - 1] == '/' implies #[trigger] text[k]
                != '/' by {
                if k < head.len() {
                    assert(text[k] == head[k] && text[k - 1] == head[k - 1]);
                } else if k == head.len() {
                    assert(text[k - 1] == head[k - 1]);
                } else {
                    assert(text[k] == last[k - head.len() - 1]);
                }
            }
            assert(text[0] == head[0]);
            assert(text[text.len() - 1] == last[last.len() - 1]);
        }
    }
}

/// A normalized absolute path starts with a `/`, has single slashes, and holds neither `.` nor
/// `..`. Where the path holds no `..`, its components are kept.
pub proof fn normalized_path_is_plain(text: &str, r: Option<String>)
    requires
        call_ensures(normalize_absolute_path, (text,), r),
        text@.len() > 0 && text@[0] == '/',
    ensures
        r matches Some(path) ==> {
            &&& path@.len() > 0 && path@[0] == '/'
            &&& single_slashes(path@)
            &&& forall|k: int|
                0 <= k < components(path@).len() ==> #[trigger] components(path@)[k] != seq!['.']
                    && components(path@)[k] != seq!['.', '.']
        },
        (forall|k: int|
            0 <= k < components(text@).len() ==> #[trigger] components(text@)[k] != seq!['.', '.'])
            ==> r is Some && components(r->0@) == components(text@),
{
    let up: Seq<char> = seq!['.', '.'];
    let dot: Seq<char> = seq!['.'];
    let root: Seq<char> = seq!['/'];
    assert(root[0] == '/' && dot[0] == '.' && up[0] == '.');
    lemma_rooted_plain(text@);
    let names = components(text@).skip(1);
    if let Some(path) = r {
        let kept = resolved(names)->0;
        crate::path_laws::normalized_is_normal(text@);
        lemma_resolved_names(names);
        lemma_single_slashes(kept);
        let body = slash_joined(kept);
        assert(path@ == root + body);
        assert forall|k: int| 0 < k < path@.len() && path@[k - 1] == '/' implies #[trigger] path@[k]
            != '/' by {
            assert(path@[k] == body[k - 1]);
            if k > 1 {
                assert(path@[k - 1] == body[k - 2]);
            }
        }
        if path@.len() > 1 {
            assert(path@[path@.len() - 1] == body[body.len() - 1]);
        }
        let found = components(path@);
        assert forall|k: int| 0 <= k < found.len() implies #[trigger] found[k] != dot && found[k]
            != up by {
            if k > 0 {
                assert(found[k] == found.skip(1)[k - 1]);
            }
        }
    }
    if forall|k: int|
        0 <= k < components(text@).len() ==> #[trigger] components(text@)[k] != up {
        assert forall|i: int| 0 <= i < names.len() implies crate::path::is_normal(
            #[trigger] names[i],
        ) by {
            assert(names[i] == components(text@)[i + 1]);
            assert(is_plain(names[i]));
            assert(root.contains('/'));
        }
        assert(all_names(names));
        lemma_resolved_fixed(names);
        crate::path_laws::components_of_rooted(names);
        assert(seq![root] + names == components(text@));
    }
}

/// Whether a text comes before another: it is the start of it, or has the smaller character where
/// they first differ.
pub open spec fn precedes(a: Seq<char>, b: Seq<char>) -> bool {
    exists|k: int|
        {
            &&& 0 <= k < b.len()
            &&& k <= a.len()
            &&& #[trigger] a.take(k) == b.take(k)
            &&& k == a.len() || a[k] < b[k]
        }
}

proof fn lemma_precedes(a: Seq<char>, b: Seq<char>)
    requires
        before(a, b),
    ensures
        precedes(a, b),
    decreases a.len(),
{
    if a.len() > 0 && a[0] == b[0] {
        let x = a.skip(1);
        let y = b.skip(1);
        lemma_precedes(x, y);
        let k = choose|k: int|
            {
                &&& 0 <= k < y.len()
                &&& k <= x.len()
                &&& #[trigger] x.take(k) == y.take(k)
                &&& k == x.len() || x[k] < y[k]
            };
        let c = a.take(k + 1);
        let d = b.take(k + 1);
        assert forall|i: int| 0 <= i < k + 1 implies #[trigger] c[i] == d[i] by {
            if i > 0 {
                assert(x.take(k)[i - 1] == y.take(k)[i - 1]);
            }
        }
        assert(c == d);
    } else {
        assert(a.take(0) == b.take(0));
    }
}

/// Whether a list holds a name.
pub open spec fn is_among(name: Seq<char>, list: Seq<PackageName>) -> bool {
    exists|i: int| 0 <= i < list.len() && (#[trigger] list[i])@ == name
}

/// A list holds a name exactly where its texts hold it.
pub proof fn lemma_among(name: Seq<char>, list: Seq<PackageName>)
    ensures
        is_among(name, list) <==> name_texts(list).contains(name),
{
    let texts = name_texts(list);
    if is_among(name, list) {
        let i = choose|i: int| 0 <= i < list.len() && (#[trigger] list[i])@ == name;
        assert(texts[i] == name);
    }
    if texts.contains(name) {
        let i = choose|i: int| 0 <= i < texts.len() && texts[i] == name;
        assert(list[i]@ == name);
    }
}

/// Whether each name comes before all that follow it.
pub open spec fn in_order(list: Seq<PackageName>) -> bool {
    forall|i: int, j: int|
        0 <= i < j < list.len() ==> precedes((#[trigger] list[i])@, (#[trigger] list[j])@)
}

/// Names whose texts ascend are in order.
pub proof fn lemma_in_order(list: Seq<PackageName>)
    requires
        ascending(name_texts(list)),
    ensures
        in_order(list),
{
    let texts = name_texts(list);
    assert forall|i: int, j: int| 0 <= i < j < list.len() implies precedes(
        (#[trigger] list[i])@,
        (#[trigger] list[j])@,
    ) by {
        assert(before(texts[i], texts[j]));
        lemma_precedes(texts[i], texts[j]);
    }
}

/// Sorting a list of names gives exactly the names that it holds, each once, and each before all
/// that come behind it, by their characters.
pub proof fn sorted_names_are_the_names(list: &Vec<PackageName>, r: Vec<PackageName>)
    requires
        call_ensures(sorted_names, (list,), r),
    ensures
        in_order(r@),
        forall|name: Seq<char>| #[trigger] is_among(name, r@) <==> is_among(name, list@),
{
    lemma_in_order(r@);
    assert forall|name: Seq<char>| #[trigger] is_among(name, r@) <==> is_among(name, list@) by {
        lemma_among(name, r@);
        lemma_among(name, list@);
        assert(name_texts(r@).contains(name) <==> name_texts(list@).contains(name));
    }
}

/// No name comes before itself, so that names in order are all different.
pub proof fn names_in_order_differ(list: Seq<PackageName>, i: int, j: int)
    requires
        in_order(list),
        0 <= i < j < list.len(),
    ensures
        list[i]@ != list[j]@,
{
    let (a, b) = (list[i]@, list[j]@);
    assert(precedes(a, b));
}

/// Two texts are the same exactly where they have the same length and the same characters, and two
/// names where their texts are; the text of a name is kept.
pub proof fn sameness_is_by_characters(
    a: &PackageName,
    b: &PackageName,
    x: &str,
    y: &str,
    copy: PackageName,
    same_names: bool,
    same_texts: bool,
)
    requires
        call_ensures(PackageName::as_str, (a,), x),
        call_ensures(PackageName::as_str, (b,), y),
        call_ensures(PackageName::clone, (a,), copy),
        call_ensures(PackageName::same_as, (a, b), same_names),
        call_ensures(same_text, (x, y), same_texts),
    ensures
        x@ == a@,
        copy@ == a@,
        same_names == same_texts,
        same_texts <==> x@.len() == y@.len() && forall|i: int|
            0 <= i < x@.len() ==> #[trigger] x@[i] == y@[i],
{
    if x@.len() == y@.len() && forall|i: int| 0 <= i < x@.len() ==> #[trigger] x@[i] == y@[i] {
        assert(x@ == y@);
    }
}

/// Whether a character may separate the words of a name.
pub open spec fn separates(c: char) -> bool {
    c == '-' || c == '_' || c == '.'
}

/// Whether a character is a letter or a digit, of the ASCII ones.
pub open spec fn is_word_char(c: char) -> bool {
    ('a' <= c <= 'z') || ('A' <= c <= 'Z') || ('0' <= c <= '9')
}

/// Whether a text is made of letters, digits and separators, and neither starts nor ends with a
/// separator.
pub open spec fn is_name_text(text: Seq<char>) -> bool {
    &&& forall|i: int| 0 <= i < text.len() ==> is_word_char(#[trigger] text[i]) || separates(text[i])
    &&& text.len() > 0 ==> is_word_char(text[0]) && is_word_char(text[text.len() - 1])
}

/// The texts of names are the valid ones.
pub proof fn lemma_name_text(text: Seq<char>)
    ensures
        is_name_text(text) <==> valid_name(text),
{
    if valid_name(text) {
        assert forall|i: int| 0 <= i < text.len() implies is_word_char(#[trigger] text[i])
            || separates(text[i]) by {
            assert(crate::name::is_name_char(text[i]));
        }
        if text.len() > 0 {
            assert(crate::name::is_name_char(text[0]));
            assert(crate::name::is_name_char(text[text.len() - 1]));
        }
    }
    if is_name_text(text) {
        assert forall|i: int| 0 <= i < text.len() implies crate::name::is_name_char(
            #[trigger] text[i],
        ) by {
            assert(is_word_char(text[i]) || separates(text[i]));
        }
    }
}

/// A text is a name exactly where it is made of letters, digits and separators, and neither starts
/// nor ends with a separator. Another text is told as it is.
pub proof fn names_are_words(text: &str, r: Result<PackageName, Error>)
    requires
        call_ensures(PackageName::from_str, (text,), r),
    ensures
        r is Ok <==> is_name_text(text@),
        r is Err ==> r->Err_0@ == ErrorView::ToolName(text@),
{
    lemma_name_text(text@);
}

/// Whether a character is another in lowercase.
pub open spec fn is_small(small: char, c: char) -> bool {
    if 'A' <= c <= 'Z' {
        small as int == c as int + 32
    } else {
        small == c
    }
}

proof fn lemma_word(text: Seq<char>)
    requires
        forall|i: int| 0 <= i < text.len() ==> is_word_char(#[trigger] text[i]),
    ensures
        normal_name(text).len() == text.len(),
        forall|i: int|
            0 <= i < text.len() ==> is_small(#[trigger] normal_name(text)[i], text[i]),
    decreases text.len(),
{
    if text.len() > 0 {
        let front = text.drop_last();
        assert forall|i: int| 0 <= i < front.len() implies is_word_char(#[trigger] front[i]) by {
            assert(front[i] == text[i]);
        }
        lemma_word(front);
        let c = text[text.len() - 1];
        assert(is_word_char(c));
        if 'A' <= c <= 'Z' {
            let small = (c as u32 + 32) as char;
            assert(small as u32 == c as u32 + 32);
        }
        assert forall|i: int| 0 <= i < text.len() implies is_small(
            #[trigger] normal_name(text)[i],
            text[i],
        ) by {
            if i < front.len() {
                assert(is_small(normal_name(front)[i], front[i]));
            }
        }
    }
}

/// A name of a single word is that word in lowercase.
pub proof fn words_become_lowercase(text: &str, r: Result<PackageName, Error>)
    requires
        call_ensures(PackageName::from_str, (text,), r),
        forall|i: int| 0 <= i < text@.len() ==> is_word_char(#[trigger] text@[i]),
    ensures
        r is Ok,
        r->Ok_0@.len() == text@.len(),
        forall|i: int| 0 <= i < text@.len() ==> is_small(#[trigger] r->Ok_0@[i], text@[i]),
{
    names_are_words(text, r);
    lemma_word(text@);
}

proof fn lemma_gap(front: Seq<char>, gap: Seq<char>)
    requires
        front.len() > 0,
        is_word_char(front[front.len() - 1]),
        gap.len() > 0,
        forall|i: int| 0 <= i < gap.len() ==> separates(#[trigger] gap[i]),
    ensures
        normal_name(front + gap) == normal_name(front).push('-'),
    decreases gap.len(),
{
    let text = front + gap;
    assert(text.last() == gap[gap.len() - 1]);
    let less = gap.drop_last();
    assert(text.drop_last() == front + less);
    if gap.len() == 1 {
        assert(front + less == front);
        assert(text[text.len() - 2] == front[front.len() - 1]);
    } else {
        assert forall|i: int| 0 <= i < less.len() implies separates(#[trigger] less[i]) by {
            assert(less[i] == gap[i]);
        }
        lemma_gap(front, less);
        assert(text[text.len() - 2] == gap[gap.len() - 2]);
    }
}

proof fn lemma_behind_gap(front: Seq<char>, back: Seq<char>)
    requires
        back.len() > 0 ==> is_word_char(back[0]),
        front.len() > 0,
    ensures
        normal_name(front + back) == normal_name(front) + normal_name(back),
    decreases back.len(),
{
    let text = front + back;
    if back.len() == 0 {
        assert(text == front);
        assert(normal_name(front) + normal_name(back) == normal_name(front));
    } else {
        let less = back.drop_last();
        if less.len() > 0 {
            assert(less[0] == back[0]);
        }
        lemma_behind_gap(front, less);
        assert(text.drop_last() == front + less);
        assert(text.last() == back.last());
        if back.len() > 1 {
            assert(text[text.len() - 2] == back[back.len() - 2]);
        }
        assert(normal_name(text) == normal_name(front) + normal_name(back));
    }
}

/// Separators between two parts of a name become one `-`, whichever they are and however many; the
/// parts become what they become by themselves.
pub proof fn separators_become_one_dash(
    text: &str,
    front: &str,
    back: &str,
    gap: Seq<char>,
    r: Result<PackageName, Error>,
    a: Result<PackageName, Error>,
    b: Result<PackageName, Error>,
)
    requires
        call_ensures(PackageName::from_str, (text,), r),
        call_ensures(PackageName::from_str, (front,), a),
        call_ensures(PackageName::from_str, (back,), b),
        text@ == front@ + gap + back@,
        gap.len() > 0,
        forall|i: int| 0 <= i < gap.len() ==> separates(#[trigger] gap[i]),
        front@.len() > 0,
        back@.len() > 0,
        a is Ok,
        b is Ok,
    ensures
        r is Ok,
        r->Ok_0@ == a->Ok_0@ + seq!['-'] + b->Ok_0@,
{
    names_are_words(text, r);
    names_are_words(front, a);
    names_are_words(back, b);
    let head = front@ + gap;
    assert(text@ == head + back@);
    assert forall|i: int| 0 <= i < text@.len() implies is_word_char(#[trigger] text@[i])
        || separates(text@[i]) by {
        if i < front@.len() {
            assert(text@[i] == front@[i]);
        } else if i < head.len() {
            assert(text@[i] == gap[i - front@.len()]);
        } else {
            assert(text@[i] == back@[i - head.len()]);
        }
    }
    assert(text@[0] == front@[0]);
    assert(text@[text@.len() - 1] == back@[back@.len() - 1]);
    lemma_gap(front@, gap);
    lemma_behind_gap(head, back@);
    assert(normal_name(front@).push('-') + normal_name(back@) == normal_name(front@) + seq!['-']
        + normal_name(back@));
}

} // verus!
