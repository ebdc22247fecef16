//! Paths as text, with `/` between components, as on Unix.
//!
//! A path is read as its sequence of components: the root `/` of an absolute path, a leading `.`
//! of a relative one, and every other piece between slashes that is neither empty nor `.`.

use vstd::prelude::*;

verus! {

/// The index at which the piece that starts at `from` ends: the next `/`, or the end of the text.
pub open spec fn piece_end(text: Seq<char>, from: int) -> int
    decreases text.len() - from,
{
    if from < 0 || from >= text.len() || text[from] == '/' {
        from
    } else {
        piece_end(text, from + 1)
    }
}

/// Whether the piece `text[from..end]` is a component. A `.` counts only at the very start.
pub open spec fn is_component(text: Seq<char>, from: int, end: int) -> bool {
    from < end && !(from > 0 && end == from + 1 && text[from] == '.')
}

/// Where the components of `text` lie, from the piece at `from` on. The root is the first `/`.
pub open spec fn spans(text: Seq<char>, from: int) -> Seq<(int, int)>
    decreases text.len() + 1 - from,
{
    if from < 0 || from >= text.len() {
        Seq::empty()
    } else {
        proof {
            lemma_piece_end(text, from);
        }
        let end = piece_end(text, from);
        let rest = spans(text, end + 1);
        if from == 0 && end == 0 {
            seq![(0int, 1int)] + rest
        } else if is_component(text, from, end) {
            seq![(from, end)] + rest
        } else {
            rest
        }
    }
}

/// The components of a path.
pub open spec fn components(text: Seq<char>) -> Seq<Seq<char>> {
    pieces(text, spans(text, 0))
}

/// The texts at the given places.
pub open spec fn pieces(text: Seq<char>, at: Seq<(int, int)>) -> Seq<Seq<char>> {
    Seq::new(at.len(), |i: int| text.subrange(at[i].0, at[i].1))
}

pub proof fn lemma_piece_end(text: Seq<char>, from: int)
    requires
        0 <= from <= text.len(),
    ensures
        from <= piece_end(text, from) <= text.len(),
        forall|k: int| from <= k < piece_end(text, from) ==> text[k] != '/',
        piece_end(text, from) < text.len() ==> text[piece_end(text, from)] == '/',
    decreases text.len() - from,
{
    if from < text.len() && text[from] != '/' {
        lemma_piece_end(text, from + 1);
    }
}

/// The characters of a text.
fn char_vec(text: &str) -> (chars: Vec<char>)
    ensures
        chars@ == text@,
{
    let mut chars: Vec<char> = Vec::new();
    for c in it: text.chars()
        invariant
            chars@ == it.seq().take(it.index()),
            it.seq() == text@,
    {
        chars.push(c);
    }
    chars
}

spec fn as_spans(found: Seq<(usize, usize)>) -> Seq<(int, int)> {
    Seq::new(found.len(), |i: int| (found[i].0 as int, found[i].1 as int))
}

/// Finds where the components of a path lie.
fn component_spans(text: &str) -> (found: Vec<(usize, usize)>)
    ensures
        as_spans(found@) == spans(text@, 0),
{
    let chars = char_vec(text);
    let mut found: Vec<(usize, usize)> = Vec::new();
    let mut from: usize = 0;
    while from < chars.len()
        invariant
            chars@ == text@,
            from <= chars.len(),
            as_spans(found@) + spans(text@, from as int) == spans(text@, 0),
        decreases chars.len() - from,
    {
        proof {
            lemma_piece_end(text@, from as int);
        }
        let ghost before = as_spans(found@);
        let mut end: usize = from;
        while end < chars.len() && chars[end] != '/'
            invariant
                chars@ == text@,
                from <= end <= chars.len(),
                piece_end(text@, end as int) == piece_end(text@, from as int),
            decreases chars.len() - end,
        {
            end = end + 1;
        }
        if from == 0 && end == 0 {
            found.push((0, 1));
            assert(as_spans(found@) == before + seq![(0int, 1int)]);
        } else if from < end && !(from > 0 && end == from + 1 && chars[from] == '.') {
            found.push((from, end));
            assert(as_spans(found@) == before + seq![(from as int, end as int)]);
        }
        from = if end < chars.len() { end + 1 } else { chars.len() };
        proof {
            assert(spans(text@, from as int) == spans(text@, end + 1));
        }
    }
    found
}

/// Every component lies inside the text, behind those before it, and between slashes.
pub proof fn lemma_spans(text: Seq<char>, from: int)
    requires
        0 <= from <= text.len() + 1,
        from == 0 || from > text.len() || text[from - 1] == '/',
    ensures
        forall|i: int|
            #![trigger spans(text, from)[i]]
            0 <= i < spans(text, from).len() ==> {
                let at = spans(text, from)[i];
                &&& from <= at.0 < at.1 <= text.len()
                &&& at.0 == 0 || text[at.0 - 1] == '/'
                &&& is_root(text, at) || (at.1 == piece_end(text, at.0) && is_component(
                    text,
                    at.0,
                    at.1,
                ))
            },
        forall|i: int, j: int|
            #![trigger spans(text, from)[i], spans(text, from)[j]]
            0 <= i < j < spans(text, from).len() ==> spans(text, from)[i].1 <= spans(
                text,
                from,
            )[j].0,
    decreases text.len() + 1 - from,
{
    if from < text.len() {
        lemma_piece_end(text, from);
        let end = piece_end(text, from);
        lemma_spans(text, end + 1);
        let rest = spans(text, end + 1);
        assert(forall|j: int| 0 <= j < rest.len() ==> end + 1 <= (#[trigger] rest[j]).0);
    }
}

/// The place of the root component.
pub open spec fn is_root(text: Seq<char>, at: (int, int)) -> bool {
    at == (0int, 1int) && text[0] == '/'
}

/// Whether a path starts at the root.
pub open spec fn absolute(text: Seq<char>) -> bool {
    text.len() > 0 && text[0] == '/'
}

/// `base` with `tail` behind it. An absolute `tail` stands alone.
pub open spec fn joined(base: Seq<char>, tail: Seq<char>) -> Seq<char> {
    if absolute(tail) {
        tail
    } else if base.len() == 0 || base.last() == '/' {
        base + tail
    } else {
        base + seq!['/'] + tail
    }
}

/// Whether a component names an entry of a directory: not the root, not `.` and not `..`.
pub open spec fn is_normal(component: Seq<char>) -> bool {
    component != seq!['/'] && component != seq!['.'] && component != seq!['.', '.']
}

/// The last component, where it names an entry of a directory.
pub open spec fn last_name(text: Seq<char>) -> Option<Seq<char>> {
    let found = components(text);
    if found.len() > 0 && is_normal(found.last()) {
        Some(found.last())
    } else {
        None
    }
}

/// The part of the text that holds the components from the `n`th on.
pub open spec fn tail_from(text: Seq<char>, n: int) -> Seq<char> {
    let at = spans(text, 0);
    if 0 <= n < at.len() {
        text.subrange(at[n].0, at.last().1)
    } else {
        Seq::empty()
    }
}

/// What stands behind the components of `base` in `text`, where `text` starts with them.
pub open spec fn stripped(text: Seq<char>, base: Seq<char>) -> Option<Seq<char>> {
    if components(base).is_prefix_of(components(text)) {
        Some(tail_from(text, components(base).len() as int))
    } else {
        None
    }
}

/// Whether the path starts at the root.
pub fn is_absolute(text: &str) -> (r: bool)
    ensures
        r == absolute(text@),
{
    text.unicode_len() > 0 && text.get_char(0) == '/'
}

/// Puts `tail` behind `base`.
pub fn join(base: &str, tail: &str) -> (r: String)
    ensures
        r@ == joined(base@, tail@),
{
    if is_absolute(tail) {
        tail.to_owned()
    } else {
        let n: usize = base.unicode_len();
        if n == 0 || base.get_char(n - 1) == '/' {
            base.to_owned().concat(tail)
        } else {
            proof {
                reveal_strlit("/");
                assert("/"@ == seq!['/']);
            }
            base.to_owned().concat("/").concat(tail)
        }
    }
}

/// The views of a list of texts.
pub open spec fn texts(list: Seq<&str>) -> Seq<Seq<char>> {
    Seq::new(list.len(), |i: int| list[i]@)
}

/// The components of a path, in order.
pub fn split_components<'a>(text: &'a str) -> (found: Vec<&'a str>)
    ensures
        texts(found@) == components(text@),
{
    let at = component_spans(text);
    let mut found: Vec<&'a str> = Vec::new();
    proof {
        lemma_spans(text@, 0);
    }
    let mut i: usize = 0;
    while i < at.len()
        invariant
            i <= at.len(),
            as_spans(at@) == spans(text@, 0),
            texts(found@) == components(text@).take(i as int),
            forall|k: int|
                0 <= k < at.len() ==> (#[trigger] spans(text@, 0)[k]).0 <= spans(text@, 0)[k].1
                    <= text@.len(),
        decreases at.len() - i,
    {
        assert(spans(text@, 0)[i as int] == (at[i as int].0 as int, at[i as int].1 as int)) by {
            assert(as_spans(at@)[i as int] == (at[i as int].0 as int, at[i as int].1 as int));
        }
        let ghost before = found@;
        found.push(text.substring_char(at[i].0, at[i].1));
        proof {
            assert(texts(found@) == texts(before).push(components(text@)[i as int]));
        }
        i = i + 1;
    }
    assert(components(text@).take(at.len() as int) == components(text@));
    found
}

/// Whether two texts are the same.
pub fn same_text(a: &str, b: &str) -> (r: bool)
    ensures
        r == (a@ == b@),
{
    let a: String = a.to_owned();
    let b: String = b.to_owned();
    a == b
}

/// The last component of a path, where it names an entry of a directory.
pub fn file_name<'a>(text: &'a str) -> (r: Option<&'a str>)
    ensures
        match r {
            Some(name) => last_name(text@) == Some(name@),
            None => last_name(text@) is None,
        },
{
    let found = split_components(text);
    let n: usize = found.len();
    if n == 0 {
        return None;
    }
    let last: &'a str = found[n - 1];
    proof {
        reveal_strlit("/");
        reveal_strlit(".");
        reveal_strlit("..");
        assert("/"@ == seq!['/']);
        assert("."@ == seq!['.']);
        assert(".."@ == seq!['.', '.']);
        assert(components(text@).last() == texts(found@)[n - 1]);
    }
    if same_text(last, "/") || same_text(last, ".") || same_text(last, "..") {
        None
    } else {
        Some(last)
    }
}

/// The part of `text` behind `base`, component by component, where `text` starts with `base`.
pub fn strip_prefix<'a>(text: &'a str, base: &str) -> (r: Option<&'a str>)
    ensures
        match r {
            Some(tail) => stripped(text@, base@) == Some(tail@),
            None => stripped(text@, base@) is None,
        },
{
    let at = component_spans(text);
    let whole = split_components(text);
    let prefix = split_components(base);
    proof {
        lemma_spans(text@, 0);
    }
    let n: usize = prefix.len();
    if n > whole.len() {
        return None;
    }
    let mut i: usize = 0;
    while i < n
        invariant
            i <= n <= whole.len(),
            n == prefix.len(),
            texts(whole@) == components(text@),
            texts(prefix@) == components(base@),
            forall|k: int| 0 <= k < i ==> components(base@)[k] == components(text@)[k],
        decreases n - i,
    {
        assert(components(base@)[i as int] == texts(prefix@)[i as int]);
        assert(components(text@)[i as int] == texts(whole@)[i as int]);
        if !same_text(whole[i], prefix[i]) {
            assert(!components(base@).is_prefix_of(components(text@)));
            return None;
        }
        i = i + 1;
    }
    assert(components(base@).is_prefix_of(components(text@)));
    if n < at.len() {
        let last: usize = at.len() - 1;
        proof {
            assert(spans(text@, 0)[n as int] == as_spans(at@)[n as int]);
            assert(spans(text@, 0)[last as int] == as_spans(at@)[last as int]);
        }
        Some(text.substring_char(at[n].0, at[last].1))
    } else {
        assert(text@.subrange(0, 0) == Seq::<char>::empty());
        Some(text.substring_char(0, 0))
    }
}

/// What is left of a list of components once `.` is dropped and each `..` has taken away the
/// component before it; `None` where a `..` has nothing to take away.
pub open spec fn resolved(names: Seq<Seq<char>>) -> Option<Seq<Seq<char>>>
    decreases names.len(),
{
    if names.len() == 0 {
        Some(Seq::empty())
    } else {
        match resolved(names.drop_last()) {
            None => None,
            Some(kept) => if names.last() == seq!['.', '.'] {
                if kept.len() == 0 {
                    None
                } else {
                    Some(kept.drop_last())
                }
            } else if names.last() == seq!['.'] {
                Some(kept)
            } else {
                Some(kept.push(names.last()))
            },
        }
    }
}

/// The components with a `/` between each two.
pub open spec fn slash_joined(names: Seq<Seq<char>>) -> Seq<char>
    decreases names.len(),
{
    if names.len() == 0 {
        Seq::empty()
    } else if names.len() == 1 {
        names[0]
    } else {
        slash_joined(names.drop_last()) + seq!['/'] + names.last()
    }
}

/// The path without `.` and `..`; `None` where a `..` leads above its start.
pub open spec fn normalized(text: Seq<char>) -> Option<Seq<char>> {
    if absolute(text) {
        match resolved(components(text).skip(1)) {
            Some(kept) => Some(seq!['/'] + slash_joined(kept)),
            None => None,
        }
    } else {
        match resolved(components(text)) {
            Some(kept) => Some(slash_joined(kept)),
            None => None,
        }
    }
}

/// Once a `..` had nothing to take away, no further component mends that.
pub proof fn lemma_resolved_prefix(names: Seq<Seq<char>>, k: int)
    requires
        0 <= k <= names.len(),
        resolved(names.take(k)) is None,
    ensures
        resolved(names) is None,
    decreases names.len(),
{
    if k == names.len() {
        assert(names.take(k) == names);
    } else {
        assert(names.drop_last().take(k) == names.take(k));
        lemma_resolved_prefix(names.drop_last(), k);
    }
}

fn join_with_slashes(names: &Vec<&str>) -> (r: String)
    ensures
        r@ == slash_joined(texts(names@)),
{
    proof {
        reveal_strlit("/");
        assert("/"@ == seq!['/']);
    }
    let mut r: String = String::new();
    let mut i: usize = 0;
    while i < names.len()
        invariant
            i <= names.len(),
            "/"@ == seq!['/'],
            r@ == slash_joined(texts(names@).take(i as int)),
        decreases names.len() - i,
    {
        let ghost longer = texts(names@).take(i + 1);
        assert(longer.drop_last() == texts(names@).take(i as int));
        assert(longer.last() == names[i as int]@);
        if i > 0 {
            r.append("/");
        }
        r.append(names[i]);
        proof {
            if i == 0 {
                assert(longer[0] == names[0]@);
                assert(r@ == names[0]@);
            }
        }
        i = i + 1;
    }
    assert(texts(names@).take(names.len() as int) == texts(names@));
    r
}

/// Removes `.` and `..` from a path by its text alone. The path is expected to be absolute.
pub fn normalize_absolute_path(text: &str) -> (r: Option<String>)
    ensures
        match r {
            Some(path) => normalized(text@) == Some(path@),
            None => normalized(text@) is None,
        },
{
    proof {
        reveal_strlit("/");
        reveal_strlit(".");
        reveal_strlit("..");
        assert("/"@ == seq!['/']);
        assert("."@ == seq!['.']);
        assert(".."@ == seq!['.', '.']);
    }
    let found = split_components(text);
    let rooted: bool = is_absolute(text);
    let start: usize = if rooted { 1 } else { 0 };
    proof {
        if rooted {
            assert(piece_end(text@, 0) == 0);
            assert(spans(text@, 0).len() >= 1);
        }
        assert(components(text@).len() == texts(found@).len());
    }
    let ghost names = components(text@).skip(start as int);
    let mut kept: Vec<&str> = Vec::new();
    let mut i: usize = start;
    assert(names.take(0) == Seq::<Seq<char>>::empty());
    assert(texts(kept@) == Seq::<Seq<char>>::empty());
    while i < found.len()
        invariant
            start <= i <= found.len(),
            "."@ == seq!['.'],
            ".."@ == seq!['.', '.'],
            rooted == absolute(text@),
            start == (if rooted { 1int } else { 0 }),
            texts(found@) == components(text@),
            names == components(text@).skip(start as int),
            resolved(names.take(i - start)) == Some(texts(kept@)),
        decreases found.len() - i,
    {
        let ghost longer = names.take(i + 1 - start);
        let ghost before = texts(kept@);
        assert(longer.drop_last() == names.take(i - start));
        assert(longer.last() == found[i as int]@);
        if same_text(found[i], "..") {
            if kept.len() == 0 {
                proof {
                    lemma_resolved_prefix(names, i + 1 - start);
                    assert(components(text@).skip(0) == components(text@));
                }
                return None;
            }
            let _ = kept.pop();
            assert(texts(kept@) == before.drop_last());
        } else if !same_text(found[i], ".") {
            kept.push(found[i]);
            assert(texts(kept@) == before.push(found[i as int]@));
        }
        i = i + 1;
    }
    assert(names.take(found.len() - start) == names);
    assert(components(text@).skip(0) == components(text@));
    let body = join_with_slashes(&kept);
    if rooted {
        Some("/".to_owned().concat(body.as_str()))
    } else {
        Some(body)
    }
}

} // verus!
