//! Paths relative to a base directory.

use vstd::prelude::*;

use crate::path::{absolute, components, slash_joined};

verus! {

/// `n` steps up.
pub open spec fn ups(n: nat) -> Seq<Seq<char>> {
    Seq::new(n, |i: int| seq!['.', '.'])
}

/// How many components two paths share at their start.
pub open spec fn shared(a: Seq<Seq<char>>, b: Seq<Seq<char>>) -> nat
    decreases a.len(),
{
    if a.len() > 0 && b.len() > 0 && a[0] == b[0] {
        1 + shared(a.skip(1), b.skip(1))
    } else {
        0
    }
}

/// The way from `base` to `path` once what they share is gone: up out of `base`, then down along
/// `path`. Where `base` leads up itself and there is a way down to go, there is no such way.
pub open spec fn climb(path: Seq<Seq<char>>, base: Seq<Seq<char>>) -> Option<Seq<Seq<char>>>
    decreases path.len(),
{
    if path.len() == 0 {
        Some(ups(base.len()))
    } else if base.len() == 0 {
        Some(path)
    } else if base[0] == seq!['.'] {
        match climb(path.skip(1), base.skip(1)) {
            Some(rest) => Some(seq![path[0]] + rest),
            None => None,
        }
    } else if base[0] == seq!['.', '.'] {
        None
    } else {
        Some(ups(base.len()) + path)
    }
}

/// The path that leads from `base` to `path`.
pub open spec fn relative_to(path: Seq<char>, base: Seq<char>) -> Option<Seq<char>> {
    if absolute(path) != absolute(base) {
        if absolute(path) {
            Some(path)
        } else {
            None
        }
    } else {
        let k = shared(components(path), components(base)) as int;
        match climb(components(path).skip(k), components(base).skip(k)) {
            Some(way) => Some(slash_joined(way)),
            None => None,
        }
    }
}

/// `pathdiff::diff_paths`, on Unix: an absolute path seen from a relative base is itself, and a relative
/// path seen from an absolute base has no answer. Otherwise the components that both share at
/// their start are dropped, each one left of the base becomes a `..`, and those left of the path
/// follow; a `.` at the start of the base is passed over, and a `..` in the base that is to be
/// climbed out of has no answer.
#[verifier::external_body]
pub(crate) fn diff_paths(path: &str, base: &str) -> (r: Option<String>)
    ensures
        match r {
            Some(way) => relative_to(path@, base@) == Some(way@),
            None => relative_to(path@, base@) is None,
        },
{
    pathdiff::diff_paths(path, base).map(|way| way.to_string_lossy().into_owned())
}

} // verus!
