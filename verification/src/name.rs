//! Names of packages, in their normalized form.

use vstd::prelude::*;

use pep508_rs::InvalidNameError;

use crate::error::Error;
use crate::path::same_text;

verus! {

/// The error of `pep508_rs` for a text that is no package name.
#[verifier::external_type_specification]
#[verifier::external_body]
pub struct ExInvalidNameError(InvalidNameError);

/// The characters that separate the words of a name.
pub open spec fn is_punctuation(c: char) -> bool {
    c == '-' || c == '_' || c == '.'
}

pub open spec fn is_name_char(c: char) -> bool {
    ('a' <= c && c <= 'z') || ('A' <= c && c <= 'Z') || ('0' <= c && c <= '9') || is_punctuation(c)
}

/// Whether a text is a package name: letters, digits and punctuation, with no punctuation at
/// either end.
pub open spec fn valid_name(text: Seq<char>) -> bool {
    &&& forall|i: int| 0 <= i < text.len() ==> is_name_char(#[trigger] text[i])
    &&& text.len() > 0 ==> !is_punctuation(text[0]) && !is_punctuation(text.last())
}

pub open spec fn lowercase(c: char) -> char {
    if 'A' <= c && c <= 'Z' {
        (c as u32 + 32) as char
    } else {
        c
    }
}

/// The name in lowercase, with each run of punctuation as a single `-`.
pub open spec fn normal_name(text: Seq<char>) -> Seq<char>
    decreases text.len(),
{
    if text.len() == 0 {
        Seq::empty()
    } else {
        let front = normal_name(text.drop_last());
        if !is_punctuation(text.last()) {
            front.push(lowercase(text.last()))
        } else if text.len() > 1 && is_punctuation(text[text.len() - 2]) {
            front
        } else {
            front.push('-')
        }
    }
}

/// Whether a text is a package name in its normalized form.
pub open spec fn is_package_name(text: Seq<char>) -> bool {
    valid_name(text) && normal_name(text) == text
}

/// Letters in lowercase, digits, and dashes of which no two stand side by side and none stands
/// first.
spec fn canonical(text: Seq<char>) -> bool {
    forall|i: int|
        0 <= i < text.len() ==> {
            let c = #[trigger] text[i];
            ||| 'a' <= c && c <= 'z'
            ||| '0' <= c && c <= '9'
            ||| c == '-' && i > 0 && text[i - 1] != '-'
        }
}

proof fn lemma_canonical_fixed(text: Seq<char>)
    requires
        canonical(text),
    ensures
        normal_name(text) == text,
    decreases text.len(),
{
    if text.len() > 0 {
        let front = text.drop_last();
        assert forall|i: int| 0 <= i < front.len() implies {
            let c = #[trigger] front[i];
            ||| 'a' <= c && c <= 'z'
            ||| '0' <= c && c <= '9'
            ||| c == '-' && i > 0 && front[i - 1] != '-'
        } by {
            assert(front[i] == text[i]);
            if i > 0 {
                assert(front[i - 1] == text[i - 1]);
            }
        }
        lemma_canonical_fixed(front);
        assert(text[text.len() - 1] == text.last());
        assert(front.push(text.last()) == text);
    } else {
        assert(normal_name(text) == text);
    }
}

proof fn lemma_normal_is_canonical(text: Seq<char>)
    requires
        forall|i: int| 0 <= i < text.len() ==> is_name_char(#[trigger] text[i]),
        text.len() > 0 ==> !is_punctuation(text[0]),
    ensures
        canonical(normal_name(text)),
        text.len() > 0 ==> normal_name(text).len() > 0,
        text.len() > 0 ==> (normal_name(text).last() == '-' <==> is_punctuation(text.last())),
        text.len() > 0 ==> normal_name(text)[0] != '-',
    decreases text.len(),
{
    if text.len() > 0 {
        let front = text.drop_last();
        assert forall|i: int| 0 <= i < front.len() implies is_name_char(#[trigger] front[i]) by {
            assert(front[i] == text[i]);
        }
        if front.len() > 0 {
            assert(front[0] == text[0]);
            assert(front.last() == text[text.len() - 2]);
        }
        lemma_normal_is_canonical(front);
        let c = text[text.len() - 1];
        assert(is_name_char(c));
        if 'A' <= c && c <= 'Z' {
            let small = (c as u32 + 32) as char;
            assert(small as u32 == c as u32 + 32);
            assert('a' <= small && small <= 'z');
        }
        let before = normal_name(front);
        let after = normal_name(text);
        assert forall|i: int| 0 <= i < after.len() implies {
            let d = #[trigger] after[i];
            ||| 'a' <= d && d <= 'z'
            ||| '0' <= d && d <= '9'
            ||| d == '-' && i > 0 && after[i - 1] != '-'
        } by {
            if i < before.len() {
                assert(after[i] == before[i]);
                if i > 0 {
                    assert(after[i - 1] == before[i - 1]);
                }
            } else if i > 0 {
                assert(after[i - 1] == before[i - 1]);
            }
        }
    }
}

/// Normalizing a package name gives a package name in its normalized form: normalizing it again
/// changes nothing.
pub proof fn normal_name_is_fixed(text: Seq<char>)
    requires
        valid_name(text),
    ensures
        is_package_name(normal_name(text)),
{
    lemma_normal_is_canonical(text);
    let name = normal_name(text);
    lemma_canonical_fixed(name);
    assert forall|i: int| 0 <= i < name.len() implies is_name_char(#[trigger] name[i]) by {}
    if name.len() > 0 {
        assert(text.len() > 0);
        assert(name[name.len() - 1] == name.last());
    }
}

/// `<pep508_rs::PackageName as FromStr>::from_str`: accepts exactly the texts of letters, digits,
/// `-`, `_` and `.` that do not start or end with one of the latter three (the empty text among
/// them), and gives the name in lowercase with each run of those three as a single `-`.
#[verifier::external_body]
fn parse_name(text: &str) -> (r: Result<String, InvalidNameError>)
    ensures
        match r {
            Ok(name) => valid_name(text@) && name@ == normal_name(text@),
            Err(_) => !valid_name(text@),
        },
{
    <pep508_rs::PackageName as std::str::FromStr>::from_str(text).map(|name| name.to_string())
}

/// The normalized name of a package.
#[derive(Debug)]
pub struct PackageName {
    text: String,
}

impl View for PackageName {
    type V = Seq<char>;

    closed spec fn view(&self) -> Seq<char> {
        self.text@
    }
}

impl PackageName {
    #[verifier::type_invariant]
    spec fn well_formed(self) -> bool {
        is_package_name(self.text@)
    }

    /// Reads a package name, and normalizes it.
    pub fn from_str(text: &str) -> (r: Result<PackageName, Error>)
        ensures
            match r {
                Ok(name) => valid_name(text@) && name@ == normal_name(text@) && is_package_name(
                    name@,
                ),
                Err(error) => !valid_name(text@) && error@ == (crate::error::ErrorView::ToolName(
                    text@,
                )),
            },
    {
        match parse_name(text) {
            Ok(name) => {
                proof {
                    normal_name_is_fixed(text@);
                }
                Ok(PackageName { text: name })
            },
            Err(_) => Err(Error::ToolName(text.to_owned())),
        }
    }

    /// The text of the name.
    pub fn as_str(&self) -> (r: &str)
        ensures
            r@ == self@,
            is_package_name(r@),
    {
        proof {
            use_type_invariant(self);
        }
        self.text.as_str()
    }

    /// Whether two names are the same.
    pub fn same_as(&self, other: &PackageName) -> (r: bool)
        ensures
            r == (self@ == other@),
    {
        same_text(self.text.as_str(), other.text.as_str())
    }
}

impl Clone for PackageName {
    fn clone(&self) -> (r: PackageName)
        ensures
            r@ == self@,
    {
        proof {
            use_type_invariant(self);
        }
        PackageName { text: self.text.clone() }
    }
}

} // verus!
