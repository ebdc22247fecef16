//! What the search for directories answers, in terms of the settings.

use vstd::prelude::*;

use crate::directories::{
    find_executable_directory, find_manpage_directory, man_is_in_share, manpage_probes, probe_of,
    probes_of, share_directory, string_texts, DirectoryVariables,
};
use crate::error::{Error, ErrorView};
use crate::path::{absolute, components, joined, normalized, resolved, slash_joined};
use crate::path_laws::{
    all_names, components_of_join, components_of_piece, components_of_rooted, lemma_resolved_fixed,
    is_plain,
};

verus! {

/// Whether a setting is there and starts at the root.
pub open spec fn counts(setting: Option<String>) -> bool {
    setting matches Some(text) && text@.len() > 0 && text@[0] == '/'
}

/// `tail` behind `base`, with one `/` between them where `base` is not empty.
pub open spec fn below(base: Seq<char>, tail: Seq<char>) -> Seq<char> {
    if base.len() == 0 || base[base.len() - 1] == '/' {
        base + tail
    } else {
        base + seq!['/'] + tail
    }
}

/// Whether a result is the given path.
pub open spec fn is_path(r: Result<String, Error>, path: Seq<char>) -> bool {
    r matches Ok(found) && found@ == path
}

/// Joining a relative path puts it below.
proof fn lemma_joined_below(base: Seq<char>, tail: Seq<char>)
    requires
        tail.len() > 0,
        tail[0] != '/',
    ensures
        joined(base, tail) == below(base, tail),
{
}

/// Executables go to `UV_TOOL_BIN_DIR` where it counts, whatever else is set; else to
/// `XDG_BIN_HOME` where that counts; else to `../bin` below `XDG_DATA_HOME` where that counts; and
/// only where none of the three counts, to `.local/bin` in the home directory. Where there is no
/// home directory either, the search fails.
pub proof fn executables_go_by_the_first_setting(
    variables: &DirectoryVariables,
    r: Result<String, Error>,
)
    requires
        call_ensures(find_executable_directory, (variables,), r),
    ensures
        counts(variables.uv_tool_bin_dir) ==> is_path(r, variables.uv_tool_bin_dir->0@),
        !counts(variables.uv_tool_bin_dir) && counts(variables.xdg_bin_home) ==> is_path(
            r,
            variables.xdg_bin_home->0@,
        ),
        !counts(variables.uv_tool_bin_dir) && !counts(variables.xdg_bin_home) && counts(
            variables.xdg_data_home,
        ) ==> is_path(r, below(variables.xdg_data_home->0@, "../bin"@)),
        !counts(variables.uv_tool_bin_dir) && !counts(variables.xdg_bin_home) && !counts(
            variables.xdg_data_home,
        ) ==> match variables.home_dir {
            Some(home) => is_path(r, below(below(home@, ".local"@), "bin"@)),
            None => r is Err && r->Err_0@ == ErrorView::NoExecutableDirectory,
        },
{
    reveal_strlit("../bin");
    reveal_strlit(".local");
    reveal_strlit("bin");
    if let Some(data) = variables.xdg_data_home {
        lemma_joined_below(data@, "../bin"@);
    }
    if let Some(home) = variables.home_dir {
        lemma_joined_below(home@, ".local"@);
        lemma_joined_below(below(home@, ".local"@), "bin"@);
    }
}

/// What lies at `../share`, seen from a directory for executables.
pub open spec fn share_beside(bin: Seq<char>) -> Option<Seq<char>> {
    normalized(below(bin, "../share"@))
}

/// Whether a setting counts, and the `share` directory beside it is among the existing ones.
pub open spec fn decides(setting: Option<String>, existing: Seq<String>) -> bool {
    counts(setting) && exists|i: int|
        0 <= i < existing.len() && share_beside(setting->0@) == Some((#[trigger] existing[i])@)
}

/// Man pages go to `man` in the `share` directory beside `UV_TOOL_BIN_DIR` where that counts and
/// the `share` directory exists; else by `XDG_BIN_HOME` in the same way; else to `man` below
/// `XDG_DATA_HOME` where that counts; and only then to `.local/share/man` in the home directory.
/// Where there is no home directory either, the search fails.
pub proof fn manpages_go_by_the_first_setting(
    variables: &DirectoryVariables,
    existing: &Vec<String>,
    r: Result<String, Error>,
)
    requires
        call_ensures(find_manpage_directory, (variables, existing), r),
    ensures
        decides(variables.uv_tool_bin_dir, existing@) ==> is_path(
            r,
            below(share_beside(variables.uv_tool_bin_dir->0@)->0, "man"@),
        ),
        !decides(variables.uv_tool_bin_dir, existing@) && decides(
            variables.xdg_bin_home,
            existing@,
        ) ==> is_path(r, below(share_beside(variables.xdg_bin_home->0@)->0, "man"@)),
        !decides(variables.uv_tool_bin_dir, existing@) && !decides(
            variables.xdg_bin_home,
            existing@,
        ) && counts(variables.xdg_data_home) ==> is_path(
            r,
            below(variables.xdg_data_home->0@, "man"@),
        ),
        !decides(variables.uv_tool_bin_dir, existing@) && !decides(
            variables.xdg_bin_home,
            existing@,
        ) && !counts(variables.xdg_data_home) ==> match variables.home_dir {
            Some(home) => is_path(r, below(below(below(home@, ".local"@), "share"@), "man"@)),
            None => r is Err && r->Err_0@ == ErrorView::NoExecutableDirectory,
        },
{
    reveal_strlit("man");
    reveal_strlit("share");
    reveal_strlit(".local");
    lemma_decides(variables.uv_tool_bin_dir, existing@);
    lemma_decides(variables.xdg_bin_home, existing@);
    if let Some(data) = variables.xdg_data_home {
        lemma_joined_below(data@, "man"@);
    }
    if let Some(home) = variables.home_dir {
        lemma_joined_below(home@, ".local"@);
        lemma_joined_below(below(home@, ".local"@), "share"@);
        lemma_joined_below(below(below(home@, ".local"@), "share"@), "man"@);
    }
}

proof fn lemma_share_beside(bin: Seq<char>)
    requires
        bin.len() > 0,
    ensures
        share_directory(bin) == share_beside(bin),
{
    reveal_strlit("..");
    reveal_strlit("share");
    reveal_strlit("../share");
    lemma_joined_below(bin, ".."@);
    let up = below(bin, ".."@);
    assert(up[up.len() - 1] == '.');
    lemma_joined_below(up, "share"@);
    assert(".."@ + seq!['/'] + "share"@ == "../share"@);
    assert(below(up, "share"@) == below(bin, "../share"@));
}

proof fn lemma_decides(setting: Option<String>, existing: Seq<String>)
    ensures
        ({
            let text = match setting {
                Some(text) => Some(text@),
                None => None,
            };
            let found = crate::directories::existing_share_man(text, string_texts(existing));
            if decides(setting, existing) {
                found == Some(below(share_beside(setting->0@)->0, "man"@))
            } else {
                found is None
            }
        }),
{
    reveal_strlit("man");
    if counts(setting) {
        let bin = setting->0@;
        lemma_share_beside(bin);
        man_is_in_share(bin);
        if let Some(share) = share_beside(bin) {
            lemma_joined_below(share, "man"@);
            let texts = string_texts(existing);
            if texts.contains(share) {
                let i = choose|i: int| 0 <= i < texts.len() && texts[i] == share;
                assert(existing[i]@ == share);
            }
            if decides(setting, existing) {
                let i = choose|i: int|
                    0 <= i < existing.len() && share_beside(bin) == Some((#[trigger] existing[i])@);
                assert(texts[i] == share);
            }
        }
    }
}

/// The directories to look for are exactly the `share` directories beside those of
/// `UV_TOOL_BIN_DIR` and `XDG_BIN_HOME` that count, the former first.
pub proof fn probes_are_the_share_directories(variables: &DirectoryVariables, r: Vec<String>)
    requires
        call_ensures(manpage_probes, (variables,), r),
    ensures
        ({
            let first = if counts(variables.uv_tool_bin_dir) {
                share_beside(variables.uv_tool_bin_dir->0@)
            } else {
                None
            };
            let second = if counts(variables.xdg_bin_home) {
                share_beside(variables.xdg_bin_home->0@)
            } else {
                None
            };
            match (first, second) {
                (Some(a), Some(b)) => r@.len() == 2 && r@[0]@ == a && r@[1]@ == b,
                (Some(a), None) => r@.len() == 1 && r@[0]@ == a,
                (None, Some(b)) => r@.len() == 1 && r@[0]@ == b,
                (None, None) => r@.len() == 0,
            }
        }),
{
    if counts(variables.uv_tool_bin_dir) {
        lemma_share_beside(variables.uv_tool_bin_dir->0@);
    }
    if counts(variables.xdg_bin_home) {
        lemma_share_beside(variables.xdg_bin_home->0@);
    }
    let texts = string_texts(r@);
    assert(texts == probes_of(variables@));
    assert(texts.len() == r@.len());
    if r@.len() > 0 {
        assert(texts[0] == r@[0]@);
    }
    if r@.len() > 1 {
        assert(texts[1] == r@[1]@);
    }
}

/// The probes are all that has to be looked for: lists of existing directories that agree on them
/// give the same answer.
pub proof fn probes_suffice(
    variables: &DirectoryVariables,
    probes: Vec<String>,
    some: &Vec<String>,
    others: &Vec<String>,
    r: Result<String, Error>,
    s: Result<String, Error>,
)
    requires
        call_ensures(manpage_probes, (variables,), probes),
        forall|i: int|
            0 <= i < probes@.len() ==> (string_texts(some@).contains((#[trigger] probes@[i])@)
                <==> string_texts(others@).contains(probes@[i]@)),
        call_ensures(find_manpage_directory, (variables, some), r),
        call_ensures(find_manpage_directory, (variables, others), s),
    ensures
        match (r, s) {
            (Ok(a), Ok(b)) => a@ == b@,
            (Err(a), Err(b)) => a@ == b@,
            _ => false,
        },
{
    let texts = string_texts(probes@);
    assert(texts == probes_of(variables@));
    assert forall|x: Seq<char>| texts.contains(x) implies (string_texts(some@).contains(x)
        <==> string_texts(others@).contains(x)) by {
        let i = choose|i: int| 0 <= i < texts.len() && texts[i] == x;
        assert(probes@[i]@ == x);
    }
    if let Some(share) = probe_of(variables@.uv_tool_bin_dir) {
        assert(probes_of(variables@)[0] == share);
        assert(texts.contains(share));
    }
    if let Some(share) = probe_of(variables@.xdg_bin_home) {
        assert(probes_of(variables@).last() == share);
        assert(texts.contains(share));
    }
}

/// Beside a directory that is written without `.` and `..`, the `share` directory has the name
/// `share` in place of the last one. The root has nothing beside it.
pub proof fn share_takes_the_last_place(names: Seq<Seq<char>>)
    requires
        all_names(names),
    ensures
        names.len() > 0 ==> share_beside(seq!['/'] + slash_joined(names)) == Some(
            seq!['/'] + slash_joined(names.drop_last().push("share"@)),
        ),
        names.len() == 0 ==> share_beside(seq!['/'] + slash_joined(names)) is None,
{
    let bin = seq!['/'] + slash_joined(names);
    reveal_strlit("..");
    reveal_strlit("share");
    reveal_strlit("../share");
    components_of_rooted(names);
    lemma_share_beside(bin);
    let up: Seq<char> = seq!['.', '.'];
    assert(".."@ == up);
    assert(is_plain(up)) by {
        let dot: Seq<char> = seq!['.'];
        assert(up.len() != dot.len());
        assert(!up.contains('/'));
    }
    assert(is_plain("share"@)) by {
        let dot: Seq<char> = seq!['.'];
        assert("share"@.len() != dot.len());
        assert(!"share"@.contains('/'));
    }
    assert("share"@ != up) by {
        assert("share"@.len() != up.len());
    }
    let dot: Seq<char> = seq!['.'];
    assert("share"@.len() != dot.len() && up.len() != dot.len());
    components_of_piece(".."@);
    components_of_piece("share"@);
    let above = joined(bin, ".."@);
    let share = joined(above, "share"@);
    components_of_join(bin, ".."@);
    components_of_join(above, "share"@);
    assert(absolute(share)) by {
        assert(above[0] == bin[0]);
        assert(share[0] == above[0]);
    }
    let all = components(share).skip(1);
    assert(all == names.push(up).push("share"@));
    lemma_resolved_fixed(names);
    assert(all.drop_last() == names.push(up));
    assert(names.push(up).drop_last() == names);
    if names.len() > 0 {
        assert(resolved(names.push(up)) == Some(names.drop_last()));
        assert(resolved(all) == Some(names.drop_last().push("share"@)));
    } else {
        assert(resolved(names.push(up)) is None);
        assert(resolved(all) is None);
    }
}

} // verus!
