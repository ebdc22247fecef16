//! Where executables and man pages of tools go.

use vstd::prelude::*;

use crate::error::{Error, ErrorView};
use crate::path::{
    absolute, components, join, joined, normalize_absolute_path, normalized, resolved, same_text,
    slash_joined,
};
use crate::path_laws::{
    components_of_join, components_of_piece, components_of_slash_joined, is_plain,
    lemma_no_components, lemma_rooted_plain, normalized_is_normal,
};

verus! {

/// The settings of a user that say where files go.
#[derive(Debug)]
pub struct DirectoryVariables {
    /// `UV_TOOL_BIN_DIR`
    pub uv_tool_bin_dir: Option<String>,
    /// `XDG_BIN_HOME`
    pub xdg_bin_home: Option<String>,
    /// `XDG_DATA_HOME`
    pub xdg_data_home: Option<String>,
    /// The home directory.
    pub home_dir: Option<String>,
}

/// The content of [`DirectoryVariables`].
pub struct DirectoryVariablesView {
    pub uv_tool_bin_dir: Option<Seq<char>>,
    pub xdg_bin_home: Option<Seq<char>>,
    pub xdg_data_home: Option<Seq<char>>,
    pub home_dir: Option<Seq<char>>,
}

/// The content of an optional text.
pub open spec fn text_of(text: Option<String>) -> Option<Seq<char>> {
    match text {
        Some(text) => Some(text@),
        None => None,
    }
}

impl View for DirectoryVariables {
    type V = DirectoryVariablesView;

    open spec fn view(&self) -> DirectoryVariablesView {
        DirectoryVariablesView {
            uv_tool_bin_dir: text_of(self.uv_tool_bin_dir),
            xdg_bin_home: text_of(self.xdg_bin_home),
            xdg_data_home: text_of(self.xdg_data_home),
            home_dir: text_of(self.home_dir),
        }
    }
}

/// A path that is set and absolute.
pub open spec fn when_absolute(path: Option<Seq<char>>) -> Option<Seq<char>> {
    match path {
        Some(text) => if absolute(text) {
            Some(text)
        } else {
            None
        },
        None => None,
    }
}

/// The directory for executables.
pub open spec fn executable_directory(variables: DirectoryVariablesView) -> Option<Seq<char>> {
    if let Some(path) = when_absolute(variables.uv_tool_bin_dir) {
        Some(path)
    } else if let Some(path) = when_absolute(variables.xdg_bin_home) {
        Some(path)
    } else if let Some(path) = when_absolute(variables.xdg_data_home) {
        Some(joined(path, "../bin"@))
    } else if let Some(path) = variables.home_dir {
        Some(joined(joined(path, ".local"@), "bin"@))
    } else {
        None
    }
}

/// The `share` directory beside a directory for executables.
pub open spec fn share_directory(bin: Seq<char>) -> Option<Seq<char>> {
    normalized(joined(joined(bin, ".."@), "share"@))
}

/// The `share/man` directory beside a directory for executables.
pub open spec fn share_man_directory(bin: Seq<char>) -> Option<Seq<char>> {
    normalized(joined(joined(joined(bin, ".."@), "share"@), "man"@))
}

/// The `share/man` directory beside a directory for executables, where its `share` directory
/// exists.
pub open spec fn existing_share_man(
    bin: Option<Seq<char>>,
    existing: Seq<Seq<char>>,
) -> Option<Seq<char>> {
    match when_absolute(bin) {
        Some(path) => match share_directory(path) {
            Some(share) => if existing.contains(share) {
                share_man_directory(path)
            } else {
                None
            },
            None => None,
        },
        None => None,
    }
}

/// The directory for man pages.
pub open spec fn manpage_directory(
    variables: DirectoryVariablesView,
    existing: Seq<Seq<char>>,
) -> Option<Seq<char>> {
    if let Some(path) = existing_share_man(variables.uv_tool_bin_dir, existing) {
        Some(path)
    } else if let Some(path) = existing_share_man(variables.xdg_bin_home, existing) {
        Some(path)
    } else if let Some(path) = when_absolute(variables.xdg_data_home) {
        Some(joined(path, "man"@))
    } else if let Some(path) = variables.home_dir {
        Some(joined(joined(joined(path, ".local"@), "share"@), "man"@))
    } else {
        None
    }
}

/// The `share` directory beside a directory for executables that is set and absolute.
pub open spec fn probe_of(bin: Option<Seq<char>>) -> Option<Seq<char>> {
    match when_absolute(bin) {
        Some(path) => share_directory(path),
        None => None,
    }
}

/// The directories whose existence decides where man pages go.
pub open spec fn probes_of(variables: DirectoryVariablesView) -> Seq<Seq<char>> {
    let first = match probe_of(variables.uv_tool_bin_dir) {
        Some(share) => seq![share],
        None => Seq::empty(),
    };
    match probe_of(variables.xdg_bin_home) {
        Some(share) => first.push(share),
        None => first,
    }
}

/// The texts of a list.
pub open spec fn string_texts(list: Seq<String>) -> Seq<Seq<char>> {
    Seq::new(list.len(), |i: int| list[i]@)
}

/// `dirs_sys::is_absolute_path`, on Unix: the path itself where it is absolute, and nothing where
/// it is not.
#[verifier::external_body]
fn is_absolute_path(text: &str) -> (r: Option<String>)
    ensures
        match r {
            Some(path) => absolute(text@) && path@ == text@,
            None => !absolute(text@),
        },
{
    dirs_sys::is_absolute_path(text.into()).map(|path| path.to_string_lossy().into_owned())
}

fn absolute_setting(setting: &Option<String>) -> (r: Option<String>)
    ensures
        text_of(r) == when_absolute(text_of(*setting)),
{
    match setting {
        Some(text) => is_absolute_path(text.as_str()),
        None => None,
    }
}

/// Finds a directory to place executables in.
///
/// This follows, in order:
///
/// - `$UV_TOOL_BIN_DIR`
/// - `$XDG_BIN_HOME`
/// - `$XDG_DATA_HOME/../bin`
/// - `$HOME/.local/bin`
///
/// Errors if a directory cannot be found.
pub fn find_executable_directory(variables: &DirectoryVariables) -> (r: Result<String, Error>)
    ensures
        match r {
            Ok(path) => executable_directory(variables@) == Some(path@),
            Err(error) => executable_directory(variables@) is None && error@
                == ErrorView::NoExecutableDirectory,
        },
{
    if let Some(path) = absolute_setting(&variables.uv_tool_bin_dir) {
        return Ok(path);
    }
    if let Some(path) = absolute_setting(&variables.xdg_bin_home) {
        return Ok(path);
    }
    if let Some(path) = absolute_setting(&variables.xdg_data_home) {
        return Ok(join(path.as_str(), "../bin"));
    }
    match &variables.home_dir {
        Some(path) => Ok(join(join(path.as_str(), ".local").as_str(), "bin")),
        None => Err(Error::NoExecutableDirectory),
    }
}

fn probe(setting: &Option<String>) -> (r: Option<String>)
    ensures
        text_of(r) == probe_of(text_of(*setting)),
{
    match absolute_setting(setting) {
        Some(path) => normalize_absolute_path(
            join(join(path.as_str(), "..").as_str(), "share").as_str(),
        ),
        None => None,
    }
}

/// The directories whose existence decides where man pages go: `$UV_TOOL_BIN_DIR/../share` and
/// `$XDG_BIN_HOME/../share`.
pub fn manpage_probes(variables: &DirectoryVariables) -> (r: Vec<String>)
    ensures
        string_texts(r@) == probes_of(variables@),
{
    let mut r: Vec<String> = Vec::new();
    assert(string_texts(r@) == Seq::<Seq<char>>::empty());
    if let Some(share) = probe(&variables.uv_tool_bin_dir) {
        r.push(share);
        assert(string_texts(r@) == seq![share@]);
    }
    let ghost known = string_texts(r@);
    if let Some(share) = probe(&variables.xdg_bin_home) {
        r.push(share);
        assert(string_texts(r@) == known.push(share@));
    }
    r
}

fn lists(existing: &Vec<String>, path: &str) -> (r: bool)
    ensures
        r == string_texts(existing@).contains(path@),
{
    let mut i: usize = 0;
    while i < existing.len()
        invariant
            i <= existing.len(),
            forall|k: int| 0 <= k < i ==> (#[trigger] string_texts(existing@)[k]) != path@,
        decreases existing.len() - i,
    {
        if same_text(existing[i].as_str(), path) {
            assert(string_texts(existing@)[i as int] == path@);
            return true;
        }
        i = i + 1;
    }
    false
}

fn find_share_man(setting: &Option<String>, existing: &Vec<String>) -> (r: Option<String>)
    ensures
        text_of(r) == existing_share_man(text_of(*setting), string_texts(existing@)),
{
    match absolute_setting(setting) {
        Some(path) => {
            let beside: String = join(join(path.as_str(), "..").as_str(), "share");
            match normalize_absolute_path(beside.as_str()) {
                Some(share) => if lists(existing, share.as_str()) {
                    normalize_absolute_path(join(beside.as_str(), "man").as_str())
                } else {
                    None
                },
                None => None,
            }
        },
        None => None,
    }
}

/// Finds a directory to place man pages in.
///
/// This follows, in order:
///
/// - `$UV_TOOL_BIN_DIR/../share/man` (only if `$UV_TOOL_BIN_DIR/../share` exists)
/// - `$XDG_BIN_HOME/../share/man` (only if `$XDG_BIN_HOME/../share` exists)
/// - `$XDG_DATA_HOME/man`
/// - `$HOME/.local/share/man`
///
/// `existing` holds those directories among [`manpage_probes`] that exist. Errors if a directory
/// cannot be found.
pub fn find_manpage_directory(variables: &DirectoryVariables, existing: &Vec<String>) -> (r: Result<
    String,
    Error,
>)
    ensures
        match r {
            Ok(path) => manpage_directory(variables@, string_texts(existing@)) == Some(path@),
            Err(error) => manpage_directory(variables@, string_texts(existing@)) is None && error@
                == ErrorView::NoExecutableDirectory,
        },
{
    if let Some(path) = find_share_man(&variables.uv_tool_bin_dir, existing) {
        return Ok(path);
    }
    if let Some(path) = find_share_man(&variables.xdg_bin_home, existing) {
        return Ok(path);
    }
    if let Some(path) = absolute_setting(&variables.xdg_data_home) {
        return Ok(join(path.as_str(), "man"));
    }
    match &variables.home_dir {
        Some(path) => Ok(
            join(join(join(path.as_str(), ".local").as_str(), "share").as_str(), "man"),
        ),
        None => Err(Error::NoExecutableDirectory),
    }
}

proof fn lemma_joined_absolute(base: Seq<char>, tail: Seq<char>)
    requires
        absolute(base),
    ensures
        absolute(joined(base, tail)),
{
    if !absolute(tail) {
        assert(joined(base, tail)[0] == base[0]);
    }
}

proof fn lemma_piece(piece: Seq<char>)
    requires
        piece == ".."@ || piece == "share"@ || piece == "man"@,
    ensures
        is_plain(piece),
        piece != seq!['.'],
        piece == "share"@ || piece == "man"@ ==> piece != seq!['.', '.'],
{
    reveal_strlit("..");
    reveal_strlit("share");
    reveal_strlit("man");
    if piece.contains('/') {
        let k = choose|k: int| 0 <= k < piece.len() && piece[k] == '/';
        assert(piece[k] == '/');
    }
    let dot: Seq<char> = seq!['.'];
    let up: Seq<char> = seq!['.', '.'];
    assert(piece.len() != dot.len());
    assert(piece == "share"@ || piece == "man"@ ==> piece.len() != up.len());
}

/// The directory for man pages beside a directory for executables is `man` in the `share`
/// directory whose existence decides, and either both can be named or neither.
pub proof fn man_is_in_share(bin: Seq<char>)
    requires
        absolute(bin),
    ensures
        share_man_directory(bin) is Some <==> share_directory(bin) is Some,
        share_directory(bin) matches Some(share) ==> share_man_directory(bin) == Some(
            joined(share, "man"@),
        ),
{
    lemma_piece(".."@);
    lemma_piece("share"@);
    lemma_piece("man"@);
    components_of_piece(".."@);
    components_of_piece("share"@);
    components_of_piece("man"@);
    let up = joined(bin, ".."@);
    let share = joined(up, "share"@);
    let man = joined(share, "man"@);
    lemma_joined_absolute(bin, ".."@);
    lemma_joined_absolute(up, "share"@);
    lemma_joined_absolute(share, "man"@);
    components_of_join(up, "share"@);
    components_of_join(share, "man"@);
    lemma_no_components(up);
    lemma_no_components(share);
    let a = components(up).skip(1);
    let b = components(share).skip(1);
    let c = components(man).skip(1);
    assert(b.drop_last() == a);
    assert(b.last() == "share"@);
    assert(c.drop_last() == b);
    assert(c.last() == "man"@);
    if resolved(b) is Some {
        let kept = resolved(b)->0;
        let front = resolved(a)->0;
        assert(kept == front.push("share"@));
        let longer = kept.push("man"@);
        assert(resolved(c) == Some(longer));
        assert(longer.drop_last() == kept);
        assert(slash_joined(longer) == slash_joined(kept) + seq!['/'] + "man"@);
        normalized_is_normal(share);
        lemma_rooted_plain(share);
        assert(components(normalized(share)->0).skip(1) == kept);
        components_of_slash_joined(kept);
        let text = seq!['/'] + slash_joined(kept);
        assert(text.last() == slash_joined(kept).last());
        assert(joined(text, "man"@) == seq!['/'] + slash_joined(longer));
    }
}

/// The directories that are found are absolute, where the home directory is.
pub proof fn directories_are_absolute(
    variables: DirectoryVariablesView,
    existing: Seq<Seq<char>>,
)
    requires
        variables.home_dir matches Some(home) ==> absolute(home),
    ensures
        executable_directory(variables) matches Some(path) ==> absolute(path),
        manpage_directory(variables, existing) matches Some(path) ==> absolute(path),
{
    if let Some(path) = when_absolute(variables.xdg_data_home) {
        lemma_joined_absolute(path, "../bin"@);
        lemma_joined_absolute(path, "man"@);
    }
    if let Some(home) = variables.home_dir {
        lemma_joined_absolute(home, ".local"@);
        lemma_joined_absolute(joined(home, ".local"@), "bin"@);
        lemma_joined_absolute(joined(home, ".local"@), "share"@);
        lemma_joined_absolute(joined(joined(home, ".local"@), "share"@), "man"@);
    }
    lemma_share_man_absolute(variables.uv_tool_bin_dir, existing);
    lemma_share_man_absolute(variables.xdg_bin_home, existing);
}

proof fn lemma_share_man_absolute(bin: Option<Seq<char>>, existing: Seq<Seq<char>>)
    ensures
        existing_share_man(bin, existing) matches Some(path) ==> absolute(path),
{
    if let Some(path) = when_absolute(bin) {
        lemma_joined_absolute(path, ".."@);
        lemma_joined_absolute(joined(path, ".."@), "share"@);
        lemma_joined_absolute(joined(joined(path, ".."@), "share"@), "man"@);
        if share_man_directory(path) is Some {
            normalized_is_normal(joined(joined(joined(path, ".."@), "share"@), "man"@));
        }
    }
}

} // verus!
