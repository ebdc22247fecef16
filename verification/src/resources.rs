//! The entry points and man pages that an installed package brings along.

use vstd::prelude::*;

use crate::error::{Error, ErrorView, IoError, IoErrorKind, IoErrorView};
use crate::name::PackageName;
use crate::path::{
    components, join, joined, piece_end, same_text, spans, split_components, strip_prefix, stripped,
    texts,
};
use crate::relative::{diff_paths, relative_to};
use crate::site_packages::{dist_info, find_dist_info, Scheme, SchemeView, SitePackages};

verus! {

/// A file that a package brings along for its users.
#[derive(Debug, PartialEq, Eq, PartialOrd, Ord)]
pub enum Resource<T> {
    Executable(T),
    Manpage(T),
}

/// A file in the list of installed files of a package.
#[derive(Debug)]
pub struct RecordEntry {
    /// The path of the file, relative to the directory of the Python packages.
    pub path: String,
}

/// Why the list of installed files of a package could not be had.
#[derive(Debug)]
pub enum RecordError {
    /// The list could not be read.
    Unreadable(IoError),
    /// The list could be read, but is invalid.
    Invalid(String),
}

/// The error that a list of installed files which could not be had comes to.
pub open spec fn record_failure(error: RecordError) -> ErrorView {
    match error {
        RecordError::Unreadable(error) => ErrorView::Io(error@),
        RecordError::Invalid(error) => ErrorView::EntrypointRead(error@),
    }
}

/// The paths of the entries.
pub open spec fn entry_paths(record: Seq<RecordEntry>) -> Seq<Seq<char>> {
    Seq::new(record.len(), |i: int| record[i].path@)
}

/// The place of the last `/` before `end`, or -1.
pub open spec fn last_slash(text: Seq<char>, end: int) -> int
    decreases end,
{
    if end <= 0 {
        -1
    } else if text[end - 1] == '/' {
        end - 1
    } else {
        last_slash(text, end - 1)
    }
}

/// What stands behind the last `/`.
pub open spec fn base_name(text: Seq<char>) -> Seq<char> {
    text.subrange(last_slash(text, text.len() as int) + 1, text.len() as int)
}

/// What stands between the last two slashes.
pub open spec fn parent_name(text: Seq<char>) -> Seq<char> {
    let end = last_slash(text, text.len() as int);
    text.subrange(last_slash(text, end) + 1, end)
}

/// Whether a directory is a section of the manual: `man` and a digit.
pub open spec fn is_section(name: Seq<char>) -> bool {
    name.len() == 4 && name[0] == 'm' && name[1] == 'a' && name[2] == 'n' && '0' <= name[3]
        && name[3] <= '9'
}

/// Whether a path is that of a file right in a section below `share/man`.
pub open spec fn is_manpage(path: Seq<char>) -> bool {
    let found = components(path);
    found.len() == 4 && found[0] == "share"@ && found[1] == "man"@ && is_section(found[2])
}

/// What a man page's path is below the data directory.
pub open spec fn manpage_below(path: Seq<char>, data_relative: Seq<char>) -> Option<Seq<char>> {
    match stripped(path, data_relative) {
        Some(tail) => if is_manpage(tail) {
            Some(tail)
        } else {
            None
        },
        None => None,
    }
}

/// The resource that an entry stands for, as its name and path. A script goes before a man page.
pub open spec fn resource_of(
    path: Seq<char>,
    scheme: SchemeView,
    script_relative: Seq<char>,
    data_relative: Seq<char>,
) -> Option<Resource<(Seq<char>, Seq<char>)>> {
    match stripped(path, script_relative) {
        Some(tail) => Some(Resource::Executable((base_name(path), joined(scheme.scripts, tail)))),
        None => match manpage_below(path, data_relative) {
            Some(tail) => Some(
                Resource::Manpage(
                    (parent_name(path) + seq!['/'] + base_name(path), joined(scheme.data, tail)),
                ),
            ),
            None => None,
        },
    }
}

/// The resources among the entries, in the order of the entries.
pub open spec fn resources_of(
    record: Seq<Seq<char>>,
    scheme: SchemeView,
    script_relative: Seq<char>,
    data_relative: Seq<char>,
) -> Seq<Resource<(Seq<char>, Seq<char>)>>
    decreases record.len(),
{
    if record.len() == 0 {
        Seq::empty()
    } else {
        let front = resources_of(record.drop_last(), scheme, script_relative, data_relative);
        match resource_of(record.last(), scheme, script_relative, data_relative) {
            Some(resource) => front.push(resource),
            None => front,
        }
    }
}

/// The error for a directory that cannot be reached from the Python packages.
pub open spec fn no_relative_path(path: Seq<char>) -> ErrorView {
    ErrorView::Io(
        IoErrorView {
            kind: IoErrorKind::Other,
            message: "Could not find relative path for: "@ + path,
        },
    )
}

/// The resources of a package with the given entries, or why they cannot be found.
pub open spec fn resources_result(record: Seq<Seq<char>>, scheme: SchemeView) -> Result<
    Seq<Resource<(Seq<char>, Seq<char>)>>,
    ErrorView,
> {
    match relative_to(scheme.scripts, scheme.purelib) {
        None => Err(no_relative_path(scheme.scripts)),
        Some(script_relative) => match relative_to(scheme.data, scheme.purelib) {
            None => Err(no_relative_path(scheme.data)),
            Some(data_relative) => Ok(
                resources_of(record, scheme, script_relative, data_relative),
            ),
        },
    }
}

/// The content of a resource.
pub open spec fn resource_view(resource: Resource<(String, String)>) -> Resource<
    (Seq<char>, Seq<char>),
> {
    match resource {
        Resource::Executable(entry) => Resource::Executable((entry.0@, entry.1@)),
        Resource::Manpage(entry) => Resource::Manpage((entry.0@, entry.1@)),
    }
}

/// The contents of a list of resources.
pub open spec fn resource_views(list: Seq<Resource<(String, String)>>) -> Seq<
    Resource<(Seq<char>, Seq<char>)>,
> {
    Seq::new(list.len(), |i: int| resource_view(list[i]))
}

/// The names and paths of the executables, in order.
pub open spec fn executables(list: Seq<Resource<(Seq<char>, Seq<char>)>>) -> Seq<
    (Seq<char>, Seq<char>),
>
    decreases list.len(),
{
    if list.len() == 0 {
        Seq::empty()
    } else {
        let front = executables(list.drop_last());
        match list.last() {
            Resource::Executable(entry) => front.push(entry),
            Resource::Manpage(_) => front,
        }
    }
}

/// The contents of a list of names and paths.
pub open spec fn entry_views(list: Seq<(String, String)>) -> Seq<(Seq<char>, Seq<char>)> {
    Seq::new(list.len(), |i: int| (list[i].0@, list[i].1@))
}

/// Whether a result holds the expected resources, or the expected error.
pub open spec fn holds_resources(
    r: Result<Vec<Resource<(String, String)>>, Error>,
    expected: Result<Seq<Resource<(Seq<char>, Seq<char>)>>, ErrorView>,
) -> bool {
    match r {
        Ok(list) => expected == Ok::<_, ErrorView>(resource_views(list@)),
        Err(error) => expected == Err::<Seq<Resource<(Seq<char>, Seq<char>)>>, _>(error@),
    }
}

/// The last `/` before a place is a `/`, and none stands between it and that place.
pub proof fn lemma_last_slash(text: Seq<char>, end: int)
    requires
        0 <= end <= text.len(),
    ensures
        -1 <= last_slash(text, end) < end || (end == 0 && last_slash(text, end) == -1),
        last_slash(text, end) >= 0 ==> text[last_slash(text, end)] == '/',
        forall|k: int| last_slash(text, end) < k < end ==> text[k] != '/',
    decreases end,
{
    if end > 0 && text[end - 1] != '/' {
        lemma_last_slash(text, end - 1);
    }
}

/// The part of the path below the scripts directory, where it lies there.
pub fn executable_from_path<'a>(relative_path: &'a str, script_relative: &str) -> (r: Option<
    &'a str,
>)
    ensures
        match r {
            Some(tail) => stripped(relative_path@, script_relative@) == Some(tail@),
            None => stripped(relative_path@, script_relative@) is None,
        },
{
    strip_prefix(relative_path, script_relative)
}

fn check_section(name: &str) -> (r: bool)
    ensures
        r == is_section(name@),
{
    if name.unicode_len() != 4 {
        return false;
    }
    let digit: char = name.get_char(3);
    name.get_char(0) == 'm' && name.get_char(1) == 'a' && name.get_char(2) == 'n' && '0' <= digit
        && digit <= '9'
}

/// The part of the path below the data directory, where it is that of a man page: a file
/// right in a section below `share/man`.
pub fn manpage_from_path<'a>(relative_path: &'a str, data_relative: &str) -> (r: Option<&'a str>)
    ensures
        match r {
            Some(tail) => manpage_below(relative_path@, data_relative@) == Some(tail@),
            None => manpage_below(relative_path@, data_relative@) is None,
        },
{
    match strip_prefix(relative_path, data_relative) {
        None => None,
        Some(path_in_data) => {
            let found = split_components(path_in_data);
            assert(forall|i: int|
                0 <= i < found@.len() ==> components(path_in_data@)[i] == #[trigger] found@[i]@) by {
                assert forall|i: int| 0 <= i < found@.len() implies components(path_in_data@)[i]
                    == #[trigger] found@[i]@ by {
                    assert(texts(found@)[i] == found@[i]@);
                }
            }
            assert(texts(found@).len() == found@.len());
            if found.len() == 4 && same_text(found[0], "share") && same_text(found[1], "man")
                && check_section(found[2]) {
                Some(path_in_data)
            } else {
                None
            }
        },
    }
}

fn find_last_slash(text: &str, end: usize) -> (r: Option<usize>)
    requires
        end <= text@.len(),
    ensures
        match r {
            Some(at) => at < end && last_slash(text@, end as int) == at,
            None => last_slash(text@, end as int) == -1,
        },
{
    let mut i: usize = end;
    while i > 0
        invariant
            i <= end <= text@.len(),
            last_slash(text@, end as int) == last_slash(text@, i as int),
        decreases i,
    {
        if text.get_char(i - 1) == '/' {
            return Some(i - 1);
        }
        i = i - 1;
    }
    None
}

/// What stands behind the last `/` of a text.
fn name_behind_slash<'a>(text: &'a str) -> (r: &'a str)
    ensures
        r@ == base_name(text@),
{
    let n: usize = text.unicode_len();
    match find_last_slash(text, n) {
        Some(at) => text.substring_char(at + 1, n),
        None => text.substring_char(0, n),
    }
}

/// A path of more than one component holds a `/`.
pub proof fn lemma_has_slash(text: Seq<char>)
    requires
        components(text).len() > 1,
    ensures
        last_slash(text, text.len() as int) >= 0,
{
    lemma_last_slash(text, text.len() as int);
    if last_slash(text, text.len() as int) < 0 {
        crate::path::lemma_piece_end(text, 0);
        assert(piece_end(text, 0) == text.len());
        assert(spans(text, text.len() as int + 1).len() == 0);
        assert(false);
    }
}

/// The resource that an entry stands for.
fn entry_resource(
    path: &str,
    scheme: &Scheme,
    script_relative: &str,
    data_relative: &str,
) -> (r: Option<Resource<(String, String)>>)
    ensures
        match r {
            Some(resource) => resource_of(path@, scheme@, script_relative@, data_relative@) == Some(
                resource_view(resource),
            ),
            None => resource_of(path@, scheme@, script_relative@, data_relative@) is None,
        },
{
    if let Some(tail) = executable_from_path(path, script_relative) {
        let script_name: String = name_behind_slash(path).to_owned();
        return Some(Resource::Executable((script_name, join(scheme.scripts.as_str(), tail))));
    }
    if let Some(tail) = manpage_from_path(path, data_relative) {
        proof {
            crate::path_laws::strip_then_join(path@, data_relative@);
            assert(components(path@).len() > 1);
            lemma_has_slash(path@);
            reveal_strlit("/");
            assert("/"@ == seq!['/']);
        }
        let n: usize = path.unicode_len();
        let manual_name: &str = name_behind_slash(path);
        match find_last_slash(path, n) {
            Some(end) => {
                let section: &str = match find_last_slash(path, end) {
                    Some(at) => path.substring_char(at + 1, end),
                    None => path.substring_char(0, end),
                };
                let name: String = section.to_owned().concat("/").concat(manual_name);
                return Some(Resource::Manpage((name, join(scheme.data.as_str(), tail))));
            },
            None => {
                assert(false);
            },
        }
    }
    None
}

fn relative_path_error(path: &str) -> (r: Error)
    ensures
        r@ == no_relative_path(path@),
{
    Error::Io(
        IoError {
            kind: IoErrorKind::Other,
            message: "Could not find relative path for: ".to_owned().concat(path),
        },
    )
}

/// Finds the resources among the installed files of a package.
///
/// The entries are relative to the directory of the Python packages, and so are looked up by the
/// relative paths that lead from there to the scripts and to the data.
pub fn record_resources(record: &Vec<RecordEntry>, scheme: &Scheme) -> (r: Result<
    Vec<Resource<(String, String)>>,
    Error,
>)
    ensures
        holds_resources(r, resources_result(entry_paths(record@), scheme@)),
{
    let script_relative: String = match diff_paths(
        scheme.scripts.as_str(),
        scheme.purelib.as_str(),
    ) {
        Some(path) => path,
        None => {
            return Err(relative_path_error(scheme.scripts.as_str()));
        },
    };
    let data_relative: String = match diff_paths(scheme.data.as_str(), scheme.purelib.as_str()) {
        Some(path) => path,
        None => {
            return Err(relative_path_error(scheme.data.as_str()));
        },
    };
    let mut found: Vec<Resource<(String, String)>> = Vec::new();
    let mut i: usize = 0;
    let ghost all = entry_paths(record@);
    assert(all.take(0) == Seq::<Seq<char>>::empty());
    assert(resource_views(found@) == Seq::<Resource<(Seq<char>, Seq<char>)>>::empty());
    while i < record.len()
        invariant
            i <= record.len(),
            all == entry_paths(record@),
            resource_views(found@) == resources_of(
                all.take(i as int),
                scheme@,
                script_relative@,
                data_relative@,
            ),
        decreases record.len() - i,
    {
        let ghost before = resource_views(found@);
        assert(all.take(i + 1).drop_last() == all.take(i as int));
        assert(all.take(i + 1).last() == record@[i as int].path@);
        if let Some(resource) = entry_resource(
            record[i].path.as_str(),
            scheme,
            script_relative.as_str(),
            data_relative.as_str(),
        ) {
            found.push(resource);
            assert(resource_views(found@) == before.push(resource_view(resource)));
        }
        i = i + 1;
    }
    assert(all.take(record.len() as int) == all);
    Ok(found)
}

/// What the search for the resources of a package comes to, once its list of files was read.
pub open spec fn package_resources(
    site_packages: SitePackages,
    name: Seq<char>,
    version: Seq<char>,
    record: Result<Vec<RecordEntry>, RecordError>,
) -> Result<Seq<Resource<(Seq<char>, Seq<char>)>>, ErrorView> {
    if dist_info(site_packages, name, version) is None {
        Err(ErrorView::MissingToolPackage(name))
    } else {
        match record {
            Err(error) => Err(record_failure(error)),
            Ok(entries) => resources_result(entry_paths(entries@), site_packages.scheme@),
        }
    }
}

/// That the package is missing is told exactly when it is, and by its own name.
pub proof fn missing_package_is_told(
    site_packages: SitePackages,
    name: Seq<char>,
    version: Seq<char>,
    record: Result<Vec<RecordEntry>, RecordError>,
)
    ensures
        match package_resources(site_packages, name, version, record) {
            Err(ErrorView::MissingToolPackage(missing)) => missing == name && dist_info(
                site_packages,
                name,
                version,
            ) is None,
            _ => dist_info(site_packages, name, version) is Some,
        },
{
}

/// Finds the resources (entry points and man pages) of a package in an environment.
///
/// `record` is what reading the package's list of installed files came to; it is asked for only
/// once the package was found.
pub fn find_resources(
    site_packages: &SitePackages,
    package_name: &PackageName,
    package_version: &str,
    record: Result<Vec<RecordEntry>, RecordError>,
) -> (r: Result<Vec<Resource<(String, String)>>, Error>)
    ensures
        holds_resources(
            r,
            package_resources(*site_packages, package_name@, package_version@, record),
        ),
{
    match find_dist_info(site_packages, package_name, package_version) {
        Err(error) => Err(error),
        Ok(_) => match record {
            Err(RecordError::Unreadable(error)) => Err(Error::Io(error)),
            Err(RecordError::Invalid(error)) => Err(Error::EntrypointRead(error)),
            Ok(entries) => record_resources(&entries, &site_packages.scheme),
        },
    }
}

/// Finds the paths to the resources (entry points and man pages) of a package in an environment,
/// as their names and paths.
pub fn resource_paths(
    site_packages: &SitePackages,
    package_name: &PackageName,
    package_version: &str,
    record: Result<Vec<RecordEntry>, RecordError>,
) -> (r: Result<Vec<Resource<(String, String)>>, Error>)
    ensures
        holds_resources(
            r,
            package_resources(*site_packages, package_name@, package_version@, record),
        ),
{
    find_resources(site_packages, package_name, package_version, record)
}

/// Keeps the executables of a list of resources.
pub fn only_executables(list: &Vec<Resource<(String, String)>>) -> (r: Vec<(String, String)>)
    ensures
        entry_views(r@) == executables(resource_views(list@)),
{
    let mut r: Vec<(String, String)> = Vec::new();
    let mut i: usize = 0;
    let ghost all = resource_views(list@);
    assert(all.take(0) == Seq::<Resource<(Seq<char>, Seq<char>)>>::empty());
    assert(entry_views(r@) == Seq::<(Seq<char>, Seq<char>)>::empty());
    while i < list.len()
        invariant
            i <= list.len(),
            all == resource_views(list@),
            entry_views(r@) == executables(all.take(i as int)),
        decreases list.len() - i,
    {
        let ghost before = entry_views(r@);
        assert(all.take(i + 1).drop_last() == all.take(i as int));
        assert(all.take(i + 1).last() == resource_view(list@[i as int]));
        match &list[i] {
            Resource::Executable(entry) => {
                r.push((entry.0.clone(), entry.1.clone()));
                assert(entry_views(r@) == before.push((entry.0@, entry.1@)));
            },
            Resource::Manpage(_) => {},
        }
        i = i + 1;
    }
    assert(all.take(list.len() as int) == all);
    r
}

/// Finds the paths to the entry points of a package in an environment, as names and paths.
///
/// Entry points can either be true Python entry points or scripts in the `.data` directory.
pub fn entrypoint_paths(
    site_packages: &SitePackages,
    package_name: &PackageName,
    package_version: &str,
    record: Result<Vec<RecordEntry>, RecordError>,
) -> (r: Result<Vec<(String, String)>, Error>)
    ensures
        match package_resources(*site_packages, package_name@, package_version@, record) {
            Ok(resources) => r is Ok && entry_views(r->Ok_0@) == executables(resources),
            Err(error) => r is Err && r->Err_0@ == error,
        },
{
    match find_resources(site_packages, package_name, package_version, record) {
        Ok(list) => Ok(only_executables(&list)),
        Err(error) => Err(error),
    }
}

} // verus!
