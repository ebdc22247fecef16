//! Which recorded files are resources, and which resources are entry points.

use vstd::prelude::*;

use crate::directory_laws::below;
use crate::error::{Error, ErrorView, IoErrorKind};
use crate::name::PackageName;
use crate::package_laws::{climbing, is_first_of_version};
use crate::path::{
    components, is_root, joined, lemma_piece_end, lemma_spans, spans, strip_prefix, stripped,
    tail_from,
};
use crate::path_laws::components_of_tail;
use crate::relative::relative_to;
use crate::resource_laws::resources_keep_order;
use crate::resources::{
    base_name, entry_paths, entrypoint_paths, executable_from_path, executables, find_resources,
    last_slash, lemma_has_slash, lemma_last_slash, manpage_from_path, only_executables,
    parent_name, record_resources, resource_of, resource_paths, resource_view, resource_views,
    resources_of, RecordEntry, RecordError, Resource,
};
use crate::site_packages::{Scheme, SitePackages};

verus! {

/// Whether a path starts with the components of another.
pub open spec fn starts_with(path: Seq<char>, base: Seq<char>) -> bool {
    &&& components(base).len() <= components(path).len()
    &&& forall|k: int|
        0 <= k < components(base).len() ==> #[trigger] components(base)[k] == components(path)[k]
}

/// Whether a text is what a path holds behind its first `n` components: a part of it, with exactly
/// the other components, and no `/` at its end.
pub open spec fn is_rest(path: Seq<char>, n: int, tail: Seq<char>) -> bool {
    &&& components(tail) == components(path).skip(n)
    &&& exists|from: int|
        0 <= from <= from + tail.len() <= path.len() && #[trigger] path.subrange(
            from,
            from + tail.len(),
        ) == tail
    &&& tail.len() > 1 ==> tail[tail.len() - 1] != '/'
}

/// Whether a path is that of a man page below the data directory: behind the way there come
/// `share`, `man`, `man` with a digit, and one name more.
pub open spec fn is_page(path: Seq<char>, data_relative: Seq<char>) -> bool {
    let found = components(path);
    let n = components(data_relative).len() as int;
    &&& starts_with(path, data_relative)
    &&& found.len() == n + 4
    &&& found[n] == "share"@
    &&& found[n + 1] == "man"@
    &&& exists|digit: char|
        '0' <= digit <= '9' && found[n + 2] == #[trigger] seq!['m', 'a', 'n', digit]
}

proof fn lemma_starts_with(path: Seq<char>, base: Seq<char>)
    ensures
        starts_with(path, base) <==> stripped(path, base) is Some,
        stripped(path, base) matches Some(tail) ==> is_rest(
            path,
            components(base).len() as int,
            tail,
        ),
{
    let a = components(base);
    let b = components(path);
    let n = a.len() as int;
    if starts_with(path, base) {
        assert(a == b.subrange(0, n));
    }
    if a.is_prefix_of(b) {
        assert forall|k: int| 0 <= k < a.len() implies #[trigger] a[k] == b[k] by {
            assert(a[k] == b.subrange(0, n)[k]);
        }
        components_of_tail(path, n);
        let tail = tail_from(path, n);
        let at = spans(path, 0);
        lemma_spans(path, 0);
        if n < at.len() {
            let first = at[n];
            let last = at[at.len() - 1];
            if n < at.len() - 1 {
                assert(first.1 <= last.0);
            }
            assert(path.subrange(first.0, first.0 + tail.len()) == tail);
            if tail.len() > 1 {
                if !is_root(path, last) {
                    lemma_piece_end(path, last.0);
                    assert(path[last.1 - 1] != '/');
                } else {
                    assert(n == at.len() - 1 || at[n].1 <= last.0);
                }
                assert(tail[tail.len() - 1] == path[last.1 - 1]);
            }
        } else {
            assert(path.subrange(0int, 0int + tail.len()) == tail);
        }
    }
}

/// Stripping succeeds exactly where a path starts with the other, and leaves the rest.
pub proof fn stripping_leaves_the_rest<'a>(text: &'a str, base: &str, r: Option<&'a str>)
    requires
        call_ensures(strip_prefix, (text, base), r),
    ensures
        r is Some <==> starts_with(text@, base@),
        r matches Some(tail) ==> is_rest(text@, components(base@).len() as int, tail@),
{
    lemma_starts_with(text@, base@);
}

/// An entry is an executable exactly where it lies below the scripts, and then the rest is told.
pub proof fn executables_lie_below_scripts<'a>(path: &'a str, scripts: &str, r: Option<&'a str>)
    requires
        call_ensures(executable_from_path, (path, scripts), r),
    ensures
        r is Some <==> starts_with(path@, scripts@),
        r matches Some(tail) ==> is_rest(path@, components(scripts@).len() as int, tail@),
{
    lemma_starts_with(path@, scripts@);
}

proof fn lemma_page(path: Seq<char>, data_relative: Seq<char>)
    ensures
        crate::resources::manpage_below(path, data_relative) is Some <==> is_page(
            path,
            data_relative,
        ),
        crate::resources::manpage_below(path, data_relative) is Some
            ==> crate::resources::manpage_below(path, data_relative) == stripped(
            path,
            data_relative,
        ),
{
    lemma_starts_with(path, data_relative);
    if let Some(tail) = stripped(path, data_relative) {
        let found = components(path);
        let n = components(data_relative).len() as int;
        let rest = components(tail);
        assert(rest == found.skip(n));
        assert(rest.len() == found.len() - n);
        if rest.len() == 4 {
            let name = rest[2];
            assert(rest[0] == found[n]);
            assert(rest[1] == found[n + 1]);
            assert(name == found[n + 2]);
            if crate::resources::is_section(name) {
                assert(name == seq!['m', 'a', 'n', name[3]]);
            }
            if is_page(path, data_relative) {
                let digit = choose|digit: char|
                    '0' <= digit <= '9' && found[n + 2] == #[trigger] seq!['m', 'a', 'n', digit];
                assert(name[0] == 'm' && name[1] == 'a' && name[2] == 'n' && name[3] == digit);
            }
        }
    }
}

/// An entry is a man page exactly where it stands right in a section below `share/man`, and then
/// the rest is told.
pub proof fn manpages_lie_in_sections<'a>(path: &'a str, data: &str, r: Option<&'a str>)
    requires
        call_ensures(manpage_from_path, (path, data), r),
    ensures
        r is Some <==> is_page(path@, data@),
        r matches Some(tail) ==> is_rest(path@, components(data@).len() as int, tail@),
{
    lemma_page(path@, data@);
    lemma_starts_with(path@, data@);
}

/// Whether a text is what stands behind the last `/` of another.
pub open spec fn is_last_piece(text: Seq<char>, piece: Seq<char>) -> bool {
    let start = text.len() - piece.len();
    &&& start >= 0
    &&& text.skip(start) == piece
    &&& forall|k: int| 0 <= k < piece.len() ==> #[trigger] piece[k] != '/'
    &&& start > 0 ==> text[start - 1] == '/'
}

proof fn lemma_base_name(text: Seq<char>)
    ensures
        is_last_piece(text, base_name(text)),
{
    lemma_last_slash(text, text.len() as int);
    let name = base_name(text);
    let start = last_slash(text, text.len() as int) + 1;
    assert(text.skip(start) == name);
    assert forall|k: int| 0 <= k < name.len() implies #[trigger] name[k] != '/' by {
        assert(name[k] == text[start + k]);
    }
}

proof fn lemma_parent_name(text: Seq<char>)
    requires
        last_slash(text, text.len() as int) >= 0,
    ensures
        is_last_piece(text.take(text.len() - base_name(text).len() - 1), parent_name(text)),
{
    lemma_last_slash(text, text.len() as int);
    let end = last_slash(text, text.len() as int);
    lemma_last_slash(text, end);
    let head = text.take(text.len() - base_name(text).len() - 1);
    assert(head == text.take(end));
    let name = parent_name(text);
    let start = last_slash(text, end) + 1;
    assert(head.skip(start) == name);
    assert forall|k: int| 0 <= k < name.len() implies #[trigger] name[k] != '/' by {
        assert(name[k] == text[start + k]);
    }
}

/// Whether a path is a place below a directory: the text behind it, where that is relative.
pub open spec fn is_place(place: Seq<char>, directory: Seq<char>, tail: Seq<char>) -> bool {
    place == if tail.len() > 0 && tail[0] == '/' {
        tail
    } else {
        below(directory, tail)
    }
}

/// Whether a resource is the executable of an entry below the scripts: named by what stands behind
/// the last `/`, at the rest of the entry below the directory of the scripts.
pub open spec fn is_executable_of(
    resource: Resource<(String, String)>,
    path: Seq<char>,
    scripts: Seq<char>,
    script_relative: Seq<char>,
) -> bool {
    resource matches Resource::Executable(entry) && is_last_piece(path, entry.0@) && exists|
        tail: Seq<char>,
    | #[trigger]
        is_rest(path, components(script_relative).len() as int, tail) && is_place(
            entry.1@,
            scripts,
            tail,
        )
}

/// Whether a resource is the man page of an entry below the data: named by what stands between the
/// last two slashes, a `/`, and what stands behind the last, at the rest of the entry below the
/// directory of the data.
pub open spec fn is_manpage_of(
    resource: Resource<(String, String)>,
    path: Seq<char>,
    data: Seq<char>,
    data_relative: Seq<char>,
) -> bool {
    resource matches Resource::Manpage(entry) && is_manual_name(path, entry.0@) && exists|
        tail: Seq<char>,
    | #[trigger]
        is_rest(path, components(data_relative).len() as int, tail) && is_place(
            entry.1@,
            data,
            tail,
        )
}

/// Whether a name is made of the last two pieces of a path.
pub open spec fn is_manual_name(path: Seq<char>, name: Seq<char>) -> bool {
    exists|section: Seq<char>, page: Seq<char>|
        {
            &&& #[trigger] is_last_piece(path, page)
            &&& path.len() > page.len()
            &&& #[trigger] is_last_piece(path.take(path.len() - page.len() - 1), section)
            &&& name == section + seq!['/'] + page
        }
}

/// A single recorded file that lies below the scripts gives its executable and nothing else; one
/// that does not, but is a man page below the data, gives its man page; any other gives nothing.
pub proof fn one_entry_is_judged(
    record: &Vec<RecordEntry>,
    scheme: &Scheme,
    script_relative: Seq<char>,
    data_relative: Seq<char>,
    r: Result<Vec<Resource<(String, String)>>, Error>,
)
    requires
        call_ensures(record_resources, (record, scheme), r),
        record@.len() == 1,
        relative_to(scheme.scripts@, scheme.purelib@) == Some(script_relative),
        relative_to(scheme.data@, scheme.purelib@) == Some(data_relative),
    ensures
        r is Ok,
        starts_with(record@[0].path@, script_relative) ==> r->Ok_0@.len() == 1 && is_executable_of(
            r->Ok_0@[0],
            record@[0].path@,
            scheme.scripts@,
            script_relative,
        ),
        !starts_with(record@[0].path@, script_relative) && is_page(
            record@[0].path@,
            data_relative,
        ) ==> r->Ok_0@.len() == 1 && is_manpage_of(
            r->Ok_0@[0],
            record@[0].path@,
            scheme.data@,
            data_relative,
        ),
        !starts_with(record@[0].path@, script_relative) && !is_page(
            record@[0].path@,
            data_relative,
        ) ==> r->Ok_0@.len() == 0,
{
    let path = record@[0].path@;
    let paths = entry_paths(record@);
    let found = r->Ok_0@;
    let views = resource_views(found);
    assert(paths.len() == 1 && paths.last() == path);
    assert(paths.drop_last().len() == 0);
    let before = resources_of(paths.drop_last(), scheme@, script_relative, data_relative);
    assert(before.len() == 0);
    assert(views == resources_of(paths, scheme@, script_relative, data_relative));
    assert(views.len() == found.len());
    lemma_starts_with(path, script_relative);
    lemma_starts_with(path, data_relative);
    lemma_page(path, data_relative);
    lemma_base_name(path);
    if found.len() > 0 {
        assert(views[0] == resource_view(found[0]));
    }
    if starts_with(path, script_relative) {
        let tail = stripped(path, script_relative)->0;
        assert(views[0] == resource_of(path, scheme@, script_relative, data_relative)->0);
        assert(is_place(joined(scheme.scripts@, tail), scheme.scripts@, tail));
    } else if is_page(path, data_relative) {
        let tail = stripped(path, data_relative)->0;
        assert(views[0] == resource_of(path, scheme@, script_relative, data_relative)->0);
        lemma_has_slash(path);
        lemma_last_slash(path, path.len() as int);
        lemma_parent_name(path);
        assert(is_manual_name(path, parent_name(path) + seq!['/'] + base_name(path)));
        assert(is_place(joined(scheme.data@, tail), scheme.data@, tail));
    }
}

/// Whether two resources are of the same kind, with the same name and path.
pub open spec fn same_resource(
    a: Resource<(String, String)>,
    b: Resource<(String, String)>,
) -> bool {
    match (a, b) {
        (Resource::Executable(x), Resource::Executable(y)) => x.0@ == y.0@ && x.1@ == y.1@,
        (Resource::Manpage(x), Resource::Manpage(y)) => x.0@ == y.0@ && x.1@ == y.1@,
        _ => false,
    }
}

/// Whether two lists hold the same resources, in the same order.
pub open spec fn same_resources(
    a: Seq<Resource<(String, String)>>,
    b: Seq<Resource<(String, String)>>,
) -> bool {
    a.len() == b.len() && forall|i: int|
        0 <= i < a.len() ==> same_resource(#[trigger] a[i], b[i])
}

proof fn lemma_same_resources(
    a: Seq<Resource<(String, String)>>,
    b: Seq<Resource<(String, String)>>,
)
    ensures
        same_resources(a, b) <==> resource_views(a) == resource_views(b),
{
    let x = resource_views(a);
    let y = resource_views(b);
    if x == y {
        assert(x.len() == y.len());
        assert forall|i: int| 0 <= i < a.len() implies same_resource(#[trigger] a[i], b[i]) by {
            assert(x[i] == resource_view(a[i]));
            assert(y[i] == resource_view(b[i]));
        }
    }
    if same_resources(a, b) {
        assert forall|i: int| 0 <= i < x.len() implies x[i] == y[i] by {
            assert(same_resource(a[i], b[i]));
        }
        assert(x == y);
    }
}

/// The files of a record are judged one by one, and in order: where a record holds the files of
/// two others, one behind the other, its resources are theirs, in that order.
pub proof fn entries_are_judged_in_order(
    record: &Vec<RecordEntry>,
    first: &Vec<RecordEntry>,
    second: &Vec<RecordEntry>,
    scheme: &Scheme,
    r: Result<Vec<Resource<(String, String)>>, Error>,
    a: Result<Vec<Resource<(String, String)>>, Error>,
    b: Result<Vec<Resource<(String, String)>>, Error>,
)
    requires
        call_ensures(record_resources, (record, scheme), r),
        call_ensures(record_resources, (first, scheme), a),
        call_ensures(record_resources, (second, scheme), b),
        record@.len() == first@.len() + second@.len(),
        forall|i: int|
            0 <= i < first@.len() ==> (#[trigger] first@[i]).path@ == record@[i].path@,
        forall|i: int|
            0 <= i < second@.len() ==> (#[trigger] second@[i]).path@ == record@[first@.len()
                + i].path@,
    ensures
        match (r, a, b) {
            (Ok(all), Ok(front), Ok(back)) => same_resources(all@, front@ + back@),
            (Err(error), Err(same), Err(again)) => error@ == same@ && error@ == again@,
            _ => false,
        },
{
    let paths = entry_paths(record@);
    let x = entry_paths(first@);
    let y = entry_paths(second@);
    assert forall|i: int| 0 <= i < paths.len() implies paths[i] == (x + y)[i] by {
        if i < x.len() {
            assert(first@[i].path@ == record@[i].path@);
        } else {
            assert(second@[i - x.len()].path@ == record@[i].path@);
        }
    }
    assert(paths == x + y);
    if let (Some(scripts), Some(data)) = (
        relative_to(scheme.scripts@, scheme.purelib@),
        relative_to(scheme.data@, scheme.purelib@),
    ) {
        resources_keep_order(x, y, scheme@, scripts, data);
        let front = a->Ok_0@;
        let back = b->Ok_0@;
        assert(resource_views(front + back) == resource_views(front) + resource_views(back));
        lemma_same_resources(r->Ok_0@, front + back);
    }
}

/// Without files there are no resources.
pub proof fn no_entries_give_nothing(
    record: &Vec<RecordEntry>,
    scheme: &Scheme,
    r: Result<Vec<Resource<(String, String)>>, Error>,
)
    requires
        call_ensures(record_resources, (record, scheme), r),
        record@.len() == 0,
        r is Ok,
    ensures
        r->Ok_0@.len() == 0,
{
    assert(resource_views(r->Ok_0@).len() == r->Ok_0@.len());
}

/// The search fails exactly where no relative path leads to the scripts or to the data, and names
/// the directory, the scripts before the data.
pub proof fn unreachable_directories_are_told(
    record: &Vec<RecordEntry>,
    scheme: &Scheme,
    r: Result<Vec<Resource<(String, String)>>, Error>,
)
    requires
        call_ensures(record_resources, (record, scheme), r),
    ensures
        ({
            let scripts = relative_to(scheme.scripts@, scheme.purelib@);
            let data = relative_to(scheme.data@, scheme.purelib@);
            let lost = if scripts is None {
                scheme.scripts@
            } else {
                scheme.data@
            };
            if scripts is Some && data is Some {
                r is Ok
            } else {
                r is Err && (r->Err_0@ matches ErrorView::Io(error) && error.kind
                    == IoErrorKind::Other && error.message
                    == "Could not find relative path for: "@ + lost)
            }
        }),
{
}

/// The resources of a package are those of its record. A missing package is told before anything
/// else, and an unreadable or invalid record before anything that the record holds.
pub proof fn resources_are_those_of_the_record(
    site_packages: &SitePackages,
    name: &PackageName,
    version: &str,
    record: Result<Vec<RecordEntry>, RecordError>,
    r: Result<Vec<Resource<(String, String)>>, Error>,
    entries: &Vec<RecordEntry>,
    by_record: Result<Vec<Resource<(String, String)>>, Error>,
)
    requires
        call_ensures(find_resources, (site_packages, name, version, record), r),
        call_ensures(record_resources, (entries, &site_packages.scheme), by_record),
        record matches Ok(held) ==> held == *entries,
    ensures
        ({
            let held = exists|at: int| #[trigger]
                is_first_of_version(site_packages.packages@, name@, version@, at);
            if !held {
                r is Err && r->Err_0@ == ErrorView::MissingToolPackage(name@)
            } else {
                match record {
                    Err(RecordError::Unreadable(error)) => r is Err && r->Err_0@ == ErrorView::Io(
                        error@,
                    ),
                    Err(RecordError::Invalid(error)) => r is Err && r->Err_0@
                        == ErrorView::EntrypointRead(error@),
                    Ok(_) => match (r, by_record) {
                        (Ok(a), Ok(b)) => same_resources(a@, b@),
                        (Err(a), Err(b)) => a@ == b@,
                        _ => false,
                    },
                }
            }
        }),
{
    crate::package_laws::lemma_dist_info(*site_packages, name@, version@);
    if let (Ok(a), Ok(b)) = (r, by_record) {
        lemma_same_resources(a@, b@);
    }
}

/// The paths to the resources are the resources.
pub proof fn resource_paths_are_the_resources(
    site_packages: &SitePackages,
    name: &PackageName,
    version: &str,
    record: Result<Vec<RecordEntry>, RecordError>,
    found: Result<Vec<Resource<(String, String)>>, Error>,
    r: Result<Vec<Resource<(String, String)>>, Error>,
)
    requires
        call_ensures(find_resources, (site_packages, name, version, record), found),
        call_ensures(resource_paths, (site_packages, name, version, record), r),
    ensures
        match (r, found) {
            (Ok(a), Ok(b)) => same_resources(a@, b@),
            (Err(a), Err(b)) => a@ == b@,
            _ => false,
        },
{
    if let (Ok(a), Ok(b)) = (r, found) {
        lemma_same_resources(a@, b@);
    }
}

/// Whether a list holds exactly the executables among some resources, each once and in order, by
/// the places where they stand.
pub open spec fn are_executables(
    list: Seq<(String, String)>,
    resources: Seq<Resource<(String, String)>>,
    places: Seq<int>,
) -> bool {
    &&& climbing(places)
    &&& places.len() == list.len()
    &&& forall|i: int|
        0 <= i < places.len() ==> 0 <= (#[trigger] places[i]) < resources.len() && (
        resources[places[i]] matches Resource::Executable(entry) && entry.0@ == list[i].0@
            && entry.1@ == list[i].1@)
    &&& forall|k: int|
        0 <= k < resources.len() && (#[trigger] resources[k]) is Executable ==> places.contains(k)
}

spec fn executable_places(list: Seq<Resource<(Seq<char>, Seq<char>)>>) -> Seq<int>
    decreases list.len(),
{
    if list.len() == 0 {
        Seq::empty()
    } else {
        let front = executable_places(list.drop_last());
        if list.last() is Executable {
            front.push(list.len() - 1)
        } else {
            front
        }
    }
}

proof fn lemma_executable_places(list: Seq<Resource<(Seq<char>, Seq<char>)>>)
    ensures
        ({
            let places = executable_places(list);
            let found = executables(list);
            &&& climbing(places)
            &&& places.len() == found.len()
            &&& forall|i: int|
                0 <= i < places.len() ==> 0 <= (#[trigger] places[i]) < list.len()
                    && list[places[i]] == Resource::Executable(found[i])
            &&& forall|k: int|
                0 <= k < list.len() && (#[trigger] list[k]) is Executable ==> places.contains(k)
        }),
    decreases list.len(),
{
    if list.len() > 0 {
        let front = list.drop_last();
        lemma_executable_places(front);
        let before = executable_places(front);
        let places = executable_places(list);
        let known = executables(front);
        let found = executables(list);
        assert forall|i: int| 0 <= i < places.len() implies 0 <= (#[trigger] places[i])
            < list.len() && list[places[i]] == Resource::Executable(found[i]) by {
            if i < before.len() {
                assert(places[i] == before[i]);
                assert(found[i] == known[i]);
                assert(front[before[i]] == list[before[i]]);
            }
        }
        assert forall|i: int, j: int| 0 <= i < j < places.len() implies #[trigger] places[i]
            < #[trigger] places[j] by {
            assert(places[i] == before[i]);
            if j < before.len() {
                assert(places[j] == before[j]);
            }
        }
        assert forall|k: int|
            0 <= k < list.len() && (#[trigger] list[k]) is Executable implies places.contains(k) by {
            if k < front.len() {
                assert(front[k] == list[k]);
                let i = choose|i: int| 0 <= i < before.len() && before[i] == k;
                assert(places[i] == k);
            } else {
                assert(places[places.len() - 1] == k);
            }
        }
    }
}

proof fn lemma_are_executables(
    list: Seq<(String, String)>,
    resources: Seq<Resource<(String, String)>>,
)
    requires
        crate::resources::entry_views(list) == executables(resource_views(resources)),
    ensures
        are_executables(list, resources, executable_places(resource_views(resources))),
{
    let views = resource_views(resources);
    let texts = crate::resources::entry_views(list);
    let places = executable_places(views);
    lemma_executable_places(views);
    assert(texts.len() == list.len());
    assert forall|i: int| 0 <= i < places.len() implies 0 <= (#[trigger] places[i])
        < resources.len() && (resources[places[i]] matches Resource::Executable(entry)
        && entry.0@ == list[i].0@ && entry.1@ == list[i].1@) by {
        assert(views[places[i]] == resource_view(resources[places[i]]));
        assert(texts[i] == (list[i].0@, list[i].1@));
    }
    assert forall|k: int|
        0 <= k < resources.len() && (#[trigger] resources[k]) is Executable implies places.contains(
        k,
    ) by {
        assert(views[k] == resource_view(resources[k]));
        assert(views[k] is Executable);
    }
}

/// What is kept of a list of resources is every executable, each once and in order, and nothing
/// else.
pub proof fn every_executable_is_kept(
    resources: &Vec<Resource<(String, String)>>,
    r: Vec<(String, String)>,
)
    requires
        call_ensures(only_executables, (resources,), r),
    ensures
        exists|places: Seq<int>| #[trigger] are_executables(r@, resources@, places),
{
    lemma_are_executables(r@, resources@);
}

/// Whether a list holds an entry of the given name and path.
pub open spec fn has_entry(list: Seq<(String, String)>, name: Seq<char>, path: Seq<char>) -> bool {
    exists|i: int| 0 <= i < list.len() && (#[trigger] list[i]).0@ == name && list[i].1@ == path
}

/// Whether an executable of the given name and path is among some resources.
pub open spec fn has_executable(
    resources: Seq<Resource<(String, String)>>,
    name: Seq<char>,
    path: Seq<char>,
) -> bool {
    exists|k: int|
        0 <= k < resources.len() && (#[trigger] resources[k] matches Resource::Executable(entry)
            && entry.0@ == name && entry.1@ == path)
}

/// An entry is kept exactly where there is such an executable, and as many are kept as there are
/// resources where all of those are executables.
pub proof fn entries_are_executables(
    resources: &Vec<Resource<(String, String)>>,
    r: Vec<(String, String)>,
    name: Seq<char>,
    path: Seq<char>,
)
    requires
        call_ensures(only_executables, (resources,), r),
    ensures
        has_entry(r@, name, path) <==> has_executable(resources@, name, path),
        (forall|k: int| 0 <= k < resources@.len() ==> (#[trigger] resources@[k]) is Executable)
            ==> r@.len() == resources@.len(),
{
    let places = executable_places(resource_views(resources@));
    lemma_are_executables(r@, resources@);
    if has_entry(r@, name, path) {
        let i = choose|i: int|
            0 <= i < r@.len() && (#[trigger] r@[i]).0@ == name && r@[i].1@ == path;
        let k = places[i];
        assert(resources@[k] is Executable);
    }
    if has_executable(resources@, name, path) {
        let k = choose|k: int|
            0 <= k < resources@.len() && (#[trigger] resources@[k] matches Resource::Executable(
                entry,
            ) && entry.0@ == name && entry.1@ == path);
        assert(places.contains(k));
        let i = choose|i: int| 0 <= i < places.len() && places[i] == k;
        assert(r@[i].0@ == name && r@[i].1@ == path);
    }
    if forall|k: int| 0 <= k < resources@.len() ==> (#[trigger] resources@[k]) is Executable {
        assert forall|k: int| 0 <= k < resources@.len() implies places.contains(k) by {
            assert(resources@[k] is Executable);
        }
        lemma_full(places, resources@.len() as int);
    }
}

/// A climbing list of places below `n` that holds all of them has `n` entries.
proof fn lemma_full(places: Seq<int>, n: int)
    requires
        climbing(places),
        n >= 0,
        forall|i: int| 0 <= i < places.len() ==> 0 <= #[trigger] places[i] < n,
        forall|k: int| 0 <= k < n ==> #[trigger] places.contains(k),
    ensures
        places.len() == n,
    decreases n,
{
    if n == 0 {
        if places.len() > 0 {
            assert(places[0] < n);
        }
    } else {
        assert(places.contains(n - 1));
        let at = choose|i: int| 0 <= i < places.len() && places[i] == n - 1;
        if at < places.len() - 1 {
            assert(places[at] < places[places.len() - 1]);
        }
        let front = places.drop_last();
        assert forall|i: int| 0 <= i < front.len() implies 0 <= #[trigger] front[i] < n - 1 by {
            assert(front[i] == places[i]);
            assert(places[i] < places[places.len() - 1]);
        }
        assert forall|k: int| 0 <= k < n - 1 implies #[trigger] front.contains(k) by {
            assert(places.contains(k));
            let i = choose|i: int| 0 <= i < places.len() && places[i] == k;
            assert(front[i] == k);
        }
        lemma_full(front, n - 1);
    }
}

/// The entry points of a package are exactly the executables among its resources, each once and in
/// order. Where the resources cannot be found, the entry points cannot either, for the same reason.
pub proof fn entry_points_are_the_executables(
    site_packages: &SitePackages,
    name: &PackageName,
    version: &str,
    record: Result<Vec<RecordEntry>, RecordError>,
    found: Result<Vec<Resource<(String, String)>>, Error>,
    r: Result<Vec<(String, String)>, Error>,
)
    requires
        call_ensures(find_resources, (site_packages, name, version, record), found),
        call_ensures(entrypoint_paths, (site_packages, name, version, record), r),
    ensures
        match (r, found) {
            (Ok(list), Ok(resources)) => exists|places: Seq<int>| #[trigger]
                are_executables(list@, resources@, places),
            (Err(a), Err(b)) => a@ == b@,
            _ => false,
        },
{
    if let (Ok(list), Ok(resources)) = (r, found) {
        lemma_are_executables(list@, resources@);
    }
}

} // verus!
