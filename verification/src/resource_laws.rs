//! What the resources of a package have to do with the files that it recorded.

use vstd::prelude::*;

use crate::path::{absolute, components, joined, normalized, resolved, slash_joined, stripped};
use crate::path_laws::{
    all_names, all_plain, components_of_join, components_of_join_dotted, components_of_piece,
    components_of_slash_joined, dotted, is_plain, join_then_strip, lemma_component_kinds,
    lemma_no_components, lemma_resolved_fixed, lemma_rooted_plain, strip_then_join,
};
use crate::relative::{relative_to, shared, ups};
use crate::resources::{
    base_name, is_section, last_slash, parent_name, resource_of, resources_of, Resource,
};
use crate::site_packages::SchemeView;

verus! {

proof fn lemma_shared(a: Seq<Seq<char>>, b: Seq<Seq<char>>)
    ensures
        shared(a, b) <= a.len(),
        shared(a, b) <= b.len(),
        a.take(shared(a, b) as int) == b.take(shared(a, b) as int),
    decreases a.len(),
{
    if a.len() > 0 && b.len() > 0 && a[0] == b[0] {
        lemma_shared(a.skip(1), b.skip(1));
        let k = shared(a, b) as int;
        assert forall|i: int| 0 <= i < k implies a.take(k)[i] == b.take(k)[i] by {
            if i > 0 {
                assert(a.skip(1).take(k - 1)[i - 1] == b.skip(1).take(k - 1)[i - 1]);
                assert(a[i] == a.skip(1)[i - 1]);
                assert(b[i] == b.skip(1)[i - 1]);
            }
        }
        assert(a.take(k) == b.take(k));
    } else {
        assert(a.take(0) == b.take(0));
    }
}

/// Two lists that resolve alike still do with the same components behind them.
pub proof fn lemma_resolved_append(a: Seq<Seq<char>>, b: Seq<Seq<char>>, more: Seq<Seq<char>>)
    requires
        resolved(a) == resolved(b),
    ensures
        resolved(a + more) == resolved(b + more),
    decreases more.len(),
{
    if more.len() == 0 {
        assert(a + more == a);
        assert(b + more == b);
    } else {
        lemma_resolved_append(a, b, more.drop_last());
        assert((a + more).drop_last() == a + more.drop_last());
        assert((b + more).drop_last() == b + more.drop_last());
        assert((a + more).last() == more.last());
        assert((b + more).last() == more.last());
    }
}

/// As many steps up as there are names at the end take those names away.
proof fn lemma_resolved_ups(names: Seq<Seq<char>>, m: nat)
    requires
        all_names(names),
        m <= names.len(),
    ensures
        resolved(names + ups(m)) == Some(names.take(names.len() - m)),
    decreases m,
{
    if m == 0 {
        lemma_resolved_fixed(names);
        assert(names + ups(0) == names);
        assert(names.take(names.len() as int) == names);
    } else {
        let n = (m - 1) as nat;
        lemma_resolved_ups(names, n);
        let all = names + ups(m);
        assert(all.drop_last() == names + ups(n));
        assert(all.last() == seq!['.', '.']);
        assert(names.take(names.len() - n).drop_last() == names.take(names.len() - m));
    }
}

/// Whether a path is absolute and holds neither `.` nor `..`.
pub open spec fn is_clean(path: Seq<char>) -> bool {
    absolute(path) && all_names(components(path).skip(1))
}

proof fn lemma_way(directory: Seq<char>, base: Seq<char>)
    requires
        is_clean(directory),
        is_clean(base),
    ensures
        ({
            let d = components(directory);
            let b = components(base);
            let k = shared(d, b) as int;
            let way = ups((b.len() - k) as nat) + d.skip(k);
            &&& 1 <= k <= d.len()
            &&& k <= b.len()
            &&& d.take(k) == b.take(k)
            &&& all_plain(way)
            &&& relative_to(directory, base) == Some(slash_joined(way))
        }),
{
    let d = components(directory);
    let b = components(base);
    let k = shared(d, b) as int;
    lemma_rooted_plain(directory);
    lemma_rooted_plain(base);
    lemma_shared(d, b);
    assert(k >= 1);
    let way = ups((b.len() - k) as nat) + d.skip(k);
    assert forall|i: int| 0 <= i < way.len() implies is_plain(#[trigger] way[i]) by {
        let m = b.len() - k;
        if i < m {
            let up: Seq<char> = seq!['.', '.'];
            let dot: Seq<char> = seq!['.'];
            assert(way[i] == up);
            assert(up.len() != dot.len());
            assert(!up.contains('/'));
        } else {
            assert(way[i] == d.skip(1)[i - m + k - 1]);
        }
    }
    if d.len() > k && b.len() > k {
        assert(b.skip(k)[0] == b.skip(1)[k - 1]);
        assert(crate::path::is_normal(b.skip(1)[k - 1]));
    } else if d.len() == k {
        assert(way == ups((b.len() - k) as nat));
    } else {
        assert(way == d.skip(k));
    }
}

proof fn lemma_shared_is(a: Seq<Seq<char>>, b: Seq<Seq<char>>, k: int)
    requires
        0 <= k <= a.len(),
        k <= b.len(),
        forall|i: int| 0 <= i < k ==> #[trigger] a[i] == b[i],
        k == a.len() || k == b.len() || a[k] != b[k],
    ensures
        shared(a, b) == k,
    decreases k,
{
    if k > 0 {
        assert(a[0] == b[0]);
        let x = a.skip(1);
        let y = b.skip(1);
        assert forall|i: int| 0 <= i < k - 1 implies #[trigger] x[i] == y[i] by {
            assert(a[i + 1] == b[i + 1]);
        }
        lemma_shared_is(x, y, k - 1);
    }
}

/// From one directory to another that are both written without `.` and `..`, the way leads up once
/// for each name of the first behind the part that both share, and then down along the names of the
/// second behind that part.
pub proof fn way_leads_up_and_down(directory: Seq<char>, base: Seq<char>, k: int)
    requires
        is_clean(directory),
        is_clean(base),
        0 <= k <= components(directory).len(),
        k <= components(base).len(),
        forall|i: int|
            0 <= i < k ==> #[trigger] components(directory)[i] == components(base)[i],
        k == components(directory).len() || k == components(base).len() || components(directory)[k]
            != components(base)[k],
    ensures
        relative_to(directory, base) is Some,
        ({
            let way = components(relative_to(directory, base)->0);
            let n = components(base).len() - k;
            &&& way.len() == n + components(directory).len() - k
            &&& forall|i: int| 0 <= i < n ==> #[trigger] way[i] == seq!['.', '.']
            &&& forall|i: int|
                n <= i < way.len() ==> #[trigger] way[i] == components(directory)[i - n + k]
        }),
{
    let d = components(directory);
    let b = components(base);
    lemma_shared_is(d, b, k);
    lemma_way(directory, base);
    let way = ups((b.len() - k) as nat) + d.skip(k);
    components_of_slash_joined(way);
}

/// Two directories with the same components lead to the same places.
proof fn lemma_same_directory(directory: Seq<char>, base: Seq<char>, path: Seq<char>, tail: Seq<char>)
    requires
        absolute(directory),
        absolute(base),
        components(directory) == components(base),
        components(path) == components(tail),
    ensures
        normalized(joined(base, path)) == normalized(joined(directory, tail)),
{
    lemma_absolute_by_components(path, tail);
    if absolute(path) {
        assert(joined(base, path) == path);
        assert(joined(directory, tail) == tail);
    } else {
        if dotted(path) {
            components_of_join_dotted(base, path);
            components_of_join_dotted(directory, tail);
        } else {
            components_of_join(base, path);
            components_of_join(directory, tail);
        }
        assert(joined(base, path)[0] == base[0]);
        assert(joined(directory, tail)[0] == directory[0]);
    }
}

/// A plain piece is not the root.
proof fn lemma_plain_is_not_root(piece: Seq<char>)
    requires
        is_plain(piece),
    ensures
        piece != seq!['/'],
{
    let slash: Seq<char> = seq!['/'];
    assert(slash[0] == '/');
    assert(slash.contains('/'));
}

/// Going up out of what two lists do not share, and down along the second, comes to the second.
proof fn lemma_up_and_down(b: Seq<Seq<char>>, d: Seq<Seq<char>>, k: int, rest: Seq<Seq<char>>)
    requires
        0 <= k <= b.len(),
        k <= d.len(),
        b.take(k) == d.take(k),
        all_names(b),
    ensures
        resolved(b + (ups((b.len() - k) as nat) + d.skip(k)) + rest) == resolved(d + rest),
{
    let m = (b.len() - k) as nat;
    let kept = b.take(k);
    let below = d.skip(k) + rest;
    lemma_resolved_ups(b, m);
    assert(all_names(kept)) by {
        assert forall|i: int| 0 <= i < kept.len() implies is_plain(#[trigger] kept[i])
            && crate::path::is_normal(kept[i]) by {
            assert(kept[i] == b[i]);
        }
    }
    lemma_resolved_fixed(kept);
    lemma_resolved_append(b + ups(m), kept, below);
    assert(b + (ups(m) + d.skip(k)) + rest == b + ups(m) + below);
    assert(d == d.take(k) + d.skip(k));
    assert(d + rest == kept + below);
}

/// The same, for paths with the root in front.
proof fn lemma_way_resolves(directory: Seq<char>, base: Seq<char>, rest: Seq<Seq<char>>)
    requires
        is_clean(directory),
        is_clean(base),
    ensures
        ({
            let d = components(directory);
            let b = components(base);
            let k = shared(d, b) as int;
            let way = ups((b.len() - k) as nat) + d.skip(k);
            resolved((b + (way + rest)).skip(1)) == resolved((d + rest).skip(1))
        }),
{
    let d = components(directory);
    let b = components(base);
    let k = shared(d, b) as int;
    lemma_way(directory, base);
    let bn = b.skip(1);
    let dn = d.skip(1);
    assert(bn.take(k - 1) == dn.take(k - 1)) by {
        let x = bn.take(k - 1);
        let y = dn.take(k - 1);
        assert forall|i: int| 0 <= i < x.len() implies x[i] == y[i] by {
            assert(d.take(k)[i + 1] == b.take(k)[i + 1]);
        }
    }
    lemma_up_and_down(bn, dn, k - 1, rest);
    let way = ups((b.len() - k) as nat) + d.skip(k);
    assert(dn.skip(k - 1) == d.skip(k));
    assert((b + (way + rest)).skip(1) == bn + way + rest);
    assert((d + rest).skip(1) == dn + rest);
}

/// A path below a directory, reached by the relative path that leads there from `base`, is the
/// file that the path names when it is read relative to `base`.
pub proof fn way_leads_there(directory: Seq<char>, base: Seq<char>, path: Seq<char>)
    requires
        is_clean(directory),
        is_clean(base),
        relative_to(directory, base) is Some ==> stripped(path, relative_to(directory, base)->0) is Some,
    ensures
        relative_to(directory, base) is Some,
        normalized(joined(base, path)) == normalized(
            joined(directory, stripped(path, relative_to(directory, base)->0)->0),
        ),
{
    let d = components(directory);
    let b = components(base);
    let k = shared(d, b) as int;
    lemma_way(directory, base);
    let way = ups((b.len() - k) as nat) + d.skip(k);
    let relative = slash_joined(way);
    components_of_slash_joined(way);
    let tail = stripped(path, relative)->0;
    strip_then_join(path, relative);
    let rest = components(path).skip(way.len() as int);
    assert(components(tail) == rest);
    assert(components(path) == way + rest);
    if way.len() == 0 {
        assert(d == b) by {
            assert(d.take(k) == d);
            assert(b.take(k) == b);
        }
        assert(rest == components(path));
        lemma_same_directory(directory, base, path, tail);
    } else {
        assert(!absolute(path) && !dotted(path)) by {
            assert(components(path)[0] == way[0]);
            assert(is_plain(way[0]));
            lemma_plain_is_not_root(way[0]);
            lemma_no_components(path);
        }
        assert(!absolute(tail) && !dotted(tail)) by {
            lemma_no_components(tail);
            if rest.len() > 0 {
                assert(rest[0] == components(path)[way.len() as int]);
                lemma_component_kinds(path);
                lemma_plain_is_not_root(rest[0]);
            }
        }
        components_of_join(base, path);
        components_of_join(directory, tail);
        lemma_way_resolves(directory, base, rest);
        assert(joined(base, path)[0] == base[0]);
        assert(joined(directory, tail)[0] == directory[0]);
    }
}

/// Paths with the same components are both absolute or both relative.
proof fn lemma_absolute_by_components(a: Seq<char>, b: Seq<char>)
    requires
        components(a) == components(b),
    ensures
        absolute(a) == absolute(b),
{
    lemma_no_components(a);
    lemma_no_components(b);
    lemma_component_kinds(a);
    lemma_component_kinds(b);
    let slash: Seq<char> = seq!['/'];
    assert(slash[0] == '/');
    assert(slash.contains('/'));
}

/// A resource is the file that its entry names: both paths, normalized, are the same, where the
/// directories of the environment are absolute and hold neither `.` nor `..`.
pub proof fn resource_is_recorded_file(
    path: Seq<char>,
    scheme: SchemeView,
    script_relative: Seq<char>,
    data_relative: Seq<char>,
)
    requires
        is_clean(scheme.purelib),
        is_clean(scheme.scripts),
        is_clean(scheme.data),
        relative_to(scheme.scripts, scheme.purelib) == Some(script_relative),
        relative_to(scheme.data, scheme.purelib) == Some(data_relative),
        resource_of(path, scheme, script_relative, data_relative) is Some,
    ensures
        match resource_of(path, scheme, script_relative, data_relative)->0 {
            Resource::Executable(entry) => normalized(entry.1) == normalized(
                joined(scheme.purelib, path),
            ),
            Resource::Manpage(entry) => normalized(entry.1) == normalized(
                joined(scheme.purelib, path),
            ),
        },
{
    if stripped(path, script_relative) is Some {
        way_leads_there(scheme.scripts, scheme.purelib, path);
    } else {
        way_leads_there(scheme.data, scheme.purelib, path);
    }
}

/// Where the directories of an environment are absolute and hold neither `.` nor `..`, the search
/// for resources does not fail for want of a relative path.
pub proof fn clean_schemes_are_searched(record: Seq<Seq<char>>, scheme: SchemeView)
    requires
        is_clean(scheme.purelib),
        is_clean(scheme.scripts),
        is_clean(scheme.data),
    ensures
        crate::resources::resources_result(record, scheme) is Ok,
{
    lemma_way(scheme.scripts, scheme.purelib);
    lemma_way(scheme.data, scheme.purelib);
}

/// Each entry is judged by itself, and the order of the entries is kept: the resources of two
/// lists, one behind the other, are those of the first and then those of the second.
pub proof fn resources_keep_order(
    first: Seq<Seq<char>>,
    second: Seq<Seq<char>>,
    scheme: SchemeView,
    script_relative: Seq<char>,
    data_relative: Seq<char>,
)
    ensures
        resources_of(first + second, scheme, script_relative, data_relative) == resources_of(
            first,
            scheme,
            script_relative,
            data_relative,
        ) + resources_of(second, scheme, script_relative, data_relative),
    decreases second.len(),
{
    if second.len() == 0 {
        assert(first + second == first);
    } else {
        resources_keep_order(first, second.drop_last(), scheme, script_relative, data_relative);
        assert((first + second).drop_last() == first + second.drop_last());
        assert((first + second).last() == second.last());
    }
}

/// The last `/` before a piece without one is right in front of it.
proof fn lemma_last_slash_before(text: Seq<char>, start: int, end: int)
    requires
        0 <= start <= end <= text.len(),
        forall|k: int| start <= k < end ==> text[k] != '/',
        start == 0 || text[start - 1] == '/',
    ensures
        last_slash(text, end) == start - 1,
    decreases end - start,
{
    if start < end {
        lemma_last_slash_before(text, start, end - 1);
    }
}

proof fn lemma_no_slash_in(piece: Seq<char>)
    requires
        is_plain(piece),
    ensures
        forall|k: int| 0 <= k < piece.len() ==> piece[k] != '/',
{
    assert forall|k: int| 0 <= k < piece.len() implies piece[k] != '/' by {
        assert(piece.contains(piece[k]));
    }
}

/// What is joined onto a base stands at its end, at the start or behind a `/`.
proof fn lemma_joined_end(base: Seq<char>, tail: Seq<char>)
    requires
        !absolute(tail),
    ensures
        ({
            let text = joined(base, tail);
            let n = text.len() - tail.len();
            &&& 0 <= n
            &&& n == 0 || text[n - 1] == '/'
            &&& forall|k: int| 0 <= k < tail.len() ==> text[n + k] == #[trigger] tail[k]
        }),
{
}

/// A script that is recorded by its path from the Python packages is found, under its name and in
/// the directory of the scripts.
pub proof fn script_is_found(
    name: Seq<char>,
    scheme: SchemeView,
    script_relative: Seq<char>,
    data_relative: Seq<char>,
)
    requires
        is_plain(name),
    ensures
        resource_of(joined(script_relative, name), scheme, script_relative, data_relative) == Some(
            Resource::Executable((name, joined(scheme.scripts, name))),
        ),
{
    let path = joined(script_relative, name);
    components_of_piece(name);
    join_then_strip(script_relative, name);
    lemma_joined_end(script_relative, name);
    lemma_no_slash_in(name);
    let n = path.len() - name.len();
    assert forall|k: int| n <= k < path.len() implies path[k] != '/' by {
        assert(path[n + (k - n)] == name[k - n]);
    }
    lemma_last_slash_before(path, n, path.len() as int);
    assert(base_name(path) == name) by {
        assert forall|k: int| 0 <= k < name.len() implies path.subrange(n, path.len() as int)[k]
            == name[k] by {}
        assert(path.subrange(n, path.len() as int) == name);
    }
}

/// The path of a page in a section below `share/man`.
pub open spec fn page_path(section: Seq<char>, page: Seq<char>) -> Seq<char> {
    slash_joined(seq!["share"@, "man"@, section, page])
}

/// The last two pieces of a path are its parent name and base name.
proof fn lemma_names_at_end(prefix: Seq<char>, section: Seq<char>, page: Seq<char>)
    requires
        prefix.len() > 0,
        prefix.last() == '/',
        is_plain(section),
        is_plain(page),
    ensures
        base_name(prefix + section + seq!['/'] + page) == page,
        parent_name(prefix + section + seq!['/'] + page) == section,
{
    let path = prefix + section + seq!['/'] + page;
    let start = prefix.len() as int;
    let end = start + section.len();
    let len = path.len() as int;
    lemma_no_slash_in(section);
    lemma_no_slash_in(page);
    assert forall|k: int| end + 1 <= k < len implies path[k] != '/' by {
        assert(path[k] == page[k - end - 1]);
    }
    assert forall|k: int| start <= k < end implies path[k] != '/' by {
        assert(path[k] == section[k - start]);
    }
    assert(path[end] == '/');
    assert(path[start - 1] == prefix[start - 1]);
    lemma_last_slash_before(path, end + 1, len);
    lemma_last_slash_before(path, start, end);
    assert(path.subrange(end + 1, len) == page);
    assert(path.subrange(start, end) == section);
}

proof fn lemma_page_path(section: Seq<char>, page: Seq<char>)
    requires
        is_plain(section),
        is_plain(page),
    ensures
        all_plain(seq!["share"@, "man"@, section, page]),
        page_path(section, page) == slash_joined(seq!["share"@, "man"@]) + seq!['/'] + section
            + seq!['/'] + page,
{
    let names = seq!["share"@, "man"@, section, page];
    lemma_share_and_man();
    assert(names.drop_last() == seq!["share"@, "man"@, section]);
    assert(names.drop_last().drop_last() == seq!["share"@, "man"@]);
    assert(slash_joined(names) == slash_joined(names.drop_last()) + seq!['/'] + page);
    assert(slash_joined(names.drop_last()) == slash_joined(seq!["share"@, "man"@]) + seq!['/']
        + section);
}

/// A man page that is recorded by its path from the Python packages, and not as a script, is
/// found, under its section and name and in the directory of the data.
pub proof fn manpage_is_found(
    section: Seq<char>,
    page: Seq<char>,
    scheme: SchemeView,
    script_relative: Seq<char>,
    data_relative: Seq<char>,
)
    requires
        is_section(section),
        is_plain(page),
        stripped(joined(data_relative, page_path(section, page)), script_relative) is None,
    ensures
        resource_of(
            joined(data_relative, page_path(section, page)),
            scheme,
            script_relative,
            data_relative,
        ) == Some(
            Resource::Manpage(
                (
                    section + seq!['/'] + page,
                    joined(scheme.data, page_path(section, page)),
                ),
            ),
        ),
{
    let names = seq!["share"@, "man"@, section, page];
    let tail = page_path(section, page);
    let path = joined(data_relative, tail);
    lemma_section_is_plain(section);
    lemma_page_path(section, page);
    components_of_slash_joined(names);
    assert(components(tail)[2] == section);
    join_then_strip(data_relative, tail);
    let head = path.take(path.len() - tail.len());
    let prefix = head + slash_joined(seq!["share"@, "man"@]) + seq!['/'];
    assert(path == prefix + section + seq!['/'] + page) by {
        assert(path == head + tail) by {
            lemma_joined_end(data_relative, tail);
        }
        assert(head + tail == prefix + section + seq!['/'] + page);
    }
    lemma_names_at_end(prefix, section, page);
}

proof fn lemma_section_is_plain(section: Seq<char>)
    requires
        is_section(section),
    ensures
        is_plain(section),
{
    let dot: Seq<char> = seq!['.'];
    assert(section.len() != dot.len());
    assert(!section.contains('/'));
}

proof fn lemma_share_and_man()
    ensures
        is_plain("share"@),
        is_plain("man"@),
{
    reveal_strlit("share");
    reveal_strlit("man");
    let dot: Seq<char> = seq!['.'];
    assert("share"@.len() != dot.len());
    assert("man"@.len() != dot.len());
    assert(!"share"@.contains('/'));
    assert(!"man"@.contains('/'));
}

} // verus!
