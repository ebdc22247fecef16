//! What the searches for packages answer, in terms of the packages.

use vstd::prelude::*;

use crate::error::{Error, ErrorView};
use crate::installed::{EnvironmentLookup, InstalledTools};
use crate::name::{is_package_name, PackageName};
use crate::site_packages::{
    dist_info, find_dist_info, find_flagged, first_flagged, places_of, record_path, same_version,
    version_flags, InstalledDist, SitePackages,
};

verus! {

/// Whether each number is less than all that follow it.
pub open spec fn climbing(places: Seq<int>) -> bool {
    forall|i: int, j: int| 0 <= i < j < places.len() ==> #[trigger] places[i] < #[trigger] places[j]
}

/// Whether a list holds exactly the places of the packages with a name, each once and in order.
pub open spec fn are_places(places: Seq<int>, packages: Seq<InstalledDist>, name: Seq<char>) -> bool {
    &&& climbing(places)
    &&& forall|i: int|
        0 <= i < places.len() ==> 0 <= (#[trigger] places[i]) < packages.len()
            && packages[places[i]].name@ == name
    &&& forall|k: int|
        0 <= k < packages.len() && (#[trigger] packages[k]).name@ == name ==> places.contains(k)
}

proof fn lemma_places(packages: Seq<InstalledDist>, name: Seq<char>)
    ensures
        are_places(places_of(packages, name), packages, name),
    decreases packages.len(),
{
    if packages.len() > 0 {
        let front = packages.drop_last();
        let before = places_of(front, name);
        let places = places_of(packages, name);
        lemma_places(front, name);
        assert forall|i: int| 0 <= i < places.len() implies 0 <= (#[trigger] places[i])
            < packages.len() && packages[places[i]].name@ == name by {
            if i < before.len() {
                assert(places[i] == before[i]);
                assert(front[before[i]] == packages[before[i]]);
            }
        }
        assert forall|i: int, j: int| 0 <= i < j < places.len() implies #[trigger] places[i]
            < #[trigger] places[j] by {
            assert(places[i] == before[i]);
            if j < before.len() {
                assert(places[j] == before[j]);
            }
        }
        assert forall|k: int|
            0 <= k < packages.len() && (#[trigger] packages[k]).name@ == name implies places.contains(
            k,
        ) by {
            if k < front.len() {
                assert(front[k] == packages[k]);
                let i = choose|i: int| 0 <= i < before.len() && before[i] == k;
                assert(places[i] == k);
            } else {
                assert(places[places.len() - 1] == k);
            }
        }
    }
}

/// The packages that are found by a name are exactly those that have it, each once and in order.
pub proof fn packages_with_the_name_are_found(
    site_packages: &SitePackages,
    name: &PackageName,
    r: Vec<&InstalledDist>,
)
    requires
        call_ensures(SitePackages::get_packages, (site_packages, name), r),
    ensures
        exists|places: Seq<int>|
            {
                &&& #[trigger] are_places(places, site_packages.packages@, name@)
                &&& places.len() == r@.len()
                &&& forall|i: int|
                    0 <= i < r@.len() ==> *(#[trigger] r@[i]) == site_packages.packages@[places[i]]
            },
{
    lemma_places(site_packages.packages@, name@);
}

/// Whether the package at a place is the first with a name.
pub open spec fn is_first_named(packages: Seq<InstalledDist>, name: Seq<char>, at: int) -> bool {
    &&& 0 <= at < packages.len()
    &&& packages[at].name@ == name
    &&& forall|k: int| 0 <= k < at ==> (#[trigger] packages[k]).name@ != name
}

/// The version of a tool is told exactly where its environment holds a package with the tool's name,
/// and is that of the first such package. Otherwise the package is said to be missing.
pub proof fn version_is_that_of_the_package(
    tools: &InstalledTools,
    name: &PackageName,
    found: SitePackages,
    lookup: &EnvironmentLookup<Result<SitePackages, String>>,
    r: Result<String, Error>,
)
    requires
        call_ensures(InstalledTools::version, (tools, name, lookup), r),
        *lookup == EnvironmentLookup::Found(Ok::<SitePackages, String>(found)),
    ensures
        r is Ok <==> exists|at: int| #[trigger] is_first_named(found.packages@, name@, at),
        forall|at: int| #[trigger]
            is_first_named(found.packages@, name@, at) ==> r is Ok && r->Ok_0@
                == found.packages@[at].version@,
        r is Err ==> r->Err_0@ == ErrorView::MissingToolPackage(name@) && forall|k: int|
            0 <= k < found.packages@.len() ==> (#[trigger] found.packages@[k]).name@ != name@,
{
    let packages = found.packages@;
    let places = places_of(packages, name@);
    lemma_places(packages, name@);
    if places.len() > 0 {
        let at = places[0];
        assert forall|k: int| 0 <= k < at implies (#[trigger] packages[k]).name@ != name@ by {
            if packages[k].name@ == name@ {
                let i = choose|i: int| 0 <= i < places.len() && places[i] == k;
                if i > 0 {
                    assert(places[0] < places[i]);
                }
            }
        }
        assert(is_first_named(packages, name@, at));
        assert forall|other: int| #[trigger]
            is_first_named(packages, name@, other) implies other == at by {
            if other < at {
                assert(packages[other].name@ != name@);
            }
            if at < other {
                assert(packages[at].name@ != name@);
            }
        }
    } else {
        assert forall|k: int| 0 <= k < packages.len() implies (#[trigger] packages[k]).name@
            != name@ by {
            if packages[k].name@ == name@ {
                assert(places.contains(k));
            }
        }
        assert forall|at: int| !#[trigger] is_first_named(packages, name@, at) by {
            if is_first_named(packages, name@, at) {
                assert(packages[at].name@ != name@);
            }
        }
    }
}

/// An environment that is not usable, or whose packages cannot be read, tells no version: its own
/// error is handed on.
pub proof fn version_needs_an_environment(
    tools: &InstalledTools,
    name: &PackageName,
    lookup: &EnvironmentLookup<Result<SitePackages, String>>,
    r: Result<String, Error>,
)
    requires
        is_package_name(name@),
        call_ensures(InstalledTools::version, (tools, name, lookup), r),
    ensures
        match *lookup {
            EnvironmentLookup::Missing(error) => r is Err && r->Err_0@
                == ErrorView::EnvironmentError(error@),
            EnvironmentLookup::InterpreterNotFound(error) => r is Err && r->Err_0@
                == ErrorView::EnvironmentError(error@),
            EnvironmentLookup::Failed(error) => r is Err && r->Err_0@
                == ErrorView::EnvironmentError(error@),
            EnvironmentLookup::Found(Err(error)) => r is Err && (r->Err_0@ matches
                ErrorView::EnvironmentRead(path, text) && text == error@ && path
                == crate::directory_laws::below(tools@, name@)),
            EnvironmentLookup::Found(Ok(_)) => true,
        },
{
    crate::installed_laws::lemma_tool_directory(tools@, name@);
}

/// Whether the package at a place is the first that has a name and is flagged.
pub open spec fn is_first_flagged(
    packages: Seq<InstalledDist>,
    name: Seq<char>,
    flags: Seq<bool>,
    at: int,
) -> bool {
    &&& 0 <= at < packages.len()
    &&& packages[at].name@ == name
    &&& flags[at]
    &&& forall|k: int| 0 <= k < at ==> !((#[trigger] packages[k]).name@ == name && flags[k])
}

proof fn lemma_first_flagged(packages: Seq<InstalledDist>, name: Seq<char>, flags: Seq<bool>)
    requires
        flags.len() == packages.len(),
    ensures
        forall|at: int| #[trigger]
            is_first_flagged(packages, name, flags, at) ==> first_flagged(packages, name, flags)
                == Some(packages[at].path@),
        first_flagged(packages, name, flags) is Some ==> exists|at: int| #[trigger]
            is_first_flagged(packages, name, flags, at),
        first_flagged(packages, name, flags) is None ==> forall|k: int|
            0 <= k < packages.len() ==> !((#[trigger] packages[k]).name@ == name && flags[k]),
    decreases packages.len(),
{
    if packages.len() > 0 {
        let rest = packages.skip(1);
        let marks = flags.skip(1);
        lemma_first_flagged(rest, name, marks);
        if packages[0].name@ == name && flags[0] {
            assert(is_first_flagged(packages, name, flags, 0));
            assert forall|at: int| #[trigger] is_first_flagged(packages, name, flags, at) implies at
                == 0 by {
                if at > 0 {
                    assert(!(packages[0].name@ == name && flags[0]));
                }
            }
        } else {
            assert forall|at: int| #[trigger]
                is_first_flagged(packages, name, flags, at) implies first_flagged(
                packages,
                name,
                flags,
            ) == Some(packages[at].path@) by {
                assert(at > 0);
                assert forall|k: int| 0 <= k < at - 1 implies !((#[trigger] rest[k]).name@ == name
                    && marks[k]) by {
                    assert(rest[k] == packages[k + 1]);
                }
                assert(is_first_flagged(rest, name, marks, at - 1));
                assert(rest[at - 1] == packages[at]);
            }
            if first_flagged(packages, name, flags) is Some {
                let at = choose|at: int| #[trigger] is_first_flagged(rest, name, marks, at);
                assert forall|k: int| 0 <= k < at + 1 implies !((#[trigger] packages[k]).name@
                    == name && flags[k]) by {
                    if k > 0 {
                        assert(rest[k - 1] == packages[k]);
                    }
                }
                assert(is_first_flagged(packages, name, flags, at + 1));
            } else {
                assert forall|k: int| 0 <= k < packages.len() implies !((
                #[trigger] packages[k]).name@ == name && flags[k]) by {
                    if k > 0 {
                        assert(rest[k - 1] == packages[k]);
                    }
                }
            }
        }
    }
}

/// A flagged package is found exactly where there is one with the name, and then it is the first.
pub proof fn first_flagged_package_is_found<'a>(
    site_packages: &'a SitePackages,
    name: &PackageName,
    flags: &Vec<bool>,
    r: Result<&'a str, Error>,
)
    requires
        flags@.len() == site_packages.packages@.len(),
        call_ensures(find_flagged, (site_packages, name, flags), r),
    ensures
        forall|at: int| #[trigger]
            is_first_flagged(site_packages.packages@, name@, flags@, at) ==> r is Ok && r->Ok_0@
                == site_packages.packages@[at].path@,
        r is Ok ==> exists|at: int| #[trigger]
            is_first_flagged(site_packages.packages@, name@, flags@, at),
        r is Err ==> r->Err_0@ == ErrorView::MissingToolPackage(name@),
{
    lemma_first_flagged(site_packages.packages@, name@, flags@);
}

/// Whether the package at a place is the first with a name and with a version equal to the given
/// one.
pub open spec fn is_first_of_version(
    packages: Seq<InstalledDist>,
    name: Seq<char>,
    version: Seq<char>,
    at: int,
) -> bool {
    &&& 0 <= at < packages.len()
    &&& packages[at].name@ == name
    &&& same_version(packages[at].version@, version)
    &&& forall|k: int|
        0 <= k < at ==> !((#[trigger] packages[k]).name@ == name && same_version(
            packages[k].version@,
            version,
        ))
}

proof fn lemma_first_of_version(
    packages: Seq<InstalledDist>,
    name: Seq<char>,
    version: Seq<char>,
)
    ensures
        ({
            let flags = version_flags(packages, version);
            &&& forall|at: int| #[trigger]
                is_first_of_version(packages, name, version, at) ==> is_first_flagged(
                    packages,
                    name,
                    flags,
                    at,
                )
            &&& forall|at: int| #[trigger]
                is_first_flagged(packages, name, flags, at) ==> is_first_of_version(
                    packages,
                    name,
                    version,
                    at,
                )
        }),
{
    let flags = version_flags(packages, version);
    assert forall|at: int| #[trigger]
        is_first_of_version(packages, name, version, at) implies is_first_flagged(
        packages,
        name,
        flags,
        at,
    ) by {
        assert forall|k: int| 0 <= k < at implies !((#[trigger] packages[k]).name@ == name
            && flags[k]) by {}
    }
    assert forall|at: int| #[trigger]
        is_first_flagged(packages, name, flags, at) implies is_first_of_version(
        packages,
        name,
        version,
        at,
    ) by {
        assert forall|k: int| 0 <= k < at implies !((#[trigger] packages[k]).name@ == name
            && same_version(packages[k].version@, version)) by {
            assert(!(packages[k].name@ == name && flags[k]));
        }
    }
}

/// The `.dist-info` directory is that of the first package with the name and an equal version. It
/// is found exactly where there is such a package; otherwise the package is said to be missing.
pub proof fn dist_info_is_that_of_the_package<'a>(
    site_packages: &'a SitePackages,
    name: &PackageName,
    version: &str,
    r: Result<&'a str, Error>,
)
    requires
        call_ensures(find_dist_info, (site_packages, name, version), r),
    ensures
        forall|at: int| #[trigger]
            is_first_of_version(site_packages.packages@, name@, version@, at) ==> r is Ok
                && r->Ok_0@ == site_packages.packages@[at].path@,
        r is Ok ==> exists|at: int| #[trigger]
            is_first_of_version(site_packages.packages@, name@, version@, at),
        r is Err ==> r->Err_0@ == ErrorView::MissingToolPackage(name@),
{
    let packages = site_packages.packages@;
    lemma_first_flagged(packages, name@, version_flags(packages, version@));
    lemma_first_of_version(packages, name@, version@);
}

/// There is a `.dist-info` directory exactly where there is a package with the name and an equal
/// version.
pub proof fn lemma_dist_info(site_packages: SitePackages, name: Seq<char>, version: Seq<char>)
    ensures
        dist_info(site_packages, name, version) is Some <==> exists|at: int| #[trigger]
            is_first_of_version(site_packages.packages@, name, version, at),
{
    let packages = site_packages.packages@;
    lemma_first_flagged(packages, name, version_flags(packages, version));
    lemma_first_of_version(packages, name, version);
}

/// The list of installed files is `RECORD` in the `.dist-info` directory that is found.
pub proof fn record_is_in_dist_info<'a>(
    site_packages: &'a SitePackages,
    name: &PackageName,
    version: &str,
    directory: Result<&'a str, Error>,
    r: Result<String, Error>,
)
    requires
        call_ensures(find_dist_info, (site_packages, name, version), directory),
        call_ensures(record_path, (site_packages, name, version), r),
    ensures
        match directory {
            Ok(path) => r is Ok && r->Ok_0@ == crate::directory_laws::below(path@, "RECORD"@),
            Err(error) => r is Err && r->Err_0@ == error@,
        },
{
    reveal_strlit("RECORD");
}

} // verus!
