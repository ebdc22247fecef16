//! The packages that an environment holds.

use vstd::prelude::*;

use crate::error::{Error, ErrorView};
use crate::name::PackageName;
use crate::path::{join, joined};

verus! {

/// A package that is installed in an environment.
#[derive(Debug)]
pub struct InstalledDist {
    /// The name of the package.
    pub name: PackageName,
    /// The version, as text.
    pub version: String,
    /// The path of the `.dist-info` directory.
    pub path: String,
}

/// Where an environment keeps its files.
#[derive(Debug)]
pub struct Scheme {
    /// The directory of the Python packages.
    pub purelib: String,
    /// The directory of the scripts.
    pub scripts: String,
    /// The directory of other data.
    pub data: String,
}

/// The content of a [`Scheme`].
pub struct SchemeView {
    pub purelib: Seq<char>,
    pub scripts: Seq<char>,
    pub data: Seq<char>,
}

impl View for Scheme {
    type V = SchemeView;

    open spec fn view(&self) -> SchemeView {
        SchemeView { purelib: self.purelib@, scripts: self.scripts@, data: self.data@ }
    }
}

/// The packages of an environment, and where its files are.
#[derive(Debug)]
pub struct SitePackages {
    pub packages: Vec<InstalledDist>,
    pub scheme: Scheme,
}

/// Whether two texts are versions that are equal by PEP 440.
pub uninterp spec fn same_version(a: Seq<char>, b: Seq<char>) -> bool;

/// `<pep440_rs::Version as PartialEq>::eq` on the versions that
/// `<pep440_rs::Version as FromStr>::from_str` reads from the two texts; `false` where one of them
/// is no version. The result is a function of the texts alone; that is all that is claimed.
#[verifier::external_body]
fn versions_equal(a: &str, b: &str) -> (r: bool)
    ensures
        r == same_version(a@, b@),
{
    match (a.parse::<pep440_rs::Version>(), b.parse::<pep440_rs::Version>()) {
        (Ok(a), Ok(b)) => a == b,
        _ => false,
    }
}

/// The places of the packages with the given name, in order.
pub open spec fn places_of(packages: Seq<InstalledDist>, name: Seq<char>) -> Seq<int>
    decreases packages.len(),
{
    if packages.len() == 0 {
        Seq::empty()
    } else {
        let front = places_of(packages.drop_last(), name);
        if packages.last().name@ == name {
            front.push(packages.len() - 1)
        } else {
            front
        }
    }
}

/// Which packages have a version equal to the given one.
pub open spec fn version_flags(packages: Seq<InstalledDist>, version: Seq<char>) -> Seq<bool> {
    Seq::new(packages.len(), |i: int| same_version(packages[i].version@, version))
}

/// The path of the first package that has the given name and is flagged.
pub open spec fn first_flagged(
    packages: Seq<InstalledDist>,
    name: Seq<char>,
    flags: Seq<bool>,
) -> Option<Seq<char>>
    decreases packages.len(),
{
    if packages.len() == 0 {
        None
    } else if packages[0].name@ == name && flags[0] {
        Some(packages[0].path@)
    } else {
        first_flagged(packages.skip(1), name, flags.skip(1))
    }
}

/// The `.dist-info` directory of the package with the given name and version.
pub open spec fn dist_info(
    site_packages: SitePackages,
    name: Seq<char>,
    version: Seq<char>,
) -> Option<Seq<char>> {
    let packages = site_packages.packages@;
    first_flagged(packages, name, version_flags(packages, version))
}

impl SitePackages {
    /// The packages with the given name, in the order in which they are held.
    pub fn get_packages(&self, name: &PackageName) -> (r: Vec<&InstalledDist>)
        ensures
            r@.len() == places_of(self.packages@, name@).len(),
            forall|i: int|
                0 <= i < r@.len() ==> *(#[trigger] r@[i]) == self.packages@[places_of(
                    self.packages@,
                    name@,
                )[i]],
    {
        let mut r: Vec<&InstalledDist> = Vec::new();
        let mut i: usize = 0;
        assert(self.packages@.take(0) == Seq::<InstalledDist>::empty());
        while i < self.packages.len()
            invariant
                i <= self.packages.len(),
                r@.len() == places_of(self.packages@.take(i as int), name@).len(),
                forall|k: int|
                    0 <= k < r@.len() ==> *(#[trigger] r@[k]) == self.packages@[places_of(
                        self.packages@.take(i as int),
                        name@,
                    )[k]],
            decreases self.packages.len() - i,
        {
            let ghost longer = self.packages@.take(i + 1);
            assert(longer.drop_last() == self.packages@.take(i as int));
            assert(longer.last() == self.packages@[i as int]);
            if self.packages[i].name.same_as(name) {
                r.push(&self.packages[i]);
            }
            i = i + 1;
        }
        assert(self.packages@.take(i as int) == self.packages@);
        r
    }
}

/// Finds the first package with the given name among those that are flagged, one flag for each
/// package.
pub fn find_flagged<'a>(
    site_packages: &'a SitePackages,
    package_name: &PackageName,
    flags: &Vec<bool>,
) -> (r: Result<&'a str, Error>)
    requires
        flags@.len() == site_packages.packages@.len(),
    ensures
        match r {
            Ok(path) => first_flagged(site_packages.packages@, package_name@, flags@) == Some(
                path@,
            ),
            Err(error) => first_flagged(site_packages.packages@, package_name@, flags@) is None
                && error@ == ErrorView::MissingToolPackage(package_name@),
        },
{
    let packages: &'a Vec<InstalledDist> = &site_packages.packages;
    let mut i: usize = 0;
    assert(packages@.skip(0) == packages@);
    assert(flags@.skip(0) == flags@);
    while i < packages.len()
        invariant
            i <= packages.len(),
            packages@ == site_packages.packages@,
            flags@.len() == packages@.len(),
            first_flagged(packages@, package_name@, flags@) == first_flagged(
                packages@.skip(i as int),
                package_name@,
                flags@.skip(i as int),
            ),
        decreases packages.len() - i,
    {
        assert(packages@.skip(i as int)[0] == packages@[i as int]);
        assert(flags@.skip(i as int)[0] == flags@[i as int]);
        assert(packages@.skip(i as int).skip(1) == packages@.skip(i + 1));
        assert(flags@.skip(i as int).skip(1) == flags@.skip(i + 1));
        if packages[i].name.same_as(package_name) && flags[i] {
            return Ok(packages[i].path.as_str());
        }
        i = i + 1;
    }
    Err(Error::MissingToolPackage(package_name.clone()))
}

/// Finds the `.dist-info` directory of a package in an environment.
pub fn find_dist_info<'a>(
    site_packages: &'a SitePackages,
    package_name: &PackageName,
    package_version: &str,
) -> (r: Result<&'a str, Error>)
    ensures
        match r {
            Ok(path) => dist_info(*site_packages, package_name@, package_version@) == Some(path@),
            Err(error) => dist_info(*site_packages, package_name@, package_version@) is None
                && error@ == ErrorView::MissingToolPackage(package_name@),
        },
{
    let mut flags: Vec<bool> = Vec::new();
    let mut i: usize = 0;
    while i < site_packages.packages.len()
        invariant
            i <= site_packages.packages.len(),
            flags@ == version_flags(site_packages.packages@, package_version@).take(i as int),
        decreases site_packages.packages.len() - i,
    {
        let same: bool = versions_equal(
            site_packages.packages[i].version.as_str(),
            package_version,
        );
        flags.push(same);
        i = i + 1;
    }
    assert(flags@ == version_flags(site_packages.packages@, package_version@));
    find_flagged(site_packages, package_name, &flags)
}

/// The path of the list of installed files of a package.
pub fn record_path(
    site_packages: &SitePackages,
    package_name: &PackageName,
    package_version: &str,
) -> (r: Result<String, Error>)
    ensures
        match r {
            Ok(path) => dist_info(*site_packages, package_name@, package_version@) is Some
                && path@ == joined(
                dist_info(*site_packages, package_name@, package_version@)->0,
                "RECORD"@,
            ),
            Err(error) => dist_info(*site_packages, package_name@, package_version@) is None
                && error@ == ErrorView::MissingToolPackage(package_name@),
        },
{
    match find_dist_info(site_packages, package_name, package_version) {
        Ok(directory) => Ok(join(directory, "RECORD")),
        Err(error) => Err(error),
    }
}

} // verus!
