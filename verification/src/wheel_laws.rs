//! What the search for wheels in the cache answers, in terms of the directories.

use vstd::prelude::*;

use crate::entry_laws::is_place;
use crate::path::{file_name, last_name};
use crate::wheel::{is_candidate, is_first_candidate, BuiltWheelMetadata, CachedDirectory};

verus! {

/// Whether metadata are those of the wheel in a directory: at its path, with its file name, and
/// with the entry named by the stem of that name below it.
pub open spec fn are_of(metadata: BuiltWheelMetadata, directory: CachedDirectory) -> bool {
    &&& metadata.path@ == directory.path@
    &&& directory.filename is Some
    &&& metadata.filename.stem@ == directory.filename->0.stem@
    &&& metadata.filename.compatible == directory.filename->0.compatible
    &&& is_place(metadata.target@, directory.path@, directory.filename->0.stem@)
}

/// The text that names a wheel is the name of the file at the path.
pub proof fn wheels_are_named_by_their_files<'a>(
    path: &'a str,
    name: Option<&'a str>,
    r: Option<&'a str>,
)
    requires
        call_ensures(file_name, (path,), name),
        call_ensures(BuiltWheelMetadata::wheel_text, (path,), r),
    ensures
        match (r, name) {
            (Some(a), Some(b)) => a@ == b@,
            (None, None) => true,
            _ => false,
        },
{
}

/// A directory is that of a wheel exactly where its path has a file name and that is one of a wheel;
/// the metadata are then those of that wheel.
pub proof fn wheels_are_read_from_directories<'a>(
    directory: CachedDirectory,
    path: &'a str,
    name: Option<&'a str>,
    r: Option<BuiltWheelMetadata>,
)
    requires
        path@ == directory.path@,
        call_ensures(file_name, (path,), name),
        call_ensures(BuiltWheelMetadata::from_path, (directory,), r),
    ensures
        r is Some <==> name is Some && directory.filename is Some,
        r matches Some(metadata) ==> are_of(metadata, directory),
{
}

/// Whether a directory is that of a wheel that can be installed.
pub open spec fn fits(directory: CachedDirectory) -> bool {
    last_name(directory.path@) is Some && (directory.filename matches Some(filename)
        && filename.compatible)
}

/// Whether a directory is the first that fits.
pub open spec fn is_first_fit(directories: Seq<CachedDirectory>, at: int) -> bool {
    &&& 0 <= at < directories.len()
    &&& fits(directories[at])
    &&& forall|k: int| 0 <= k < at ==> !fits(#[trigger] directories[k])
}

/// The wheel that is found is that of the first directory that fits, whatever comes before or behind
/// it; none is found exactly where no directory fits.
pub proof fn first_fitting_wheel_is_found(
    directories: Vec<CachedDirectory>,
    r: Option<BuiltWheelMetadata>,
)
    requires
        call_ensures(BuiltWheelMetadata::find_in_cache, (directories,), r),
    ensures
        r matches Some(metadata) ==> exists|at: int| #[trigger]
            is_first_fit(directories@, at) && are_of(metadata, directories@[at]),
        r is None ==> forall|k: int|
            0 <= k < directories@.len() ==> !fits(#[trigger] directories@[k]),
{
    let all = directories@;
    assert forall|k: int| 0 <= k < all.len() implies fits(#[trigger] all[k]) == is_candidate(
        all[k],
    ) by {}
    match r {
        Some(metadata) => {
            let at = choose|at: int| #[trigger]
                is_first_candidate(all, at) && crate::wheel::describes(metadata, all[at]);
            assert forall|k: int| 0 <= k < at implies !fits(#[trigger] all[k]) by {
                assert(!is_candidate(all[k]));
            }
            assert(is_first_fit(all, at));
        },
        None => {
            assert forall|k: int| 0 <= k < all.len() implies !fits(#[trigger] all[k]) by {
                assert(!is_candidate(all[k]));
            }
        },
    }
}

} // verus!
