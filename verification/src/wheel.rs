//! Wheels that were built before and lie in the cache.

use vstd::prelude::*;

use crate::path::{file_name, join, joined, last_name};

verus! {

/// What the file name of a wheel says, for the platform at hand.
#[derive(Debug)]
pub struct WheelFilename {
    /// The file name without its extension.
    pub stem: String,
    /// Whether the wheel can be installed on the platform.
    pub compatible: bool,
}

/// The information about the wheel we either just built or got from the cache.
#[derive(Debug)]
pub struct BuiltWheelMetadata {
    /// The path to the built wheel.
    pub path: String,
    /// The expected path to the downloaded wheel's entry in the cache.
    pub target: String,
    /// The parsed file name.
    pub filename: WheelFilename,
}

impl Clone for WheelFilename {
    fn clone(&self) -> (r: Self)
        ensures
            r.stem@ == self.stem@,
            r.compatible == self.compatible,
    {
        WheelFilename { stem: self.stem.clone(), compatible: self.compatible }
    }
}

impl Clone for BuiltWheelMetadata {
    fn clone(&self) -> (r: Self)
        ensures
            r.path@ == self.path@,
            r.target@ == self.target@,
            r.filename.stem@ == self.filename.stem@,
            r.filename.compatible == self.filename.compatible,
    {
        BuiltWheelMetadata {
            path: self.path.clone(),
            target: self.target.clone(),
            filename: self.filename.clone(),
        }
    }
}

/// A directory in the cache, and its file name where that is one of a wheel.
#[derive(Debug)]
pub struct CachedDirectory {
    pub path: String,
    pub filename: Option<WheelFilename>,
}

/// Whether a directory is that of a wheel for the platform.
pub open spec fn is_candidate(directory: CachedDirectory) -> bool {
    last_name(directory.path@) is Some && directory.filename is Some
        && directory.filename->0.compatible
}

/// Whether a directory is the first of a wheel for the platform.
pub open spec fn is_first_candidate(directories: Seq<CachedDirectory>, at: int) -> bool {
    &&& 0 <= at < directories.len()
    &&& is_candidate(directories[at])
    &&& forall|i: int| 0 <= i < at ==> !is_candidate(#[trigger] directories[i])
}

/// Whether the metadata describe the wheel in a directory.
pub open spec fn describes(metadata: BuiltWheelMetadata, directory: CachedDirectory) -> bool {
    &&& metadata.path@ == directory.path@
    &&& directory.filename == Some(metadata.filename)
    &&& metadata.target@ == joined(directory.path@, metadata.filename.stem@)
}

impl BuiltWheelMetadata {
    /// The text in which the name of a wheel is looked for: the file name of a path.
    pub fn wheel_text<'a>(path: &'a str) -> (r: Option<&'a str>)
        ensures
            match r {
                Some(name) => last_name(path@) == Some(name@),
                None => last_name(path@) is None,
            },
    {
        file_name(path)
    }

    /// Makes the metadata of a wheel from a cached directory, where its file name is one of a
    /// wheel.
    pub fn from_path(directory: CachedDirectory) -> (r: Option<Self>)
        ensures
            match r {
                Some(metadata) => last_name(directory.path@) is Some && describes(
                    metadata,
                    directory,
                ),
                None => last_name(directory.path@) is None || directory.filename is None,
            },
    {
        if file_name(directory.path.as_str()).is_none() {
            return None;
        }
        match directory.filename {
            None => None,
            Some(filename) => {
                let target: String = join(directory.path.as_str(), filename.stem.as_str());
                Some(BuiltWheelMetadata { path: directory.path, target, filename })
            },
        }
    }

    /// Finds a compatible wheel in the cache: the first among its directories.
    pub fn find_in_cache(directories: Vec<CachedDirectory>) -> (r: Option<Self>)
        ensures
            match r {
                Some(metadata) => exists|at: int|
                    #[trigger] is_first_candidate(directories@, at) && describes(
                        metadata,
                        directories@[at],
                    ),
                None => forall|i: int|
                    0 <= i < directories@.len() ==> !is_candidate(#[trigger] directories@[i]),
            },
    {
        let ghost all = directories@;
        for directory in it: directories
            invariant
                it.seq() == all,
                forall|i: int| 0 <= i < it.index() ==> !is_candidate(#[trigger] all[i]),
        {
            let ghost at = it.index();
            if let Some(metadata) = BuiltWheelMetadata::from_path(directory) {
                if metadata.filename.compatible {
                    proof {
                        assert(all[at] == directory);
                        assert(is_first_candidate(all, at));
                    }
                    return Some(metadata);
                }
            }
        }
        None
    }
}

/// The entry of a wheel lies in its cached directory.
pub proof fn target_is_in_directory(metadata: BuiltWheelMetadata, directory: CachedDirectory)
    requires
        describes(metadata, directory),
        crate::path_laws::is_plain(metadata.filename.stem@),
    ensures
        crate::path::components(metadata.target@) == crate::path::components(directory.path@).push(
            metadata.filename.stem@,
        ),
{
    let stem = metadata.filename.stem@;
    crate::path_laws::components_of_piece(stem);
    crate::path_laws::components_of_join(directory.path@, stem);
    assert(crate::path::components(directory.path@) + seq![stem] == crate::path::components(
        directory.path@,
    ).push(stem));
}

} // verus!
