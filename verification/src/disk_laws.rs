//! What the tools directory has to do with the disk that it lies on.
//!
//! A disk is modelled by its directories and files. What an operation on it comes to is stated as
//! far as it rests on what is there; that an operation may fail for other reasons stays open. A
//! path names a place by its components: links are not modelled, nor other processes.

use vstd::prelude::*;

use crate::error::{ErrorView, IoError, IoErrorKind};
use crate::installed::{
    init_result, lemma_name_is_plain, receipt_file, receipt_result, removal_result, tool_directory,
    GitignoreWrite, ReceiptFile,
};
use crate::name::is_package_name;
use crate::path::{components, joined};
use crate::path_laws::{components_of_join, components_of_piece, is_plain, lemma_no_components};

verus! {

/// What is on a disk: its directories, and its files with their contents, by the components of
/// their paths.
#[verifier::ext_equal]
pub struct Disk {
    pub directories: Set<Seq<Seq<char>>>,
    pub files: Map<Seq<Seq<char>>, Seq<char>>,
}

impl Disk {
    /// Whether there is a directory at the path.
    pub open spec fn has_directory(self, path: Seq<char>) -> bool {
        self.directories.contains(components(path))
    }

    /// Whether there is a file at the path.
    pub open spec fn has_file(self, path: Seq<char>) -> bool {
        self.files.dom().contains(components(path))
    }

    /// Whether there is anything at the path.
    pub open spec fn has(self, path: Seq<char>) -> bool {
        self.has_directory(path) || self.has_file(path)
    }

    /// What the file at the path holds.
    pub open spec fn contents(self, path: Seq<char>) -> Seq<char> {
        self.files[components(path)]
    }

    /// The disk with the directory at the path, and all that lead there.
    pub open spec fn with_directory(self, path: Seq<char>) -> Disk {
        Disk {
            directories: self.directories.union(
                Set::new(|place: Seq<Seq<char>>| place.is_prefix_of(components(path))),
            ),
            files: self.files,
        }
    }

    /// The disk with the file at the path, in place of any other.
    pub open spec fn with_file(self, path: Seq<char>, contents: Seq<char>) -> Disk {
        Disk {
            directories: self.directories,
            files: self.files.insert(components(path), contents),
        }
    }

    /// The disk without the directory at the path, and without all that lies in it.
    pub open spec fn without(self, path: Seq<char>) -> Disk {
        let outside = |place: Seq<Seq<char>>| !components(path).is_prefix_of(place);
        Disk {
            directories: self.directories.filter(outside),
            files: self.files.restrict(Set::new(outside)),
        }
    }
}

/// What reading and parsing the receipt at a path comes to: a file that is there is read, and then
/// parsed; where nothing is there, nothing is found.
pub open spec fn reads<T>(
    disk: Disk,
    path: Seq<char>,
    parse: spec_fn(Seq<char>) -> Result<T, Seq<char>>,
    receipt: ReceiptFile<T>,
) -> bool {
    &&& disk.has_file(path) ==> match parse(disk.contents(path)) {
        Ok(tool) => receipt == ReceiptFile::Parsed(tool),
        Err(error) => receipt matches ReceiptFile::Invalid(text) && text@ == error,
    }
    &&& !disk.has(path) ==> (receipt matches ReceiptFile::Unreadable(error) && error.kind
        == IoErrorKind::NotFound)
}

/// What removing a directory and all in it comes to. Where nothing is there, nothing is found.
pub open spec fn removes(
    before: Disk,
    path: Seq<char>,
    removed: Result<(), IoError>,
    after: Disk,
) -> bool {
    &&& removed is Ok ==> before.has_directory(path) && after == before.without(path)
    &&& !before.has(path) ==> after == before && (removed matches Err(error) && error.kind
        == IoErrorKind::NotFound)
}

/// What creating a directory, with all that lead there, comes to. One that is there is no failure.
pub open spec fn creates_directory(
    before: Disk,
    path: Seq<char>,
    created: Result<(), IoError>,
    after: Disk,
) -> bool {
    &&& created is Ok ==> after == before.with_directory(path)
    &&& before.has_directory(path) ==> created is Ok
}

/// What creating and writing a file comes to where it must not be there yet.
pub open spec fn creates_file(
    before: Disk,
    path: Seq<char>,
    contents: Seq<char>,
    outcome: GitignoreWrite,
    after: Disk,
) -> bool {
    &&& match outcome {
        GitignoreWrite::Written => !before.has(path) && after == before.with_file(path, contents),
        GitignoreWrite::NotCreated(error) => after == before && (error.kind
            == IoErrorKind::AlreadyExists ==> before.has(path)),
        GitignoreWrite::NotWritten(_) => true,
    }
    &&& before.has(path) ==> (outcome matches GitignoreWrite::NotCreated(error) && error.kind
        == IoErrorKind::AlreadyExists)
}

/// A receipt that was written for a tool is read back as that tool, whatever was there before, where
/// parsing the text of a tool gives the tool.
pub proof fn written_receipt_reads_back<T>(
    before: Disk,
    root: Seq<char>,
    name: Seq<char>,
    tool: T,
    document: Seq<char>,
    parse: spec_fn(Seq<char>) -> Result<T, Seq<char>>,
    receipt: ReceiptFile<T>,
)
    requires
        parse(document) == Ok::<T, Seq<char>>(tool),
        reads(
            before.with_file(receipt_file(root, name), document),
            receipt_file(root, name),
            parse,
            receipt,
        ),
    ensures
        receipt_result(root, name, receipt) == Ok::<Option<T>, ErrorView>(Some(tool)),
{
}

/// A receipt that is written for one tool leaves the receipts of all others as they are.
pub proof fn written_receipt_leaves_others(
    before: Disk,
    root: Seq<char>,
    name: Seq<char>,
    other: Seq<char>,
    document: Seq<char>,
)
    requires
        is_package_name(name),
        is_package_name(other),
        name != other,
    ensures
        ({
            let after = before.with_file(receipt_file(root, name), document);
            let path = receipt_file(root, other);
            &&& after.has_file(path) == before.has_file(path)
            &&& after.has_file(path) ==> after.contents(path) == before.contents(path)
        }),
{
    lemma_receipt_place(root, name);
    lemma_receipt_place(root, other);
    let n = components(root).len() as int;
    let a = components(receipt_file(root, name));
    let b = components(receipt_file(root, other));
    if name.len() > 0 && other.len() > 0 {
        assert(a[n] == name);
        assert(b[n] == other);
    } else {
        assert(a.len() != b.len());
    }
}

/// A tool whose environment was removed has no receipt any more. All that lay in its directory is
/// gone, nothing else is changed, and removing it once more fails, for nothing is found.
pub proof fn removal_fails_after_removal<T>(
    before: Disk,
    root: Seq<char>,
    name: Seq<char>,
    removed: Result<(), IoError>,
    between: Disk,
    again: Result<(), IoError>,
    after: Disk,
    parse: spec_fn(Seq<char>) -> Result<T, Seq<char>>,
    receipt: ReceiptFile<T>,
)
    requires
        is_package_name(name),
        removes(before, tool_directory(root, name), removed, between),
        removal_result(removed) is Ok,
        reads(between, receipt_file(root, name), parse, receipt),
        removes(between, tool_directory(root, name), again, after),
    ensures
        before.has_directory(tool_directory(root, name)),
        between == before.without(tool_directory(root, name)),
        !between.has(tool_directory(root, name)),
        receipt_result(root, name, receipt) == Ok::<Option<T>, ErrorView>(None),
        removal_result(again) matches Err(ErrorView::Io(error)) && error.kind
            == IoErrorKind::NotFound,
        after == between,
{
    let directory = components(tool_directory(root, name));
    let place = components(receipt_file(root, name));
    lemma_receipt_in_directory(root, name);
    assert(directory.is_prefix_of(directory));
    assert(directory.is_prefix_of(place)) by {
        assert(place.subrange(0, directory.len() as int) == directory);
    }
}

/// Removing the environment of a tool that has none fails, for nothing is found, and changes
/// nothing.
pub proof fn removal_of_nothing_fails(
    before: Disk,
    root: Seq<char>,
    name: Seq<char>,
    removed: Result<(), IoError>,
    after: Disk,
)
    requires
        removes(before, tool_directory(root, name), removed, after),
        !before.has(tool_directory(root, name)),
    ensures
        removal_result(removed) matches Err(ErrorView::Io(error)) && error.kind
            == IoErrorKind::NotFound,
        after == before,
{
}

/// What initializing the tools directory comes to on a disk: the directory is created, and then its
/// `.gitignore` is added.
pub open spec fn initializes(
    before: Disk,
    root: Seq<char>,
    created: Result<(), IoError>,
    gitignore: GitignoreWrite,
    after: Disk,
) -> bool {
    exists|between: Disk|
        {
            &&& #[trigger] creates_directory(before, root, created, between)
            &&& creates_file(between, joined(root, ".gitignore"@), "*"@, gitignore, after)
        }
}

/// Once the tools directory was initialized it is there, with its `.gitignore`: the one that was
/// there, or a new one. No other file is changed.
pub proof fn initialized_directory_is_there(
    before: Disk,
    root: Seq<char>,
    created: Result<(), IoError>,
    gitignore: GitignoreWrite,
    after: Disk,
)
    requires
        initializes(before, root, created, gitignore, after),
        init_result(root, created, gitignore) is Ok,
    ensures
        init_result(root, created, gitignore) == Ok::<Seq<char>, ErrorView>(root),
        after.has_directory(root),
        after.directories == before.with_directory(root).directories,
        after.has(joined(root, ".gitignore"@)),
        before.has(joined(root, ".gitignore"@)) ==> after == before.with_directory(root),
        !before.has(joined(root, ".gitignore"@)) ==> after == before.with_directory(root).with_file(
            joined(root, ".gitignore"@),
            "*"@,
        ),
{
    let between = before.with_directory(root);
    let path = joined(root, ".gitignore"@);
    lemma_gitignore_place(root);
    assert(components(root).is_prefix_of(components(root)));
    assert(!components(path).is_prefix_of(components(root)));
    assert(between.has(path) == before.has(path));
}

/// Initializing the tools directory once more succeeds and changes nothing.
pub proof fn second_init_changes_nothing(
    before: Disk,
    root: Seq<char>,
    created: Result<(), IoError>,
    gitignore: GitignoreWrite,
    between: Disk,
    created_again: Result<(), IoError>,
    gitignore_again: GitignoreWrite,
    after: Disk,
)
    requires
        initializes(before, root, created, gitignore, between),
        init_result(root, created, gitignore) is Ok,
        initializes(between, root, created_again, gitignore_again, after),
    ensures
        init_result(root, created_again, gitignore_again) == Ok::<Seq<char>, ErrorView>(root),
        after == between,
{
    initialized_directory_is_there(before, root, created, gitignore, between);
    assert(between.with_directory(root) == between);
    assert(created_again is Ok);
    assert(init_result(root, created_again, gitignore_again) is Ok);
    initialized_directory_is_there(between, root, created_again, gitignore_again, after);
}

/// The receipt of a tool lies right in the tool's directory.
proof fn lemma_receipt_in_directory(root: Seq<char>, name: Seq<char>)
    ensures
        components(receipt_file(root, name)) == components(tool_directory(root, name)).push(
            "uv-receipt.toml"@,
        ),
{
    reveal_strlit("uv-receipt.toml");
    lemma_entry_place(tool_directory(root, name), "uv-receipt.toml"@);
}

/// Where the receipt of a tool lies below the tools directory.
proof fn lemma_receipt_place(root: Seq<char>, name: Seq<char>)
    requires
        is_package_name(name),
    ensures
        components(receipt_file(root, name)) == if name.len() > 0 {
            components(root).push(name).push("uv-receipt.toml"@)
        } else {
            components(root).push("uv-receipt.toml"@)
        },
{
    lemma_receipt_in_directory(root, name);
    if name.len() > 0 {
        lemma_name_is_plain(name);
        lemma_entry_place(root, name);
    } else {
        lemma_no_components(name);
        components_of_join(root, name);
        assert(components(root) + components(name) == components(root));
    }
}

proof fn lemma_gitignore_place(root: Seq<char>)
    ensures
        components(joined(root, ".gitignore"@)) == components(root).push(".gitignore"@),
{
    reveal_strlit(".gitignore");
    lemma_entry_place(root, ".gitignore"@);
}

/// An entry of a directory has the directory's components and its own name.
proof fn lemma_entry_place(directory: Seq<char>, entry: Seq<char>)
    requires
        is_plain(entry),
    ensures
        components(joined(directory, entry)) == components(directory).push(entry),
{
    components_of_piece(entry);
    lemma_no_components(entry);
    components_of_join(directory, entry);
    assert(components(directory) + seq![entry] == components(directory).push(entry));
}

} // verus!
