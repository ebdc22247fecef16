//! The tools that are installed, and their directory.

use vstd::prelude::*;

use crate::error::{Error, ErrorView, IoError, IoErrorKind};
use crate::name::{is_package_name, is_punctuation, normal_name, valid_name, PackageName};
use crate::path::{absolute, components, file_name, join, joined, last_name};
use crate::path_laws::{components_of_join, components_of_piece, is_plain};
use crate::site_packages::{places_of, SitePackages};

verus! {

/// The directory of a tool.
pub open spec fn tool_directory(root: Seq<char>, name: Seq<char>) -> Seq<char> {
    joined(root, name)
}

/// The receipt in the directory of a tool.
pub open spec fn receipt_file(root: Seq<char>, name: Seq<char>) -> Seq<char> {
    joined(tool_directory(root, name), "uv-receipt.toml"@)
}

/// What reading a receipt came to.
#[derive(Debug)]
pub enum ReceiptFile<T> {
    /// The tool that the receipt describes.
    Parsed(T),
    /// The receipt could be read, but is invalid.
    Invalid(String),
    /// The receipt could not be read.
    Unreadable(IoError),
}

/// A directory among those of the tools.
#[derive(Debug)]
pub struct ToolDirectory<T> {
    /// The name of the directory.
    pub name: String,
    /// What reading the receipt in it came to.
    pub receipt: ReceiptFile<T>,
}

/// What looking for an environment came to. The texts are those of the errors.
#[derive(Debug)]
pub enum EnvironmentLookup<E> {
    Found(E),
    /// There is no environment.
    Missing(String),
    /// The environment is linked to an interpreter that does not exist.
    InterpreterNotFound(String),
    /// Anything else.
    Failed(String),
}

/// A file to write.
#[derive(Debug)]
pub struct FileWrite {
    pub path: String,
    pub contents: String,
}

/// A virtual environment to create.
#[derive(Debug)]
pub struct VenvRequest {
    pub path: String,
    pub prompt: Option<String>,
    pub system_site_packages: bool,
    pub allow_existing: bool,
    pub relocatable: bool,
}

/// What adding the `.gitignore` came to.
#[derive(Debug)]
pub enum GitignoreWrite {
    Written,
    /// The file could not be created.
    NotCreated(IoError),
    /// The file was created, but could not be written.
    NotWritten(IoError),
}

/// A directory as it is listed among the tools: under its normalized name, with the tool or with
/// what is wrong with its receipt. A directory whose name is no package name, or whose receipt
/// is there but cannot be read, makes the listing fail.
pub open spec fn listing_entry<T>(root: Seq<char>, directory: ToolDirectory<T>) -> Result<
    (Seq<char>, Result<T, ErrorView>),
    ErrorView,
> {
    let text = directory.name@;
    let name = normal_name(text);
    if !valid_name(text) {
        Err(ErrorView::ToolName(text))
    } else {
        match directory.receipt {
            ReceiptFile::Parsed(tool) => Ok((name, Ok(tool))),
            ReceiptFile::Invalid(error) => Ok(
                (name, Err(ErrorView::ReceiptRead(receipt_file(root, text), error@))),
            ),
            ReceiptFile::Unreadable(error) => if error.kind == IoErrorKind::NotFound {
                Ok((name, Err(ErrorView::MissingToolReceipt(name, receipt_file(root, text)))))
            } else {
                Err(ErrorView::Io(error@))
            },
        }
    }
}

/// The listing of all directories in order, or the first failure.
pub open spec fn listing<T>(root: Seq<char>, directories: Seq<ToolDirectory<T>>) -> Result<
    Seq<(Seq<char>, Result<T, ErrorView>)>,
    ErrorView,
>
    decreases directories.len(),
{
    if directories.len() == 0 {
        Ok(Seq::empty())
    } else {
        match listing(root, directories.drop_last()) {
            Err(error) => Err(error),
            Ok(front) => match listing_entry(root, directories.last()) {
                Err(error) => Err(error),
                Ok(entry) => Ok(front.push(entry)),
            },
        }
    }
}

/// The content of a listed tool.
pub open spec fn tool_view<T>(tool: (PackageName, Result<T, Error>)) -> (
    Seq<char>,
    Result<T, ErrorView>,
) {
    (
        tool.0@,
        match tool.1 {
            Ok(tool) => Ok(tool),
            Err(error) => Err(error@),
        },
    )
}

/// The contents of a listing.
pub open spec fn tool_views<T>(list: Seq<(PackageName, Result<T, Error>)>) -> Seq<
    (Seq<char>, Result<T, ErrorView>),
> {
    Seq::new(list.len(), |i: int| tool_view(list[i]))
}

/// A result, with the content of its error.
pub open spec fn result_view<T>(r: Result<T, Error>) -> Result<T, ErrorView> {
    match r {
        Ok(value) => Ok(value),
        Err(error) => Err(error@),
    }
}

/// What the receipt of a tool comes to, by what reading it came to.
pub open spec fn receipt_result<T>(
    root: Seq<char>,
    name: Seq<char>,
    receipt: ReceiptFile<T>,
) -> Result<Option<T>, ErrorView> {
    match receipt {
        ReceiptFile::Parsed(tool) => Ok(Some(tool)),
        ReceiptFile::Invalid(error) => Err(ErrorView::ReceiptRead(receipt_file(root, name), error@)),
        ReceiptFile::Unreadable(error) => if error.kind == IoErrorKind::NotFound {
            Ok(None)
        } else {
            Err(ErrorView::Io(error@))
        },
    }
}

/// What the removal of an environment comes to, by what removing its directory came to.
pub open spec fn removal_result(removed: Result<(), IoError>) -> Result<(), ErrorView> {
    match removed {
        Ok(_) => Ok(()),
        Err(error) => Err(ErrorView::Io(error@)),
    }
}

/// What the initialization of the tools directory comes to, by what creating it and adding its
/// `.gitignore` came to.
pub open spec fn init_result(
    root: Seq<char>,
    created: Result<(), IoError>,
    gitignore: GitignoreWrite,
) -> Result<Seq<char>, ErrorView> {
    match created {
        Err(error) => Err(ErrorView::Io(error@)),
        Ok(_) => match gitignore {
            GitignoreWrite::Written => Ok(root),
            GitignoreWrite::NotWritten(error) => Err(ErrorView::Io(error@)),
            GitignoreWrite::NotCreated(error) => if error.kind == IoErrorKind::AlreadyExists {
                Ok(root)
            } else {
                Err(ErrorView::Io(error@))
            },
        },
    }
}

proof fn lemma_listing_fails<T>(root: Seq<char>, directories: Seq<ToolDirectory<T>>, k: int)
    requires
        0 <= k <= directories.len(),
        listing(root, directories.take(k)) is Err,
    ensures
        listing(root, directories) == listing(root, directories.take(k)),
    decreases directories.len(),
{
    if k == directories.len() {
        assert(directories.take(k) == directories);
    } else {
        assert(directories.drop_last().take(k) == directories.take(k));
        lemma_listing_fails(root, directories.drop_last(), k);
    }
}

/// Lists one directory.
fn list_entry<T>(root: &str, directory: ToolDirectory<T>) -> (r: Result<
    (PackageName, Result<T, Error>),
    Error,
>)
    ensures
        match r {
            Ok(tool) => listing_entry(root@, directory) == Ok::<_, ErrorView>(tool_view(tool)),
            Err(error) => listing_entry(root@, directory) == Err::<
                (Seq<char>, Result<T, ErrorView>),
                _,
            >(error@),
        },
{
    let name: PackageName = match PackageName::from_str(directory.name.as_str()) {
        Ok(name) => name,
        Err(error) => {
            return Err(error);
        },
    };
    let path: String = join(join(root, directory.name.as_str()).as_str(), "uv-receipt.toml");
    match directory.receipt {
        ReceiptFile::Parsed(tool) => Ok((name, Ok(tool))),
        ReceiptFile::Invalid(error) => Ok((name, Err(Error::ReceiptRead(path, error)))),
        ReceiptFile::Unreadable(error) => {
            if error.kind == IoErrorKind::NotFound {
                let text: String = name.as_str().to_owned();
                Ok((name, Err(Error::MissingToolReceipt(text, path))))
            } else {
                Err(Error::Io(error))
            }
        },
    }
}

/// A collection of uv-managed tools installed on the current system.
#[derive(Debug)]
pub struct InstalledTools {
    /// The path to the top-level directory of the tools.
    root: String,
}

impl Clone for InstalledTools {
    fn clone(&self) -> (r: Self)
        ensures
            r@ == self@,
    {
        InstalledTools { root: self.root.clone() }
    }
}

impl View for InstalledTools {
    type V = Seq<char>;

    closed spec fn view(&self) -> Seq<char> {
        self.root@
    }
}

impl InstalledTools {
    /// A directory for tools at `root`.
    pub fn from_path(root: String) -> (r: Self)
        ensures
            r@ == root@,
    {
        InstalledTools { root }
    }

    /// Creates a new [`InstalledTools`] from settings.
    ///
    /// Prefers, in order:
    ///
    /// 1. The specific tool directory specified by the user, i.e., `UV_TOOL_DIR`
    /// 2. A directory in the system-appropriate user-level data directory, e.g.,
    ///    `~/.local/uv/tools`
    /// 3. A directory in the local data directory, i.e., `.uv/tools`
    pub fn from_settings(
        tool_dir: Option<String>,
        data_dir: Result<Option<String>, IoError>,
    ) -> (r: Result<Self, Error>)
        ensures
            match tool_dir {
                Some(path) => r is Ok && r->Ok_0@ == path@,
                None => match data_dir {
                    Ok(Some(path)) => r is Ok && r->Ok_0@ == joined(path@, "tools"@),
                    Ok(None) => r is Ok && r->Ok_0@ == joined(".uv"@, "tools"@),
                    Err(error) => r is Err && r->Err_0@ == ErrorView::Io(error@),
                },
            },
    {
        match tool_dir {
            Some(path) => Ok(InstalledTools::from_path(path)),
            None => match data_dir {
                Ok(Some(path)) => Ok(InstalledTools::from_path(join(path.as_str(), "tools"))),
                Ok(None) => Ok(InstalledTools::from_path(join(".uv", "tools"))),
                Err(error) => Err(Error::Io(error)),
            },
        }
    }

    /// Creates a tools directory below a temporary one.
    pub fn temp(directory: Result<String, IoError>) -> (r: Result<Self, Error>)
        ensures
            match directory {
                Ok(path) => r is Ok && r->Ok_0@ == joined(path@, "tools"@),
                Err(error) => r is Err && r->Err_0@ == ErrorView::Io(error@),
            },
    {
        match directory {
            Ok(path) => Ok(InstalledTools::from_path(join(path.as_str(), "tools"))),
            Err(error) => Err(Error::Io(error)),
        }
    }

    /// The path of the tools directory.
    pub fn root(&self) -> (r: &str)
        ensures
            r@ == self@,
    {
        self.root.as_str()
    }

    /// The expected directory for a tool with the given name.
    pub fn tool_dir(&self, name: &PackageName) -> (r: String)
        ensures
            r@ == tool_directory(self@, name@),
    {
        join(self.root.as_str(), name.as_str())
    }

    /// The path of the receipt in a directory of the tools.
    pub fn receipt_path(&self, directory: &str) -> (r: String)
        ensures
            r@ == receipt_file(self@, directory@),
    {
        join(join(self.root.as_str(), directory).as_str(), "uv-receipt.toml")
    }

    /// The path of the file whose lock keeps other processes from the tools directory.
    pub fn lock_path(&self) -> (r: String)
        ensures
            r@ == joined(self@, ".lock"@),
    {
        join(self.root.as_str(), ".lock")
    }

    /// The metadata for all installed tools, from the directories in the tools directory.
    ///
    /// If a tool is present, but is missing a receipt or the receipt is invalid, the tool will be
    /// included with an error.
    pub fn tools<T>(&self, directories: Vec<ToolDirectory<T>>) -> (r: Result<
        Vec<(PackageName, Result<T, Error>)>,
        Error,
    >)
        ensures
            match r {
                Ok(tools) => listing(self@, directories@) == Ok::<_, ErrorView>(
                    tool_views(tools@),
                ),
                Err(error) => listing(self@, directories@) == Err::<
                    Seq<(Seq<char>, Result<T, ErrorView>)>,
                    _,
                >(error@),
            },
    {
        let mut tools: Vec<(PackageName, Result<T, Error>)> = Vec::new();
        let ghost all = directories@;
        assert(all.take(0) == Seq::<ToolDirectory<T>>::empty());
        assert(tool_views(tools@) == Seq::<(Seq<char>, Result<T, ErrorView>)>::empty());
        for directory in it: directories
            invariant
                it.seq() == all,
                listing(self@, all.take(it.index())) == Ok::<_, ErrorView>(tool_views(tools@)),
        {
            let ghost i = it.index();
            let ghost before = tool_views(tools@);
            assert(all.take(i + 1).drop_last() == all.take(i));
            assert(all.take(i + 1).last() == directory);
            match list_entry(self.root.as_str(), directory) {
                Ok(tool) => {
                    tools.push(tool);
                    assert(tool_views(tools@) == before.push(tool_view(tool)));
                },
                Err(error) => {
                    proof {
                        lemma_listing_fails(self@, all, i + 1);
                    }
                    return Err(error);
                },
            }
        }
        assert(all.take(all.len() as int) == all);
        Ok(tools)
    }

    /// The receipt for the given tool.
    ///
    /// If the tool is not installed, returns `Ok(None)`. If the receipt is invalid, returns an
    /// error.
    pub fn get_tool_receipt<T>(&self, name: &PackageName, receipt: ReceiptFile<T>) -> (r: Result<
        Option<T>,
        Error,
    >)
        ensures
            result_view(r) == receipt_result(self@, name@, receipt),
    {
        match receipt {
            ReceiptFile::Parsed(tool) => Ok(Some(tool)),
            ReceiptFile::Invalid(error) => Err(
                Error::ReceiptRead(self.receipt_path(name.as_str()), error),
            ),
            ReceiptFile::Unreadable(error) => {
                if error.kind == IoErrorKind::NotFound {
                    Ok(None)
                } else {
                    Err(Error::Io(error))
                }
            },
        }
    }

    /// The receipt to write for a tool, from its text. Any existing receipt is to be replaced.
    pub fn add_tool_receipt(&self, name: &PackageName, document: Result<String, String>) -> (r:
        Result<FileWrite, Error>)
        ensures
            match document {
                Ok(text) => r is Ok && r->Ok_0.path@ == receipt_file(self@, name@)
                    && r->Ok_0.contents@ == text@,
                Err(error) => r is Err && r->Err_0@ == ErrorView::Serialization(error@),
            },
    {
        match document {
            Ok(text) => Ok(
                FileWrite { path: self.receipt_path(name.as_str()), contents: text },
            ),
            Err(error) => Err(Error::Serialization(error)),
        }
    }

    /// Judges the removal of the environment of a tool. That there was none to remove is a failure.
    pub fn remove_environment(removed: Result<(), IoError>) -> (r: Result<(), Error>)
        ensures
            result_view(r) == removal_result(removed),
    {
        match removed {
            Ok(_) => Ok(()),
            Err(error) => Err(Error::Io(error)),
        }
    }

    /// The environment of a tool, if it exists.
    ///
    /// Returns `Ok(None)` if the environment does not exist or is linked to a non-existent
    /// interpreter.
    pub fn get_environment<E>(lookup: EnvironmentLookup<E>) -> (r: Result<Option<E>, Error>)
        ensures
            match lookup {
                EnvironmentLookup::Found(environment) => r == Ok::<Option<E>, Error>(
                    Some(environment),
                ),
                EnvironmentLookup::Missing(_) => r == Ok::<Option<E>, Error>(None),
                EnvironmentLookup::InterpreterNotFound(_) => r == Ok::<Option<E>, Error>(None),
                EnvironmentLookup::Failed(error) => r is Err && r->Err_0@
                    == ErrorView::EnvironmentError(error@),
            },
    {
        match lookup {
            EnvironmentLookup::Found(environment) => Ok(Some(environment)),
            EnvironmentLookup::Missing(_) => Ok(None),
            EnvironmentLookup::InterpreterNotFound(_) => Ok(None),
            EnvironmentLookup::Failed(error) => Err(Error::EnvironmentError(error)),
        }
    }

    /// The environment to create for a tool, once any existing one was removed. That there was
    /// none to remove is no failure.
    pub fn create_environment(&self, name: &PackageName, removed: Result<(), IoError>) -> (r:
        Result<VenvRequest, Error>)
        ensures
            match removed {
                Err(error) if error.kind != IoErrorKind::NotFound => r is Err && r->Err_0@
                    == ErrorView::Io(error@),
                _ => r is Ok && r->Ok_0.path@ == tool_directory(self@, name@)
                    && r->Ok_0.prompt is None && !r->Ok_0.system_site_packages
                    && !r->Ok_0.allow_existing && !r->Ok_0.relocatable,
            },
    {
        if let Err(error) = removed {
            if error.kind != IoErrorKind::NotFound {
                return Err(Error::Io(error));
            }
        }
        Ok(
            VenvRequest {
                path: self.tool_dir(name),
                prompt: None,
                system_site_packages: false,
                allow_existing: false,
                relocatable: false,
            },
        )
    }

    /// The version of an installed tool, from its environment and the packages that were read from
    /// there.
    pub fn version(
        &self,
        name: &PackageName,
        lookup: &EnvironmentLookup<Result<SitePackages, String>>,
    ) -> (r: Result<String, Error>)
        ensures
            match lookup {
                EnvironmentLookup::Missing(error) => r is Err && r->Err_0@
                    == ErrorView::EnvironmentError(error@),
                EnvironmentLookup::InterpreterNotFound(error) => r is Err && r->Err_0@
                    == ErrorView::EnvironmentError(error@),
                EnvironmentLookup::Failed(error) => r is Err && r->Err_0@
                    == ErrorView::EnvironmentError(error@),
                EnvironmentLookup::Found(Err(error)) => r is Err && r->Err_0@
                    == ErrorView::EnvironmentRead(tool_directory(self@, name@), error@),
                EnvironmentLookup::Found(Ok(found)) => {
                    let places = places_of(found.packages@, name@);
                    if places.len() == 0 {
                        r is Err && r->Err_0@ == ErrorView::MissingToolPackage(name@)
                    } else {
                        r is Ok && r->Ok_0@ == found.packages@[places[0]].version@
                    }
                },
            },
    {
        match lookup {
            EnvironmentLookup::Missing(error) => Err(Error::EnvironmentError(error.clone())),
            EnvironmentLookup::InterpreterNotFound(error) => Err(
                Error::EnvironmentError(error.clone()),
            ),
            EnvironmentLookup::Failed(error) => Err(Error::EnvironmentError(error.clone())),
            EnvironmentLookup::Found(Err(error)) => Err(
                Error::EnvironmentRead(self.tool_dir(name), error.clone()),
            ),
            EnvironmentLookup::Found(Ok(found)) => {
                let matching = found.get_packages(name);
                if matching.len() == 0 {
                    Err(Error::MissingToolPackage(name.clone()))
                } else {
                    Ok(matching[0].version.clone())
                }
            },
        }
    }

    /// The file that keeps the tools directory out of version control.
    pub fn gitignore(&self) -> (r: FileWrite)
        ensures
            r.path@ == joined(self@, ".gitignore"@),
            r.contents@ == "*"@,
    {
        FileWrite { path: join(self.root.as_str(), ".gitignore"), contents: "*".to_owned() }
    }

    /// Initializes the tools directory, once it was created and its `.gitignore` was added. That
    /// there is one already is no failure.
    pub fn init(self, created: Result<(), IoError>, gitignore: GitignoreWrite) -> (r: Result<
        Self,
        Error,
    >)
        ensures
            match r {
                Ok(tools) => init_result(self@, created, gitignore) == Ok::<_, ErrorView>(tools@),
                Err(error) => init_result(self@, created, gitignore) == Err::<Seq<char>, _>(error@),
            },
    {
        if let Err(error) = created {
            return Err(Error::Io(error));
        }
        match gitignore {
            GitignoreWrite::Written => Ok(self),
            GitignoreWrite::NotWritten(error) => Err(Error::Io(error)),
            GitignoreWrite::NotCreated(error) => {
                if error.kind == IoErrorKind::AlreadyExists {
                    Ok(self)
                } else {
                    Err(Error::Io(error))
                }
            },
        }
    }
}

/// A uv-managed tool installed on the current system.
#[derive(Debug)]
pub struct InstalledTool {
    /// The path to the top-level directory of the tools.
    path: String,
}

impl Clone for InstalledTool {
    fn clone(&self) -> (r: Self)
        ensures
            r@ == self@,
    {
        InstalledTool { path: self.path.clone() }
    }
}

impl View for InstalledTool {
    type V = Seq<char>;

    closed spec fn view(&self) -> Seq<char> {
        self.path@
    }
}

/// How the tool at a path is shown: by the name of its directory, or by the whole path where that
/// has no name.
pub open spec fn shown_as(path: Seq<char>) -> Seq<char> {
    match last_name(path) {
        Some(name) => name,
        None => path,
    }
}

impl InstalledTool {
    pub fn new(path: String) -> (r: Result<Self, Error>)
        ensures
            r is Ok,
            r->Ok_0@ == path@,
    {
        Ok(InstalledTool { path })
    }

    pub fn path(&self) -> (r: &str)
        ensures
            r@ == self@,
    {
        self.path.as_str()
    }

    /// The text that shows the tool.
    pub fn display(&self) -> (r: String)
        ensures
            r@ == shown_as(self@),
    {
        match file_name(self.path.as_str()) {
            Some(name) => name.to_owned(),
            None => self.path.clone(),
        }
    }
}

pub proof fn lemma_name_is_plain(name: Seq<char>)
    requires
        is_package_name(name),
        name.len() > 0,
    ensures
        is_plain(name),
        name != seq!['.', '.'],
        !name.contains('/'),
{
    if name.contains('/') {
        let k = choose|k: int| 0 <= k < name.len() && name[k] == '/';
        assert(name[k] == '/');
    }
    let dot: Seq<char> = seq!['.'];
    let up: Seq<char> = seq!['.', '.'];
    assert(dot[0] == '.' && up[0] == '.');
    assert(!is_punctuation(name[0]));
}

/// The directory of a tool is listed under the tool's own name, and shown by it. The empty name is
/// left out: its directory is the tools directory itself.
pub proof fn tool_dir_reads_back<T>(root: Seq<char>, name: Seq<char>, directory: ToolDirectory<T>)
    requires
        is_package_name(name),
        name.len() > 0,
        last_name(tool_directory(root, name)) == Some(directory.name@),
    ensures
        directory.name@ == name,
        receipt_file(root, directory.name@) == receipt_file(root, name),
        shown_as(tool_directory(root, name)) == name,
        listing_entry(root, directory) matches Ok(entry) ==> entry.0 == name,
        directory.receipt matches ReceiptFile::Parsed(tool) ==> listing_entry(root, directory)
            == Ok::<(Seq<char>, Result<T, ErrorView>), ErrorView>((name, Ok(tool))),
{
    lemma_tool_dir_name(root, name);
}

/// The last component of the directory of a tool is the tool's name.
pub proof fn lemma_tool_dir_name(root: Seq<char>, name: Seq<char>)
    requires
        is_package_name(name),
        name.len() > 0,
    ensures
        last_name(tool_directory(root, name)) == Some(name),
{
    lemma_name_is_plain(name);
    components_of_piece(name);
    components_of_join(root, name);
    let slash: Seq<char> = seq!['/'];
    assert(slash[0] == '/');
    assert(slash.contains('/'));
}

/// The directory of a tool lies right in the tools directory, under the tool's name. The empty name
/// is left out: its directory is the tools directory itself.
pub proof fn tool_dir_is_in_root(root: Seq<char>, name: Seq<char>)
    requires
        is_package_name(name),
        name.len() > 0,
    ensures
        components(tool_directory(root, name)) == components(root).push(name),
{
    lemma_name_is_plain(name);
    components_of_piece(name);
    components_of_join(root, name);
    assert(components(root) + seq![name] == components(root).push(name));
}

/// Tools with different names have different directories and different receipts.
pub proof fn tool_dirs_differ(root: Seq<char>, a: Seq<char>, b: Seq<char>)
    requires
        is_package_name(a),
        is_package_name(b),
        a != b,
    ensures
        tool_directory(root, a) != tool_directory(root, b),
        receipt_file(root, a) != receipt_file(root, b),
{
    lemma_receipt_text(root, a);
    lemma_receipt_text(root, b);
    let prefix = tool_prefix(root);
    if prefix + a == prefix + b {
        assert((prefix + a).skip(prefix.len() as int) == a);
        assert((prefix + b).skip(prefix.len() as int) == b);
    }
    let tail_a = receipt_tail(a);
    let tail_b = receipt_tail(b);
    if prefix + tail_a == prefix + tail_b {
        assert((prefix + tail_a).skip(prefix.len() as int) == tail_a);
        assert((prefix + tail_b).skip(prefix.len() as int) == tail_b);
        assert(tail_a.len() == tail_b.len());
        assert(tail_a.take(a.len() as int) == a);
        assert(tail_b.take(b.len() as int) == b);
    }
}

/// What stands before the name in the directory of a tool.
spec fn tool_prefix(root: Seq<char>) -> Seq<char> {
    if root.len() == 0 || root.last() == '/' {
        root
    } else {
        root + seq!['/']
    }
}

/// What stands behind that in the path of a receipt.
spec fn receipt_tail(name: Seq<char>) -> Seq<char> {
    if name.len() == 0 {
        "uv-receipt.toml"@
    } else {
        name + seq!['/'] + "uv-receipt.toml"@
    }
}

proof fn lemma_receipt_text(root: Seq<char>, name: Seq<char>)
    requires
        is_package_name(name),
    ensures
        tool_directory(root, name) == tool_prefix(root) + name,
        receipt_file(root, name) == tool_prefix(root) + receipt_tail(name),
{
    lemma_not_absolute(name);
    reveal_strlit("uv-receipt.toml");
    let prefix = tool_prefix(root);
    let directory = tool_directory(root, name);
    assert(directory == prefix + name);
    if name.len() == 0 {
        assert(directory == prefix);
    } else {
        lemma_name_is_plain(name);
        assert(name.contains(name.last()));
        assert(directory.last() == name.last());
    }
    assert(receipt_file(root, name) == prefix + receipt_tail(name));
}

/// A missing or invalid receipt does not make the listing fail: where all names are package names
/// and every receipt that exists can be read, every directory is listed, in order and under its
/// normalized name.
pub proof fn listing_includes_all<T>(root: Seq<char>, directories: Seq<ToolDirectory<T>>)
    requires
        forall|i: int|
            0 <= i < directories.len() ==> valid_name((#[trigger] directories[i]).name@) && (
            directories[i].receipt matches ReceiptFile::Unreadable(error) ==> error.kind
                == IoErrorKind::NotFound),
    ensures
        listing(root, directories) is Ok,
        listing(root, directories)->Ok_0.len() == directories.len(),
        forall|i: int|
            0 <= i < directories.len() ==> (#[trigger] listing(root, directories)->Ok_0[i]).0
                == normal_name(directories[i].name@) && (listing(root, directories)->Ok_0[i].1 is Ok
                <==> directories[i].receipt is Parsed),
    decreases directories.len(),
{
    if directories.len() > 0 {
        let front = directories.drop_last();
        assert forall|i: int| 0 <= i < front.len() implies valid_name(
            (#[trigger] front[i]).name@,
        ) && (front[i].receipt matches ReceiptFile::Unreadable(error) ==> error.kind
            == IoErrorKind::NotFound) by {
            assert(front[i] == directories[i]);
        }
        listing_includes_all(root, front);
        let last = directories[directories.len() - 1];
        assert(valid_name(last.name@));
        let all = listing(root, directories)->Ok_0;
        let before = listing(root, front)->Ok_0;
        assert forall|i: int| 0 <= i < directories.len() implies (#[trigger] all[i]).0
            == normal_name(directories[i].name@) && (all[i].1 is Ok
            <==> directories[i].receipt is Parsed) by {
            if i < front.len() {
                assert(all[i] == before[i]);
                assert(front[i] == directories[i]);
            }
        }
    }
}

proof fn lemma_not_absolute(name: Seq<char>)
    requires
        is_package_name(name),
    ensures
        !absolute(name),
{
    if name.len() > 0 {
        lemma_name_is_plain(name);
        assert(name.contains(name[0]));
    }
}

} // verus!
