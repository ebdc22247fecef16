//! What the operations on the tools directory answer, in terms of what they are handed.

use vstd::prelude::*;

use crate::directory_laws::below;
use crate::error::{Error, ErrorView, IoError, IoErrorKind};
use crate::installed::{
    listing, listing_entry, receipt_file, tool_directory, tool_view, tool_views, EnvironmentLookup,
    FileWrite, GitignoreWrite, InstalledTool, InstalledTools, ReceiptFile, ToolDirectory,
    VenvRequest,
};
use crate::name::{is_package_name, normal_name, valid_name, PackageName};
use crate::path::{file_name, joined};
use crate::text_laws::{is_name_text, lemma_name_text};

verus! {

/// The directory of a tool lies below the tools directory.
pub proof fn lemma_tool_directory(root: Seq<char>, name: Seq<char>)
    requires
        is_package_name(name),
    ensures
        tool_directory(root, name) == below(root, name),
{
    if name.len() > 0 {
        assert(crate::name::is_name_char(name[0]));
    }
}

/// Whether an error hands on one of reading or writing.
pub open spec fn hands_on(error: Error, io: IoError) -> bool {
    error matches Error::Io(inner) && inner.kind == io.kind && inner.message@ == io.message@
}

/// The tools directory is the one that it was made with.
pub proof fn root_is_kept(path: String, tools: InstalledTools, r: &str)
    requires
        call_ensures(InstalledTools::from_path, (path,), tools),
        call_ensures(InstalledTools::root, (&tools,), r),
    ensures
        r@ == path@,
        tools@ == path@,
{
}

/// The tools directory is the one that the user names, whatever else there is; else `tools` in the
/// user's data directory; else `tools` in `.uv`. Only where the user names none does it matter
/// whether the data directory can be told.
pub proof fn settings_choose_the_root(
    tool_dir: Option<String>,
    data_dir: Result<Option<String>, IoError>,
    r: Result<InstalledTools, Error>,
)
    requires
        call_ensures(InstalledTools::from_settings, (tool_dir, data_dir), r),
    ensures
        tool_dir matches Some(path) ==> r is Ok && r->Ok_0@ == path@,
        tool_dir is None ==> match data_dir {
            Ok(Some(path)) => r is Ok && r->Ok_0@ == below(path@, "tools"@),
            Ok(None) => r is Ok && r->Ok_0@ == ".uv/tools"@,
            Err(error) => r is Err && hands_on(r->Err_0, error),
        },
{
    reveal_strlit("tools");
    reveal_strlit(".uv");
    reveal_strlit(".uv/tools");
    assert(".uv"@ + seq!['/'] + "tools"@ == ".uv/tools"@);
}

/// A temporary tools directory is `tools` in the temporary directory.
pub proof fn temporary_root_is_below(
    directory: Result<String, IoError>,
    r: Result<InstalledTools, Error>,
)
    requires
        call_ensures(InstalledTools::temp, (directory,), r),
    ensures
        match directory {
            Ok(path) => r is Ok && r->Ok_0@ == below(path@, "tools"@),
            Err(error) => r is Err && hands_on(r->Err_0, error),
        },
{
    reveal_strlit("tools");
}

/// What belongs to a tool lies in the directory below the root that has the tool's name; the lock
/// and the `.gitignore`, which ignores everything, lie in the root.
pub proof fn paths_lie_below_the_root(
    tools: &InstalledTools,
    name: &PackageName,
    directory: &str,
    tool_dir: String,
    receipt_path: String,
    lock_path: String,
    gitignore: FileWrite,
)
    requires
        is_package_name(name@),
        directory@ == name@,
        call_ensures(InstalledTools::tool_dir, (tools, name), tool_dir),
        call_ensures(InstalledTools::receipt_path, (tools, directory), receipt_path),
        call_ensures(InstalledTools::lock_path, (tools,), lock_path),
        call_ensures(InstalledTools::gitignore, (tools,), gitignore),
    ensures
        tool_dir@ == below(tools@, name@),
        receipt_path@ == below(tool_dir@, "uv-receipt.toml"@),
        lock_path@ == below(tools@, ".lock"@),
        gitignore.path@ == below(tools@, ".gitignore"@),
        gitignore.contents@ == seq!['*'],
{
    reveal_strlit("uv-receipt.toml");
    reveal_strlit(".lock");
    reveal_strlit(".gitignore");
    reveal_strlit("*");
    lemma_tool_directory(tools@, name@);
    assert("*"@ == seq!['*']);
}

/// The receipt in any directory below the root is looked for there under the same name.
pub proof fn receipts_lie_in_their_directories(
    tools: &InstalledTools,
    directory: &str,
    receipt_path: String,
)
    requires
        directory@.len() > 0 ==> directory@[0] != '/',
        call_ensures(InstalledTools::receipt_path, (tools, directory), receipt_path),
    ensures
        receipt_path@ == receipt_below(tools@, directory@),
{
    reveal_strlit("uv-receipt.toml");
}

/// A copy of the tools is about the same directory, and a copy of a tool about the same path.
pub proof fn copies_are_alike(
    tools: &InstalledTools,
    copy: InstalledTools,
    tool: &InstalledTool,
    other: InstalledTool,
)
    requires
        call_ensures(InstalledTools::clone, (tools,), copy),
        call_ensures(InstalledTool::clone, (tool,), other),
    ensures
        copy@ == tools@,
        other@ == tool@,
{
}

/// Whether a directory makes the listing fail: its name is no package name, or its receipt is there
/// but cannot be read.
pub open spec fn spoils<T>(directory: ToolDirectory<T>) -> bool {
    ||| !is_name_text(directory.name@)
    ||| directory.receipt matches ReceiptFile::Unreadable(error) && error.kind
        != IoErrorKind::NotFound
}

/// Where the receipt of a directory below the root lies.
pub open spec fn receipt_below(root: Seq<char>, directory: Seq<char>) -> Seq<char> {
    below(below(root, directory), "uv-receipt.toml"@)
}

/// Whether a directory is listed as a tool: under its normalized name, with the tool, or with what
/// is wrong with its receipt.
pub open spec fn is_listed_as<T>(
    root: Seq<char>,
    directory: ToolDirectory<T>,
    tool: (PackageName, Result<T, Error>),
) -> bool {
    &&& tool.0@ == normal_name(directory.name@)
    &&& match directory.receipt {
        ReceiptFile::Parsed(parsed) => tool.1 == Ok::<T, Error>(parsed),
        ReceiptFile::Invalid(error) => tool.1 is Err && tool.1->Err_0@ == ErrorView::ReceiptRead(
            receipt_below(root, directory.name@),
            error@,
        ),
        ReceiptFile::Unreadable(_) => tool.1 is Err && tool.1->Err_0@
            == ErrorView::MissingToolReceipt(
            normal_name(directory.name@),
            receipt_below(root, directory.name@),
        ),
    }
}

/// Whether an error is what a directory makes the listing fail with.
pub open spec fn is_spoiled_by<T>(error: Error, directory: ToolDirectory<T>) -> bool {
    if !is_name_text(directory.name@) {
        error@ == ErrorView::ToolName(directory.name@)
    } else {
        directory.receipt matches ReceiptFile::Unreadable(io) && hands_on(error, io)
    }
}

proof fn lemma_entry<T>(root: Seq<char>, directory: ToolDirectory<T>)
    ensures
        listing_entry(root, directory) is Err <==> spoils(directory),
        !spoils(directory) ==> receipt_file(root, directory.name@) == receipt_below(
            root,
            directory.name@,
        ),
{
    let name = directory.name@;
    lemma_name_text(name);
    reveal_strlit("uv-receipt.toml");
    if valid_name(name) && name.len() > 0 {
        assert(crate::name::is_name_char(name[0]));
        assert(joined(root, name) == below(root, name));
    }
}

/// Whether a directory is the first that makes the listing fail.
pub open spec fn is_first_spoiling<T>(directories: Seq<ToolDirectory<T>>, at: int) -> bool {
    &&& 0 <= at < directories.len()
    &&& spoils(directories[at])
    &&& forall|k: int| 0 <= k < at ==> !spoils(#[trigger] directories[k])
}

proof fn lemma_listing<T>(root: Seq<char>, directories: Seq<ToolDirectory<T>>)
    ensures
        listing(root, directories) matches Ok(list) ==> list.len() == directories.len()
            && forall|i: int|
            0 <= i < directories.len() ==> !spoils(#[trigger] directories[i]) && listing_entry(
                root,
                directories[i],
            ) == Ok::<_, ErrorView>(list[i]),
        listing(root, directories) matches Err(error) ==> exists|at: int| #[trigger]
            is_first_spoiling(directories, at) && listing_entry(root, directories[at]) == Err::<
                (Seq<char>, Result<T, ErrorView>),
                _,
            >(error),
    decreases directories.len(),
{
    if directories.len() > 0 {
        let front = directories.drop_last();
        let last = directories[directories.len() - 1];
        lemma_listing(root, front);
        lemma_entry(root, last);
        match listing(root, front) {
            Err(error) => {
                let at = choose|at: int| #[trigger]
                    is_first_spoiling(front, at) && listing_entry(root, front[at]) == Err::<
                        (Seq<char>, Result<T, ErrorView>),
                        _,
                    >(error);
                assert(directories[at] == front[at]);
                assert forall|k: int| 0 <= k < at implies !spoils(#[trigger] directories[k]) by {
                    assert(directories[k] == front[k]);
                }
                assert(is_first_spoiling(directories, at));
            },
            Ok(before) => {
                assert forall|k: int| 0 <= k < front.len() implies !spoils(
                    #[trigger] directories[k],
                ) && listing_entry(root, directories[k]) == Ok::<_, ErrorView>(before[k]) by {
                    assert(directories[k] == front[k]);
                }
                if spoils(last) {
                    assert(is_first_spoiling(directories, directories.len() - 1));
                }
            },
        }
    }
}

/// The listing succeeds exactly where no directory spoils it, and then lists every directory, in
/// order. Otherwise it tells what the first that spoils it makes it fail with.
pub proof fn every_directory_is_listed<T>(
    tools: &InstalledTools,
    directories: Vec<ToolDirectory<T>>,
    r: Result<Vec<(PackageName, Result<T, Error>)>, Error>,
)
    requires
        call_ensures(InstalledTools::tools::<T>, (tools, directories), r),
    ensures
        match r {
            Ok(list) => {
                &&& list@.len() == directories@.len()
                &&& forall|i: int|
                    0 <= i < directories@.len() ==> !spoils(#[trigger] directories@[i])
                        && is_listed_as(tools@, directories@[i], list@[i])
            },
            Err(error) => exists|at: int| #[trigger]
                is_first_spoiling(directories@, at) && is_spoiled_by(error, directories@[at]),
        },
{
    let all = directories@;
    lemma_listing(tools@, all);
    match r {
        Ok(list) => {
            let views = tool_views(list@);
            assert(views.len() == list@.len());
            assert forall|i: int| 0 <= i < all.len() implies !spoils(#[trigger] all[i])
                && is_listed_as(tools@, all[i], list@[i]) by {
                lemma_entry(tools@, all[i]);
                assert(views[i] == tool_view(list@[i]));
            }
        },
        Err(error) => {
            let at = choose|at: int| #[trigger]
                is_first_spoiling(all, at) && listing_entry(tools@, all[at]) == Err::<
                    (Seq<char>, Result<T, ErrorView>),
                    _,
                >(error@);
            lemma_name_text(all[at].name@);
            assert(is_spoiled_by(error, all[at]));
        },
    }
}

/// A receipt that was parsed gives its tool, and one that is not there gives none. Any other is an
/// error, which tells the receipt's path where it is invalid.
pub proof fn receipts_give_their_tools<T>(
    tools: &InstalledTools,
    name: &PackageName,
    receipt: ReceiptFile<T>,
    r: Result<Option<T>, Error>,
)
    requires
        is_package_name(name@),
        call_ensures(InstalledTools::get_tool_receipt::<T>, (tools, name, receipt), r),
    ensures
        match receipt {
            ReceiptFile::Parsed(tool) => r == Ok::<Option<T>, Error>(Some(tool)),
            ReceiptFile::Invalid(error) => r is Err && r->Err_0@ == ErrorView::ReceiptRead(
                receipt_below(tools@, name@),
                error@,
            ),
            ReceiptFile::Unreadable(error) => if error.kind == IoErrorKind::NotFound {
                r == Ok::<Option<T>, Error>(None)
            } else {
                r is Err && hands_on(r->Err_0, error)
            },
        },
{
    reveal_strlit("uv-receipt.toml");
    lemma_tool_directory(tools@, name@);
}

/// The receipt of a tool is written, as it is, where receipts of that tool are read.
pub proof fn receipts_are_written_where_they_are_read(
    tools: &InstalledTools,
    name: &PackageName,
    document: Result<String, String>,
    directory: &str,
    read_from: String,
    r: Result<FileWrite, Error>,
)
    requires
        directory@ == name@,
        call_ensures(InstalledTools::receipt_path, (tools, directory), read_from),
        call_ensures(InstalledTools::add_tool_receipt, (tools, name, document), r),
    ensures
        match document {
            Ok(text) => r is Ok && r->Ok_0.path@ == read_from@ && r->Ok_0.contents@ == text@,
            Err(error) => r is Err && r->Err_0@ == ErrorView::Serialization(error@),
        },
{
}

/// A removal succeeds exactly where the directory was removed; otherwise its error is handed on,
/// that nothing was there among them.
pub proof fn removals_are_handed_on(removed: Result<(), IoError>, r: Result<(), Error>)
    requires
        call_ensures(InstalledTools::remove_environment, (removed,), r),
    ensures
        match removed {
            Ok(_) => r is Ok,
            Err(error) => r is Err && hands_on(r->Err_0, error),
        },
{
}

/// An environment that was found is given as it is. One that is missing, or whose interpreter is,
/// is none; anything else is an error.
pub proof fn environments_are_given<E>(lookup: EnvironmentLookup<E>, r: Result<Option<E>, Error>)
    requires
        call_ensures(InstalledTools::get_environment::<E>, (lookup,), r),
    ensures
        r matches Ok(Some(environment)) <==> lookup is Found,
        lookup matches EnvironmentLookup::Found(environment) ==> r == Ok::<Option<E>, Error>(
            Some(environment),
        ),
        r matches Ok(None) <==> lookup is Missing || lookup is InterpreterNotFound,
        lookup matches EnvironmentLookup::Failed(error) ==> r is Err && r->Err_0@
            == ErrorView::EnvironmentError(error@),
{
}

/// An environment is created in the directory of the tool, plain, once an old one is gone. That there
/// was none is no failure; any other failure to remove it is handed on.
pub proof fn environments_are_created_afresh(
    tools: &InstalledTools,
    name: &PackageName,
    removed: Result<(), IoError>,
    tool_dir: String,
    r: Result<VenvRequest, Error>,
)
    requires
        call_ensures(InstalledTools::tool_dir, (tools, name), tool_dir),
        call_ensures(InstalledTools::create_environment, (tools, name, removed), r),
    ensures
        r is Ok <==> (removed matches Err(error) ==> error.kind == IoErrorKind::NotFound),
        r matches Ok(request) ==> request.path@ == tool_dir@ && request.prompt is None
            && !request.system_site_packages && !request.allow_existing && !request.relocatable,
        r matches Err(error) ==> removed is Err && hands_on(error, removed->Err_0),
{
}

/// The initialization succeeds exactly where the directory was created and its `.gitignore` was
/// written or there already; it then keeps the root. Otherwise the error is handed on, that of the
/// directory first.
pub proof fn initialization_keeps_the_root(
    tools: InstalledTools,
    created: Result<(), IoError>,
    gitignore: GitignoreWrite,
    r: Result<InstalledTools, Error>,
)
    requires
        call_ensures(InstalledTools::init, (tools, created, gitignore), r),
    ensures
        r is Ok <==> created is Ok && (gitignore is Written || (gitignore matches
            GitignoreWrite::NotCreated(error) && error.kind == IoErrorKind::AlreadyExists)),
        r matches Ok(same) ==> same@ == tools@,
        r matches Err(error) ==> match created {
            Err(io) => hands_on(error, io),
            Ok(_) => match gitignore {
                GitignoreWrite::NotCreated(io) => hands_on(error, io),
                GitignoreWrite::NotWritten(io) => hands_on(error, io),
                GitignoreWrite::Written => false,
            },
        },
{
}

/// A tool keeps its path, and is shown by the name of its directory, or by the whole path where that
/// has no name.
pub proof fn tools_are_shown_by_name<'a>(
    path: String,
    made: Result<InstalledTool, Error>,
    kept: &str,
    text: &'a str,
    name: Option<&'a str>,
    shown: String,
)
    requires
        call_ensures(InstalledTool::new, (path,), made),
        made is Ok ==> call_ensures(InstalledTool::path, (&made->Ok_0,), kept),
        made is Ok ==> call_ensures(InstalledTool::display, (&made->Ok_0,), shown),
        text@ == path@,
        call_ensures(file_name, (text,), name),
    ensures
        made is Ok,
        kept@ == path@,
        match name {
            Some(last) => shown@ == last@,
            None => shown@ == path@,
        },
{
}

} // verus!
