//! What can go wrong with installed tools.

use vstd::prelude::*;

use crate::name::PackageName;

verus! {

/// The kinds of input and output errors that are told apart.
#[derive(Debug, Clone, Copy, PartialEq, Eq, Structural)]
pub enum IoErrorKind {
    NotFound,
    AlreadyExists,
    Other,
}

/// An error of reading or writing.
#[derive(Debug)]
pub struct IoError {
    pub kind: IoErrorKind,
    pub message: String,
}

/// The content of an [`IoError`].
pub struct IoErrorView {
    pub kind: IoErrorKind,
    pub message: Seq<char>,
}

impl View for IoError {
    type V = IoErrorView;

    open spec fn view(&self) -> IoErrorView {
        IoErrorView { kind: self.kind, message: self.message@ }
    }
}

/// An error of the tools. The texts hold paths, names and the messages of other errors.
#[derive(Debug)]
pub enum Error {
    Io(IoError),
    /// The path of the receipt, and the error.
    ReceiptWrite(String, String),
    /// The path of the receipt, and the error.
    ReceiptRead(String, String),
    VirtualEnvError(String),
    EntrypointRead(String),
    /// The directory, and the path of the environment.
    DistInfoMissing(String, String),
    NoExecutableDirectory,
    /// The text that is no package name.
    ToolName(String),
    EnvironmentError(String),
    /// The name of the tool, and the path of the receipt.
    MissingToolReceipt(String, String),
    /// The path of the environment, and the error.
    EnvironmentRead(String, String),
    MissingToolPackage(PackageName),
    Serialization(String),
}

/// The content of an [`Error`].
pub enum ErrorView {
    Io(IoErrorView),
    ReceiptWrite(Seq<char>, Seq<char>),
    ReceiptRead(Seq<char>, Seq<char>),
    VirtualEnvError(Seq<char>),
    EntrypointRead(Seq<char>),
    DistInfoMissing(Seq<char>, Seq<char>),
    NoExecutableDirectory,
    ToolName(Seq<char>),
    EnvironmentError(Seq<char>),
    MissingToolReceipt(Seq<char>, Seq<char>),
    EnvironmentRead(Seq<char>, Seq<char>),
    MissingToolPackage(Seq<char>),
    Serialization(Seq<char>),
}

impl View for Error {
    type V = ErrorView;

    open spec fn view(&self) -> ErrorView {
        match self {
            Error::Io(error) => ErrorView::Io(error@),
            Error::ReceiptWrite(path, error) => ErrorView::ReceiptWrite(path@, error@),
            Error::ReceiptRead(path, error) => ErrorView::ReceiptRead(path@, error@),
            Error::VirtualEnvError(error) => ErrorView::VirtualEnvError(error@),
            Error::EntrypointRead(error) => ErrorView::EntrypointRead(error@),
            Error::DistInfoMissing(directory, path) => ErrorView::DistInfoMissing(
                directory@,
                path@,
            ),
            Error::NoExecutableDirectory => ErrorView::NoExecutableDirectory,
            Error::ToolName(text) => ErrorView::ToolName(text@),
            Error::EnvironmentError(error) => ErrorView::EnvironmentError(error@),
            Error::MissingToolReceipt(name, path) => ErrorView::MissingToolReceipt(name@, path@),
            Error::EnvironmentRead(path, error) => ErrorView::EnvironmentRead(path@, error@),
            Error::MissingToolPackage(name) => ErrorView::MissingToolPackage(name@),
            Error::Serialization(error) => ErrorView::Serialization(error@),
        }
    }
}

/// The text of an error.
pub open spec fn message_of(error: ErrorView) -> Seq<char> {
    match error {
        ErrorView::Io(error) => error.message,
        ErrorView::ReceiptWrite(path, _) => "Failed to update `uv-receipt.toml` at "@ + path,
        ErrorView::ReceiptRead(path, _) => "Failed to read `uv-receipt.toml` at "@ + path,
        ErrorView::VirtualEnvError(error) => error,
        ErrorView::EntrypointRead(error) => "Failed to read package entry points "@ + error,
        ErrorView::DistInfoMissing(directory, path) => "Failed to find dist-info directory `"@
            + directory + "` in environment at "@ + path,
        ErrorView::NoExecutableDirectory => "Failed to find a directory for executables"@,
        ErrorView::ToolName(text) => "Not a valid package or extra name: \""@ + text
            + "\". Names must start and end with a letter or digit and may only contain -, _, ., and alphanumeric characters."@,
        ErrorView::EnvironmentError(error) => error,
        ErrorView::MissingToolReceipt(name, path) => "Failed to find a receipt for tool `"@ + name
            + "` at "@ + path,
        ErrorView::EnvironmentRead(path, error) => "Failed to read tool environment packages at `"@
            + path + "`: "@ + error,
        ErrorView::MissingToolPackage(name) => "Failed find package `"@ + name
            + "` in tool environment"@,
        ErrorView::Serialization(error) => error,
    }
}

impl Error {
    /// The text of the error.
    pub fn message(&self) -> (r: String)
        ensures
            r@ == message_of(self@),
    {
        match self {
            Error::Io(error) => error.message.clone(),
            Error::ReceiptWrite(path, _) => "Failed to update `uv-receipt.toml` at ".to_owned().concat(
                path.as_str(),
            ),
            Error::ReceiptRead(path, _) => "Failed to read `uv-receipt.toml` at ".to_owned().concat(
                path.as_str(),
            ),
            Error::VirtualEnvError(error) => error.clone(),
            Error::EntrypointRead(error) => "Failed to read package entry points ".to_owned().concat(
                error.as_str(),
            ),
            Error::DistInfoMissing(
                directory,
                path,
            ) => "Failed to find dist-info directory `".to_owned().concat(
                directory.as_str(),
            ).concat("` in environment at ").concat(path.as_str()),
            Error::NoExecutableDirectory => "Failed to find a directory for executables".to_owned(),
            Error::ToolName(text) => "Not a valid package or extra name: \"".to_owned().concat(
                text.as_str(),
            ).concat(
                "\". Names must start and end with a letter or digit and may only contain -, _, ., and alphanumeric characters.",
            ),
            Error::EnvironmentError(error) => error.clone(),
            Error::MissingToolReceipt(
                name,
                path,
            ) => "Failed to find a receipt for tool `".to_owned().concat(name.as_str()).concat(
                "` at ",
            ).concat(path.as_str()),
            Error::EnvironmentRead(
                path,
                error,
            ) => "Failed to read tool environment packages at `".to_owned().concat(
                path.as_str(),
            ).concat("`: ").concat(error.as_str()),
            Error::MissingToolPackage(name) => "Failed find package `".to_owned().concat(
                name.as_str(),
            ).concat("` in tool environment"),
            Error::Serialization(error) => error.clone(),
        }
    }
}

} // verus!
