//! What errors say.

use vstd::prelude::*;

use crate::error::{Error, ErrorView};

verus! {

/// An error that another one caused alone says what that one says. Every other says what failed,
/// and names the paths, the tool or the package that it is about.
pub proof fn errors_say_what_they_are_about(error: &Error, r: String)
    requires
        call_ensures(Error::message, (error,), r),
    ensures
        match *error {
            Error::Io(cause) => r@ == cause.message@,
            Error::VirtualEnvError(cause) => r@ == cause@,
            Error::EnvironmentError(cause) => r@ == cause@,
            Error::Serialization(cause) => r@ == cause@,
            Error::ReceiptWrite(path, _) => r@ == "Failed to update `uv-receipt.toml` at "@ + path@,
            Error::ReceiptRead(path, _) => r@ == "Failed to read `uv-receipt.toml` at "@ + path@,
            Error::EntrypointRead(cause) => r@ == "Failed to read package entry points "@ + cause@,
            Error::DistInfoMissing(directory, path) => r@ == "Failed to find dist-info directory `"@
                + directory@ + "` in environment at "@ + path@,
            Error::NoExecutableDirectory => r@ == "Failed to find a directory for executables"@,
            Error::ToolName(text) => r@ == "Not a valid package or extra name: \""@ + text@
                + "\". Names must start and end with a letter or digit and may only contain -, _, ., and alphanumeric characters."@,
            Error::MissingToolReceipt(name, path) => r@ == "Failed to find a receipt for tool `"@
                + name@ + "` at "@ + path@,
            Error::EnvironmentRead(path, cause) => r@
                == "Failed to read tool environment packages at `"@ + path@ + "`: "@ + cause@,
            Error::MissingToolPackage(name) => r@ == "Failed find package `"@ + name@
                + "` in tool environment"@,
        },
{
}

/// Errors of different kinds, and errors about different things, have different contents.
pub proof fn contents_tell_errors_apart(error: Error)
    ensures
        match error@ {
            ErrorView::Io(cause) => error is Io && error->Io_0.kind == cause.kind
                && error->Io_0.message@ == cause.message,
            ErrorView::ReceiptWrite(path, cause) => error is ReceiptWrite
                && error->ReceiptWrite_0@ == path && error->ReceiptWrite_1@ == cause,
            ErrorView::ReceiptRead(path, cause) => error is ReceiptRead && error->ReceiptRead_0@
                == path && error->ReceiptRead_1@ == cause,
            ErrorView::VirtualEnvError(cause) => error is VirtualEnvError
                && error->VirtualEnvError_0@ == cause,
            ErrorView::EntrypointRead(cause) => error is EntrypointRead
                && error->EntrypointRead_0@ == cause,
            ErrorView::DistInfoMissing(directory, path) => error is DistInfoMissing
                && error->DistInfoMissing_0@ == directory && error->DistInfoMissing_1@ == path,
            ErrorView::NoExecutableDirectory => error is NoExecutableDirectory,
            ErrorView::ToolName(text) => error is ToolName && error->ToolName_0@ == text,
            ErrorView::EnvironmentError(cause) => error is EnvironmentError
                && error->EnvironmentError_0@ == cause,
            ErrorView::MissingToolReceipt(name, path) => error is MissingToolReceipt
                && error->MissingToolReceipt_0@ == name && error->MissingToolReceipt_1@ == path,
            ErrorView::EnvironmentRead(path, cause) => error is EnvironmentRead
                && error->EnvironmentRead_0@ == path && error->EnvironmentRead_1@ == cause,
            ErrorView::MissingToolPackage(name) => error is MissingToolPackage
                && error->MissingToolPackage_0@ == name,
            ErrorView::Serialization(cause) => error is Serialization
                && error->Serialization_0@ == cause,
        },
{
}

} // verus!
