//! The error that storage operations report.

use vstd::prelude::*;

verus! {

/// The kinds of error that the storage reports.
#[derive(Clone, Copy, Debug, PartialEq, Eq, Structural)]
pub enum ErrorKind {
    /// A request to the CDN failed.
    Other,
    /// The storage does not offer the operation.
    Unsupported,
}

/// A storage error: its kind and its message.
#[derive(Debug)]
pub struct StorageError {
    pub kind: ErrorKind,
    pub message: String,
}

/// What a [`StorageError`] says.
pub struct ErrorView {
    pub kind: ErrorKind,
    pub message: Seq<char>,
}

impl View for StorageError {
    type V = ErrorView;

    open spec fn view(&self) -> ErrorView {
        ErrorView { kind: self.kind, message: self.message@ }
    }
}

/// The view of what a fallible transfer gave: the bytes received, or the error.
pub open spec fn transfer_view(result: Result<Vec<u8>, StorageError>) -> Result<
    Seq<u8>,
    ErrorView,
> {
    match result {
        Ok(bytes) => Ok(bytes@),
        Err(error) => Err(error@),
    }
}

/// What is said of an error or of what came is said of its own kind and message, or of its own
/// bytes.
pub proof fn law_views_hide_nothing(error: StorageError, bytes: Vec<u8>)
    ensures
        error@.kind == error.kind,
        error@.message == error.message@,
        transfer_view(Ok(bytes)) == Ok::<Seq<u8>, ErrorView>(bytes@),
        transfer_view(Err(error)) == Err::<Seq<u8>, ErrorView>(error@),
{
}

} // verus!
