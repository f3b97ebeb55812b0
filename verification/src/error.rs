//! Failures of the system and of the runtime, as the runtime reads them.

use crate::path::UnixPath;
use vstd::prelude::*;

verus! {

/// The kinds of failure that the runtime tells apart or reports.
#[derive(Clone, Copy, Debug, PartialEq, Eq, Structural)]
pub enum ErrorKind {
    NotFound,
    InvalidInput,
    InvalidData,
    Unsupported,
    Other,
    /// Any other kind; the runtime hands it on and never asks for it.
    Uncategorized,
}

/// A failure: its kind, the number of the system error behind it, if there is
/// one, and the text that describes it.
#[derive(Debug)]
pub struct IoError {
    pub kind: ErrorKind,
    pub raw_os_error: Option<i32>,
    pub message: String,
}

#[verifier::ext_equal]
pub struct IoErrorView {
    pub kind: ErrorKind,
    pub raw_os_error: Option<i32>,
    pub message: Seq<char>,
}

impl View for IoError {
    type V = IoErrorView;

    open spec fn view(&self) -> IoErrorView {
        IoErrorView {
            kind: self.kind,
            raw_os_error: self.raw_os_error,
            message: self.message@,
        }
    }
}

/// A failure that the runtime itself reports.
pub open spec fn reported(kind: ErrorKind, message: Seq<char>) -> IoErrorView {
    IoErrorView { kind, raw_os_error: None, message }
}

impl IoError {
    /// A failure that the runtime itself reports.
    pub fn new(kind: ErrorKind, message: String) -> (error: IoError)
        ensures
            error@ == reported(kind, message@),
    {
        IoError { kind, raw_os_error: None, message }
    }

    /// A failure of no particular kind.
    pub fn other(message: String) -> (error: IoError)
        ensures
            error@ == reported(ErrorKind::Other, message@),
    {
        IoError { kind: ErrorKind::Other, raw_os_error: None, message }
    }

    /// Whether the system error behind the failure has the given number.
    pub fn has_number(&self, number: i32) -> (same: bool)
        ensures
            same == (self.raw_os_error == Some(number)),
    {
        match self.raw_os_error {
            Some(raw) => raw == number,
            None => false,
        }
    }
}

/// The view of a result that carries nothing.
pub open spec fn unit_result(result: Result<(), IoError>) -> Result<(), IoErrorView> {
    match result {
        Ok(_) => Ok(()),
        Err(error) => Err(error@),
    }
}

/// The view of a result that carries a path.
pub open spec fn path_result(result: Result<UnixPath, IoError>) -> Result<Seq<u8>, IoErrorView> {
    match result {
        Ok(path) => Ok(path@),
        Err(error) => Err(error@),
    }
}

/// The view of a result that carries a text.
pub open spec fn text_result(result: Result<String, IoError>) -> Result<Seq<char>, IoErrorView> {
    match result {
        Ok(text) => Ok(text@),
        Err(error) => Err(error@),
    }
}

/// A result is seen as it is: a success with all that it carries, and a failure with its
/// kind, its number and its whole text.
pub proof fn law_results_are_seen_as_they_are(
    done: Result<(), IoError>,
    path: Result<UnixPath, IoError>,
    text: Result<String, IoError>,
    error: IoError,
)
    ensures
        unit_result(done) is Ok <==> done is Ok,
        done matches Err(failure) ==> unit_result(done) == Err::<(), IoErrorView>(failure@),
        path matches Ok(value) ==> path_result(path) == Ok::<Seq<u8>, IoErrorView>(value@),
        path matches Err(failure) ==> path_result(path) == Err::<Seq<u8>, IoErrorView>(failure@),
        text matches Ok(value) ==> text_result(text) == Ok::<Seq<char>, IoErrorView>(value@),
        text matches Err(failure) ==> text_result(text) == Err::<Seq<char>, IoErrorView>(failure@),
        error@.kind == error.kind,
        error@.raw_os_error == error.raw_os_error,
        error@.message == error.message@,
{
}

/// A failure that the runtime reports has the given kind and text, and no system error
/// behind it.
pub proof fn law_reports_say_what_they_are_given(kind: ErrorKind, message: Seq<char>)
    ensures
        reported(kind, message).kind == kind,
        reported(kind, message).message == message,
        reported(kind, message).raw_os_error is None,
{
}

} // verus!
