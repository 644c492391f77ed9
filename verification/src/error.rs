//! The closed set of failures that evaluating a rule can end in.

use crate::text::debug_quoted;
use crate::text::push_signed_decimal;
use crate::text::quote_debug;
use crate::text::signed_decimal;
use vstd::prelude::*;
use vstd::string::StringExecFns;

verus! {

/// Why evaluating a rule failed.
#[derive(Debug, PartialEq, Eq)]
pub enum Error {
    /// The shell ran the command and it exited with this non-zero code.
    CommandFailed(i32),
    /// Nothing exists at this path.
    NotFound(String),
    /// Any other failure of the operating system: the path, then the cause.
    IO(String, String),
    /// The rule declares no output.
    MissingOutputs,
    /// This declared input does not exist.
    MissingInput(String),
    /// This declared output does not exist and nothing can build it, or it
    /// is still absent after the command succeeded.
    MissingOutput(String),
}

/// An [`Error`] with its strings as sequences of characters.
pub enum ErrorView {
    CommandFailed(int),
    NotFound(Seq<char>),
    IO(Seq<char>, Seq<char>),
    MissingOutputs,
    MissingInput(Seq<char>),
    MissingOutput(Seq<char>),
}

impl View for Error {
    type V = ErrorView;

    open spec fn view(&self) -> ErrorView {
        match self {
            Error::CommandFailed(code) => ErrorView::CommandFailed(*code as int),
            Error::NotFound(path) => ErrorView::NotFound(path@),
            Error::IO(path, cause) => ErrorView::IO(path@, cause@),
            Error::MissingOutputs => ErrorView::MissingOutputs,
            Error::MissingInput(path) => ErrorView::MissingInput(path@),
            Error::MissingOutput(path) => ErrorView::MissingOutput(path@),
        }
    }
}

/// A failure reported by the operating system, before it is tied to a path.
#[derive(Debug, PartialEq, Eq)]
pub struct IoFault {
    /// Whether the system said that the path does not exist.
    pub not_found: bool,
    /// The system's own words for the failure.
    pub cause: String,
}

/// An [`IoFault`] with its cause as a sequence of characters.
pub struct IoFaultView {
    pub not_found: bool,
    pub cause: Seq<char>,
}

impl View for IoFault {
    type V = IoFaultView;

    open spec fn view(&self) -> IoFaultView {
        IoFaultView { not_found: self.not_found, cause: self.cause@ }
    }
}

/// The error that a fault at `path` stands for: a path that does not exist
/// is told apart from every other failure.
pub open spec fn fault_at(path: Seq<char>, fault: IoFaultView) -> ErrorView {
    if fault.not_found {
        ErrorView::NotFound(path)
    } else {
        ErrorView::IO(path, fault.cause)
    }
}

/// The one line that tells a user of the error. A failure of the system
/// shows the system's words and the path; an error of the user reads as a
/// plain sentence.
pub open spec fn message_spec(e: ErrorView) -> Seq<char> {
    match e {
        ErrorView::CommandFailed(code) => "command failed with code "@ + signed_decimal(code),
        ErrorView::NotFound(path) => "no such file or directory at "@ + debug_quoted(path),
        ErrorView::IO(path, cause) => cause + " at "@ + debug_quoted(path),
        ErrorView::MissingOutputs => "no output was declared"@,
        ErrorView::MissingInput(path) => "input \""@ + path + "\" does not exist"@,
        ErrorView::MissingOutput(path) => "output \""@ + path + "\" was not created"@,
    }
}

/// The status that the process ends with after the error: the code of a
/// command that failed, and 1 for every other error.
pub open spec fn exit_status_spec(e: ErrorView) -> int {
    match e {
        ErrorView::CommandFailed(code) => code,
        _ => 1,
    }
}

impl Clone for IoFault {
    fn clone(&self) -> (copy: IoFault)
        ensures
            copy@ == self@,
    {
        IoFault { not_found: self.not_found, cause: self.cause.clone() }
    }
}

impl Clone for Error {
    fn clone(&self) -> (copy: Error)
        ensures
            copy@ == self@,
    {
        match self {
            Error::CommandFailed(code) => Error::CommandFailed(*code),
            Error::NotFound(path) => Error::NotFound(path.clone()),
            Error::IO(path, cause) => Error::IO(path.clone(), cause.clone()),
            Error::MissingOutputs => Error::MissingOutputs,
            Error::MissingInput(path) => Error::MissingInput(path.clone()),
            Error::MissingOutput(path) => Error::MissingOutput(path.clone()),
        }
    }
}

impl Error {
    /// Whether this error says that a path does not exist.
    pub fn is_not_found(&self) -> (found: bool)
        ensures
            found == (self@ is NotFound),
    {
        match self {
            Error::NotFound(_) => true,
            _ => false,
        }
    }

    /// The status to end the process with after this error.
    pub fn exit_status(&self) -> (status: i32)
        ensures
            status as int == exit_status_spec(self@),
    {
        match self {
            Error::CommandFailed(code) => *code,
            _ => 1,
        }
    }

    /// The message of this error, as one line without a line end.
    pub fn message(&self) -> (text: String)
        ensures
            text@ == message_spec(self@),
    {
        match self {
            Error::CommandFailed(code) => {
                let mut text = "command failed with code ".to_owned();
                push_signed_decimal(&mut text, *code);
                text
            },
            Error::NotFound(path) => {
                let mut text = "no such file or directory at ".to_owned();
                text.append(quote_debug(path).as_str());
                text
            },
            Error::IO(path, cause) => {
                let mut text = cause.clone();
                text.append(" at ");
                text.append(quote_debug(path).as_str());
                text
            },
            Error::MissingOutputs => "no output was declared".to_owned(),
            Error::MissingInput(path) => {
                let mut text = "input \"".to_owned();
                text.append(path.as_str());
                text.append("\" does not exist");
                text
            },
            Error::MissingOutput(path) => {
                let mut text = "output \"".to_owned();
                text.append(path.as_str());
                text.append("\" was not created");
                text
            },
        }
    }

    /// The error for a fault met at `path`.
    pub fn at(path: String, fault: IoFault) -> (e: Error)
        ensures
            e@ == fault_at(path@, fault@),
    {
        if fault.not_found {
            Error::NotFound(path)
        } else {
            Error::IO(path, fault.cause)
        }
    }

    /// The error for a fault that is tied to no path.
    pub fn from(fault: IoFault) -> (e: Error)
        ensures
            e@ == fault_at(Seq::<char>::empty(), fault@),
    {
        Error::at(String::new(), fault)
    }
}

/// Ties the failure of an operation to the path it was working on.
pub trait ResultExt<T> {
    /// What `map_err_path_context` returns for `path`.
    spec fn with_path(self, path: Seq<char>) -> Result<T, ErrorView>;

    /// Keeps a success as it is and turns a fault into the error at `path`.
    fn map_err_path_context(self, path: String) -> (r: Result<T, Error>)
        ensures
            match (r, self.with_path(path@)) {
                (Ok(a), Ok(b)) => a == b,
                (Err(e), Err(v)) => e@ == v,
                _ => false,
            },
    ;
}

impl<T> ResultExt<T> for Result<T, IoFault> {
    open spec fn with_path(self, path: Seq<char>) -> Result<T, ErrorView> {
        match self {
            Ok(value) => Ok(value),
            Err(fault) => Err(fault_at(path, fault@)),
        }
    }

    fn map_err_path_context(self, path: String) -> (r: Result<T, Error>) {
        match self {
            Ok(value) => Ok(value),
            Err(fault) => Err(Error::at(path, fault)),
        }
    }
}

} // verus!
