//! The errors that an operation on a repository can end in.

use vstd::prelude::*;

verus! {

/// How an operation failed.
#[derive(Debug)]
pub enum DitError {
    /// No repository was found.
    NotInitialized,
    /// A file of the repository is not there, or could not be read or
    /// written.
    IoError(String),
    /// What was found breaks a rule of the repository.
    UnexpectedComportement(String),
}

/// An error, as a value.
pub enum Failure {
    NotInitialized,
    IoError(Seq<char>),
    UnexpectedComportement(Seq<char>),
}

impl View for DitError {
    type V = Failure;

    open spec fn view(&self) -> Failure {
        match self {
            DitError::NotInitialized => Failure::NotInitialized,
            DitError::IoError(m) => Failure::IoError(m@),
            DitError::UnexpectedComportement(m) => Failure::UnexpectedComportement(m@),
        }
    }
}

impl Failure {
    /// The sentence that reports this error.
    pub open spec fn message(self) -> Seq<char> {
        match self {
            Failure::NotInitialized => "Repository dit not initialized"@,
            Failure::IoError(m) => "IO error: "@ + m,
            Failure::UnexpectedComportement(m) => m,
        }
    }
}

impl Clone for DitError {
    fn clone(&self) -> (out: Self)
        ensures
            out@ == self@,
    {
        match self {
            DitError::NotInitialized => DitError::NotInitialized,
            DitError::IoError(m) => DitError::IoError(m.clone()),
            DitError::UnexpectedComportement(m) => DitError::UnexpectedComportement(m.clone()),
        }
    }
}

impl DitError {
    /// An `IoError` with the message `text`.
    pub fn io(text: &str) -> (out: DitError)
        ensures
            out@ == Failure::IoError(text@),
    {
        DitError::IoError(String::from_str(text))
    }

    /// An `UnexpectedComportement` with the message `text`.
    pub fn unexpected(text: &str) -> (out: DitError)
        ensures
            out@ == Failure::UnexpectedComportement(text@),
    {
        DitError::UnexpectedComportement(String::from_str(text))
    }

    /// The sentence that reports this error.
    pub fn message(&self) -> (out: String)
        ensures
            out@ == self@.message(),
    {
        match self {
            DitError::NotInitialized => String::from_str("Repository dit not initialized"),
            DitError::IoError(m) => {
                let mut out = String::from_str("IO error: ");
                out.append(m.as_str());
                out
            },
            DitError::UnexpectedComportement(m) => m.clone(),
        }
    }
}

} // verus!
