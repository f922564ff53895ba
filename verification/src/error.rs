//! The error taxonomy shared by the tracing entry points.
//!
//! A single opaque error type crosses every layer; callers classify it by
//! kind rather than by matching message text.

use vstd::prelude::*;

verus! {

/// The classes of failure a trace can report.
#[derive(Clone, Copy, PartialEq, Eq, Structural, Debug)]
pub enum ErrorKind {
    /// A filesystem, pipe or wait failure.
    Io,
    /// A ptrace request was refused.
    Ptrace,
    /// The unwinding backend could not step, or read registers or memory.
    Unwind,
    /// The self-trace wire exchange was malformed or cut short.
    Protocol,
    /// An object file could not be parsed or its debug info queried.
    Symbol,
}

/// The error type returned by the tracing entry points.
#[derive(Debug)]
pub struct Error {
    kind: ErrorKind,
    code: Option<i32>,
    detail: String,
}

impl Error {
    /// The kind this error was classified under.
    pub closed spec fn spec_kind(&self) -> ErrorKind {
        self.kind
    }

    /// The operating-system error number behind this error, if one exists.
    pub closed spec fn spec_code(&self) -> Option<i32> {
        self.code
    }

    /// The human-readable context carried by this error.
    pub closed spec fn spec_detail(&self) -> Seq<char> {
        self.detail@
    }

    /// Builds an error of the given kind carrying an OS error number.
    pub fn from_os(kind: ErrorKind, code: i32) -> (r: Error)
        ensures
            r.spec_kind() == kind,
            r.spec_code() == Some(code),
            r.spec_detail() === Seq::<char>::empty(),
    {
        Error { kind, code: Some(code), detail: String::new() }
    }

    /// Builds an error of the given kind carrying a message.
    pub fn with_detail(kind: ErrorKind, detail: String) -> (r: Error)
        ensures
            r.spec_kind() == kind,
            r.spec_code() is None,
            r.spec_detail() == detail@,
    {
        Error { kind, code: None, detail }
    }

    /// Returns the kind this error was classified under.
    pub fn kind(&self) -> (r: ErrorKind)
        ensures
            r == self.spec_kind(),
    {
        self.kind
    }

    /// Returns the OS error number behind this error, if one exists.
    pub fn code(&self) -> (r: Option<i32>)
        ensures
            r == self.spec_code(),
    {
        self.code
    }

    /// Returns the context message carried by this error.
    pub fn detail(&self) -> (r: &str)
        ensures
            r@ == self.spec_detail(),
    {
        self.detail.as_str()
    }
}

} // verus!
