//! Error types.

use vstd::prelude::*;

verus! {

#[verifier::external_type_specification]
#[verifier::external_body]
pub struct ExIoError(std::io::Error);

/// The errors of the library.
#[derive(Debug)]
pub enum Error {
    Io(std::io::Error),
    Parse(String),
    Index(String),
    Lsp(String),
    Other(String),
}

/// The result type of the library's fallible operations.
pub type Result<T> = std::result::Result<T, Error>;

/// The text that introduces each kind of error in its message.
pub open spec fn error_prefix(e: &Error) -> Seq<char> {
    match e {
        Error::Io(_) => "IO error: "@,
        Error::Parse(_) => "Parse error: "@,
        Error::Index(_) => "Index error: "@,
        Error::Lsp(_) => "LSP error: "@,
        Error::Other(_) => "Error: "@,
    }
}

impl Error {
    /// The human-readable message of the error: a prefix naming its kind,
    /// followed by its detail.
    pub fn message(&self) -> (m: String)
        ensures
            m@.len() >= error_prefix(self).len(),
            m@.subrange(0, error_prefix(self).len() as int) == error_prefix(self),
            match self {
                Error::Io(_) => true,
                Error::Parse(s) => m@ == error_prefix(self) + s@,
                Error::Index(s) => m@ == error_prefix(self) + s@,
                Error::Lsp(s) => m@ == error_prefix(self) + s@,
                Error::Other(s) => m@ == error_prefix(self) + s@,
            },
    {
        proof {
            reveal_strlit("IO error: ");
            reveal_strlit("Parse error: ");
            reveal_strlit("Index error: ");
            reveal_strlit("LSP error: ");
            reveal_strlit("Error: ");
        }
        let (prefix, detail): (&str, String) = match self {
            Error::Io(e) => ("IO error: ", e.to_string()),
            Error::Parse(s) => ("Parse error: ", s.clone()),
            Error::Index(s) => ("Index error: ", s.clone()),
            Error::Lsp(s) => ("LSP error: ", s.clone()),
            Error::Other(s) => ("Error: ", s.clone()),
        };
        let m = String::from_str(prefix).concat(detail.as_str());
        assert(m@.subrange(0, prefix@.len() as int) =~= prefix@);
        m
    }
}

impl From<std::io::Error> for Error {
    fn from(err: std::io::Error) -> (r: Self) {
        Error::Io(err)
    }
}

impl vstd::std_specs::convert::FromSpecImpl<std::io::Error> for Error {
    open spec fn obeys_from_spec() -> bool {
        true
    }

    open spec fn from_spec(err: std::io::Error) -> Self {
        Error::Io(err)
    }
}

} // verus!
