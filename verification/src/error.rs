//! The server's errors and the status codes they are answered with.

use vstd::prelude::*;

verus! {

/// The kind of an I/O failure, as far as the server tells kinds apart.
#[derive(PartialEq, Eq, Structural, Debug, Clone, Copy)]
pub enum IoErrorKind {
    NotFound,
    Other,
}

/// Errors met while serving a request. Variants that wrap another error
/// keep its text.
#[derive(Debug)]
pub enum Error {
    Http(String),
    Io(IoErrorKind, String),
    AddrParse(String),
    MarkdownUtf8,
    StripPrefixInDirList(String),
    UrlToPath,
    WriteInDirList(String),
}

/// The status code that answers an error: 404 for a missing file, 500 for
/// anything else.
pub open spec fn error_status_spec(e: &Error) -> u16 {
    match e {
        Error::Io(IoErrorKind::NotFound, _) => 404,
        _ => 500,
    }
}

/// The status code an I/O error is answered with.
pub fn make_io_error_response(kind: IoErrorKind) -> (status: u16)
    ensures
        status == (if kind == IoErrorKind::NotFound {
            404u16
        } else {
            500u16
        }),
{
    match kind {
        IoErrorKind::NotFound => 404,
        IoErrorKind::Other => 500,
    }
}

/// The status code an error is answered with: I/O errors by their kind,
/// every other error as an internal server error.
pub fn make_error_response(e: &Error) -> (status: u16)
    ensures
        status == error_status_spec(e),
{
    match e {
        Error::Io(kind, _) => make_io_error_response(*kind),
        _ => 500,
    }
}

impl Error {
    /// The one-line description of the error.
    pub fn message(&self) -> (text: &'static str)
        ensures
            text@ == (match self {
                Error::Http(_) => "HTTP error"@,
                Error::Io(..) => "I/O error"@,
                Error::AddrParse(_) => "failed to parse IP address"@,
                Error::MarkdownUtf8 => "markdown is not UTF-8"@,
                Error::StripPrefixInDirList(_) => "failed to strip prefix in directory listing"@,
                Error::UrlToPath => "failed to convert URL to local file path"@,
                Error::WriteInDirList(_) => "formatting error while creating directory listing"@,
            }),
    {
        match self {
            Error::Http(_) => "HTTP error",
            Error::Io(..) => "I/O error",
            Error::AddrParse(_) => "failed to parse IP address",
            Error::MarkdownUtf8 => "markdown is not UTF-8",
            Error::StripPrefixInDirList(_) => "failed to strip prefix in directory listing",
            Error::UrlToPath => "failed to convert URL to local file path",
            Error::WriteInDirList(_) => "formatting error while creating directory listing",
        }
    }

    /// The text of the error this one wraps, if it wraps one.
    pub fn source(&self) -> (inner: Option<&String>)
        ensures
            inner == (match self {
                Error::Http(s) => Some(s),
                Error::Io(_, s) => Some(s),
                Error::AddrParse(s) => Some(s),
                Error::MarkdownUtf8 => None,
                Error::StripPrefixInDirList(s) => Some(s),
                Error::UrlToPath => None,
                Error::WriteInDirList(s) => Some(s),
            }),
    {
        match self {
            Error::Http(s) => Some(s),
            Error::Io(_, s) => Some(s),
            Error::AddrParse(s) => Some(s),
            Error::MarkdownUtf8 => None,
            Error::StripPrefixInDirList(s) => Some(s),
            Error::UrlToPath => None,
            Error::WriteInDirList(s) => Some(s),
        }
    }
}

} // verus!
