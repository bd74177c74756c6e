//! What a reader answers on input that it refuses.

use vstd::prelude::*;

use crate::text::{cat3, cat4};

verus! {

pub type Result<T> = std::result::Result<T, Error>;

#[derive(Debug)]
#[non_exhaustive]
pub enum Error {
    /// A file could not be read.
    Io { path: String, source: String },
    /// A JSON reader refused its input.
    Json { format: &'static str, message: String },
    /// A reader of a format that is neither JSON nor XML refused its input.
    FormatRead { format: &'static str, message: String },
    /// An XML reader refused its input.
    Xml { format: &'static str, message: String },
    /// No reader or writer goes by this name.
    UnknownFormat(String),
}

pub enum ErrorV {
    Io { path: Seq<char>, source: Seq<char> },
    Json { format: Seq<char>, message: Seq<char> },
    FormatRead { format: Seq<char>, message: Seq<char> },
    Xml { format: Seq<char>, message: Seq<char> },
    UnknownFormat(Seq<char>),
}

/// What a call answers, over views.
pub type Outcome<T> = std::result::Result<T, ErrorV>;

pub open spec fn outcome<T: View>(r: Result<T>) -> Outcome<T::V> {
    match r {
        Ok(x) => Ok(x@),
        Err(e) => Err(e@),
    }
}

impl View for Error {
    type V = ErrorV;

    open spec fn view(&self) -> ErrorV {
        match *self {
            Error::Io { path, source } => ErrorV::Io { path: path@, source: source@ },
            Error::Json { format, message } => ErrorV::Json { format: format@, message: message@ },
            Error::FormatRead { format, message } => ErrorV::FormatRead {
                format: format@,
                message: message@,
            },
            Error::Xml { format, message } => ErrorV::Xml { format: format@, message: message@ },
            Error::UnknownFormat(name) => ErrorV::UnknownFormat(name@),
        }
    }
}

impl ErrorV {
    /// The sentence a user reads.
    pub open spec fn text(self) -> Seq<char> {
        match self {
            ErrorV::Io { path, source } => "io error reading "@ + path + ": "@ + source,
            ErrorV::Json { format, message } => "malformed "@ + format + " JSON: "@ + message,
            ErrorV::FormatRead { format, message } => "malformed "@ + format + " input: "@
                + message,
            ErrorV::Xml { format, message } => "malformed "@ + format + " XML: "@ + message,
            ErrorV::UnknownFormat(name) => "unknown distribution format `"@ + name
                + "` (expected dss, bmopf, or pmd)"@,
        }
    }
}

impl Error {
    pub fn to_text(&self) -> (r: String)
        ensures
            r@ == self@.text(),
    {
        match self {
            Error::Io { path, source } => cat4(
                "io error reading ",
                path.as_str(),
                ": ",
                source.as_str(),
            ),
            Error::Json { format, message } => cat4(
                "malformed ",
                format,
                " JSON: ",
                message.as_str(),
            ),
            Error::FormatRead { format, message } => cat4(
                "malformed ",
                format,
                " input: ",
                message.as_str(),
            ),
            Error::Xml { format, message } => cat4("malformed ", format, " XML: ", message.as_str()),
            Error::UnknownFormat(name) => cat3(
                "unknown distribution format `",
                name.as_str(),
                "` (expected dss, bmopf, or pmd)",
            ),
        }
    }
}

} // verus!
