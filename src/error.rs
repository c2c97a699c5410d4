use vstd::prelude::*;

use crate::codec::{append_bytes, utf8_string};
use vstd::string::StringSliceAdditionalSpecFns;
use vstd::utf8::*;

verus! {

broadcast use vstd::utf8::group_utf8_lib;

/// How reading a request off the wire went wrong.
#[derive(Clone, Debug, PartialEq, Eq)]
pub enum IoFailure {
    /// The bytes of a line or token were not valid UTF-8.
    InvalidData,
    /// The stream ended before the declared body length was read.
    UnexpectedEof,
    /// Any other transport failure, with its message.
    Other(String),
}

/// Every failure the library reports.
#[derive(Clone, Debug, PartialEq, Eq)]
pub enum Error {
    /// An argument was rejected; the message says why.
    InvalidArgument(String),
    /// The command-line action was not recognised.
    InvalidCommand(String),
    /// A section or task that was asked for does not exist.
    NotFound(String),
    /// The request line did not have exactly three tokens.
    MalformedRequest,
    /// The request line named a method outside the supported set.
    UnsupportedMethod,
    /// The request asked for a transfer encoding (chunked bodies are not supported).
    UnsupportedTransferEncoding,
    /// Reading or writing the transport failed.
    IO(IoFailure),
    /// A worker pool was asked for with no workers.
    ConstructionError,
}

/// The human-readable text of an error, as UTF-8 bytes.
pub open spec fn error_text(e: Error) -> Seq<u8> {
    match e {
        Error::InvalidArgument(s) => "Invalid argument: ".spec_bytes() + encode_utf8(s@),
        Error::InvalidCommand(s) => "Invalid command: ".spec_bytes() + encode_utf8(s@),
        Error::NotFound(s) => encode_utf8(s@) + " not found".spec_bytes(),
        Error::MalformedRequest => "invalid number of elements in first HTTP line".spec_bytes(),
        Error::UnsupportedMethod => "unsupported HTTP method".spec_bytes(),
        Error::UnsupportedTransferEncoding => "Transfer-Encoding is not supported".spec_bytes(),
        Error::IO(IoFailure::InvalidData) => "IO error: stream did not contain valid UTF-8".spec_bytes(),
        Error::IO(IoFailure::UnexpectedEof) => "IO error: early eof".spec_bytes(),
        Error::IO(IoFailure::Other(s)) => "IO error: ".spec_bytes() + encode_utf8(s@),
        Error::ConstructionError => "worker pool size must be greater than zero".spec_bytes(),
    }
}

/// The HTTP status a failure of the task manager is answered with.
pub open spec fn status_of(e: Error) -> u16 {
    match e {
        Error::NotFound(_) => 404,
        Error::InvalidArgument(_) => 400,
        _ => 500,
    }
}

impl Error {
    /// The HTTP status for this failure: not found is 404, an invalid
    /// argument 400, anything else 500.
    pub fn status(&self) -> (r: u16)
        ensures
            r == status_of(*self),
    {
        match self {
            Error::NotFound(_) => 404,
            Error::InvalidArgument(_) => 400,
            _ => 500,
        }
    }

    /// The error's text as UTF-8 bytes.
    pub fn message_bytes(&self) -> (r: Vec<u8>)
        ensures
            r@ == error_text(*self),
    {
        let mut out: Vec<u8> = Vec::new();
        match self {
            Error::InvalidArgument(s) => {
                append_bytes(&mut out, "Invalid argument: ".as_bytes());
                append_bytes(&mut out, s.as_str().as_bytes());
            },
            Error::InvalidCommand(s) => {
                append_bytes(&mut out, "Invalid command: ".as_bytes());
                append_bytes(&mut out, s.as_str().as_bytes());
            },
            Error::NotFound(s) => {
                append_bytes(&mut out, s.as_str().as_bytes());
                append_bytes(&mut out, " not found".as_bytes());
            },
            Error::MalformedRequest => {
                append_bytes(&mut out, "invalid number of elements in first HTTP line".as_bytes());
            },
            Error::UnsupportedMethod => {
                append_bytes(&mut out, "unsupported HTTP method".as_bytes());
            },
            Error::UnsupportedTransferEncoding => {
                append_bytes(&mut out, "Transfer-Encoding is not supported".as_bytes());
            },
            Error::IO(IoFailure::InvalidData) => {
                append_bytes(&mut out, "IO error: stream did not contain valid UTF-8".as_bytes());
            },
            Error::IO(IoFailure::UnexpectedEof) => {
                append_bytes(&mut out, "IO error: early eof".as_bytes());
            },
            Error::IO(IoFailure::Other(s)) => {
                append_bytes(&mut out, "IO error: ".as_bytes());
                append_bytes(&mut out, s.as_str().as_bytes());
            },
            Error::ConstructionError => {
                append_bytes(&mut out, "worker pool size must be greater than zero".as_bytes());
            },
        }
        out
    }

    /// The error's text.
    pub fn message(&self) -> (r: String)
        ensures
            encode_utf8(r@) == error_text(*self),
    {
        let b = self.message_bytes();
        let ghost text = b@;
        proof {
            match self {
                Error::InvalidArgument(s) => valid_utf8_concat("Invalid argument: ".spec_bytes(), encode_utf8(s@)),
                Error::InvalidCommand(s) => valid_utf8_concat("Invalid command: ".spec_bytes(), encode_utf8(s@)),
                Error::NotFound(s) => valid_utf8_concat(encode_utf8(s@), " not found".spec_bytes()),
                Error::IO(IoFailure::Other(s)) => valid_utf8_concat("IO error: ".spec_bytes(), encode_utf8(s@)),
                _ => {},
            }
        }
        match utf8_string(b) {
            Some(s) => s,
            None => String::new(),
        }
    }
}

} // verus!
