//! Error values that the transport layer hands back to its callers.
//!
//! A failure reported by a peer travels as a JSON-encoded captured error in
//! the payload of a packet. The library keeps those bytes as they came
//! ([`ErrorPayload`]); turning them into a structured report is done where
//! JSON is decoded.
use vstd::prelude::*;

use crate::header::ParseError;

verus! {

/// The raw bytes of an error report carried in a packet's payload.
#[derive(Debug, Clone, PartialEq, Eq)]
pub struct ErrorPayload {
    pub bytes: Vec<u8>,
}

/// A structured error report, as a peer captures it when its code fails.
#[derive(Debug, Clone)]
pub struct CapturedError {
    pub message: String,
    pub file: String,
    pub line: u32,
    pub column: u32,
    pub error: Option<String>,
    pub stack_trace: Option<String>,
    pub library: Option<String>,
}

/// What went wrong, independent of which side noticed it.
#[derive(Debug, Clone, PartialEq, Eq)]
pub enum ErrorKind {
    Serialization(ErrorPayload),
    Deserialization(ErrorPayload),
    Transport(ErrorPayload),
    Io(ErrorPayload),
    Utf8(ErrorPayload),
    InvalidHeader,
    LayoutError,
    UnexpectedEof,
}

/// Errors of the packet layer.
#[derive(Debug, Clone, PartialEq, Eq)]
pub enum PyroError {
    /// A header failed its structural checks.
    Header(ParseError),
    /// A header handed across the foreign-function boundary could not be used.
    HeaderFfi(ErrorPayload),
    /// The peer's code panicked; the payload describes the panic.
    CodePanic(ErrorPayload),
    /// A header handed across the foreign-function boundary failed its
    /// structural checks on this side.
    InvalidFfiHeader(ParseError),
    /// An error detected on this side.
    Local(ErrorKind),
    /// An error detected on the other side.
    Remote(ErrorKind),
    /// A required pointer was missing.
    NullPointer,
}

pub type PyroResult<T> = Result<T, PyroError>;

} // verus!
