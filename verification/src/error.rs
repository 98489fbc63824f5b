//! Error values of the memory layer and of the graph/entity layer.
use vstd::prelude::*;

verus! {

/// Errors of the memory layer.
#[derive(Debug)]
pub enum Error {
    /// An argument was refused.
    InvalidInput(String),
    /// A value broke a rule of the data model.
    ValidationError(String),
    /// A requested record does not exist.
    NotFound(String),
    /// A stored representation could not be read back.
    ConversionError(String),
    /// An internal step failed.
    Internal(String),
}

/// Errors of the graph and entity layer.
#[derive(Debug)]
pub enum GraphError {
    /// A value broke a rule of the data model.
    ValidationError(String),
    /// A stored representation could not be read back.
    ConversionError(String),
}

/// Result type of the memory layer.
pub type Result<T> = core::result::Result<T, Error>;

/// The message `prefix` followed by `detail`.
pub fn message(prefix: &str, detail: &str) -> (r: String)
    ensures
        r@ == prefix@ + detail@,
{
    let mut s = String::from_str(prefix);
    s.append(detail);
    s
}

/// What `format!("{:?}", s)` gives for a text: the text in double quotes,
/// with quotes, backslashes and control characters escaped.
pub uninterp spec fn debug_quoted(s: Seq<char>) -> Seq<char>;

/// Renders a text with `format!("{:?}", s)`.
#[verifier::external_body]
fn quote_debug(s: &str) -> (r: String)
    ensures
        r@ == debug_quoted(s@),
{
    format!("{:?}", s)
}

/// The `Debug` rendering of an error: the variant's name followed by its
/// quoted message in parentheses.
pub open spec fn error_debug_text(e: Error) -> Seq<char> {
    match e {
        Error::InvalidInput(m) => "InvalidInput("@ + debug_quoted(m@) + ")"@,
        Error::ValidationError(m) => "ValidationError("@ + debug_quoted(m@) + ")"@,
        Error::NotFound(m) => "NotFound("@ + debug_quoted(m@) + ")"@,
        Error::ConversionError(m) => "ConversionError("@ + debug_quoted(m@) + ")"@,
        Error::Internal(m) => "Internal("@ + debug_quoted(m@) + ")"@,
    }
}

/// The `Debug` rendering of an error, as `error_debug_text` gives it.
pub fn debug_text(e: &Error) -> (r: String)
    ensures
        r@ == error_debug_text(*e),
{
    let (name, m) = match e {
        Error::InvalidInput(m) => ("InvalidInput(", m),
        Error::ValidationError(m) => ("ValidationError(", m),
        Error::NotFound(m) => ("NotFound(", m),
        Error::ConversionError(m) => ("ConversionError(", m),
        Error::Internal(m) => ("Internal(", m),
    };
    let quoted = quote_debug(m.as_str());
    let head = message(name, quoted.as_str());
    message(head.as_str(), ")")
}

} // verus!
