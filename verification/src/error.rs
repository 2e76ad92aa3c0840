//! Error values shared by every Relay operation, with their messages.
use vstd::prelude::*;
use crate::text::nat_text;

verus! {

#[verifier::external_type_specification]
#[verifier::external_body]
pub struct ExIoError(std::io::Error);

/// Primary error type for all Relay operations.
#[derive(Debug)]
pub enum RelayError {
    Schema(String),
    Type { expected: String, actual: String },
    OutOfBounds { index: usize, len: usize },
    Io(std::io::Error),
    Arrow(String),
    Memory(String),
    NotImplemented(String),
    InvalidArgument(String),
    Execution(String),
    Expr(String),
}

/// The message of an error, for every variant whose message the library composes.
/// An I/O error's message ends with the operating system's own text.
pub open spec fn error_text(e: RelayError) -> Seq<char> {
    match e {
        RelayError::Schema(m) => "Schema error: "@ + m@,
        RelayError::Type { expected, actual } => "Type error: expected "@ + expected@ + ", got "@
            + actual@,
        RelayError::OutOfBounds { index, len } => "Index out of bounds: index "@ + nat_text(
            index as nat,
        ) + " but len is "@ + nat_text(len as nat),
        RelayError::Io(_) => "IO error: "@,
        RelayError::Arrow(m) => "Arrow error: "@ + m@,
        RelayError::Memory(m) => "Memory error: "@ + m@,
        RelayError::NotImplemented(m) => "Not implemented: "@ + m@,
        RelayError::InvalidArgument(m) => "Invalid argument: "@ + m@,
        RelayError::Execution(m) => "Execution error: "@ + m@,
        RelayError::Expr(m) => "Expression error: "@ + m@,
    }
}

/// `format!("{}", e)` for an I/O error: the operating system's description,
/// whose wording depends on the platform, so nothing is claimed of it.
#[verifier::external_body]
fn io_error_message(e: &std::io::Error) -> String {
    format!("{}", e)
}

impl RelayError {
    /// The human-readable message of this error.
    pub fn to_string(&self) -> (r: String)
        ensures
            !(self is Io) ==> r@ == error_text(*self),
            self is Io ==> r@.len() >= 10 && r@.subrange(0, 10) == error_text(*self),
    {
        let mut out = String::new();
        match self {
            RelayError::Schema(m) => {
                out.append("Schema error: ");
                out.append(m.as_str());
            },
            RelayError::Type { expected, actual } => {
                out.append("Type error: expected ");
                out.append(expected.as_str());
                out.append(", got ");
                out.append(actual.as_str());
            },
            RelayError::OutOfBounds { index, len } => {
                out.append("Index out of bounds: index ");
                crate::text::push_u64(&mut out, *index as u64);
                out.append(" but len is ");
                crate::text::push_u64(&mut out, *len as u64);
            },
            RelayError::Io(e) => {
                out.append("IO error: ");
                proof {
                    reveal_strlit("IO error: ");
                }
                let ghost head = out@;
                let m = io_error_message(e);
                out.append(m.as_str());
                assert(out@.subrange(0, 10) =~= head);
            },
            RelayError::Arrow(m) => {
                out.append("Arrow error: ");
                out.append(m.as_str());
            },
            RelayError::Memory(m) => {
                out.append("Memory error: ");
                out.append(m.as_str());
            },
            RelayError::NotImplemented(m) => {
                out.append("Not implemented: ");
                out.append(m.as_str());
            },
            RelayError::InvalidArgument(m) => {
                out.append("Invalid argument: ");
                out.append(m.as_str());
            },
            RelayError::Execution(m) => {
                out.append("Execution error: ");
                out.append(m.as_str());
            },
            RelayError::Expr(m) => {
                out.append("Expression error: ");
                out.append(m.as_str());
            },
        }
        out
    }
}

impl From<std::io::Error> for RelayError {
    fn from(e: std::io::Error) -> (r: RelayError) {
        RelayError::Io(e)
    }
}

impl vstd::std_specs::convert::FromSpecImpl<std::io::Error> for RelayError {
    open spec fn obeys_from_spec() -> bool {
        true
    }

    open spec fn from_spec(e: std::io::Error) -> RelayError {
        RelayError::Io(e)
    }
}

} // verus!
