use vstd::prelude::*;
use vstd::string::StringExecFns;

verus! {

/// The machine-readable kind of a failed request.
#[derive(Clone, Copy, Debug, PartialEq, Eq, Structural)]
pub enum ErrorKind {
    InvalidArgument,
    NotFound,
    Internal,
    Unimplemented,
}

/// A failed request: its kind and a message for people.
pub struct ProtocolError {
    pub kind: ErrorKind,
    pub message: String,
}

impl ProtocolError {
    pub fn new(kind: ErrorKind, message: &str) -> (r: ProtocolError)
        ensures
            r.kind == kind,
            r.message@ == message@,
    {
        ProtocolError { kind, message: String::from_str(message) }
    }

    pub fn invalid_argument(message: &str) -> (r: ProtocolError)
        ensures
            r.kind == ErrorKind::InvalidArgument,
            r.message@ == message@,
    {
        ProtocolError::new(ErrorKind::InvalidArgument, message)
    }

    pub fn not_found(message: &str) -> (r: ProtocolError)
        ensures
            r.kind == ErrorKind::NotFound,
            r.message@ == message@,
    {
        ProtocolError::new(ErrorKind::NotFound, message)
    }

    pub fn internal(message: &str) -> (r: ProtocolError)
        ensures
            r.kind == ErrorKind::Internal,
            r.message@ == message@,
    {
        ProtocolError::new(ErrorKind::Internal, message)
    }

    pub fn unimplemented() -> (r: ProtocolError)
        ensures
            r.kind == ErrorKind::Unimplemented,
    {
        ProtocolError::new(ErrorKind::Unimplemented, "Not yet implemented")
    }
}

} // verus!
