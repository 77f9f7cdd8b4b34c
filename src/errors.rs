//! Errors of request handling.
use vstd::prelude::*;
use vstd::string::{StrSliceExecFns, StringSliceAdditionalSpecFns};
use crate::resp::RespError;

verus! {

/// Errors encountered while handling requests, with what caused them.
#[derive(Debug)]
pub enum RedisError {
    RespParseError(RespError),
    /// The command, subcommand, option or pattern that is not known, or what
    /// is wrong with the shape of the request.
    UnknownRequest(Vec<u8>),
    /// The number of arguments found.
    UnexpectedNumberOfArgs(usize),
    /// The position of the first argument of the wrong type.
    UnexpectedArgumentType(usize),
}

/// The model of a request error.
pub enum ErrorKind {
    Resp(RespError),
    UnknownRequest(Seq<u8>),
    UnexpectedNumberOfArgs(nat),
    UnexpectedArgumentType(nat),
}

impl RedisError {
    pub open spec fn kind(&self) -> ErrorKind {
        match self {
            RedisError::RespParseError(e) => ErrorKind::Resp(*e),
            RedisError::UnknownRequest(b) => ErrorKind::UnknownRequest(b@),
            RedisError::UnexpectedNumberOfArgs(n) => ErrorKind::UnexpectedNumberOfArgs(*n as nat),
            RedisError::UnexpectedArgumentType(i) => ErrorKind::UnexpectedArgumentType(*i as nat),
        }
    }

    /// An unknown request, described by `what`.
    pub fn unknown_request(what: &str) -> (r: Self)
        ensures
            r.kind() == ErrorKind::UnknownRequest(what.spec_bytes()),
    {
        RedisError::UnknownRequest(what.as_bytes_vec())
    }

    /// An unknown name: the bytes that named it.
    pub fn unknown_name(name: &[u8]) -> (r: Self)
        ensures
            r.kind() == ErrorKind::UnknownRequest(name@),
    {
        RedisError::UnknownRequest(vstd::slice::slice_to_vec(name))
    }

    pub fn number_of_args(found: usize) -> (r: Self)
        ensures
            r.kind() == ErrorKind::UnexpectedNumberOfArgs(found as nat),
    {
        RedisError::UnexpectedNumberOfArgs(found)
    }

    pub fn argument_type(position: usize) -> (r: Self)
        ensures
            r.kind() == ErrorKind::UnexpectedArgumentType(position as nat),
    {
        RedisError::UnexpectedArgumentType(position)
    }
}

} // verus!
