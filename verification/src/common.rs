use vstd::prelude::*;

verus! {

/// Errors raised by the shim and its storage.
#[derive(Debug)]
pub enum ChariotError {
    NetworkError(String),
    CriError(String),
    IOError(String),
    JsonError(String),
}

/// The text an error carries, which is also how it is displayed.
pub open spec fn error_text(e: ChariotError) -> Seq<char> {
    match e {
        ChariotError::NetworkError(m) => m@,
        ChariotError::CriError(m) => m@,
        ChariotError::IOError(m) => m@,
        ChariotError::JsonError(m) => m@,
    }
}

impl ChariotError {
    /// The displayed form of the error: the message it carries.
    pub fn message(&self) -> (s: String)
        ensures
            s@ == error_text(*self),
    {
        match self {
            ChariotError::NetworkError(m) => m.clone(),
            ChariotError::CriError(m) => m.clone(),
            ChariotError::IOError(m) => m.clone(),
            ChariotError::JsonError(m) => m.clone(),
        }
    }
}

/// The gRPC status codes the shim answers with.
#[derive(PartialEq, Eq, Structural, Clone, Copy, Debug)]
pub enum RpcCode {
    NotFound,
    Internal,
}

/// A refused request as the CRI caller sees it: a status code and a message.
#[derive(Debug)]
pub struct RpcStatus {
    pub code: RpcCode,
    pub message: String,
}

impl RpcStatus {
    /// A `NotFound` status carrying `message`.
    pub fn not_found(message: String) -> (s: RpcStatus)
        ensures
            s.code == RpcCode::NotFound,
            s.message == message,
    {
        RpcStatus { code: RpcCode::NotFound, message }
    }
}

/// The status an error becomes when it is answered to a CRI caller:
/// `Internal`, with the error's text as message.
pub open spec fn status_of_error(e: ChariotError) -> RpcStatus {
    match e {
        ChariotError::NetworkError(m) => RpcStatus { code: RpcCode::Internal, message: m },
        ChariotError::CriError(m) => RpcStatus { code: RpcCode::Internal, message: m },
        ChariotError::IOError(m) => RpcStatus { code: RpcCode::Internal, message: m },
        ChariotError::JsonError(m) => RpcStatus { code: RpcCode::Internal, message: m },
    }
}

impl From<ChariotError> for RpcStatus {
    fn from(e: ChariotError) -> (s: RpcStatus) {
        match e {
            ChariotError::NetworkError(m) => RpcStatus { code: RpcCode::Internal, message: m },
            ChariotError::CriError(m) => RpcStatus { code: RpcCode::Internal, message: m },
            ChariotError::IOError(m) => RpcStatus { code: RpcCode::Internal, message: m },
            ChariotError::JsonError(m) => RpcStatus { code: RpcCode::Internal, message: m },
        }
    }
}

impl vstd::std_specs::convert::FromSpecImpl<ChariotError> for RpcStatus {
    open spec fn obeys_from_spec() -> bool {
        true
    }

    open spec fn from_spec(e: ChariotError) -> RpcStatus {
        status_of_error(e)
    }
}

} // verus!
