//! The errors surfaced on the wire: request-level problems and method-level
//! errors.
use vstd::prelude::*;
use vstd::string::*;

verus! {

/// A problem that rejects a whole request before any call runs.
#[derive(Clone, Copy, Debug, PartialEq, Eq, Structural)]
pub enum ProblemType {
    /// The request names a capability that the server does not support.
    UnknownCapability,
    /// The request was not JSON.
    NotJson,
    /// The request was JSON but not a Request object.
    NotRequest,
    /// The request exceeds one of the server's limits.
    OverLimit,
}

pub open spec fn problem_uri(p: ProblemType) -> Seq<char> {
    match p {
        ProblemType::UnknownCapability => "urn:ietf:params:jmap:error:unknownCapability"@,
        ProblemType::NotJson => "urn:ietf:params:jmap:error:notJSON"@,
        ProblemType::NotRequest => "urn:ietf:params:jmap:error:notRequest"@,
        ProblemType::OverLimit => "urn:ietf:params:jmap:error:limit"@,
    }
}

impl ProblemType {
    /// The URI that names this problem on the wire.
    pub fn uri(&self) -> (r: String)
        ensures
            r@ == problem_uri(*self),
    {
        match self {
            ProblemType::UnknownCapability => String::from_str(
                "urn:ietf:params:jmap:error:unknownCapability",
            ),
            ProblemType::NotJson => String::from_str("urn:ietf:params:jmap:error:notJSON"),
            ProblemType::NotRequest => String::from_str("urn:ietf:params:jmap:error:notRequest"),
            ProblemType::OverLimit => String::from_str("urn:ietf:params:jmap:error:limit"),
        }
    }
}

/// An error of one method call. It takes the place of that call's response;
/// the other calls of the request go on as normal.
#[derive(Clone, Copy, Debug, PartialEq, Eq, Structural)]
pub enum MethodError {
    /// An internal resource was temporarily unavailable.
    ServerUnavailable,
    /// An unexpected error; the call made no changes.
    ServerFail,
    /// Some, but not all, of the call's changes happened.
    ServerPartialFail,
    /// The server does not know this method name.
    UnknownMethod,
    /// An argument is of the wrong type, invalid, or missing.
    InvalidArguments,
    /// A result reference of the call failed to resolve.
    InvalidResultReference,
    /// The call would violate a permission.
    Forbidden,
    /// The account id names no account.
    AccountNotFound,
    /// The account does not support this method.
    AccountNotSupportedByMethod,
    /// The call modifies state, but the account is read-only.
    AccountReadOnly,
}

/// The name of a method error on the wire.
pub open spec fn method_error_name(e: MethodError) -> Seq<char> {
    match e {
        MethodError::ServerUnavailable => "serverUnavailable"@,
        MethodError::ServerFail => "serverFail"@,
        MethodError::ServerPartialFail => "serverPartialFail"@,
        MethodError::UnknownMethod => "unknownMethod"@,
        MethodError::InvalidArguments => "invalidArguments"@,
        MethodError::InvalidResultReference => "invalidResultReference"@,
        MethodError::Forbidden => "forbidden"@,
        MethodError::AccountNotFound => "accountNotFound"@,
        MethodError::AccountNotSupportedByMethod => "accountNotSupportedByMethod"@,
        MethodError::AccountReadOnly => "accountReadOnly"@,
    }
}

impl MethodError {
    /// The name of this error on the wire.
    pub fn name(&self) -> (r: String)
        ensures
            r@ == method_error_name(*self),
    {
        match self {
            MethodError::ServerUnavailable => String::from_str("serverUnavailable"),
            MethodError::ServerFail => String::from_str("serverFail"),
            MethodError::ServerPartialFail => String::from_str("serverPartialFail"),
            MethodError::UnknownMethod => String::from_str("unknownMethod"),
            MethodError::InvalidArguments => String::from_str("invalidArguments"),
            MethodError::InvalidResultReference => String::from_str("invalidResultReference"),
            MethodError::Forbidden => String::from_str("forbidden"),
            MethodError::AccountNotFound => String::from_str("accountNotFound"),
            MethodError::AccountNotSupportedByMethod => String::from_str(
                "accountNotSupportedByMethod",
            ),
            MethodError::AccountReadOnly => String::from_str("accountReadOnly"),
        }
    }
}

} // verus!
