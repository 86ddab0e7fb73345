//! The request and response shapes of the four RPC operations, and the
//! status an operation ends with.  Every numeric payload travels as a
//! base-10 ASCII string.

use vstd::prelude::*;

verus! {

/// An error for when a wire-level conversion fails.
#[derive(Debug)]
pub struct ConversionError;

/// The abstract status code a failed operation carries.
#[derive(Clone, Copy, Debug, PartialEq, Eq, Structural)]
pub enum Code {
    /// A missing or malformed input field.
    InvalidArgument,
    /// A user or challenge that is absent or expired.
    NotFound,
    /// A duplicate registration.
    AlreadyExists,
    /// The verification identity does not hold.
    FailedPrecondition,
    /// A conversion or arithmetic failure inside the service.
    Internal,
}

/// A failed operation's status: an abstract code and a field-specific
/// message.
#[derive(Debug)]
pub struct Status {
    /// The status code.
    pub code: Code,
    /// The human-readable message.
    pub message: String,
}

impl Status {
    /// Builds a status with the given code.
    pub fn with_code(code: Code, message: &str) -> (r: Status)
        ensures
            r.code == code,
            r.message@ == message@,
    {
        Status { code, message: message.to_owned() }
    }

    /// The status code.
    pub fn code(&self) -> (r: Code)
        ensures
            r == self.code,
    {
        self.code
    }

    /// The message.
    pub fn message(&self) -> (r: &str)
        ensures
            r@ == self.message@,
    {
        self.message.as_str()
    }
}

/// Asks for the active configuration.
#[derive(Debug, PartialEq)]
pub struct GetConfigurationRequest {}

/// Registers a user under its public pair.
#[derive(Debug, PartialEq)]
pub struct RegisterRequest {
    /// The user name.
    pub user: String,
    /// The public value `y1`, in decimal.
    pub y1: String,
    /// The public value `y2`, in decimal.
    pub y2: String,
}

/// The empty answer of a successful registration.
#[derive(Debug, PartialEq)]
pub struct RegisterResponse {}

/// Opens a login attempt with the prover's commitment.
#[derive(Debug, PartialEq)]
pub struct AuthenticationChallengeRequest {
    /// The user name.
    pub user: String,
    /// The committed value `r1`, in decimal.
    pub r1: String,
    /// The committed value `r2`, in decimal.
    pub r2: String,
}

/// The challenge the verifier answers a commitment with.
#[derive(Debug, PartialEq)]
pub struct AuthenticationChallengeResponse {
    /// The name of this challenge instance.
    pub auth_id: String,
    /// The challenge scalar, in decimal.
    pub c: String,
}

/// Closes a login attempt with the prover's response.
#[derive(Debug, PartialEq)]
pub struct AuthenticationAnswerRequest {
    /// The challenge this answers.
    pub auth_id: String,
    /// The response scalar, in decimal.
    pub s: String,
}

/// The session a successful verification opens.
#[derive(Debug, PartialEq)]
pub struct AuthenticationAnswerResponse {
    /// The session identifier.
    pub session_id: String,
}

/// Asks for the public group parameters of the discrete-logarithm flavor.
#[derive(Debug, PartialEq)]
pub struct GetPublicParametersRequest {}

/// The public group parameters of the discrete-logarithm flavor.
#[derive(Debug, PartialEq)]
pub struct GetPublicParametersResponse {
    /// The safe prime modulus, in decimal.
    pub p: String,
    /// The subgroup order, in decimal.
    pub q: String,
    /// The first generator, in decimal.
    pub g: String,
    /// The second generator, in decimal.
    pub h: String,
}

} // verus!
