//! Data carried between the authentication collaborator and its callers:
//! the error taxonomy with its HTTP mapping, token claims, and the
//! request and response bodies of the credential endpoints. Password
//! hashing and token issuance themselves are the collaborator's business
//! and stay outside this crate.

use vstd::prelude::*;

verus! {

/// Failure of an authentication step.
#[derive(Clone, Copy, PartialEq, Eq, Structural, Debug)]
pub enum AuthError {
    UserAlreadyExists,
    WrongCredentials,
    MissingCredentials,
    TokenCreation,
    InvalidToken,
    Internal,
}

impl AuthError {
    /// The HTTP status code this error is reported with.
    pub open spec fn spec_status(&self) -> u16 {
        match self {
            AuthError::UserAlreadyExists => 409,
            AuthError::WrongCredentials => 401,
            AuthError::MissingCredentials => 400,
            AuthError::TokenCreation => 500,
            AuthError::InvalidToken => 401,
            AuthError::Internal => 500,
        }
    }

    /// The user-facing message this error is reported with.
    pub open spec fn spec_message(&self) -> Seq<char> {
        match self {
            AuthError::UserAlreadyExists => "A user with this email already exists"@,
            AuthError::WrongCredentials => "Invalid email or password"@,
            AuthError::MissingCredentials => "Email and password are required"@,
            AuthError::TokenCreation => "Failed to generate session"@,
            AuthError::InvalidToken => "Invalid or expired session"@,
            AuthError::Internal => "An unexpected error occurred"@,
        }
    }

    /// The HTTP status code and user-facing message of this error, for
    /// the response the surrounding program builds.
    pub fn status_and_message(&self) -> (r: (u16, &'static str))
        ensures
            r.0 == self.spec_status(),
            r.1@ == self.spec_message(),
    {
        match self {
            AuthError::UserAlreadyExists => (409, "A user with this email already exists"),
            AuthError::WrongCredentials => (401, "Invalid email or password"),
            AuthError::MissingCredentials => (400, "Email and password are required"),
            AuthError::TokenCreation => (500, "Failed to generate session"),
            AuthError::InvalidToken => (401, "Invalid or expired session"),
            AuthError::Internal => (500, "An unexpected error occurred"),
        }
    }
}

/// The claims carried in a session token: the subject and its expiry.
#[derive(Clone, Debug)]
pub struct Claims {
    pub sub: String,
    pub exp: usize,
}

/// The body of a successful token grant.
#[derive(Debug)]
pub struct AuthBody {
    pub access_token: String,
    pub token_type: String,
}

impl AuthBody {
    /// Wrap a freshly issued token as a bearer grant.
    pub fn new(access_token: String) -> (r: AuthBody)
        ensures
            r.access_token@ == access_token@,
            r.token_type@ == "Bearer"@,
    {
        AuthBody { access_token, token_type: "Bearer".to_owned() }
    }
}

/// The credentials a caller submits.
#[derive(Debug)]
pub struct AuthPayload {
    pub email: String,
    pub password: String,
}

} // verus!
