//! Typed failures of the ingestion pipeline. Every rejection is a value; the
//! serving process never aborts on a bad request.

use vstd::prelude::*;

verus! {

/// A field failed as a file attachment: the slot index names which one.
#[derive(Clone, Copy, Debug, PartialEq, Eq, Structural)]
pub enum InputError {
    /// The field named like a file slot did not sniff as a recognized type.
    Files(u32),
}

/// Why a submission was rejected before reaching persistence.
#[derive(Clone, Copy, Debug, PartialEq, Eq, Structural)]
pub enum RequestError {
    /// The challenge check failed: no cookie, or a token mismatch. The two
    /// collapse on purpose, so the expected value never leaks.
    IncorrectCaptcha,
    /// The request body exceeded the allowed size.
    SizeLimit,
    /// The request took too long.
    TimeoutLimit,
    /// A multipart field carried no name, so its value cannot be routed.
    MissingKey,
    /// A field named like a file slot held no recognized file type.
    Input(InputError),
    /// A field name outside the known input fields: a hard parse failure.
    UnknownField,
    /// A `parent` value that is not a decimal post id in range.
    InvalidParent,
    /// A text field whose bytes are not valid UTF-8.
    InvalidText,
}

/// Why a login attempt failed.
#[derive(Clone, Debug)]
pub enum LoginError {
    NonExistentUser(String),
    InvalidCredentials,
    EmptyUsername,
    EmptyPassword,
}

/// The client-facing description of each rejection. None of them reveals the
/// expected challenge value.
pub open spec fn request_message_spec(e: RequestError) -> Seq<char> {
    match e {
        RequestError::IncorrectCaptcha => "incorrect captcha"@,
        RequestError::SizeLimit => "body exceeded allowed limit"@,
        RequestError::TimeoutLimit => "request timeout"@,
        RequestError::MissingKey => "no key for one or more fields"@,
        RequestError::Input(_) => "file does not have a recognized type"@,
        RequestError::UnknownField => "unrecognized field name"@,
        RequestError::InvalidParent => "parent is not a valid post id"@,
        RequestError::InvalidText => "text field is not valid UTF-8"@,
    }
}

/// The login-form description of each failure.
pub open spec fn login_message_spec(e: LoginError) -> Seq<char> {
    match e {
        LoginError::NonExistentUser(_) => "user does not exist"@,
        LoginError::InvalidCredentials => "invalid credentials"@,
        LoginError::EmptyUsername => "no username provided"@,
        LoginError::EmptyPassword => "no password provided"@,
    }
}

impl RequestError {
    /// A short description for the client, matching the rejection kind.
    pub fn message(&self) -> (r: &'static str)
        ensures
            r@ == request_message_spec(*self),
    {
        match self {
            RequestError::IncorrectCaptcha => "incorrect captcha",
            RequestError::SizeLimit => "body exceeded allowed limit",
            RequestError::TimeoutLimit => "request timeout",
            RequestError::MissingKey => "no key for one or more fields",
            RequestError::Input(_) => "file does not have a recognized type",
            RequestError::UnknownField => "unrecognized field name",
            RequestError::InvalidParent => "parent is not a valid post id",
            RequestError::InvalidText => "text field is not valid UTF-8",
        }
    }
}

impl LoginError {
    /// A short description for the login form.
    pub fn message(&self) -> (r: &'static str)
        ensures
            r@ == login_message_spec(*self),
    {
        match self {
            LoginError::NonExistentUser(_) => "user does not exist",
            LoginError::InvalidCredentials => "invalid credentials",
            LoginError::EmptyUsername => "no username provided",
            LoginError::EmptyPassword => "no password provided",
        }
    }
}

} // verus!
