//! The gateway's single error type, and its mapping onto the wire envelope
//! (a stable kind, an HTTP status, and a human-readable message).

use vstd::prelude::*;
use vstd::string::*;
use crate::strutil::concat2;
use crate::strutil::concat3;

verus! {

/// Every failure the admission pipeline, the stores, the vault or the cipher
/// can surface. The boundary layer serializes an error as
/// `{ "error": kind, "message": message }` with the paired status code.
#[derive(Debug)]
pub enum GatewayError {
    Unauthorized(String),
    SessionExpired,
    TokenError(String),
    Forbidden(String),
    ServiceNotAllowed(String),
    RateLimitExceeded,
    BadRequest(String),
    ReplayDetected,
    UpstreamError(String),
    CredentialNotFound(String),
    TokenRefreshFailed(String),
    Internal(String),
    NotFound(String),
}

impl GatewayError {
    /// The HTTP status this error maps to.
    pub open spec fn spec_status(self) -> u16 {
        match self {
            GatewayError::Unauthorized(_) => 401,
            GatewayError::SessionExpired => 401,
            GatewayError::TokenError(_) => 401,
            GatewayError::Forbidden(_) => 403,
            GatewayError::ServiceNotAllowed(_) => 403,
            GatewayError::RateLimitExceeded => 429,
            GatewayError::BadRequest(_) => 400,
            GatewayError::ReplayDetected => 400,
            GatewayError::UpstreamError(_) => 502,
            GatewayError::CredentialNotFound(_) => 404,
            GatewayError::TokenRefreshFailed(_) => 500,
            GatewayError::Internal(_) => 500,
            GatewayError::NotFound(_) => 404,
        }
    }

    /// The stable kind string of this error.
    pub open spec fn spec_kind(self) -> Seq<char> {
        match self {
            GatewayError::Unauthorized(_) => "unauthorized"@,
            GatewayError::SessionExpired => "session_expired"@,
            GatewayError::TokenError(_) => "token_error"@,
            GatewayError::Forbidden(_) => "forbidden"@,
            GatewayError::ServiceNotAllowed(_) => "service_not_allowed"@,
            GatewayError::RateLimitExceeded => "rate_limit_exceeded"@,
            GatewayError::BadRequest(_) => "bad_request"@,
            GatewayError::ReplayDetected => "replay_detected"@,
            GatewayError::UpstreamError(_) => "upstream_error"@,
            GatewayError::CredentialNotFound(_) => "credential_not_found"@,
            GatewayError::TokenRefreshFailed(_) => "token_refresh_failed"@,
            GatewayError::Internal(_) => "internal_error"@,
            GatewayError::NotFound(_) => "not_found"@,
        }
    }

    /// The human-readable message of this error.
    pub open spec fn spec_message(self) -> Seq<char> {
        match self {
            GatewayError::Unauthorized(m) => m@,
            GatewayError::SessionExpired => "Session has expired"@,
            GatewayError::TokenError(m) => m@,
            GatewayError::Forbidden(m) => m@,
            GatewayError::ServiceNotAllowed(s) => "Access to "@ + s@ + " not permitted"@,
            GatewayError::RateLimitExceeded => "Rate limit exceeded"@,
            GatewayError::BadRequest(m) => m@,
            GatewayError::ReplayDetected => "Replay attack detected"@,
            GatewayError::UpstreamError(m) => m@,
            GatewayError::CredentialNotFound(s) => "No credentials for "@ + s@,
            GatewayError::TokenRefreshFailed(m) => m@,
            GatewayError::Internal(m) => m@,
            GatewayError::NotFound(m) => m@,
        }
    }

    /// The HTTP status this error maps to, per the wire contract.
    pub fn status_code(&self) -> (status: u16)
        ensures
            status == self.spec_status(),
    {
        match self {
            GatewayError::Unauthorized(_) => 401,
            GatewayError::SessionExpired => 401,
            GatewayError::TokenError(_) => 401,
            GatewayError::Forbidden(_) => 403,
            GatewayError::ServiceNotAllowed(_) => 403,
            GatewayError::RateLimitExceeded => 429,
            GatewayError::BadRequest(_) => 400,
            GatewayError::ReplayDetected => 400,
            GatewayError::UpstreamError(_) => 502,
            GatewayError::CredentialNotFound(_) => 404,
            GatewayError::TokenRefreshFailed(_) => 500,
            GatewayError::Internal(_) => 500,
            GatewayError::NotFound(_) => 404,
        }
    }

    /// The stable kind string, for the `error` field of the envelope.
    pub fn kind(&self) -> (kind: &'static str)
        ensures
            kind@ == self.spec_kind(),
    {
        match self {
            GatewayError::Unauthorized(_) => "unauthorized",
            GatewayError::SessionExpired => "session_expired",
            GatewayError::TokenError(_) => "token_error",
            GatewayError::Forbidden(_) => "forbidden",
            GatewayError::ServiceNotAllowed(_) => "service_not_allowed",
            GatewayError::RateLimitExceeded => "rate_limit_exceeded",
            GatewayError::BadRequest(_) => "bad_request",
            GatewayError::ReplayDetected => "replay_detected",
            GatewayError::UpstreamError(_) => "upstream_error",
            GatewayError::CredentialNotFound(_) => "credential_not_found",
            GatewayError::TokenRefreshFailed(_) => "token_refresh_failed",
            GatewayError::Internal(_) => "internal_error",
            GatewayError::NotFound(_) => "not_found",
        }
    }

    /// The human-readable message, for the `message` field of the envelope.
    pub fn message(&self) -> (message: String)
        ensures
            message@ == self.spec_message(),
    {
        match self {
            GatewayError::Unauthorized(m) => m.clone(),
            GatewayError::SessionExpired => String::from_str("Session has expired"),
            GatewayError::TokenError(m) => m.clone(),
            GatewayError::Forbidden(m) => m.clone(),
            GatewayError::ServiceNotAllowed(s) => concat3("Access to ", s.as_str(), " not permitted"),
            GatewayError::RateLimitExceeded => String::from_str("Rate limit exceeded"),
            GatewayError::BadRequest(m) => m.clone(),
            GatewayError::ReplayDetected => String::from_str("Replay attack detected"),
            GatewayError::UpstreamError(m) => m.clone(),
            GatewayError::CredentialNotFound(s) => concat2("No credentials for ", s.as_str()),
            GatewayError::TokenRefreshFailed(m) => m.clone(),
            GatewayError::Internal(m) => m.clone(),
            GatewayError::NotFound(m) => m.clone(),
        }
    }
}

} // verus!
