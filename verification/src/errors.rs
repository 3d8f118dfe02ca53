//! Error kinds surfaced on the HTTP edge.

use vstd::prelude::*;

verus! {

/// Every failure the gateway reports to a caller, one variant per
/// user-visible code.
#[derive(Clone, Copy, PartialEq, Eq, Structural, Debug)]
pub enum ApiError {
    /// Missing or malformed query or body.
    BadRequest,
    /// Admin token mismatch, or delegated auth returned a refusal.
    Unauthorised,
    /// Detach target missing, or unknown route.
    NotFound,
    /// Webhook carried the wrong content type.
    UnsupportedMediaType,
    /// The rate limiter denied admission.
    TooManyRequests,
    /// Auth endpoint transport failure or timeout.
    UpstreamUnavailable,
    /// Auth reply could not be parsed.
    UpstreamMalformed,
}

impl ApiError {
    /// The SCREAMING_SNAKE code used in the JSON error body.
    pub fn code(self) -> (r: &'static str)
        ensures
            r@ == self.code_spec(),
    {
        match self {
            ApiError::BadRequest => "BAD_REQUEST",
            ApiError::Unauthorised => "UNAUTHORIZED",
            ApiError::NotFound => "NOT_FOUND",
            ApiError::UnsupportedMediaType => "UNSUPPORTED_MEDIA_TYPE",
            ApiError::TooManyRequests => "TOO_MANY_REQUESTS",
            ApiError::UpstreamUnavailable => "SERVICE_UNAVAILABLE",
            ApiError::UpstreamMalformed => "INTERNAL_SERVER_ERROR",
        }
    }

    pub open spec fn code_spec(self) -> Seq<char> {
        match self {
            ApiError::BadRequest => "BAD_REQUEST"@,
            ApiError::Unauthorised => "UNAUTHORIZED"@,
            ApiError::NotFound => "NOT_FOUND"@,
            ApiError::UnsupportedMediaType => "UNSUPPORTED_MEDIA_TYPE"@,
            ApiError::TooManyRequests => "TOO_MANY_REQUESTS"@,
            ApiError::UpstreamUnavailable => "SERVICE_UNAVAILABLE"@,
            ApiError::UpstreamMalformed => "INTERNAL_SERVER_ERROR"@,
        }
    }

    /// The HTTP status that carries this error.
    pub fn http_status(self) -> (r: u16)
        ensures
            r == self.http_status_spec(),
    {
        match self {
            ApiError::BadRequest => 400,
            ApiError::Unauthorised => 401,
            ApiError::NotFound => 404,
            ApiError::UnsupportedMediaType => 415,
            ApiError::TooManyRequests => 429,
            ApiError::UpstreamUnavailable => 503,
            ApiError::UpstreamMalformed => 500,
        }
    }

    pub open spec fn http_status_spec(self) -> u16 {
        match self {
            ApiError::BadRequest => 400,
            ApiError::Unauthorised => 401,
            ApiError::NotFound => 404,
            ApiError::UnsupportedMediaType => 415,
            ApiError::TooManyRequests => 429,
            ApiError::UpstreamUnavailable => 503,
            ApiError::UpstreamMalformed => 500,
        }
    }
}

} // verus!
