//! Errors of the scraper, of the service layer and of the HTTP API.
use vstd::prelude::*;

verus! {

/// What can go wrong while talking to KronoX or reading its answers.
#[derive(Debug)]
pub enum KronoxError {
    /// The HTTP request failed.
    Http(reqwest::Error),
    /// KronoX answered with a non-success status.
    Upstream { status: u16 },
    /// The request URL is invalid.
    Url(url::ParseError),
    /// The schedule document is not valid KronoX XML.
    Xml(quick_xml::DeError),
    /// A timestamp could not be read.
    Time(chrono::ParseError),
    /// The schools configuration is missing or invalid.
    Config(String),
}

/// Failures of the service layer.
#[derive(Debug)]
pub enum ServiceError {
    /// KronoX could not be reached or answered badly.
    Upstream,
    /// The cache database failed.
    Db,
}

/// Failures the HTTP API reports to its clients.
#[derive(Debug)]
pub enum ApiError {
    /// The request is malformed; the text says how.
    BadRequest(String),
    /// The school code is not configured; the configured codes follow.
    UnknownSchool(Vec<String>),
    /// KronoX is unavailable.
    Upstream,
    /// Something failed on our side.
    Internal,
}

/// HTTP 400.
pub const STATUS_BAD_REQUEST: u16 = 400;

/// HTTP 500.
pub const STATUS_INTERNAL_SERVER_ERROR: u16 = 500;

/// HTTP 503.
pub const STATUS_SERVICE_UNAVAILABLE: u16 = 503;

/// Error text for an unknown school.
pub const UNKNOWN_SCHOOL: &'static str = "unknown school";

/// Error text when KronoX is unavailable.
pub const UPSTREAM_UNAVAILABLE: &'static str = "upstream unavailable";

/// Seconds after which a client may retry when KronoX is unavailable.
pub const RETRY_AFTER: &'static str = "300";

/// Error text for a failure on our side.
pub const INTERNAL_ERROR: &'static str = "internal error";

/// The JSON body of an error response: `error`, and where present
/// `allowed_schools` and `retry_after`.
#[derive(Debug)]
pub struct ErrorBody {
    pub error: String,
    pub allowed_schools: Option<Vec<String>>,
    pub retry_after: Option<String>,
}

impl ApiError {
    /// The HTTP status and the body with which the error is answered: a bad
    /// request or an unknown school is 400 (the latter listing the configured
    /// schools), an unavailable KronoX is 503 with a retry hint, anything
    /// else is 500.
    pub fn into_parts(self) -> (r: (u16, ErrorBody))
        ensures
            match self {
                ApiError::BadRequest(message) => r.0 == STATUS_BAD_REQUEST && r.1.error@ == message@
                    && r.1.allowed_schools is None && r.1.retry_after is None,
                ApiError::UnknownSchool(allowed) => r.0 == STATUS_BAD_REQUEST && r.1.error@
                    == UNKNOWN_SCHOOL@ && (r.1.allowed_schools matches Some(a) && a@ == allowed@)
                    && r.1.retry_after is None,
                ApiError::Upstream => r.0 == STATUS_SERVICE_UNAVAILABLE && r.1.error@
                    == UPSTREAM_UNAVAILABLE@ && r.1.allowed_schools is None && (
                r.1.retry_after matches Some(s) && s@ == RETRY_AFTER@),
                ApiError::Internal => r.0 == STATUS_INTERNAL_SERVER_ERROR && r.1.error@
                    == INTERNAL_ERROR@ && r.1.allowed_schools is None && r.1.retry_after is None,
            },
    {
        match self {
            ApiError::BadRequest(message) => (
                STATUS_BAD_REQUEST,
                ErrorBody { error: message, allowed_schools: None, retry_after: None },
            ),
            ApiError::UnknownSchool(allowed) => (
                STATUS_BAD_REQUEST,
                ErrorBody {
                    error: UNKNOWN_SCHOOL.to_owned(),
                    allowed_schools: Some(allowed),
                    retry_after: None,
                },
            ),
            ApiError::Upstream => (
                STATUS_SERVICE_UNAVAILABLE,
                ErrorBody {
                    error: UPSTREAM_UNAVAILABLE.to_owned(),
                    allowed_schools: None,
                    retry_after: Some(RETRY_AFTER.to_owned()),
                },
            ),
            ApiError::Internal => (
                STATUS_INTERNAL_SERVER_ERROR,
                ErrorBody { error: INTERNAL_ERROR.to_owned(), allowed_schools: None, retry_after: None },
            ),
        }
    }
}

impl From<ServiceError> for ApiError {
    fn from(error: ServiceError) -> (r: Self) {
        match error {
            ServiceError::Upstream => ApiError::Upstream,
            ServiceError::Db => ApiError::Internal,
        }
    }
}

impl vstd::std_specs::convert::FromSpecImpl<ServiceError> for ApiError {
    open spec fn obeys_from_spec() -> bool {
        true
    }

    /// A KronoX failure is answered as unavailable, a database failure as an
    /// internal error.
    open spec fn from_spec(v: ServiceError) -> ApiError {
        match v {
            ServiceError::Upstream => ApiError::Upstream,
            ServiceError::Db => ApiError::Internal,
        }
    }
}

} // verus!
