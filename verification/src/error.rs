//! What a request can fail with.
use vstd::prelude::*;

verus! {

/// A failure, as the HTTP layer reports it.
#[derive(Debug, PartialEq)]
pub enum AppError {
    /// The request is malformed (400).
    BadRequest(String),
    /// The caller is not authenticated (401).
    Auth(String),
    /// The caller may not do this (403).
    Forbidden(String),
    /// There is no such thing (404).
    NotFound(String),
    /// The state does not allow it (409).
    Conflict(String),
    /// This service failed (500).
    Internal(String),
    /// A service behind this one failed (502).
    BadGateway(String),
    /// The caller spent its allowance (429).
    RateLimited { retry_after: u64, limit: u32, reset: u64 },
    /// An error with a code of its own in the lexicon.
    XrpcError { status: u16, code: String, message: String },
    /// A status and body that a PDS answered with, passed on as they are.
    PdsError(u16, Vec<u8>),
}

/// What an [`AppError`] says.
#[verifier::ext_equal]
pub enum ErrorView {
    BadRequest(Seq<char>),
    Auth(Seq<char>),
    Forbidden(Seq<char>),
    NotFound(Seq<char>),
    Conflict(Seq<char>),
    Internal(Seq<char>),
    BadGateway(Seq<char>),
    RateLimited { retry_after: u64, limit: u32, reset: u64 },
    XrpcError { status: u16, code: Seq<char>, message: Seq<char> },
    PdsError(u16, Seq<u8>),
}

impl View for AppError {
    type V = ErrorView;

    open spec fn view(&self) -> ErrorView {
        match self {
            AppError::BadRequest(m) => ErrorView::BadRequest(m@),
            AppError::Auth(m) => ErrorView::Auth(m@),
            AppError::Forbidden(m) => ErrorView::Forbidden(m@),
            AppError::NotFound(m) => ErrorView::NotFound(m@),
            AppError::Conflict(m) => ErrorView::Conflict(m@),
            AppError::Internal(m) => ErrorView::Internal(m@),
            AppError::BadGateway(m) => ErrorView::BadGateway(m@),
            AppError::RateLimited { retry_after, limit, reset } => ErrorView::RateLimited {
                retry_after: *retry_after,
                limit: *limit,
                reset: *reset,
            },
            AppError::XrpcError { status, code, message } => ErrorView::XrpcError {
                status: *status,
                code: code@,
                message: message@,
            },
            AppError::PdsError(status, body) => ErrorView::PdsError(*status, body@),
        }
    }
}

impl AppError {
    /// The HTTP status this failure is answered with.
    pub open spec fn spec_status(self) -> u16 {
        match self {
            AppError::BadRequest(_) => 400,
            AppError::Auth(_) => 401,
            AppError::Forbidden(_) => 403,
            AppError::NotFound(_) => 404,
            AppError::Conflict(_) => 409,
            AppError::Internal(_) => 500,
            AppError::BadGateway(_) => 502,
            AppError::RateLimited { .. } => 429,
            AppError::XrpcError { status, .. } => status,
            AppError::PdsError(status, _) => status,
        }
    }

    /// The HTTP status this failure is answered with.
    pub fn status(&self) -> (status: u16)
        ensures
            status == self.spec_status(),
    {
        match self {
            AppError::BadRequest(_) => 400,
            AppError::Auth(_) => 401,
            AppError::Forbidden(_) => 403,
            AppError::NotFound(_) => 404,
            AppError::Conflict(_) => 409,
            AppError::Internal(_) => 500,
            AppError::BadGateway(_) => 502,
            AppError::RateLimited { .. } => 429,
            AppError::XrpcError { status, .. } => *status,
            AppError::PdsError(status, _) => *status,
        }
    }
}

/// A fallible outcome, by what its value and its error say.
pub open spec fn outcome<T: View>(result: Result<T, AppError>) -> Result<T::V, ErrorView> {
    match result {
        Ok(value) => Ok(value@),
        Err(error) => Err(error@),
    }
}

/// A fallible outcome without a value, by what its error says.
pub open spec fn unit_outcome(result: Result<(), AppError>) -> Result<(), ErrorView> {
    match result {
        Ok(_) => Ok(()),
        Err(error) => Err(error@),
    }
}

/// Each kind of failure has its HTTP status: who is at fault shows in it, and an
/// error that carries its own status keeps it.
pub proof fn law_failures_have_their_status(error: AppError)
    ensures
        error is BadRequest ==> error.spec_status() == 400,
        error is Auth ==> error.spec_status() == 401,
        error is Forbidden ==> error.spec_status() == 403,
        error is NotFound ==> error.spec_status() == 404,
        error is Conflict ==> error.spec_status() == 409,
        error is RateLimited ==> error.spec_status() == 429,
        error is Internal ==> error.spec_status() == 500,
        error is BadGateway ==> error.spec_status() == 502,
        error matches AppError::XrpcError { status, code, message } ==> error.spec_status() == status,
        error matches AppError::PdsError(status, body) ==> error.spec_status() == status,
{
}

} // verus!
