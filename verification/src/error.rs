//! The errors that the service answers a request with.
use vstd::prelude::*;

verus! {

/// An error answer. The text of each variant that carries one is shown to
/// the client.
#[derive(Debug)]
pub enum AppError {
    BadRequest(String),
    Unauthorized,
    Forbidden,
    NotFound,
    Conflict(String),
    PayloadTooLarge(String),
    RateLimited,
    Internal(String),
}

/// The mathematical form of an error answer.
pub enum ErrorData {
    BadRequest(Seq<char>),
    Unauthorized,
    Forbidden,
    NotFound,
    Conflict(Seq<char>),
    PayloadTooLarge(Seq<char>),
    RateLimited,
    Internal(Seq<char>),
}

impl View for AppError {
    type V = ErrorData;

    open spec fn view(&self) -> ErrorData {
        match self {
            AppError::BadRequest(m) => ErrorData::BadRequest(m@),
            AppError::Unauthorized => ErrorData::Unauthorized,
            AppError::Forbidden => ErrorData::Forbidden,
            AppError::NotFound => ErrorData::NotFound,
            AppError::Conflict(m) => ErrorData::Conflict(m@),
            AppError::PayloadTooLarge(m) => ErrorData::PayloadTooLarge(m@),
            AppError::RateLimited => ErrorData::RateLimited,
            AppError::Internal(m) => ErrorData::Internal(m@),
        }
    }
}

/// The mathematical form of a result that fails with an `AppError`.
pub open spec fn outcome<T, V>(r: Result<T, AppError>, f: spec_fn(T) -> V) -> Result<V, ErrorData> {
    match r {
        Ok(t) => Ok(f(t)),
        Err(e) => Err(e@),
    }
}

} // verus!
