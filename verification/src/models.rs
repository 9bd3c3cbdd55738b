//! Plain data carried between the cache, the request logic and the callers.

use vstd::prelude::*;
use vstd::string::StringExecFns;

verus! {

/// A cached factorization with its cost and the algorithm that produced it.
#[derive(Debug, Clone)]
pub struct CacheEntry {
    pub number: u64,
    pub factors: Vec<u64>,
    pub computation_time_ms: u64,
    pub algorithm: String,
}

/// What a `CacheEntry` holds, as mathematical values.
pub struct CacheEntryView {
    pub number: u64,
    pub factors: Seq<u64>,
    pub computation_time_ms: u64,
    pub algorithm: Seq<char>,
}

impl View for CacheEntry {
    type V = CacheEntryView;

    open spec fn view(&self) -> CacheEntryView {
        CacheEntryView {
            number: self.number,
            factors: self.factors@,
            computation_time_ms: self.computation_time_ms,
            algorithm: self.algorithm@,
        }
    }
}

/// Answer to one factorization request.
#[derive(Debug)]
pub struct FactorizationResponse {
    pub number: u64,
    pub factors: Vec<u64>,
    pub is_prime: bool,
    pub cached: bool,
    pub computation_time_ms: Option<u64>,
}

/// What a `FactorizationResponse` holds, as mathematical values.
pub struct FactorizationResponseView {
    pub number: u64,
    pub factors: Seq<u64>,
    pub is_prime: bool,
    pub cached: bool,
    pub computation_time_ms: Option<u64>,
}

impl View for FactorizationResponse {
    type V = FactorizationResponseView;

    open spec fn view(&self) -> FactorizationResponseView {
        FactorizationResponseView {
            number: self.number,
            factors: self.factors@,
            is_prime: self.is_prime,
            cached: self.cached,
            computation_time_ms: self.computation_time_ms,
        }
    }
}

/// A failure that is reported to the caller of the service.
#[derive(Debug)]
pub enum AppError {
    /// The request carried a value outside the valid domain.
    InvalidInput(String),
    /// The service itself failed.
    InternalError,
}

impl AppError {
    /// The HTTP status that stands for this error.
    pub open spec fn spec_status_code(&self) -> u16 {
        match self {
            AppError::InvalidInput(_) => 400,
            AppError::InternalError => 500,
        }
    }

    /// The text reported under the key `error`.
    pub open spec fn spec_error_message(&self) -> Seq<char> {
        match self {
            AppError::InvalidInput(msg) => msg@,
            AppError::InternalError => "Internal server error"@,
        }
    }

    /// The one-line description of the error.
    pub open spec fn spec_description(&self) -> Seq<char> {
        match self {
            AppError::InvalidInput(msg) => "Invalid input: "@ + msg@,
            AppError::InternalError => "Internal server error"@,
        }
    }

    /// 400 for invalid input, 500 for an internal error.
    pub fn status_code(&self) -> (code: u16)
        ensures
            code == self.spec_status_code(),
    {
        match self {
            AppError::InvalidInput(_) => 400,
            AppError::InternalError => 500,
        }
    }

    /// The message of the error body: the reason given for invalid input,
    /// a fixed text for an internal error.
    pub fn error_message(&self) -> (message: String)
        ensures
            message@ == self.spec_error_message(),
    {
        match self {
            AppError::InvalidInput(msg) => msg.clone(),
            AppError::InternalError => String::from_str("Internal server error"),
        }
    }

    /// The description of the error as one line of text.
    pub fn description(&self) -> (text: String)
        ensures
            text@ == self.spec_description(),
    {
        match self {
            AppError::InvalidInput(msg) => String::from_str("Invalid input: ").concat(msg.as_str()),
            AppError::InternalError => String::from_str("Internal server error"),
        }
    }
}

} // verus!
