//! The error taxonomy of the API.
use vstd::prelude::*;
use vstd::string::StringExecFns;

use crate::text::{u64_text, u64_to_text};

verus! {

/// An error, by the stage that raised it.
#[derive(Debug)]
pub enum ApiError {
    /// Malformed input: empty trader, non-positive quantity, a limit order without price.
    Validation(String),
    /// Cancel or modify of an order id that does not rest on the book.
    NotFound(u64),
    /// The book refused: duplicate id, unfillable fill-or-kill, a modify that would cross.
    EngineRejection(String),
    /// A pre-trade risk check refused: size, price band, position limit.
    RiskRejection(String),
    /// The trader's token bucket was empty.
    RateLimited(String),
    /// An invariant could not be kept.
    Internal(String),
}

/// The HTTP status that each kind of error answers with.
pub open spec fn status_of(e: ApiError) -> u16 {
    match e {
        ApiError::Validation(_) => 400,
        ApiError::NotFound(_) => 404,
        ApiError::EngineRejection(_) => 409,
        ApiError::RiskRejection(_) => 422,
        ApiError::RateLimited(_) => 429,
        ApiError::Internal(_) => 500,
    }
}

/// The text of an error: its kind, then its detail.
pub open spec fn message_of(e: ApiError) -> Seq<char> {
    match e {
        ApiError::Validation(m) => "Validation error: "@ + m@,
        ApiError::NotFound(id) => "Order not found: "@ + u64_text(id),
        ApiError::EngineRejection(m) => "Engine rejected: "@ + m@,
        ApiError::RiskRejection(m) => "Risk rejection: "@ + m@,
        ApiError::RateLimited(m) => "Rate limited: "@ + m@,
        ApiError::Internal(m) => "Internal error: "@ + m@,
    }
}

impl ApiError {
    pub fn status_code(&self) -> (r: u16)
        ensures
            r == status_of(*self),
    {
        match self {
            ApiError::Validation(_) => 400,
            ApiError::NotFound(_) => 404,
            ApiError::EngineRejection(_) => 409,
            ApiError::RiskRejection(_) => 422,
            ApiError::RateLimited(_) => 429,
            ApiError::Internal(_) => 500,
        }
    }

    /// The text of the error, as it is logged.
    pub fn message(&self) -> (r: String)
        ensures
            r@ == message_of(*self),
    {
        match self {
            ApiError::Validation(m) => String::from_str("Validation error: ").concat(m.as_str()),
            ApiError::NotFound(id) => String::from_str("Order not found: ").concat(u64_to_text(*id).as_str()),
            ApiError::EngineRejection(m) => String::from_str("Engine rejected: ").concat(m.as_str()),
            ApiError::RiskRejection(m) => String::from_str("Risk rejection: ").concat(m.as_str()),
            ApiError::RateLimited(m) => String::from_str("Rate limited: ").concat(m.as_str()),
            ApiError::Internal(m) => String::from_str("Internal error: ").concat(m.as_str()),
        }
    }

    /// The text that the client receives in the body.
    pub fn detail(&self) -> (r: String)
        ensures
            match *self {
                ApiError::NotFound(id) => r@ == "Order "@ + u64_text(id) + " not found"@,
                ApiError::Validation(m) => r@ == m@,
                ApiError::EngineRejection(m) => r@ == m@,
                ApiError::RiskRejection(m) => r@ == m@,
                ApiError::RateLimited(m) => r@ == m@,
                ApiError::Internal(m) => r@ == m@,
            },
    {
        match self {
            ApiError::NotFound(id) => String::from_str("Order ").concat(u64_to_text(*id).as_str()).concat(" not found"),
            ApiError::Validation(m) => m.clone(),
            ApiError::EngineRejection(m) => m.clone(),
            ApiError::RiskRejection(m) => m.clone(),
            ApiError::RateLimited(m) => m.clone(),
            ApiError::Internal(m) => m.clone(),
        }
    }
}

} // verus!
