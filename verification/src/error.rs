//! The errors of the library.

use crate::clock::Duration;
use crate::decimal::Decimal;
use vstd::prelude::*;

verus! {

/// Errors of the core: rules and message plumbing.
#[derive(Debug)]
pub enum CoreError {
    /// The loop of a module without commands came to an end.
    LightweightModuleLoop(String),
    Other(String),
}

pub type CoreResult<T> = Result<T, CoreError>;

/// Errors that every platform can have.
#[derive(Debug)]
pub enum BinaryOptionsError {
    General(String),
    ParseDecimal(String),
}

pub type BinaryOptionsResult<T> = Result<T, BinaryOptionsError>;

/// Errors of the trading platform.
#[derive(Debug)]
pub enum PocketError {
    General(String),
    /// Nothing came back in time.
    Timeout { task: String, context: String, duration: Duration },
    /// No deal has this identifier.
    DealNotFound(u128),
    /// The exchange refused an order.
    FailOpenOrder { error: String, amount: Decimal, asset: String },
    Core(CoreError),
}

pub type PocketResult<T> = Result<T, PocketError>;

/// Whether an error is a general one with the given text.
pub open spec fn is_general(e: PocketError, text: Seq<char>) -> bool {
    e matches PocketError::General(t) && t@ == text
}

} // verus!
