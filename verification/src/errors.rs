//! The failures that the library reports.

use vstd::prelude::*;
use crate::domain::ValidationError;

verus! {

/// A write that a table refused because it would break the table's
/// uniqueness rule.
#[derive(Clone, Copy, Debug, PartialEq, Eq, Structural)]
pub enum StoreError {
    /// A subscriber with this identifier is stored already.
    DuplicateSubscriberId,
    /// A subscriber with this address is stored already.
    DuplicateEmail,
    /// This confirmation token is bound already.
    DuplicateToken,
    /// A newsletter with this identifier is stored already.
    DuplicateNewsletterId,
    /// The store could not be reached or could not commit.
    Unavailable,
}

/// How the mail provider failed to take a message.
#[derive(Clone, Copy, Debug, PartialEq, Eq, Structural)]
pub enum DeliveryFailure {
    /// A network fault, a provider-side error or a timeout: worth another try.
    Transient,
    /// The provider rejects the recipient or the content: never retried.
    Permanent,
}

/// Every failure a caller of the library can see.
#[derive(Clone, Copy, Debug, PartialEq, Eq, Structural)]
pub enum Error {
    /// The input is not acceptable; the caller can mend it.
    Validation(ValidationError),
    /// The confirmation token is unknown or was used already.
    TokenNotFound,
    /// The store refused the write; nothing was written.
    Persistence(StoreError),
    /// Another publish request with the same idempotency key committed first.
    DuplicateIdempotencyKey,
    /// The mail provider did not take the message.
    Delivery(DeliveryFailure),
}

/// The HTTP status that tells a caller of a failure: 400 for input the
/// caller can mend, 404 for a token that is not live, and 500 for what a
/// later try may get past (a refused write, a publish request that lost a
/// race, a mail provider that did not take the message).
pub open spec fn status_for(e: Error) -> u16 {
    match e {
        Error::Validation(_) => 400,
        Error::TokenNotFound => 404,
        Error::Persistence(_) => 500,
        Error::DuplicateIdempotencyKey => 500,
        Error::Delivery(_) => 500,
    }
}

/// The HTTP status for a failure.
pub fn http_status(e: Error) -> (code: u16)
    ensures
        code == status_for(e),
{
    match e {
        Error::Validation(_) => 400,
        Error::TokenNotFound => 404,
        Error::Persistence(_) => 500,
        Error::DuplicateIdempotencyKey => 500,
        Error::Delivery(_) => 500,
    }
}

/// The HTTP status for the result of a request: 200 where it succeeded.
pub fn response_status<T>(r: &Result<T, Error>) -> (code: u16)
    ensures
        code == match r {
            Ok(_) => 200,
            Err(e) => status_for(*e),
        },
{
    match r {
        Ok(_) => 200,
        Err(e) => http_status(*e),
    }
}

} // verus!
