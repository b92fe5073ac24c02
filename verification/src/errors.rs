//! The error kinds an operation can fail with.
//!
//! Every error is detected before any record is changed, so a failing
//! operation leaves the ledger exactly as it found it.

use vstd::prelude::*;

verus! {

/// Why an operation was refused.
#[derive(Clone, Copy, Debug, PartialEq, Eq, Structural)]
pub enum ErrorCode {
    /// `accept` was attempted on a receipt that is not `Pending`.
    InvalidReceiptStatus,
    /// `rate_and_close` was attempted on a receipt that is not `Accepted`.
    ReceiptNotAccepted,
    /// The invoking identity is not the party the operation requires.
    Unauthorized,
    /// A caller-supplied address differs from the deterministic derivation.
    AddressMismatch,
    /// A record already occupies the derived address.
    AlreadyExists,
    /// No record of the required kind lives at the supplied address.
    RecordNotFound,
    /// A rating or receipt counter would overflow.
    CounterOverflow,
    /// A text field exceeds its declared byte bound.
    DataTooLong,
}

} // verus!
