//! Engine error types.
//!
//! Every rejection the engine issues is a business-rule rejection: the
//! caller reports it and continues with the next record. The severity is
//! carried by the [`AppError`] variant so that a caller cannot confuse a
//! skippable rejection with a run-ending failure.

use vstd::prelude::*;

verus! {

/// The business rule that a rejected transaction failed.
#[derive(Clone, Copy, Debug, PartialEq, Eq, Structural)]
pub enum RejectionReason {
    /// A deposit or withdrawal came without an amount.
    MissingAmount,
    /// The transaction identifier of a deposit or withdrawal was already
    /// accepted earlier in the stream.
    DuplicateTxId,
    /// The target account is frozen after a chargeback.
    AccountFrozen,
    /// A withdrawal asked for more than the available balance.
    InsufficientFunds,
    /// A dispute, resolve or chargeback named a client with no account.
    ClientNotFound,
    /// A dispute named a transaction that is already under dispute.
    AlreadyDisputed,
    /// A dispute named a transaction the client never made.
    DisputedTxNotFound,
    /// A dispute named a transaction that is not a deposit.
    NotADeposit,
    /// A resolve or chargeback named a transaction with no active dispute.
    NoActiveDispute,
}

/// A processing failure, tagged with its severity.
#[derive(Clone, Copy, Debug, PartialEq, Eq, Structural)]
pub enum AppError {
    /// A failure that ends the run.
    TxProcessing(RejectionReason),
    /// A business-rule rejection: the record is skipped and the run goes on.
    TxProcessingNonCritical(RejectionReason),
}

} // verus!
