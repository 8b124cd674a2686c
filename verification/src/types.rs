//! Identifier and transaction record types.

use vstd::prelude::*;
use crate::amount::Amount;

verus! {

/// A client identifier.
#[derive(Clone, Copy, Debug, PartialEq, Eq, Hash, Structural)]
pub struct ClientId(pub u16);

/// A transaction identifier, globally unique across accepted deposits and
/// withdrawals.
#[derive(Clone, Copy, Debug, PartialEq, Eq, Hash, Structural)]
pub struct TxID(pub u32);

/// The operation named by an incoming transaction record.
#[derive(Clone, Copy, Debug, PartialEq, Eq, Hash, Structural)]
pub enum TransactionType {
    Deposit,
    Withdrawal,
    Dispute,
    Resolve,
    Chargeback,
}

/// One incoming transaction record, as handed to the engine by the input
/// adapter. The amount is required for deposits and withdrawals and ignored
/// for the dispute-family operations.
#[derive(Clone, Copy, Debug)]
pub struct Transaction {
    pub op_type: TransactionType,
    pub client: ClientId,
    pub tx_id: TxID,
    pub amount: Option<Amount>,
}

} // verus!
