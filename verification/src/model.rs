//! Mathematical model of the ledger.
//!
//! The engine's contracts are stated over this ghost model: a map from
//! client identifier to account state plus the set of every transaction
//! identifier accepted so far. [`rejection_of`] names the rule a record
//! fails, [`apply_action`] gives the state after an accepted record, and
//! [`run`] folds a whole stream.

use vstd::prelude::*;
use crate::amount::in_units_range;
use crate::errors::RejectionReason;
use crate::types::{Transaction, TransactionType};

verus! {

/// What the ledger remembers about an accepted deposit or withdrawal,
/// kept so that later disputes can reference it.
pub struct HistRecord {
    pub is_deposit: bool,
    pub amount: int,
}

/// The state of one client account.
#[verifier::ext_equal]
pub struct AccountModel {
    /// Funds the client may withdraw, in `10^-18` units.
    pub available: int,
    /// Funds frozen pending dispute resolution, in `10^-18` units.
    pub held: int,
    /// Set once by a chargeback, never cleared.
    pub frozen: bool,
    /// Accepted deposits and withdrawals of this client, by identifier.
    pub history: Map<u32, HistRecord>,
    /// Amount held for each transaction currently under dispute.
    pub disputes: Map<u32, int>,
}

/// The state of the whole ledger.
#[verifier::ext_equal]
pub struct LedgerModel {
    pub accounts: Map<u16, AccountModel>,
    /// Every transaction identifier ever accepted as a deposit or
    /// withdrawal, across all clients.
    pub accepted: Set<u32>,
}

/// A validated transaction: a deposit or withdrawal always carries its
/// amount, the dispute-family operations only a reference.
pub enum TxAction {
    Deposit { client: u16, tx_id: u32, amount: int },
    Withdrawal { client: u16, tx_id: u32, amount: int },
    Dispute { client: u16, tx_id: u32 },
    Resolve { client: u16, tx_id: u32 },
    Chargeback { client: u16, tx_id: u32 },
}

/// An account that has just been created: empty balances, not frozen.
pub open spec fn empty_account() -> AccountModel {
    AccountModel {
        available: 0,
        held: 0,
        frozen: false,
        history: Map::empty(),
        disputes: Map::empty(),
    }
}

/// The ledger at engine construction: no accounts, nothing accepted.
pub open spec fn empty_ledger() -> LedgerModel {
    LedgerModel { accounts: Map::empty(), accepted: Set::empty() }
}

/// The target account, or a fresh one where none exists yet.
pub open spec fn account_or_new(m: LedgerModel, client: u16) -> AccountModel {
    if m.accounts.contains_key(client) {
        m.accounts[client]
    } else {
        empty_account()
    }
}

/// Whether the client's account exists and is frozen.
pub open spec fn is_frozen(m: LedgerModel, client: u16) -> bool {
    m.accounts.contains_key(client) && m.accounts[client].frozen
}

/// The client a validated transaction targets.
pub open spec fn action_client(a: TxAction) -> u16 {
    match a {
        TxAction::Deposit { client, .. } => client,
        TxAction::Withdrawal { client, .. } => client,
        TxAction::Dispute { client, .. } => client,
        TxAction::Resolve { client, .. } => client,
        TxAction::Chargeback { client, .. } => client,
    }
}

/// The transaction identifier a validated transaction carries.
pub open spec fn action_tx_id(a: TxAction) -> u32 {
    match a {
        TxAction::Deposit { tx_id, .. } => tx_id,
        TxAction::Withdrawal { tx_id, .. } => tx_id,
        TxAction::Dispute { tx_id, .. } => tx_id,
        TxAction::Resolve { tx_id, .. } => tx_id,
        TxAction::Chargeback { tx_id, .. } => tx_id,
    }
}

/// Whether the transaction moves funds (deposit or withdrawal), and so
/// falls under the global duplicate check.
pub open spec fn is_funds_move(a: TxAction) -> bool {
    a is Deposit || a is Withdrawal
}

/// The rule a validated transaction fails on ledger `m`, if any, checked
/// in the engine's order: duplicate identifier, frozen account, then the
/// rule of the transaction's own kind.
pub open spec fn rejection_of(m: LedgerModel, a: TxAction) -> Option<RejectionReason> {
    if is_funds_move(a) && m.accepted.contains(action_tx_id(a)) {
        Some(RejectionReason::DuplicateTxId)
    } else if is_frozen(m, action_client(a)) {
        Some(RejectionReason::AccountFrozen)
    } else {
        match a {
            TxAction::Deposit { .. } => None,
            TxAction::Withdrawal { client, amount, .. } => {
                if account_or_new(m, client).available - amount < 0 {
                    Some(RejectionReason::InsufficientFunds)
                } else {
                    None
                }
            },
            TxAction::Dispute { client, tx_id } => {
                if !m.accounts.contains_key(client) {
                    Some(RejectionReason::ClientNotFound)
                } else if m.accounts[client].disputes.contains_key(tx_id) {
                    Some(RejectionReason::AlreadyDisputed)
                } else if !m.accounts[client].history.contains_key(tx_id) {
                    Some(RejectionReason::DisputedTxNotFound)
                } else if !m.accounts[client].history[tx_id].is_deposit {
                    Some(RejectionReason::NotADeposit)
                } else {
                    None
                }
            },
            TxAction::Resolve { client, tx_id } => {
                if !m.accounts.contains_key(client) {
                    Some(RejectionReason::ClientNotFound)
                } else if !m.accounts[client].disputes.contains_key(tx_id) {
                    Some(RejectionReason::NoActiveDispute)
                } else {
                    None
                }
            },
            TxAction::Chargeback { client, tx_id } => {
                if !m.accounts.contains_key(client) {
                    Some(RejectionReason::ClientNotFound)
                } else if !m.accounts[client].disputes.contains_key(tx_id) {
                    Some(RejectionReason::NoActiveDispute)
                } else {
                    None
                }
            },
        }
    }
}

/// Whether ledger `m` accepts the validated transaction.
pub open spec fn accepts(m: LedgerModel, a: TxAction) -> bool {
    rejection_of(m, a) is None
}

/// The ledger after an accepted transaction.
pub open spec fn apply_action(m: LedgerModel, a: TxAction) -> LedgerModel
    recommends
        accepts(m, a),
{
    match a {
        TxAction::Deposit { client, tx_id, amount } => {
            let acct = account_or_new(m, client);
            let updated = AccountModel {
                available: acct.available + amount,
                history: acct.history.insert(tx_id, HistRecord { is_deposit: true, amount }),
                ..acct
            };
            LedgerModel {
                accounts: m.accounts.insert(client, updated),
                accepted: m.accepted.insert(tx_id),
            }
        },
        TxAction::Withdrawal { client, tx_id, amount } => {
            let acct = account_or_new(m, client);
            let updated = AccountModel {
                available: acct.available - amount,
                history: acct.history.insert(tx_id, HistRecord { is_deposit: false, amount }),
                ..acct
            };
            LedgerModel {
                accounts: m.accounts.insert(client, updated),
                accepted: m.accepted.insert(tx_id),
            }
        },
        TxAction::Dispute { client, tx_id } => {
            let acct = m.accounts[client];
            let amount = acct.history[tx_id].amount;
            let updated = AccountModel {
                available: acct.available - amount,
                held: acct.held + amount,
                disputes: acct.disputes.insert(tx_id, amount),
                ..acct
            };
            LedgerModel { accounts: m.accounts.insert(client, updated), ..m }
        },
        TxAction::Resolve { client, tx_id } => {
            let acct = m.accounts[client];
            let amount = acct.disputes[tx_id];
            let updated = AccountModel {
                available: acct.available + amount,
                held: acct.held - amount,
                disputes: acct.disputes.remove(tx_id),
                ..acct
            };
            LedgerModel { accounts: m.accounts.insert(client, updated), ..m }
        },
        TxAction::Chargeback { client, tx_id } => {
            let acct = m.accounts[client];
            let amount = acct.disputes[tx_id];
            let updated = AccountModel {
                held: acct.held - amount,
                disputes: acct.disputes.remove(tx_id),
                frozen: true,
                ..acct
            };
            LedgerModel { accounts: m.accounts.insert(client, updated), ..m }
        },
    }
}

/// The amount a deposit or withdrawal carries; zero for the
/// dispute-family operations, which carry none.
pub open spec fn action_amount(a: TxAction) -> int {
    match a {
        TxAction::Deposit { amount, .. } => amount,
        TxAction::Withdrawal { amount, .. } => amount,
        _ => 0,
    }
}

/// The balance mutation of an accepted transaction, without the history
/// and accepted-set recording that follows for deposits and withdrawals.
pub open spec fn apply_balances(m: LedgerModel, a: TxAction) -> LedgerModel
    recommends
        accepts(m, a),
{
    match a {
        TxAction::Deposit { client, amount, .. } => {
            let acct = account_or_new(m, client);
            let updated = AccountModel { available: acct.available + amount, ..acct };
            LedgerModel { accounts: m.accounts.insert(client, updated), ..m }
        },
        TxAction::Withdrawal { client, amount, .. } => {
            let acct = account_or_new(m, client);
            let updated = AccountModel { available: acct.available - amount, ..acct };
            LedgerModel { accounts: m.accounts.insert(client, updated), ..m }
        },
        _ => apply_action(m, a),
    }
}

/// Recording of an accepted deposit or withdrawal: the record goes into
/// the client's history and its identifier into the accepted set. Other
/// transactions record nothing.
pub open spec fn record_accepted(m: LedgerModel, a: TxAction) -> LedgerModel {
    if is_funds_move(a) {
        let client = action_client(a);
        let tx_id = action_tx_id(a);
        let acct = account_or_new(m, client);
        let updated = AccountModel {
            history: acct.history.insert(
                tx_id,
                HistRecord { is_deposit: a is Deposit, amount: action_amount(a) },
            ),
            ..acct
        };
        LedgerModel {
            accounts: m.accounts.insert(client, updated),
            accepted: m.accepted.insert(tx_id),
        }
    } else {
        m
    }
}

/// Applying an accepted transaction is the balance mutation followed by
/// the recording step.
pub proof fn lemma_apply_split(m: LedgerModel, a: TxAction)
    requires
        accepts(m, a),
    ensures
        apply_action(m, a) == record_accepted(apply_balances(m, a), a),
{
    match a {
        TxAction::Deposit { client, tx_id, amount } => {
            assert(apply_action(m, a) =~~= record_accepted(apply_balances(m, a), a));
        },
        TxAction::Withdrawal { client, tx_id, amount } => {
            assert(apply_action(m, a) =~~= record_accepted(apply_balances(m, a), a));
        },
        _ => {},
    }
}

/// One step of the engine: the new ledger if the transaction is accepted,
/// the old ledger unchanged if it is rejected.
pub open spec fn step(m: LedgerModel, a: TxAction) -> LedgerModel {
    if accepts(m, a) {
        apply_action(m, a)
    } else {
        m
    }
}

/// The ledger after a whole stream of validated transactions, applied in
/// order, skipping the rejected ones.
pub open spec fn run(m: LedgerModel, actions: Seq<TxAction>) -> LedgerModel
    decreases actions.len(),
{
    if actions.len() == 0 {
        m
    } else {
        run(step(m, actions[0]), actions.drop_first())
    }
}

/// The validated form of an incoming record: `None` when a deposit or
/// withdrawal comes without an amount. A dispute-family record's amount
/// field is ignored, as the engine never reads it.
pub open spec fn action_of(tx: Transaction) -> Option<TxAction> {
    match tx.op_type {
        TransactionType::Deposit => match tx.amount {
            Some(a) => Some(
                TxAction::Deposit { client: tx.client.0, tx_id: tx.tx_id.0, amount: a@ },
            ),
            None => None,
        },
        TransactionType::Withdrawal => match tx.amount {
            Some(a) => Some(
                TxAction::Withdrawal { client: tx.client.0, tx_id: tx.tx_id.0, amount: a@ },
            ),
            None => None,
        },
        TransactionType::Dispute => Some(
            TxAction::Dispute { client: tx.client.0, tx_id: tx.tx_id.0 },
        ),
        TransactionType::Resolve => Some(
            TxAction::Resolve { client: tx.client.0, tx_id: tx.tx_id.0 },
        ),
        TransactionType::Chargeback => Some(
            TxAction::Chargeback { client: tx.client.0, tx_id: tx.tx_id.0 },
        ),
    }
}

/// The rule an incoming record fails, if any: a missing amount first, then
/// the rules of [`rejection_of`].
pub open spec fn rejection_of_tx(m: LedgerModel, tx: Transaction) -> Option<RejectionReason> {
    match action_of(tx) {
        Some(a) => rejection_of(m, a),
        None => Some(RejectionReason::MissingAmount),
    }
}

/// Whether the balances a validated transaction would write stay within
/// the range the engine's fixed-point arithmetic can hold. Machine limit
/// only: rejected transactions write nothing and always fit.
pub open spec fn action_fits(m: LedgerModel, a: TxAction) -> bool {
    accepts(m, a) ==> match a {
        TxAction::Deposit { client, amount, .. } => {
            in_units_range(amount)
                && in_units_range(account_or_new(m, client).available + amount)
        },
        TxAction::Withdrawal { client, amount, .. } => {
            in_units_range(amount)
                && in_units_range(account_or_new(m, client).available - amount)
        },
        TxAction::Dispute { client, tx_id } => {
            let acct = m.accounts[client];
            let amount = acct.history[tx_id].amount;
            in_units_range(acct.available - amount) && in_units_range(acct.held + amount)
        },
        TxAction::Resolve { client, tx_id } => {
            let acct = m.accounts[client];
            let amount = acct.disputes[tx_id];
            in_units_range(acct.available + amount) && in_units_range(acct.held - amount)
        },
        TxAction::Chargeback { client, tx_id } => {
            let acct = m.accounts[client];
            in_units_range(acct.held - acct.disputes[tx_id])
        },
    }
}

/// [`action_fits`], lifted to incoming records.
pub open spec fn tx_fits(m: LedgerModel, tx: Transaction) -> bool {
    match action_of(tx) {
        Some(a) => action_fits(m, a),
        None => true,
    }
}

} // verus!
