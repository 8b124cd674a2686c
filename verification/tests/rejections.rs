use tx_engine::amount::Amount;
use tx_engine::errors::{AppError, RejectionReason};
use tx_engine::tx_engine::TxEngine;
use tx_engine::types::{ClientId, Transaction, TransactionType, TxID};

fn make_tx(
    op_type: TransactionType,
    client: u16,
    tx_id: u32,
    amount: Option<Amount>,
) -> Transaction {
    Transaction {
        op_type,
        client: ClientId(client),
        tx_id: TxID(tx_id),
        amount,
    }
}

fn non_critical(reason: RejectionReason) -> Result<(), AppError> {
    Err(AppError::TxProcessingNonCritical(reason))
}

fn frozen_engine() -> TxEngine {
    let mut engine = TxEngine::new();
    engine
        .process_transaction(&make_tx(
            TransactionType::Deposit,
            1,
            1,
            Some(Amount::new(30, 1)),
        ))
        .unwrap();
    engine
        .process_transaction(&make_tx(TransactionType::Dispute, 1, 1, None))
        .unwrap();
    engine
        .process_transaction(&make_tx(TransactionType::Chargeback, 1, 1, None))
        .unwrap();
    engine
}

#[test]
fn missing_amount_reason() {
    let mut engine = TxEngine::new();
    let result = engine.process_transaction(&make_tx(TransactionType::Deposit, 1, 1, None));
    assert_eq!(result, non_critical(RejectionReason::MissingAmount));
}

#[test]
fn duplicate_tx_id_reason() {
    let mut engine = TxEngine::new();
    engine
        .process_transaction(&make_tx(
            TransactionType::Deposit,
            1,
            1,
            Some(Amount::new(10, 1)),
        ))
        .unwrap();
    let result = engine.process_transaction(&make_tx(
        TransactionType::Withdrawal,
        1,
        1,
        Some(Amount::new(10, 1)),
    ));
    assert_eq!(result, non_critical(RejectionReason::DuplicateTxId));
}

#[test]
fn missing_amount_is_reported_before_a_duplicate_id() {
    let mut engine = TxEngine::new();
    engine
        .process_transaction(&make_tx(
            TransactionType::Deposit,
            1,
            1,
            Some(Amount::new(10, 1)),
        ))
        .unwrap();
    let result = engine.process_transaction(&make_tx(TransactionType::Deposit, 1, 1, None));
    assert_eq!(result, non_critical(RejectionReason::MissingAmount));
}

#[test]
fn account_frozen_reason() {
    let mut engine = frozen_engine();
    let result = engine.process_transaction(&make_tx(
        TransactionType::Deposit,
        1,
        2,
        Some(Amount::new(10, 1)),
    ));
    assert_eq!(result, non_critical(RejectionReason::AccountFrozen));
}

#[test]
fn duplicate_id_is_reported_before_a_frozen_account() {
    let mut engine = frozen_engine();
    let result = engine.process_transaction(&make_tx(
        TransactionType::Deposit,
        1,
        1,
        Some(Amount::new(10, 1)),
    ));
    assert_eq!(result, non_critical(RejectionReason::DuplicateTxId));
}

#[test]
fn insufficient_funds_reason() {
    let mut engine = TxEngine::new();
    let result = engine.process_transaction(&make_tx(
        TransactionType::Withdrawal,
        1,
        1,
        Some(Amount::new(1, 4)),
    ));
    assert_eq!(result, non_critical(RejectionReason::InsufficientFunds));
    // The rejected withdrawal against a fresh client creates no account.
    assert!(engine.clients_snapshot().is_empty());
}

#[test]
fn client_not_found_reason() {
    let mut engine = TxEngine::new();
    let result = engine.process_transaction(&make_tx(TransactionType::Dispute, 5, 1, None));
    assert_eq!(result, non_critical(RejectionReason::ClientNotFound));
}

#[test]
fn already_disputed_reason() {
    let mut engine = TxEngine::new();
    engine
        .process_transaction(&make_tx(
            TransactionType::Deposit,
            1,
            1,
            Some(Amount::new(10, 1)),
        ))
        .unwrap();
    engine
        .process_transaction(&make_tx(TransactionType::Dispute, 1, 1, None))
        .unwrap();
    let result = engine.process_transaction(&make_tx(TransactionType::Dispute, 1, 1, None));
    assert_eq!(result, non_critical(RejectionReason::AlreadyDisputed));
}

#[test]
fn disputed_tx_not_found_reason() {
    let mut engine = TxEngine::new();
    engine
        .process_transaction(&make_tx(
            TransactionType::Deposit,
            1,
            1,
            Some(Amount::new(10, 1)),
        ))
        .unwrap();
    let result = engine.process_transaction(&make_tx(TransactionType::Dispute, 1, 99, None));
    assert_eq!(result, non_critical(RejectionReason::DisputedTxNotFound));
}

#[test]
fn not_a_deposit_reason() {
    let mut engine = TxEngine::new();
    engine
        .process_transaction(&make_tx(
            TransactionType::Deposit,
            1,
            1,
            Some(Amount::new(10, 1)),
        ))
        .unwrap();
    engine
        .process_transaction(&make_tx(
            TransactionType::Withdrawal,
            1,
            2,
            Some(Amount::new(5, 1)),
        ))
        .unwrap();
    let result = engine.process_transaction(&make_tx(TransactionType::Dispute, 1, 2, None));
    assert_eq!(result, non_critical(RejectionReason::NotADeposit));
}

#[test]
fn no_active_dispute_reason() {
    let mut engine = TxEngine::new();
    engine
        .process_transaction(&make_tx(
            TransactionType::Deposit,
            1,
            1,
            Some(Amount::new(10, 1)),
        ))
        .unwrap();
    let resolve = engine.process_transaction(&make_tx(TransactionType::Resolve, 1, 1, None));
    let chargeback = engine.process_transaction(&make_tx(TransactionType::Chargeback, 1, 1, None));
    assert_eq!(resolve, non_critical(RejectionReason::NoActiveDispute));
    assert_eq!(chargeback, non_critical(RejectionReason::NoActiveDispute));
}

#[test]
fn a_withdrawal_of_zero_on_a_fresh_client_creates_the_account() {
    let mut engine = TxEngine::new();
    engine
        .process_transaction(&make_tx(
            TransactionType::Withdrawal,
            1,
            1,
            Some(Amount::zero()),
        ))
        .unwrap();
    let snapshots = engine.clients_snapshot();
    assert_eq!(snapshots.len(), 1);
    assert_eq!(snapshots[0].client_id, ClientId(1));
    assert!(snapshots[0].available.is_zero());
}
