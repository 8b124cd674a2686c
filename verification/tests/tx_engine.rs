use tx_engine::amount::Amount;
use tx_engine::errors::AppError;
use tx_engine::tx_engine::{ClientSnapshot, TxEngine};
use tx_engine::types::{ClientId, Transaction, TransactionType, TxID};

fn make_tx(
    op_type: TransactionType,
    client: u16,
    tx_id: u32,
    amount: Option<Amount>,
) -> Transaction {
    Transaction {
        op_type,
        client: ClientId(client),
        tx_id: TxID(tx_id),
        amount,
    }
}

fn snapshot_for(engine: &TxEngine, client_id: u16) -> ClientSnapshot {
    engine
        .clients_snapshot()
        .into_iter()
        .find(|snapshot| snapshot.client_id == ClientId(client_id))
        .expect("snapshot for client must exist")
}

#[test]
fn deposit_increases_available_and_total() {
    let mut engine = TxEngine::new();
    let tx = make_tx(TransactionType::Deposit, 1, 1, Some(Amount::new(55, 1)));

    engine.process_transaction(&tx).unwrap();

    let snapshot = snapshot_for(&engine, 1);
    assert_eq!(snapshot.available, Amount::new(55, 1));
    assert_eq!(snapshot.held, Amount::zero());
    assert_eq!(snapshot.total(), Amount::new(55, 1));
    assert!(!snapshot.locked);
}

#[test]
fn withdrawal_with_insufficient_funds_is_rejected_without_state_change() {
    let mut engine = TxEngine::new();
    engine
        .process_transaction(&make_tx(
            TransactionType::Deposit,
            1,
            1,
            Some(Amount::new(10, 1)),
        ))
        .unwrap();

    let result = engine.process_transaction(&make_tx(
        TransactionType::Withdrawal,
        1,
        2,
        Some(Amount::new(20, 1)),
    ));

    assert!(matches!(result, Err(AppError::TxProcessingNonCritical(_))));
    let snapshot = snapshot_for(&engine, 1);
    assert_eq!(snapshot.available, Amount::new(10, 1));
    assert_eq!(snapshot.held, Amount::zero());
    assert_eq!(snapshot.total(), Amount::new(10, 1));
}

#[test]
fn withdrawal_successfully_reduces_available_and_total() {
    let mut engine = TxEngine::new();
    engine
        .process_transaction(&make_tx(
            TransactionType::Deposit,
            1,
            1,
            Some(Amount::new(50, 1)),
        ))
        .unwrap();

    engine
        .process_transaction(&make_tx(
            TransactionType::Withdrawal,
            1,
            2,
            Some(Amount::new(15, 1)),
        ))
        .unwrap();

    let snapshot = snapshot_for(&engine, 1);
    assert_eq!(snapshot.available, Amount::new(35, 1));
    assert_eq!(snapshot.held, Amount::zero());
    assert_eq!(snapshot.total(), Amount::new(35, 1));
}

#[test]
fn dispute_on_deposit_moves_funds_to_held_even_if_available_goes_negative() {
    let mut engine = TxEngine::new();
    engine
        .process_transaction(&make_tx(
            TransactionType::Deposit,
            1,
            1,
            Some(Amount::new(20, 1)),
        ))
        .unwrap();
    engine
        .process_transaction(&make_tx(
            TransactionType::Withdrawal,
            1,
            2,
            Some(Amount::new(15, 1)),
        ))
        .unwrap();

    engine
        .process_transaction(&make_tx(TransactionType::Dispute, 1, 1, None))
        .unwrap();

    let snapshot = snapshot_for(&engine, 1);
    assert_eq!(snapshot.available, Amount::new(-15, 1));
    assert_eq!(snapshot.held, Amount::new(20, 1));
    assert_eq!(snapshot.total(), Amount::new(5, 1));
}

#[test]
fn dispute_on_unknown_tx_for_existing_client_is_rejected() {
    let mut engine = TxEngine::new();
    engine
        .process_transaction(&make_tx(
            TransactionType::Deposit,
            1,
            1,
            Some(Amount::new(20, 1)),
        ))
        .unwrap();

    let result = engine.process_transaction(&make_tx(TransactionType::Dispute, 1, 99, None));

    assert!(matches!(result, Err(AppError::TxProcessingNonCritical(_))));
    let snapshot = snapshot_for(&engine, 1);
    assert_eq!(snapshot.available, Amount::new(20, 1));
    assert_eq!(snapshot.held, Amount::zero());
}

#[test]
fn duplicate_dispute_on_same_tx_is_rejected() {
    let mut engine = TxEngine::new();
    engine
        .process_transaction(&make_tx(
            TransactionType::Deposit,
            1,
            1,
            Some(Amount::new(20, 1)),
        ))
        .unwrap();
    engine
        .process_transaction(&make_tx(TransactionType::Dispute, 1, 1, None))
        .unwrap();

    let result = engine.process_transaction(&make_tx(TransactionType::Dispute, 1, 1, None));

    assert!(matches!(result, Err(AppError::TxProcessingNonCritical(_))));
    let snapshot = snapshot_for(&engine, 1);
    assert_eq!(snapshot.available, Amount::new(0, 1));
    assert_eq!(snapshot.held, Amount::new(20, 1));
}

#[test]
fn dispute_on_withdrawal_is_rejected() {
    let mut engine = TxEngine::new();
    engine
        .process_transaction(&make_tx(
            TransactionType::Deposit,
            1,
            1,
            Some(Amount::new(50, 1)),
        ))
        .unwrap();
    engine
        .process_transaction(&make_tx(
            TransactionType::Withdrawal,
            1,
            2,
            Some(Amount::new(10, 1)),
        ))
        .unwrap();

    let result = engine.process_transaction(&make_tx(TransactionType::Dispute, 1, 2, None));

    assert!(matches!(result, Err(AppError::TxProcessingNonCritical(_))));
    let snapshot = snapshot_for(&engine, 1);
    assert_eq!(snapshot.available, Amount::new(40, 1));
    assert_eq!(snapshot.held, Amount::zero());
    assert_eq!(snapshot.total(), Amount::new(40, 1));
}

#[test]
fn resolve_releases_held_funds() {
    let mut engine = TxEngine::new();
    engine
        .process_transaction(&make_tx(
            TransactionType::Deposit,
            1,
            1,
            Some(Amount::new(30, 1)),
        ))
        .unwrap();
    engine
        .process_transaction(&make_tx(TransactionType::Dispute, 1, 1, None))
        .unwrap();

    engine
        .process_transaction(&make_tx(TransactionType::Resolve, 1, 1, None))
        .unwrap();

    let snapshot = snapshot_for(&engine, 1);
    assert_eq!(snapshot.available, Amount::new(30, 1));
    assert_eq!(snapshot.held, Amount::zero());
    assert_eq!(snapshot.total(), Amount::new(30, 1));
}

#[test]
fn resolve_without_active_dispute_is_rejected() {
    let mut engine = TxEngine::new();
    engine
        .process_transaction(&make_tx(
            TransactionType::Deposit,
            1,
            1,
            Some(Amount::new(30, 1)),
        ))
        .unwrap();

    let result = engine.process_transaction(&make_tx(TransactionType::Resolve, 1, 1, None));

    assert!(matches!(result, Err(AppError::TxProcessingNonCritical(_))));
    let snapshot = snapshot_for(&engine, 1);
    assert_eq!(snapshot.available, Amount::new(30, 1));
    assert_eq!(snapshot.held, Amount::zero());
}

#[test]
fn chargeback_locks_account_and_future_transactions_are_rejected() {
    let mut engine = TxEngine::new();
    engine
        .process_transaction(&make_tx(
            TransactionType::Deposit,
            1,
            1,
            Some(Amount::new(30, 1)),
        ))
        .unwrap();
    engine
        .process_transaction(&make_tx(TransactionType::Dispute, 1, 1, None))
        .unwrap();
    engine
        .process_transaction(&make_tx(TransactionType::Chargeback, 1, 1, None))
        .unwrap();

    let post_chargeback_tx = make_tx(TransactionType::Deposit, 1, 2, Some(Amount::new(10, 1)));
    let result = engine.process_transaction(&post_chargeback_tx);

    assert!(matches!(result, Err(AppError::TxProcessingNonCritical(_))));
    let snapshot = snapshot_for(&engine, 1);
    assert_eq!(snapshot.available, Amount::zero());
    assert_eq!(snapshot.held, Amount::zero());
    assert_eq!(snapshot.total(), Amount::zero());
    assert!(snapshot.locked);
}

#[test]
fn chargeback_without_active_dispute_is_rejected() {
    let mut engine = TxEngine::new();
    engine
        .process_transaction(&make_tx(
            TransactionType::Deposit,
            1,
            1,
            Some(Amount::new(30, 1)),
        ))
        .unwrap();

    let result = engine.process_transaction(&make_tx(TransactionType::Chargeback, 1, 1, None));

    assert!(matches!(result, Err(AppError::TxProcessingNonCritical(_))));
    let snapshot = snapshot_for(&engine, 1);
    assert_eq!(snapshot.available, Amount::new(30, 1));
    assert_eq!(snapshot.held, Amount::zero());
    assert!(!snapshot.locked);
}

#[test]
fn frozen_account_rejects_non_deposit_ops_too() {
    let mut engine = TxEngine::new();
    engine
        .process_transaction(&make_tx(
            TransactionType::Deposit,
            1,
            1,
            Some(Amount::new(40, 1)),
        ))
        .unwrap();
    engine
        .process_transaction(&make_tx(TransactionType::Dispute, 1, 1, None))
        .unwrap();
    engine
        .process_transaction(&make_tx(TransactionType::Chargeback, 1, 1, None))
        .unwrap();

    let resolve_result = engine.process_transaction(&make_tx(TransactionType::Resolve, 1, 1, None));
    let dispute_result = engine.process_transaction(&make_tx(TransactionType::Dispute, 1, 1, None));
    let chargeback_result =
        engine.process_transaction(&make_tx(TransactionType::Chargeback, 1, 1, None));

    assert!(matches!(
        resolve_result,
        Err(AppError::TxProcessingNonCritical(_))
    ));
    assert!(matches!(
        dispute_result,
        Err(AppError::TxProcessingNonCritical(_))
    ));
    assert!(matches!(
        chargeback_result,
        Err(AppError::TxProcessingNonCritical(_))
    ));
}

#[test]
fn duplicate_tx_id_is_rejected_globally_across_clients() {
    let mut engine = TxEngine::new();
    engine
        .process_transaction(&make_tx(
            TransactionType::Deposit,
            1,
            10,
            Some(Amount::new(10, 1)),
        ))
        .unwrap();

    let result = engine.process_transaction(&make_tx(
        TransactionType::Deposit,
        2,
        10,
        Some(Amount::new(20, 1)),
    ));

    assert!(matches!(result, Err(AppError::TxProcessingNonCritical(_))));
    assert_eq!(engine.clients_snapshot().len(), 1);
    let snapshot = snapshot_for(&engine, 1);
    assert_eq!(snapshot.available, Amount::new(10, 1));
}

#[test]
fn invalid_non_deposit_ops_for_unknown_client_do_not_create_state() {
    let mut engine = TxEngine::new();

    let dispute_result = engine.process_transaction(&make_tx(TransactionType::Dispute, 9, 1, None));
    let resolve_result = engine.process_transaction(&make_tx(TransactionType::Resolve, 9, 1, None));
    let chargeback_result =
        engine.process_transaction(&make_tx(TransactionType::Chargeback, 9, 1, None));

    assert!(matches!(
        dispute_result,
        Err(AppError::TxProcessingNonCritical(_))
    ));
    assert!(matches!(
        resolve_result,
        Err(AppError::TxProcessingNonCritical(_))
    ));
    assert!(matches!(
        chargeback_result,
        Err(AppError::TxProcessingNonCritical(_))
    ));
    assert!(engine.clients_snapshot().is_empty());
}

#[test]
fn missing_amount_for_deposit_is_rejected() {
    let mut engine = TxEngine::new();
    let result = engine.process_transaction(&make_tx(TransactionType::Deposit, 1, 1, None));

    assert!(matches!(result, Err(AppError::TxProcessingNonCritical(_))));
    assert!(engine.clients_snapshot().is_empty());
}

#[test]
fn missing_amount_for_withdrawal_is_rejected() {
    let mut engine = TxEngine::new();
    let result = engine.process_transaction(&make_tx(TransactionType::Withdrawal, 1, 1, None));

    assert!(matches!(result, Err(AppError::TxProcessingNonCritical(_))));
    assert!(engine.clients_snapshot().is_empty());
}
