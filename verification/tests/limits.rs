use tx_engine::amount::Amount;
use tx_engine::tx_engine::TxEngine;
use tx_engine::types::{ClientId, Transaction, TransactionType, TxID};

fn deposit(client: u16, tx_id: u32, amount: Amount) -> Transaction {
    Transaction {
        op_type: TransactionType::Deposit,
        client: ClientId(client),
        tx_id: TxID(tx_id),
        amount: Some(amount),
    }
}

#[test]
fn a_deposit_that_would_push_a_balance_out_of_range_does_not_fit() {
    let mut engine = TxEngine::new();
    // The largest representable amount: 10^19 whole units.
    let huge = Amount::new(10_000_000_000_000_000_000, 0);
    assert!(huge.in_range());

    let first = deposit(1, 1, huge);
    assert!(engine.transaction_fits(&first));
    engine.process_transaction(&first).unwrap();

    // A second such deposit would overflow the account's range.
    let second = deposit(1, 2, huge);
    assert!(!engine.transaction_fits(&second));

    // A record the engine rejects anyway always fits: this one reuses an
    // accepted identifier.
    let duplicate = deposit(1, 1, huge);
    assert!(engine.transaction_fits(&duplicate));
}
