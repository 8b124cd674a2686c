use tx_engine::input::parse_transaction_type;
use tx_engine::types::TransactionType;

#[test]
fn lowercase_tags_name_their_operations() {
    assert_eq!(
        parse_transaction_type("deposit"),
        Some(TransactionType::Deposit)
    );
    assert_eq!(
        parse_transaction_type("withdrawal"),
        Some(TransactionType::Withdrawal)
    );
    assert_eq!(
        parse_transaction_type("dispute"),
        Some(TransactionType::Dispute)
    );
    assert_eq!(
        parse_transaction_type("resolve"),
        Some(TransactionType::Resolve)
    );
    assert_eq!(
        parse_transaction_type("chargeback"),
        Some(TransactionType::Chargeback)
    );
}

#[test]
fn tags_are_matched_without_regard_to_case() {
    assert_eq!(
        parse_transaction_type("DEPOSIT"),
        Some(TransactionType::Deposit)
    );
    assert_eq!(
        parse_transaction_type("Dispute"),
        Some(TransactionType::Dispute)
    );
    assert_eq!(
        parse_transaction_type("ChargeBack"),
        Some(TransactionType::Chargeback)
    );
}

#[test]
fn unknown_tags_are_refused() {
    assert_eq!(parse_transaction_type(""), None);
    assert_eq!(parse_transaction_type("deposits"), None);
    assert_eq!(parse_transaction_type("transfer"), None);
    assert_eq!(parse_transaction_type("d\u{00e9}posit"), None);
}
