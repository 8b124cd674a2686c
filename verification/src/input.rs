//! Validation of the input schema.
//!
//! The input adapter reads comma-separated records whose header row must
//! be exactly `type, client, tx, amount`; anything else is a structural
//! failure that aborts the run before any transaction is applied. The
//! operation tag of a record names one of the five transaction kinds,
//! compared without regard to ASCII case.

use vstd::prelude::*;
use vstd::string::StringSliceAdditionalSpecFns;
use crate::types::TransactionType;

verus! {

/// An ASCII upper-case letter mapped to lower case; any other byte kept.
pub open spec fn lower_byte(b: u8) -> u8 {
    if 65 <= b && b <= 90 {
        (b + 32) as u8
    } else {
        b
    }
}

/// A byte sequence with its ASCII letters mapped to lower case.
pub open spec fn lower_bytes(s: Seq<u8>) -> Seq<u8> {
    s.map_values(|b: u8| lower_byte(b))
}

/// The operation named by a tag's bytes, compared without regard to
/// ASCII case; `None` for anything that names no operation.
pub open spec fn spec_parse_transaction_type(s: Seq<u8>) -> Option<TransactionType> {
    if lower_bytes(s) == "deposit".spec_bytes() {
        Some(TransactionType::Deposit)
    } else if lower_bytes(s) == "withdrawal".spec_bytes() {
        Some(TransactionType::Withdrawal)
    } else if lower_bytes(s) == "dispute".spec_bytes() {
        Some(TransactionType::Dispute)
    } else if lower_bytes(s) == "resolve".spec_bytes() {
        Some(TransactionType::Resolve)
    } else if lower_bytes(s) == "chargeback".spec_bytes() {
        Some(TransactionType::Chargeback)
    } else {
        None
    }
}

/// Whether two byte slices hold the same bytes.
fn eq_bytes(a: &[u8], b: &[u8]) -> (r: bool)
    ensures
        r == (a@ == b@),
{
    if a.len() != b.len() {
        return false;
    }
    let mut i: usize = 0;
    while i < a.len()
        invariant
            a@.len() == b@.len(),
            i <= a@.len(),
            forall|k: int| 0 <= k < i ==> a@[k] == b@[k],
        decreases a@.len() - i,
    {
        if a[i] != b[i] {
            return false;
        }
        i += 1;
    }
    proof {
        assert(a@ =~= b@);
    }
    true
}

/// The tag's bytes with ASCII letters mapped to lower case.
fn lower_bytes_vec(s: &[u8]) -> (r: Vec<u8>)
    ensures
        r@ == lower_bytes(s@),
{
    let mut out: Vec<u8> = Vec::new();
    let mut i: usize = 0;
    while i < s.len()
        invariant
            i <= s@.len(),
            out@.len() == i,
            forall|k: int| 0 <= k < i ==> out@[k] == lower_byte(s@[k]),
        decreases s@.len() - i,
    {
        let b = s[i];
        if 65 <= b && b <= 90 {
            out.push(b + 32);
        } else {
            out.push(b);
        }
        i += 1;
    }
    proof {
        assert(out@ =~= lower_bytes(s@));
    }
    out
}

/// The operation a record's tag names, compared without regard to ASCII
/// case; `None` for an unknown tag.
pub fn parse_transaction_type(tag: &str) -> (r: Option<TransactionType>)
    ensures
        r == spec_parse_transaction_type(tag.spec_bytes()),
{
    let lowered = lower_bytes_vec(tag.as_bytes());
    if eq_bytes(lowered.as_slice(), "deposit".as_bytes()) {
        Some(TransactionType::Deposit)
    } else if eq_bytes(lowered.as_slice(), "withdrawal".as_bytes()) {
        Some(TransactionType::Withdrawal)
    } else if eq_bytes(lowered.as_slice(), "dispute".as_bytes()) {
        Some(TransactionType::Dispute)
    } else if eq_bytes(lowered.as_slice(), "resolve".as_bytes()) {
        Some(TransactionType::Resolve)
    } else if eq_bytes(lowered.as_slice(), "chargeback".as_bytes()) {
        Some(TransactionType::Chargeback)
    } else {
        None
    }
}

/// Whether the header row is exactly `type, client, tx, amount`.
pub fn validate_headers(headers: &Vec<String>) -> (r: bool)
    ensures
        r <==> (headers@.len() == 4 && headers@[0]@ == "type"@ && headers@[1]@ == "client"@
            && headers@[2]@ == "tx"@ && headers@[3]@ == "amount"@),
{
    if headers.len() != 4 {
        return false;
    }
    let ok0 = headers[0] == "type".to_owned();
    let ok1 = headers[1] == "client".to_owned();
    let ok2 = headers[2] == "tx".to_owned();
    let ok3 = headers[3] == "amount".to_owned();
    ok0 && ok1 && ok2 && ok3
}

} // verus!
