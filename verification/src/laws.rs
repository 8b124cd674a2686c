//! Laws of the ledger.
//!
//! Each proof function states a property of the transaction rules that
//! holds for every ledger state and every input, over the same model the
//! engine's contracts use. Together with `process_transaction`'s own
//! contract — a rejected record leaves the ledger untouched — these cover
//! the engine's behavioural guarantees.

use vstd::prelude::*;
use crate::model::{
    accepts, account_or_new, action_client, action_tx_id, apply_action, is_frozen, is_funds_move,
    run, step, LedgerModel, TxAction,
};

verus! {

/// Depositing to a fresh client with a fresh identifier is accepted and
/// yields an account holding exactly the deposit: `available` the amount,
/// `held` zero, total the amount, not frozen.
pub proof fn lemma_deposit_fresh_client(m: LedgerModel, client: u16, tx_id: u32, amount: int)
    requires
        !m.accounts.contains_key(client),
        !m.accepted.contains(tx_id),
    ensures
        accepts(m, TxAction::Deposit { client, tx_id, amount }),
        ({
            let after = apply_action(m, TxAction::Deposit { client, tx_id, amount });
            &&& after.accounts.contains_key(client)
            &&& after.accounts[client].available == amount
            &&& after.accounts[client].held == 0
            &&& after.accounts[client].available + after.accounts[client].held == amount
            &&& !after.accounts[client].frozen
        }),
{
}

/// A withdrawal asking for more than the available balance is never
/// accepted, and the rejected step leaves the ledger untouched.
pub proof fn lemma_insufficient_withdrawal_rejected(
    m: LedgerModel,
    client: u16,
    tx_id: u32,
    amount: int,
)
    requires
        account_or_new(m, client).available < amount,
    ensures
        !accepts(m, TxAction::Withdrawal { client, tx_id, amount }),
        step(m, TxAction::Withdrawal { client, tx_id, amount }) == m,
{
}

/// An accepted dispute moves the disputed deposit's amount from
/// `available` to `held` — `available` may go negative — and leaves the
/// client's total funds unchanged.
pub proof fn lemma_dispute_moves_funds(m: LedgerModel, client: u16, tx_id: u32)
    requires
        accepts(m, TxAction::Dispute { client, tx_id }),
    ensures
        ({
            let amount = m.accounts[client].history[tx_id].amount;
            let after = apply_action(m, TxAction::Dispute { client, tx_id });
            &&& after.accounts[client].available == m.accounts[client].available - amount
            &&& after.accounts[client].held == m.accounts[client].held + amount
            &&& after.accounts[client].available + after.accounts[client].held
                == m.accounts[client].available + m.accounts[client].held
            &&& after.accounts[client].frozen == m.accounts[client].frozen
        }),
{
}

/// Resolving a dispute right after raising it restores the ledger
/// exactly: the pre-dispute split of the balances, the dispute table,
/// and everything else.
pub proof fn lemma_dispute_resolve_round_trip(m: LedgerModel, client: u16, tx_id: u32)
    requires
        accepts(m, TxAction::Dispute { client, tx_id }),
    ensures
        accepts(
            apply_action(m, TxAction::Dispute { client, tx_id }),
            TxAction::Resolve { client, tx_id },
        ),
        apply_action(
            apply_action(m, TxAction::Dispute { client, tx_id }),
            TxAction::Resolve { client, tx_id },
        ) == m,
{
    let disputed = apply_action(m, TxAction::Dispute { client, tx_id });
    let resolved = apply_action(disputed, TxAction::Resolve { client, tx_id });
    let acct = m.accounts[client];
    assert(resolved.accounts[client].disputes =~= acct.disputes);
    assert(resolved.accounts[client] =~~= acct);
    assert(resolved.accounts =~~= m.accounts);
    assert(resolved =~~= m);
}

/// An accepted chargeback takes the held amount out of `held`, leaves
/// `available` as the dispute left it, and freezes the account.
pub proof fn lemma_chargeback_effects(m: LedgerModel, client: u16, tx_id: u32)
    requires
        accepts(m, TxAction::Chargeback { client, tx_id }),
    ensures
        ({
            let amount = m.accounts[client].disputes[tx_id];
            let after = apply_action(m, TxAction::Chargeback { client, tx_id });
            &&& after.accounts[client].held == m.accounts[client].held - amount
            &&& after.accounts[client].available == m.accounts[client].available
            &&& after.accounts[client].frozen
        }),
{
}

/// A frozen account rejects every transaction aimed at it, deposits
/// included.
pub proof fn lemma_frozen_rejects(m: LedgerModel, a: TxAction)
    requires
        is_frozen(m, action_client(a)),
    ensures
        !accepts(m, a),
{
}

/// One step never thaws an account and never touches the account of a
/// client the transaction does not target.
proof fn lemma_frozen_step(m: LedgerModel, client: u16, a: TxAction)
    requires
        is_frozen(m, client),
    ensures
        is_frozen(step(m, a), client),
        step(m, a).accounts[client] == m.accounts[client],
{
    if accepts(m, a) {
        assert(action_client(a) != client);
    }
}

/// Once frozen, an account stays frozen and untouched through any
/// further stream of transactions: each one aimed at it is rejected
/// (`lemma_frozen_rejects`) and none of the others reaches it.
pub proof fn lemma_frozen_is_permanent(m: LedgerModel, client: u16, actions: Seq<TxAction>)
    requires
        is_frozen(m, client),
    ensures
        is_frozen(run(m, actions), client),
        run(m, actions).accounts[client] == m.accounts[client],
    decreases actions.len(),
{
    if actions.len() > 0 {
        lemma_frozen_step(m, client, actions[0]);
        lemma_frozen_is_permanent(step(m, actions[0]), client, actions.drop_first());
    }
}

/// One step never forgets an accepted identifier.
proof fn lemma_step_keeps_accepted(m: LedgerModel, a: TxAction, t: u32)
    requires
        m.accepted.contains(t),
    ensures
        step(m, a).accepted.contains(t),
{
}

/// A transaction identifier accepted as a deposit or withdrawal can
/// never be accepted as a deposit or withdrawal again — for any client —
/// however the stream continues.
pub proof fn lemma_tx_id_accepted_once(
    m: LedgerModel,
    a: TxAction,
    actions: Seq<TxAction>,
    b: TxAction,
)
    requires
        is_funds_move(a),
        accepts(m, a),
        is_funds_move(b),
        action_tx_id(b) == action_tx_id(a),
    ensures
        !accepts(run(apply_action(m, a), actions), b),
{
    assert(apply_action(m, a).accepted.contains(action_tx_id(a)));
    lemma_run_keeps_accepted(apply_action(m, a), actions, action_tx_id(a));
}

/// A whole stream never forgets an accepted identifier.
proof fn lemma_run_keeps_accepted(m: LedgerModel, actions: Seq<TxAction>, t: u32)
    requires
        m.accepted.contains(t),
    ensures
        run(m, actions).accepted.contains(t),
    decreases actions.len(),
{
    if actions.len() > 0 {
        lemma_step_keeps_accepted(m, actions[0], t);
        lemma_run_keeps_accepted(step(m, actions[0]), actions.drop_first(), t);
    }
}

/// Disputing a transaction that is already under dispute, unknown to the
/// client's history, or not a deposit — a withdrawal, say — is never
/// accepted, and the rejected step leaves the ledger untouched.
pub proof fn lemma_invalid_dispute_rejected(m: LedgerModel, client: u16, tx_id: u32)
    requires
        ({
            let acct = account_or_new(m, client);
            ||| acct.disputes.contains_key(tx_id)
            ||| !acct.history.contains_key(tx_id)
            ||| !acct.history[tx_id].is_deposit
        }),
    ensures
        !accepts(m, TxAction::Dispute { client, tx_id }),
        step(m, TxAction::Dispute { client, tx_id }) == m,
{
}

/// Resolving or charging back an identifier with no active dispute is
/// never accepted, and the rejected step leaves the ledger untouched.
pub proof fn lemma_unreferenced_resolve_rejected(m: LedgerModel, client: u16, tx_id: u32)
    requires
        !account_or_new(m, client).disputes.contains_key(tx_id),
    ensures
        !accepts(m, TxAction::Resolve { client, tx_id }),
        step(m, TxAction::Resolve { client, tx_id }) == m,
        !accepts(m, TxAction::Chargeback { client, tx_id }),
        step(m, TxAction::Chargeback { client, tx_id }) == m,
{
}

} // verus!
