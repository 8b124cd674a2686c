//! The ledger engine.
//!
//! [`TxEngine`] owns all client state and applies transactions one at a
//! time, in the order received, producing either a mutation or a rejection.
//! Its behaviour is specified against the ghost [`crate::model`]: the view
//! of an engine is a [`LedgerModel`], and every public operation says how
//! it moves that model.
//!
//! Accounts are kept in a vector sorted by client identifier, so a
//! snapshot comes out ordered without further work; the per-account
//! transaction history and active disputes are small keyed vectors with
//! unique keys.

use vstd::prelude::*;
use crate::amount::{in_units_range, Amount};
use crate::errors::{AppError, RejectionReason};
use crate::model::{
    action_amount, action_client, action_fits, action_of, action_tx_id, apply_action,
    apply_balances, empty_account, empty_ledger, is_frozen, is_funds_move, lemma_apply_split,
    record_accepted, rejection_of, rejection_of_tx, tx_fits, AccountModel, HistRecord,
    LedgerModel, TxAction,
};
use crate::types::{ClientId, Transaction, TransactionType, TxID};

verus! {

/// A validated transaction record: deposits and withdrawals always carry
/// their amount, the dispute-family operations only reference one.
#[derive(Clone, Copy, Debug)]
enum TransactionRecord {
    Deposit { client: ClientId, tx_id: TxID, amount: Amount },
    Withdrawal { client: ClientId, tx_id: TxID, amount: Amount },
    Dispute { client: ClientId, disputed_tx_id: TxID },
    Resolve { client: ClientId, disputed_tx_id: TxID },
    Chargeback { client: ClientId, disputed_tx_id: TxID },
}

impl View for TransactionRecord {
    type V = TxAction;

    closed spec fn view(&self) -> TxAction {
        match *self {
            TransactionRecord::Deposit { client, tx_id, amount } => TxAction::Deposit {
                client: client.0,
                tx_id: tx_id.0,
                amount: amount@,
            },
            TransactionRecord::Withdrawal { client, tx_id, amount } => TxAction::Withdrawal {
                client: client.0,
                tx_id: tx_id.0,
                amount: amount@,
            },
            TransactionRecord::Dispute { client, disputed_tx_id } => TxAction::Dispute {
                client: client.0,
                tx_id: disputed_tx_id.0,
            },
            TransactionRecord::Resolve { client, disputed_tx_id } => TxAction::Resolve {
                client: client.0,
                tx_id: disputed_tx_id.0,
            },
            TransactionRecord::Chargeback { client, disputed_tx_id } => TxAction::Chargeback {
                client: client.0,
                tx_id: disputed_tx_id.0,
            },
        }
    }
}

impl TransactionRecord {
    /// The client this record targets.
    fn client_id(&self) -> (r: ClientId)
        ensures
            r.0 == action_client(self@),
    {
        match self {
            TransactionRecord::Deposit { client, .. } => *client,
            TransactionRecord::Withdrawal { client, .. } => *client,
            TransactionRecord::Dispute { client, .. } => *client,
            TransactionRecord::Resolve { client, .. } => *client,
            TransactionRecord::Chargeback { client, .. } => *client,
        }
    }

    /// The transaction identifier this record carries or references.
    fn tx_id_of(&self) -> (r: TxID)
        ensures
            r.0 == record_key(*self),
    {
        match self {
            TransactionRecord::Deposit { tx_id, .. } => *tx_id,
            TransactionRecord::Withdrawal { tx_id, .. } => *tx_id,
            TransactionRecord::Dispute { disputed_tx_id, .. } => *disputed_tx_id,
            TransactionRecord::Resolve { disputed_tx_id, .. } => *disputed_tx_id,
            TransactionRecord::Chargeback { disputed_tx_id, .. } => *disputed_tx_id,
        }
    }
}

/// The identifier under which a stored record is looked up by disputes.
spec fn record_key(r: TransactionRecord) -> u32 {
    action_tx_id(r@)
}

/// What the model remembers of a stored deposit or withdrawal. Only those
/// two kinds are ever stored.
spec fn hist_record_of(r: TransactionRecord) -> HistRecord {
    match r {
        TransactionRecord::Deposit { amount, .. } => HistRecord {
            is_deposit: true,
            amount: amount@,
        },
        TransactionRecord::Withdrawal { amount, .. } => HistRecord {
            is_deposit: false,
            amount: amount@,
        },
        _ => HistRecord { is_deposit: false, amount: 0 },
    }
}

/// One active dispute: the referenced transaction and the amount held
/// for it.
#[derive(Clone, Copy, Debug)]
struct DisputedTx {
    tx_id: TxID,
    amount: Amount,
}

/// The two balances of an account.
#[derive(Clone, Copy, Debug)]
struct Balances {
    available: Amount,
    held: Amount,
}

impl Balances {
    /// Both balances zero.
    fn init() -> (r: Balances)
        ensures
            r.available@ == 0,
            r.held@ == 0,
    {
        Balances { available: Amount::zero(), held: Amount::zero() }
    }
}

/// Everything the engine keeps about one client.
struct ClientData {
    client: ClientId,
    balances: Balances,
    txs: Vec<TransactionRecord>,
    disputed_txs: Vec<DisputedTx>,
    frozen: bool,
}

impl ClientData {
    /// A fresh account for `client`: empty balances, nothing recorded.
    fn init(client: ClientId) -> (r: ClientData)
        ensures
            r.client == client,
            r@ == empty_account(),
            r.wf(),
            r.txs@.len() == 0,
    {
        let r = ClientData {
            client,
            balances: Balances::init(),
            txs: Vec::new(),
            disputed_txs: Vec::new(),
            frozen: false,
        };
        proof {
            assert(r@.history =~= Map::<u32, HistRecord>::empty());
            assert(r@.disputes =~= Map::<u32, int>::empty());
            assert(r@ =~= empty_account());
        }
        r
    }

    /// Internal consistency: stored records are deposits or withdrawals
    /// with pairwise distinct identifiers, active disputes have pairwise
    /// distinct identifiers, and every amount kept lies in range.
    spec fn wf(self) -> bool {
        &&& hist_keys_unique(self.txs@)
        &&& forall|i: int|
            0 <= i < self.txs@.len() ==> is_funds_move(#[trigger] self.txs@[i]@)
        &&& dispute_keys_unique(self.disputed_txs@)
        &&& in_units_range(self.balances.available@)
        &&& in_units_range(self.balances.held@)
        &&& forall|i: int|
            0 <= i < self.txs@.len() ==> in_units_range(
                hist_record_of(#[trigger] self.txs@[i]).amount,
            )
        &&& forall|i: int|
            0 <= i < self.disputed_txs@.len() ==> in_units_range(
                (#[trigger] self.disputed_txs@[i]).amount@,
            )
    }
}

impl ClientData {
    /// The index of the stored record with this identifier, if any.
    fn find_tx(&self, t: TxID) -> (r: Option<usize>)
        requires
            self.wf(),
        ensures
            match r {
                Some(j) => j < self.txs@.len() && record_key(self.txs@[j as int]) == t.0
                    && self@.history.contains_key(t.0)
                    && self@.history[t.0] == hist_record_of(self.txs@[j as int]),
                None => !self@.history.contains_key(t.0),
            },
    {
        let mut j: usize = 0;
        while j < self.txs.len()
            invariant
                self.wf(),
                j <= self.txs@.len(),
                forall|k: int| 0 <= k < j ==> record_key(#[trigger] self.txs@[k]) != t.0,
            decreases self.txs@.len() - j,
        {
            if self.txs[j].tx_id_of().0 == t.0 {
                proof {
                    lemma_hist_index(self.txs@, j as int);
                }
                return Some(j);
            }
            j += 1;
        }
        proof {
            lemma_hist_contains(self.txs@, t.0);
        }
        None
    }

    /// The index of the active dispute of this identifier, if any.
    fn find_dispute(&self, t: TxID) -> (r: Option<usize>)
        requires
            self.wf(),
        ensures
            match r {
                Some(j) => j < self.disputed_txs@.len()
                    && self.disputed_txs@[j as int].tx_id.0 == t.0
                    && self@.disputes.contains_key(t.0)
                    && self@.disputes[t.0] == self.disputed_txs@[j as int].amount@,
                None => !self@.disputes.contains_key(t.0),
            },
    {
        let mut j: usize = 0;
        while j < self.disputed_txs.len()
            invariant
                self.wf(),
                j <= self.disputed_txs@.len(),
                forall|k: int| 0 <= k < j ==> (#[trigger] self.disputed_txs@[k]).tx_id.0 != t.0,
            decreases self.disputed_txs@.len() - j,
        {
            if self.disputed_txs[j].tx_id.0 == t.0 {
                proof {
                    lemma_dispute_index(self.disputed_txs@, j as int);
                }
                return Some(j);
            }
            j += 1;
        }
        proof {
            lemma_dispute_contains(self.disputed_txs@, t.0);
        }
        None
    }
}

impl View for ClientData {
    type V = AccountModel;

    closed spec fn view(&self) -> AccountModel {
        AccountModel {
            available: self.balances.available@,
            held: self.balances.held@,
            frozen: self.frozen,
            history: hist_map_of(self.txs@),
            disputes: dispute_map_of(self.disputed_txs@),
        }
    }
}

/// The per-account history, as a map from identifier to record.
spec fn hist_map_of(s: Seq<TransactionRecord>) -> Map<u32, HistRecord>
    decreases s.len(),
{
    if s.len() == 0 {
        Map::empty()
    } else {
        hist_map_of(s.drop_last()).insert(record_key(s.last()), hist_record_of(s.last()))
    }
}

/// The active disputes, as a map from identifier to held amount.
spec fn dispute_map_of(s: Seq<DisputedTx>) -> Map<u32, int>
    decreases s.len(),
{
    if s.len() == 0 {
        Map::empty()
    } else {
        dispute_map_of(s.drop_last()).insert(s.last().tx_id.0, s.last().amount@)
    }
}

/// The accounts, as a map from client identifier to account state.
spec fn accounts_map_of(s: Seq<ClientData>) -> Map<u16, AccountModel>
    decreases s.len(),
{
    if s.len() == 0 {
        Map::empty()
    } else {
        accounts_map_of(s.drop_last()).insert(s.last().client.0, s.last()@)
    }
}

spec fn hist_keys_unique(s: Seq<TransactionRecord>) -> bool {
    forall|i: int, j: int|
        0 <= i < j < s.len() ==> record_key(#[trigger] s[i]) != record_key(#[trigger] s[j])
}

spec fn dispute_keys_unique(s: Seq<DisputedTx>) -> bool {
    forall|i: int, j: int|
        0 <= i < j < s.len() ==> (#[trigger] s[i]).tx_id.0 != (#[trigger] s[j]).tx_id.0
}

/// Accounts are kept strictly sorted by client identifier, which also
/// makes the identifiers pairwise distinct.
spec fn clients_sorted(s: Seq<ClientData>) -> bool {
    forall|i: int, j: int|
        0 <= i < j < s.len() ==> (#[trigger] s[i]).client.0 < (#[trigger] s[j]).client.0
}

proof fn lemma_hist_contains(s: Seq<TransactionRecord>, k: u32)
    ensures
        hist_map_of(s).contains_key(k) <==> exists|i: int|
            0 <= i < s.len() && record_key(s[i]) == k,
    decreases s.len(),
{
    if s.len() > 0 {
        lemma_hist_contains(s.drop_last(), k);
        if record_key(s.last()) == k {
            assert(record_key(s[s.len() - 1]) == k);
        } else {
            if exists|i: int| 0 <= i < s.len() && record_key(s[i]) == k {
                let i = choose|i: int| 0 <= i < s.len() && record_key(s[i]) == k;
                assert(s.drop_last()[i] == s[i]);
            }
            if exists|i: int| 0 <= i < s.drop_last().len() && record_key(s.drop_last()[i]) == k {
                let i = choose|i: int|
                    0 <= i < s.drop_last().len() && record_key(s.drop_last()[i]) == k;
                assert(s[i] == s.drop_last()[i]);
            }
        }
    }
}

proof fn lemma_hist_index(s: Seq<TransactionRecord>, i: int)
    requires
        hist_keys_unique(s),
        0 <= i < s.len(),
    ensures
        hist_map_of(s).contains_key(record_key(s[i])),
        hist_map_of(s)[record_key(s[i])] == hist_record_of(s[i]),
    decreases s.len(),
{
    if i < s.len() - 1 {
        assert(hist_keys_unique(s.drop_last())) by {
            assert(forall|x: int, y: int|
                0 <= x < y < s.drop_last().len() ==> record_key(#[trigger] s.drop_last()[x])
                    != record_key(#[trigger] s.drop_last()[y])) by {
                assert(forall|x: int|
                    0 <= x < s.drop_last().len() ==> #[trigger] s.drop_last()[x] == s[x]);
            }
        }
        lemma_hist_index(s.drop_last(), i);
        assert(s.drop_last()[i] == s[i]);
        assert(record_key(s.last()) != record_key(s[i]));
    }
}

proof fn lemma_hist_push(s: Seq<TransactionRecord>, e: TransactionRecord)
    ensures
        hist_map_of(s.push(e)) == hist_map_of(s).insert(record_key(e), hist_record_of(e)),
{
    assert(s.push(e).drop_last() =~= s);
    assert(s.push(e).last() == e);
}

proof fn lemma_dispute_contains(s: Seq<DisputedTx>, k: u32)
    ensures
        dispute_map_of(s).contains_key(k) <==> exists|i: int|
            0 <= i < s.len() && s[i].tx_id.0 == k,
    decreases s.len(),
{
    if s.len() > 0 {
        lemma_dispute_contains(s.drop_last(), k);
        if s.last().tx_id.0 == k {
            assert(s[s.len() - 1].tx_id.0 == k);
        } else {
            if exists|i: int| 0 <= i < s.len() && s[i].tx_id.0 == k {
                let i = choose|i: int| 0 <= i < s.len() && s[i].tx_id.0 == k;
                assert(s.drop_last()[i] == s[i]);
            }
            if exists|i: int| 0 <= i < s.drop_last().len() && s.drop_last()[i].tx_id.0 == k {
                let i = choose|i: int| 0 <= i < s.drop_last().len() && s.drop_last()[i].tx_id.0 == k;
                assert(s[i] == s.drop_last()[i]);
            }
        }
    }
}

proof fn lemma_dispute_index(s: Seq<DisputedTx>, i: int)
    requires
        dispute_keys_unique(s),
        0 <= i < s.len(),
    ensures
        dispute_map_of(s).contains_key(s[i].tx_id.0),
        dispute_map_of(s)[s[i].tx_id.0] == s[i].amount@,
    decreases s.len(),
{
    if i < s.len() - 1 {
        assert(dispute_keys_unique(s.drop_last())) by {
            assert(forall|x: int|
                0 <= x < s.drop_last().len() ==> #[trigger] s.drop_last()[x] == s[x]);
        }
        lemma_dispute_index(s.drop_last(), i);
        assert(s.drop_last()[i] == s[i]);
        assert(s.last().tx_id.0 != s[i].tx_id.0);
    }
}

proof fn lemma_dispute_push(s: Seq<DisputedTx>, e: DisputedTx)
    ensures
        dispute_map_of(s.push(e)) == dispute_map_of(s).insert(e.tx_id.0, e.amount@),
{
    assert(s.push(e).drop_last() =~= s);
    assert(s.push(e).last() == e);
}

proof fn lemma_dispute_remove(s: Seq<DisputedTx>, i: int)
    requires
        dispute_keys_unique(s),
        0 <= i < s.len(),
    ensures
        dispute_map_of(s.remove(i)) == dispute_map_of(s).remove(s[i].tx_id.0),
    decreases s.len(),
{
    if i == s.len() - 1 {
        assert(s.remove(i) =~= s.drop_last());
        lemma_dispute_contains(s.drop_last(), s[i].tx_id.0);
        assert(forall|x: int|
            0 <= x < s.drop_last().len() ==> #[trigger] s.drop_last()[x] == s[x]);
        assert(!dispute_map_of(s.drop_last()).contains_key(s[i].tx_id.0));
        assert(dispute_map_of(s.remove(i)) =~= dispute_map_of(s).remove(s[i].tx_id.0));
    } else {
        assert(dispute_keys_unique(s.drop_last())) by {
            assert(forall|x: int|
                0 <= x < s.drop_last().len() ==> #[trigger] s.drop_last()[x] == s[x]);
        }
        lemma_dispute_remove(s.drop_last(), i);
        assert(s.remove(i).drop_last() =~= s.drop_last().remove(i));
        assert(s.remove(i).last() == s.last());
        assert(s.last().tx_id.0 != s[i].tx_id.0);
        assert(s.drop_last()[i] == s[i]);
        assert(dispute_map_of(s.remove(i)) =~= dispute_map_of(s).remove(s[i].tx_id.0));
    }
}

proof fn lemma_accounts_contains(s: Seq<ClientData>, c: u16)
    ensures
        accounts_map_of(s).contains_key(c) <==> exists|i: int|
            0 <= i < s.len() && s[i].client.0 == c,
    decreases s.len(),
{
    if s.len() > 0 {
        lemma_accounts_contains(s.drop_last(), c);
        if s.last().client.0 == c {
            assert(s[s.len() - 1].client.0 == c);
        } else {
            if exists|i: int| 0 <= i < s.len() && s[i].client.0 == c {
                let i = choose|i: int| 0 <= i < s.len() && s[i].client.0 == c;
                assert(s.drop_last()[i] == s[i]);
            }
            if exists|i: int| 0 <= i < s.drop_last().len() && s.drop_last()[i].client.0 == c {
                let i = choose|i: int| 0 <= i < s.drop_last().len() && s.drop_last()[i].client.0 == c;
                assert(s[i] == s.drop_last()[i]);
            }
        }
    }
}

proof fn lemma_accounts_index(s: Seq<ClientData>, i: int)
    requires
        clients_sorted(s),
        0 <= i < s.len(),
    ensures
        accounts_map_of(s).contains_key(s[i].client.0),
        accounts_map_of(s)[s[i].client.0] == s[i]@,
    decreases s.len(),
{
    if i < s.len() - 1 {
        assert(clients_sorted(s.drop_last())) by {
            assert(forall|x: int|
                0 <= x < s.drop_last().len() ==> #[trigger] s.drop_last()[x] == s[x]);
        }
        lemma_accounts_index(s.drop_last(), i);
        assert(s.drop_last()[i] == s[i]);
        assert(s.last().client.0 != s[i].client.0);
    }
}

proof fn lemma_accounts_update(s: Seq<ClientData>, i: int, a: ClientData)
    requires
        clients_sorted(s),
        0 <= i < s.len(),
        a.client == s[i].client,
    ensures
        accounts_map_of(s.update(i, a)) == accounts_map_of(s).insert(a.client.0, a@),
    decreases s.len(),
{
    if i == s.len() - 1 {
        assert(s.update(i, a).drop_last() =~= s.drop_last());
        assert(s.update(i, a).last() == a);
        assert(accounts_map_of(s.update(i, a)) =~= accounts_map_of(s).insert(a.client.0, a@));
    } else {
        assert(clients_sorted(s.drop_last())) by {
            assert(forall|x: int|
                0 <= x < s.drop_last().len() ==> #[trigger] s.drop_last()[x] == s[x]);
        }
        assert(s.drop_last()[i] == s[i]);
        lemma_accounts_update(s.drop_last(), i, a);
        assert(s.update(i, a).drop_last() =~= s.drop_last().update(i, a));
        assert(s.update(i, a).last() == s.last());
        assert(s.last().client.0 != a.client.0);
        assert(accounts_map_of(s.update(i, a)) =~= accounts_map_of(s).insert(a.client.0, a@));
    }
}

proof fn lemma_accounts_insert(s: Seq<ClientData>, p: int, a: ClientData)
    requires
        clients_sorted(s),
        0 <= p <= s.len(),
        forall|i: int| 0 <= i < s.len() ==> (#[trigger] s[i]).client.0 != a.client.0,
    ensures
        accounts_map_of(s.insert(p, a)) == accounts_map_of(s).insert(a.client.0, a@),
    decreases s.len(),
{
    if p == s.len() {
        assert(s.insert(p, a).drop_last() =~= s);
        assert(s.insert(p, a).last() == a);
    } else {
        assert(clients_sorted(s.drop_last())) by {
            assert(forall|x: int|
                0 <= x < s.drop_last().len() ==> #[trigger] s.drop_last()[x] == s[x]);
        }
        assert(forall|i: int|
            0 <= i < s.drop_last().len() ==> (#[trigger] s.drop_last()[i]).client.0
                != a.client.0) by {
            assert(forall|x: int|
                0 <= x < s.drop_last().len() ==> #[trigger] s.drop_last()[x] == s[x]);
        }
        lemma_accounts_insert(s.drop_last(), p, a);
        assert(s.insert(p, a).drop_last() =~= s.drop_last().insert(p, a));
        assert(s.insert(p, a).last() == s.last());
        assert(s.last().client.0 != a.client.0);
        assert(accounts_map_of(s.insert(p, a)) =~= accounts_map_of(s).insert(a.client.0, a@));
    }
}

/// Removing an entry keeps the remaining dispute keys pairwise distinct.
proof fn lemma_dispute_unique_remove(s: Seq<DisputedTx>, i: int)
    requires
        dispute_keys_unique(s),
        0 <= i < s.len(),
    ensures
        dispute_keys_unique(s.remove(i)),
{
    s.remove_ensures(i);
    assert forall|x: int, y: int|
        0 <= x < y < s.remove(i).len() implies (#[trigger] s.remove(i)[x]).tx_id.0
        != (#[trigger] s.remove(i)[y]).tx_id.0 by {
        assert(s.remove(i)[x] == (if x < i {
            s[x]
        } else {
            s[x + 1]
        }));
        assert(s.remove(i)[y] == (if y < i {
            s[y]
        } else {
            s[y + 1]
        }));
    }
}

/// Appending keeps every element the list already contains.
proof fn lemma_push_preserves_contains(s: Seq<u32>, t: u32)
    ensures
        forall|x: u32| s.contains(x) ==> #[trigger] s.push(t).contains(x),
        s.push(t).contains(t),
{
    assert forall|x: u32| s.contains(x) implies #[trigger] s.push(t).contains(x) by {
        let i = choose|i: int| 0 <= i < s.len() && s[i] == x;
        assert(s.push(t)[i] == x);
    }
    assert(s.push(t)[s.len() as int] == t);
}

/// Appending an identifier to the accepted list inserts it into the
/// accepted set.
proof fn lemma_push_to_set(s: Seq<u32>, t: u32)
    ensures
        s.push(t).to_set() == s.to_set().insert(t),
{
    assert forall|x: u32| s.push(t).to_set().contains(x) implies s.to_set().insert(t).contains(
        x,
    ) by {
        let i = choose|i: int| 0 <= i < s.push(t).len() && s.push(t)[i] == x;
        if i < s.len() {
            assert(s[i] == x);
        }
    }
    assert forall|x: u32| s.to_set().insert(t).contains(x) implies s.push(t).to_set().contains(
        x,
    ) by {
        if x == t {
            assert(s.push(t)[s.len() as int] == x);
        } else {
            let i = choose|i: int| 0 <= i < s.len() && s[i] == x;
            assert(s.push(t)[i] == x);
        }
    }
    assert(s.push(t).to_set() =~= s.to_set().insert(t));
}

/// One row of the final report: the balances of one client.
#[derive(Clone, Copy, Debug)]
pub struct ClientSnapshot {
    pub client_id: ClientId,
    pub available: Amount,
    pub held: Amount,
    pub locked: bool,
}

impl ClientSnapshot {
    /// The client's total funds: available plus held.
    pub fn total(&self) -> (r: Amount)
        requires
            i128::MIN <= self.available@ + self.held@ <= i128::MAX,
        ensures
            r@ == self.available@ + self.held@,
    {
        self.available.plus(self.held)
    }
}

/// The ledger engine: all client accounts plus the set of accepted
/// transaction identifiers.
pub struct TxEngine {
    users: Vec<ClientData>,
    processed_tx_ids: Vec<u32>,
}

impl View for TxEngine {
    type V = LedgerModel;

    closed spec fn view(&self) -> LedgerModel {
        LedgerModel {
            accounts: accounts_map_of(self.users@),
            accepted: self.processed_tx_ids@.to_set(),
        }
    }
}

impl Default for TxEngine {
    /// Same as [`TxEngine::new`].
    fn default() -> (r: TxEngine)
        ensures
            r.wf(),
            r@ == empty_ledger(),
    {
        TxEngine::new()
    }
}

impl TxEngine {
    /// Internal consistency: accounts sorted strictly by client
    /// identifier, each account well formed, and every identifier in any
    /// account's history also in the accepted list.
    pub closed spec fn wf(self) -> bool {
        &&& clients_sorted(self.users@)
        &&& forall|i: int| 0 <= i < self.users@.len() ==> (#[trigger] self.users@[i]).wf()
        &&& forall|i: int, j: int|
            0 <= i < self.users@.len() && 0 <= j < self.users@[i].txs@.len()
                ==> self.processed_tx_ids@.contains(
                record_key(#[trigger] self.users@[i].txs@[j]),
            )
    }

    /// An engine with no accounts and nothing accepted.
    pub fn new() -> (r: TxEngine)
        ensures
            r.wf(),
            r@ == empty_ledger(),
    {
        let r = TxEngine { users: Vec::new(), processed_tx_ids: Vec::new() };
        proof {
            assert(r@.accounts =~= Map::<u16, AccountModel>::empty());
            assert(r@.accepted =~= Set::<u32>::empty());
            assert(r@ =~= empty_ledger());
        }
        r
    }

    /// The index of the client's account, if one exists.
    fn find_user(&self, client: ClientId) -> (r: Option<usize>)
        requires
            self.wf(),
        ensures
            match r {
                Some(i) => i < self.users@.len() && self.users@[i as int].client == client
                    && self@.accounts.contains_key(client.0)
                    && self@.accounts[client.0] == self.users@[i as int]@,
                None => !self@.accounts.contains_key(client.0),
            },
    {
        let mut i: usize = 0;
        while i < self.users.len()
            invariant
                self.wf(),
                i <= self.users@.len(),
                forall|j: int| 0 <= j < i ==> (#[trigger] self.users@[j]).client.0 != client.0,
            decreases self.users@.len() - i,
        {
            if self.users[i].client.0 == client.0 {
                proof {
                    lemma_accounts_index(self.users@, i as int);
                }
                return Some(i);
            }
            i += 1;
        }
        proof {
            lemma_accounts_contains(self.users@, client.0);
        }
        None
    }

    /// Whether the identifier was already accepted as a deposit or
    /// withdrawal.
    fn contains_tx(&self, t: TxID) -> (r: bool)
        ensures
            r <==> self@.accepted.contains(t.0),
    {
        let mut i: usize = 0;
        while i < self.processed_tx_ids.len()
            invariant
                i <= self.processed_tx_ids@.len(),
                forall|j: int| 0 <= j < i ==> self.processed_tx_ids@[j] != t.0,
            decreases self.processed_tx_ids@.len() - i,
        {
            if self.processed_tx_ids[i] == t.0 {
                proof {
                    assert(self.processed_tx_ids@.contains(t.0));
                }
                return true;
            }
            i += 1;
        }
        proof {
            assert(!self.processed_tx_ids@.contains(t.0));
        }
        false
    }

    /// Places a fresh account at its sorted position.
    fn insert_user(&mut self, user: ClientData)
        requires
            old(self).wf(),
            user.wf(),
            user.txs@.len() == 0,
            !old(self)@.accounts.contains_key(user.client.0),
        ensures
            final(self).wf(),
            final(self)@ == (LedgerModel {
                accounts: old(self)@.accounts.insert(user.client.0, user@),
                ..old(self)@
            }),
    {
        proof {
            lemma_accounts_contains(self.users@, user.client.0);
        }
        let mut i: usize = 0;
        while i < self.users.len() && self.users[i].client.0 < user.client.0
            invariant
                self.wf(),
                i <= self.users@.len(),
                forall|j: int| 0 <= j < i ==> (#[trigger] self.users@[j]).client.0 < user.client.0,
            decreases self.users@.len() - i,
        {
            i += 1;
        }
        let ghost old_users = self.users@;
        self.users.insert(i, user);
        proof {
            assert(forall|k: int|
                0 <= k < old_users.len() ==> (#[trigger] old_users[k]).client.0 != user.client.0);
            assert forall|x: int, y: int|
                0 <= x < y < self.users@.len() implies (#[trigger] self.users@[x]).client.0
                < (#[trigger] self.users@[y]).client.0 by {
                if x < i && y < i {
                } else if x < i && y == i {
                } else if x == i && y > i {
                    assert(self.users@[y] == old_users[y - 1]);
                    assert(i < old_users.len());
                    assert(old_users[y - 1].client.0 >= old_users[i as int].client.0 || y - 1 == i);
                    assert(old_users[i as int].client.0 >= user.client.0);
                } else if x < i && y > i {
                    assert(self.users@[x] == old_users[x]);
                    assert(self.users@[y] == old_users[y - 1]);
                } else {
                    assert(self.users@[x] == old_users[x - 1]);
                    assert(self.users@[y] == old_users[y - 1]);
                }
            }
            lemma_accounts_insert(old_users, i as int, user);
            assert(self@ =~= (LedgerModel {
                accounts: accounts_map_of(old_users).insert(user.client.0, user@),
                ..old(self)@
            }));
        }
    }

    /// Rejects a deposit or withdrawal whose identifier was already
    /// accepted. The dispute-family operations reuse identifiers by
    /// design and pass.
    fn check_duplicate_tx(&self, tx: &TransactionRecord) -> (r: Result<(), AppError>)
        ensures
            r is Ok <==> !(is_funds_move(tx@) && self@.accepted.contains(action_tx_id(tx@))),
            r is Err ==> r == Err::<(), AppError>(
                AppError::TxProcessingNonCritical(RejectionReason::DuplicateTxId),
            ),
    {
        match tx {
            TransactionRecord::Deposit { tx_id, .. }
            | TransactionRecord::Withdrawal { tx_id, .. } => {
                if self.contains_tx(*tx_id) {
                    Err(AppError::TxProcessingNonCritical(RejectionReason::DuplicateTxId))
                } else {
                    Ok(())
                }
            },
            _ => Ok(()),
        }
    }

    /// Rejects every transaction aimed at a frozen account.
    fn check_frozen(&self, client: ClientId) -> (r: Result<(), AppError>)
        requires
            self.wf(),
        ensures
            r is Ok <==> !is_frozen(self@, client.0),
            r is Err ==> r == Err::<(), AppError>(
                AppError::TxProcessingNonCritical(RejectionReason::AccountFrozen),
            ),
    {
        match self.find_user(client) {
            Some(i) => {
                if self.users[i].frozen {
                    Err(AppError::TxProcessingNonCritical(RejectionReason::AccountFrozen))
                } else {
                    Ok(())
                }
            },
            None => Ok(()),
        }
    }

    /// Validates an incoming record: a deposit or withdrawal must carry
    /// an amount; the dispute-family operations ignore theirs.
    fn to_transaction_record(tx: &Transaction) -> (r: Result<TransactionRecord, AppError>)
        ensures
            match action_of(*tx) {
                Some(a) => match r {
                    Ok(rec) => rec@ == a,
                    Err(_) => false,
                },
                None => r == Err::<TransactionRecord, AppError>(
                    AppError::TxProcessingNonCritical(RejectionReason::MissingAmount),
                ),
            },
    {
        match tx.op_type {
            TransactionType::Deposit => match tx.amount {
                Some(amount) => Ok(
                    TransactionRecord::Deposit { client: tx.client, tx_id: tx.tx_id, amount },
                ),
                None => Err(AppError::TxProcessingNonCritical(RejectionReason::MissingAmount)),
            },
            TransactionType::Withdrawal => match tx.amount {
                Some(amount) => Ok(
                    TransactionRecord::Withdrawal { client: tx.client, tx_id: tx.tx_id, amount },
                ),
                None => Err(AppError::TxProcessingNonCritical(RejectionReason::MissingAmount)),
            },
            TransactionType::Dispute => Ok(
                TransactionRecord::Dispute { client: tx.client, disputed_tx_id: tx.tx_id },
            ),
            TransactionType::Resolve => Ok(
                TransactionRecord::Resolve { client: tx.client, disputed_tx_id: tx.tx_id },
            ),
            TransactionType::Chargeback => Ok(
                TransactionRecord::Chargeback { client: tx.client, disputed_tx_id: tx.tx_id },
            ),
        }
    }

    /// Runs the duplicate and frozen checks, then the rule of the
    /// record's own kind, and mutates the balances. Recording into the
    /// history and the accepted set is left to
    /// `record_processed_transaction`. A rejected record leaves the
    /// engine exactly as it was.
    fn process_transaction_internal(&mut self, tx: &TransactionRecord) -> (r: Result<
        (),
        AppError,
    >)
        requires
            old(self).wf(),
            action_fits(old(self)@, tx@),
        ensures
            final(self).wf(),
            match rejection_of(old(self)@, tx@) {
                None => r is Ok && final(self)@ == apply_balances(old(self)@, tx@),
                Some(reason) => r == Err::<(), AppError>(
                    AppError::TxProcessingNonCritical(reason),
                ) && final(self)@ == old(self)@,
            },
    {
        if let Err(e) = self.check_duplicate_tx(tx) {
            return Err(e);
        }
        if let Err(e) = self.check_frozen(tx.client_id()) {
            return Err(e);
        }
        match tx {
            TransactionRecord::Deposit { client, tx_id: _, amount } => {
                match self.find_user(*client) {
                    Some(i) => {
                        let ghost old_users = self.users@;
                        let ghost acct = self.users@[i as int]@;
                        let user = &mut self.users[i];
                        user.balances.available = user.balances.available.plus(*amount);
                        proof {
                            lemma_accounts_update(old_users, i as int, self.users@[i as int]);
                            assert(self.users@[i as int]@ =~~= (AccountModel {
                                available: acct.available + amount@,
                                ..acct
                            }));
                            assert(self@ =~= apply_balances(old(self)@, tx@));
                        }
                        Ok(())
                    },
                    None => {
                        let mut user = ClientData::init(*client);
                        user.balances.available = *amount;
                        proof {
                            assert(user@ =~~= (AccountModel {
                                available: 0 + amount@,
                                ..empty_account()
                            }));
                        }
                        self.insert_user(user);
                        proof {
                            assert(self@ =~= apply_balances(old(self)@, tx@));
                        }
                        Ok(())
                    },
                }
            },
            TransactionRecord::Withdrawal { client, tx_id: _, amount } => {
                match self.find_user(*client) {
                    Some(i) => {
                        if self.users[i].balances.available.inner() < amount.inner() {
                            return Err(
                                AppError::TxProcessingNonCritical(
                                    RejectionReason::InsufficientFunds,
                                ),
                            );
                        }
                        let ghost old_users = self.users@;
                        let ghost acct = self.users@[i as int]@;
                        let user = &mut self.users[i];
                        user.balances.available = user.balances.available.minus(*amount);
                        proof {
                            lemma_accounts_update(old_users, i as int, self.users@[i as int]);
                            assert(self.users@[i as int]@ =~~= (AccountModel {
                                available: acct.available - amount@,
                                ..acct
                            }));
                            assert(self@ =~= apply_balances(old(self)@, tx@));
                        }
                        Ok(())
                    },
                    None => {
                        if amount.inner() > 0 {
                            return Err(
                                AppError::TxProcessingNonCritical(
                                    RejectionReason::InsufficientFunds,
                                ),
                            );
                        }
                        let mut user = ClientData::init(*client);
                        user.balances.available = Amount::zero().minus(*amount);
                        proof {
                            assert(user@ =~~= (AccountModel {
                                available: 0 - amount@,
                                ..empty_account()
                            }));
                        }
                        self.insert_user(user);
                        proof {
                            assert(self@ =~= apply_balances(old(self)@, tx@));
                        }
                        Ok(())
                    },
                }
            },
            TransactionRecord::Dispute { client, disputed_tx_id } => {
                let i = match self.find_user(*client) {
                    Some(i) => i,
                    None => {
                        return Err(
                            AppError::TxProcessingNonCritical(RejectionReason::ClientNotFound),
                        );
                    },
                };
                if let Some(_) = self.users[i].find_dispute(*disputed_tx_id) {
                    return Err(
                        AppError::TxProcessingNonCritical(RejectionReason::AlreadyDisputed),
                    );
                }
                let j = match self.users[i].find_tx(*disputed_tx_id) {
                    Some(j) => j,
                    None => {
                        return Err(
                            AppError::TxProcessingNonCritical(RejectionReason::DisputedTxNotFound),
                        );
                    },
                };
                let stored = self.users[i].txs[j];
                let diff = match stored {
                    TransactionRecord::Deposit { amount, .. } => amount,
                    _ => {
                        return Err(
                            AppError::TxProcessingNonCritical(RejectionReason::NotADeposit),
                        );
                    },
                };
                let ghost old_users = self.users@;
                let ghost acct = self.users@[i as int]@;
                let ghost old_disputes = self.users@[i as int].disputed_txs@;
                let user = &mut self.users[i];
                user.balances.available = user.balances.available.minus(diff);
                user.balances.held = user.balances.held.plus(diff);
                user.disputed_txs.push(DisputedTx { tx_id: *disputed_tx_id, amount: diff });
                proof {
                    lemma_dispute_push(
                        old_disputes,
                        DisputedTx { tx_id: *disputed_tx_id, amount: diff },
                    );
                    lemma_dispute_contains(old_disputes, disputed_tx_id.0);
                    lemma_accounts_update(old_users, i as int, self.users@[i as int]);
                    assert(self.users@[i as int]@ =~~= (AccountModel {
                        available: acct.available - acct.history[disputed_tx_id.0].amount,
                        held: acct.held + acct.history[disputed_tx_id.0].amount,
                        disputes: acct.disputes.insert(
                            disputed_tx_id.0,
                            acct.history[disputed_tx_id.0].amount,
                        ),
                        ..acct
                    }));
                    assert(self@ =~= apply_balances(old(self)@, tx@));
                }
                Ok(())
            },
            TransactionRecord::Resolve { client, disputed_tx_id } => {
                let i = match self.find_user(*client) {
                    Some(i) => i,
                    None => {
                        return Err(
                            AppError::TxProcessingNonCritical(RejectionReason::ClientNotFound),
                        );
                    },
                };
                let j = match self.users[i].find_dispute(*disputed_tx_id) {
                    Some(j) => j,
                    None => {
                        return Err(
                            AppError::TxProcessingNonCritical(RejectionReason::NoActiveDispute),
                        );
                    },
                };
                let amt = self.users[i].disputed_txs[j].amount;
                let ghost old_users = self.users@;
                let ghost acct = self.users@[i as int]@;
                let ghost old_disputes = self.users@[i as int].disputed_txs@;
                let user = &mut self.users[i];
                user.balances.available = user.balances.available.plus(amt);
                user.balances.held = user.balances.held.minus(amt);
                user.disputed_txs.remove(j);
                proof {
                    lemma_dispute_remove(old_disputes, j as int);
                    lemma_dispute_unique_remove(old_disputes, j as int);
                    old_disputes.remove_ensures(j as int);
                    lemma_accounts_update(old_users, i as int, self.users@[i as int]);
                    assert(self.users@[i as int]@ =~~= (AccountModel {
                        available: acct.available + acct.disputes[disputed_tx_id.0],
                        held: acct.held - acct.disputes[disputed_tx_id.0],
                        disputes: acct.disputes.remove(disputed_tx_id.0),
                        ..acct
                    }));
                    assert(self@ =~= apply_balances(old(self)@, tx@));
                }
                Ok(())
            },
            TransactionRecord::Chargeback { client, disputed_tx_id } => {
                let i = match self.find_user(*client) {
                    Some(i) => i,
                    None => {
                        return Err(
                            AppError::TxProcessingNonCritical(RejectionReason::ClientNotFound),
                        );
                    },
                };
                let j = match self.users[i].find_dispute(*disputed_tx_id) {
                    Some(j) => j,
                    None => {
                        return Err(
                            AppError::TxProcessingNonCritical(RejectionReason::NoActiveDispute),
                        );
                    },
                };
                let amt = self.users[i].disputed_txs[j].amount;
                let ghost old_users = self.users@;
                let ghost acct = self.users@[i as int]@;
                let ghost old_disputes = self.users@[i as int].disputed_txs@;
                let user = &mut self.users[i];
                user.balances.held = user.balances.held.minus(amt);
                user.disputed_txs.remove(j);
                user.frozen = true;
                proof {
                    lemma_dispute_remove(old_disputes, j as int);
                    lemma_dispute_unique_remove(old_disputes, j as int);
                    old_disputes.remove_ensures(j as int);
                    lemma_accounts_update(old_users, i as int, self.users@[i as int]);
                    assert(self.users@[i as int]@ =~~= (AccountModel {
                        held: acct.held - acct.disputes[disputed_tx_id.0],
                        disputes: acct.disputes.remove(disputed_tx_id.0),
                        frozen: true,
                        ..acct
                    }));
                    assert(self@ =~= apply_balances(old(self)@, tx@));
                }
                Ok(())
            },
        }
    }

    /// Persists an accepted deposit or withdrawal: its identifier into
    /// the accepted list and the record into the client's history. Other
    /// kinds record nothing.
    fn record_processed_transaction(&mut self, tx: TransactionRecord)
        requires
            old(self).wf(),
            is_funds_move(tx@) ==> old(self)@.accounts.contains_key(action_client(tx@))
                && !old(self)@.accepted.contains(action_tx_id(tx@))
                && in_units_range(action_amount(tx@)),
        ensures
            final(self).wf(),
            final(self)@ == record_accepted(old(self)@, tx@),
    {
        match tx {
            TransactionRecord::Deposit { client, tx_id, .. }
            | TransactionRecord::Withdrawal { client, tx_id, .. } => {
                let ghost old_processed = self.processed_tx_ids@;
                self.processed_tx_ids.push(tx_id.0);
                proof {
                    lemma_push_to_set(old_processed, tx_id.0);
                    lemma_push_preserves_contains(old_processed, tx_id.0);
                    assert(self.wf());
                }
                match self.find_user(client) {
                    Some(i) => {
                        let ghost old_users = self.users@;
                        let ghost acct = self.users@[i as int]@;
                        let ghost old_txs = self.users@[i as int].txs@;
                        let user = &mut self.users[i];
                        user.txs.push(tx);
                        proof {
                            lemma_hist_push(old_txs, tx);
                            lemma_accounts_update(old_users, i as int, self.users@[i as int]);
                            // The fresh identifier is in none of the stored
                            // records, whose identifiers all sit in the old
                            // accepted list.
                            assert(forall|k: int|
                                0 <= k < old_txs.len() ==> record_key(#[trigger] old_txs[k])
                                    != tx_id.0);
                            assert(self.users@[i as int]@ =~~= (AccountModel {
                                history: acct.history.insert(
                                    tx_id.0,
                                    HistRecord {
                                        is_deposit: tx@ is Deposit,
                                        amount: action_amount(tx@),
                                    },
                                ),
                                ..acct
                            }));
                            assert(self@ =~= record_accepted(old(self)@, tx@));
                        }
                    },
                    None => {
                        proof {
                            assert(false);
                        }
                    },
                }
            },
            _ => {},
        }
    }

    /// Applies one incoming record: validation, the duplicate and frozen
    /// checks, the rule of the record's own kind, and, for an accepted
    /// deposit or withdrawal, the recording into history. The result says
    /// exactly which rule failed; a rejected record leaves the ledger
    /// untouched.
    pub fn process_transaction(&mut self, tx: &Transaction) -> (r: Result<(), AppError>)
        requires
            old(self).wf(),
            tx_fits(old(self)@, *tx),
        ensures
            final(self).wf(),
            match rejection_of_tx(old(self)@, *tx) {
                None => r is Ok && final(self)@ == apply_action(
                    old(self)@,
                    action_of(*tx).unwrap(),
                ),
                Some(reason) => r == Err::<(), AppError>(
                    AppError::TxProcessingNonCritical(reason),
                ) && final(self)@ == old(self)@,
            },
    {
        let record = match Self::to_transaction_record(tx) {
            Ok(record) => record,
            Err(e) => {
                return Err(e);
            },
        };
        if let Err(e) = self.process_transaction_internal(&record) {
            return Err(e);
        }
        proof {
            lemma_apply_split(old(self)@, record@);
        }
        self.record_processed_transaction(record);
        Ok(())
    }

    /// Whether the balances this record would write stay within the
    /// range the engine's fixed-point arithmetic can hold — the machine
    /// limit that `process_transaction` requires. A record the engine
    /// would reject always fits.
    pub fn transaction_fits(&self, tx: &Transaction) -> (r: bool)
        requires
            self.wf(),
        ensures
            r <==> tx_fits(self@, *tx),
    {
        let record = match Self::to_transaction_record(tx) {
            Ok(record) => record,
            Err(_) => {
                return true;
            },
        };
        if let Err(_) = self.check_duplicate_tx(&record) {
            return true;
        }
        if let Err(_) = self.check_frozen(record.client_id()) {
            return true;
        }
        match &record {
            TransactionRecord::Deposit { client, tx_id: _, amount } => {
                match self.find_user(*client) {
                    Some(i) => {
                        let available = self.users[i].balances.available;
                        amount.in_range() && available.plus(*amount).in_range()
                    },
                    None => amount.in_range(),
                }
            },
            TransactionRecord::Withdrawal { client, tx_id: _, amount } => {
                match self.find_user(*client) {
                    Some(i) => {
                        let available = self.users[i].balances.available;
                        if available.inner() < amount.inner() {
                            true
                        } else {
                            amount.in_range() && available.minus(*amount).in_range()
                        }
                    },
                    None => {
                        if amount.inner() > 0 {
                            true
                        } else {
                            amount.in_range() && Amount::zero().minus(*amount).in_range()
                        }
                    },
                }
            },
            TransactionRecord::Dispute { client, disputed_tx_id } => {
                let i = match self.find_user(*client) {
                    Some(i) => i,
                    None => {
                        return true;
                    },
                };
                if let Some(_) = self.users[i].find_dispute(*disputed_tx_id) {
                    return true;
                }
                let j = match self.users[i].find_tx(*disputed_tx_id) {
                    Some(j) => j,
                    None => {
                        return true;
                    },
                };
                let diff = match self.users[i].txs[j] {
                    TransactionRecord::Deposit { amount, .. } => amount,
                    _ => {
                        return true;
                    },
                };
                let user = &self.users[i];
                user.balances.available.minus(diff).in_range() && user.balances.held.plus(
                    diff,
                ).in_range()
            },
            TransactionRecord::Resolve { client, disputed_tx_id } => {
                let i = match self.find_user(*client) {
                    Some(i) => i,
                    None => {
                        return true;
                    },
                };
                let j = match self.users[i].find_dispute(*disputed_tx_id) {
                    Some(j) => j,
                    None => {
                        return true;
                    },
                };
                let amt = self.users[i].disputed_txs[j].amount;
                let user = &self.users[i];
                user.balances.available.plus(amt).in_range() && user.balances.held.minus(
                    amt,
                ).in_range()
            },
            TransactionRecord::Chargeback { client, disputed_tx_id } => {
                let i = match self.find_user(*client) {
                    Some(i) => i,
                    None => {
                        return true;
                    },
                };
                let j = match self.users[i].find_dispute(*disputed_tx_id) {
                    Some(j) => j,
                    None => {
                        return true;
                    },
                };
                let amt = self.users[i].disputed_txs[j].amount;
                self.users[i].balances.held.minus(amt).in_range()
            },
        }
    }

    /// One [`ClientSnapshot`] per known client, ordered by ascending
    /// client identifier, each row carrying that account's balances and
    /// frozen flag. A pure projection: the engine is not changed.
    pub fn clients_snapshot(&self) -> (r: Vec<ClientSnapshot>)
        requires
            self.wf(),
        ensures
            forall|i: int, j: int|
                0 <= i < j < r@.len() ==> (#[trigger] r@[i]).client_id.0
                    < (#[trigger] r@[j]).client_id.0,
            forall|i: int|
                0 <= i < r@.len() ==> {
                    let c = (#[trigger] r@[i]).client_id.0;
                    &&& self@.accounts.contains_key(c)
                    &&& r@[i].available@ == self@.accounts[c].available
                    &&& r@[i].held@ == self@.accounts[c].held
                    &&& r@[i].locked == self@.accounts[c].frozen
                },
            forall|c: u16|
                #[trigger] self@.accounts.contains_key(c) ==> exists|i: int|
                    0 <= i < r@.len() && (#[trigger] r@[i]).client_id.0 == c,
            forall|i: int|
                0 <= i < r@.len() ==> in_units_range((#[trigger] r@[i]).available@)
                    && in_units_range(r@[i].held@),
    {
        let mut snapshots: Vec<ClientSnapshot> = Vec::new();
        let mut i: usize = 0;
        while i < self.users.len()
            invariant
                self.wf(),
                i <= self.users@.len(),
                snapshots@.len() == i,
                forall|k: int|
                    0 <= k < i ==> {
                        let u = self.users@[k];
                        &&& (#[trigger] snapshots@[k]).client_id == u.client
                        &&& snapshots@[k].available == u.balances.available
                        &&& snapshots@[k].held == u.balances.held
                        &&& snapshots@[k].locked == u.frozen
                    },
            decreases self.users@.len() - i,
        {
            let user = &self.users[i];
            snapshots.push(
                ClientSnapshot {
                    client_id: user.client,
                    available: user.balances.available,
                    held: user.balances.held,
                    locked: user.frozen,
                },
            );
            i += 1;
        }
        proof {
            assert forall|k: int|
                0 <= k < snapshots@.len() implies {
                let c = (#[trigger] snapshots@[k]).client_id.0;
                &&& self@.accounts.contains_key(c)
                &&& snapshots@[k].available@ == self@.accounts[c].available
                &&& snapshots@[k].held@ == self@.accounts[c].held
                &&& snapshots@[k].locked == self@.accounts[c].frozen
            } by {
                lemma_accounts_index(self.users@, k);
            }
            assert forall|c: u16| #[trigger]
                self@.accounts.contains_key(c) implies exists|i2: int|
                0 <= i2 < snapshots@.len() && (#[trigger] snapshots@[i2]).client_id.0 == c by {
                lemma_accounts_contains(self.users@, c);
                let w = choose|w: int| 0 <= w < self.users@.len() && self.users@[w].client.0 == c;
                assert(snapshots@[w].client_id.0 == c);
            }
        }
        snapshots
    }
}

} // verus!
