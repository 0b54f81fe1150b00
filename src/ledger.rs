use vstd::prelude::*;
use crate::account::{Account, BalanceError};
use crate::transaction::{Transaction, TransactionKind, kind_of};

verus! {

/// Why a record was skipped.
#[derive(Debug, Clone)]
pub enum Reason {
    WithdrawalRefused(BalanceError),
    UnknownToDispute,
    DisputedTwice,
    DisputeRefused(BalanceError),
    UnknownToResolve,
    ResolveRefused(BalanceError),
    UnknownToChargeBack,
    ChargebackRefused(BalanceError),
    UnhandledType(String),
}

/// One skipped record: the transaction id it carried and why it was skipped.
#[derive(Debug, Clone)]
pub struct Diagnostic {
    pub tx: u32,
    pub reason: Reason,
}

/// The state of a replay: the accounts by client id, the client ids in the
/// order they were first seen, the transactions that moved funds and the
/// transactions under an open dispute.
pub ghost struct Ledger {
    pub accounts: Map<u16, Account>,
    pub order: Seq<u16>,
    pub applied: Map<u32, u64>,
    pub disputed: Map<u32, u64>,
}

impl Ledger {
    pub open spec fn initial() -> Ledger {
        Ledger {
            accounts: Map::empty(),
            order: Seq::empty(),
            applied: Map::empty(),
            disputed: Map::empty(),
        }
    }

    /// The ledger with an account for `client`, opened empty if it had none.
    pub open spec fn with_account(self, client: u16) -> Ledger {
        if self.accounts.contains_key(client) {
            self
        } else {
            Ledger {
                accounts: self.accounts.insert(client, Account::opened(client)),
                order: self.order.push(client),
                ..self
            }
        }
    }

    pub open spec fn put(self, client: u16, a: Account) -> Ledger {
        Ledger { accounts: self.accounts.insert(client, a), ..self }
    }

    /// Whether the dispatch rules skip record `t` in this state.
    pub open spec fn refuses(self, t: Transaction) -> bool {
        let a = self.with_account(t.client).accounts[t.client];
        match kind_of(t.transaction_type@) {
            TransactionKind::Deposit => false,
            TransactionKind::Withdrawal => t.amount > a.available,
            TransactionKind::Dispute => !self.applied.contains_key(t.tx) || self.disputed.contains_key(
                t.tx,
            ) || self.applied[t.tx] > a.available,
            TransactionKind::Resolve => !self.disputed.contains_key(t.tx) || self.disputed[t.tx]
                > a.held,
            TransactionKind::Chargeback => !self.disputed.contains_key(t.tx) || self.disputed[t.tx]
                > a.held,
            TransactionKind::Unrecognized => true,
        }
    }

    /// Applies one record: the next state, and the reason if it was skipped.
    pub open spec fn step(self, t: Transaction) -> (Ledger, Option<Reason>) {
        let l = self.with_account(t.client);
        let c = t.client;
        let a = l.accounts[c];
        match kind_of(t.transaction_type@) {
            TransactionKind::Deposit => (
                Ledger { applied: l.applied.insert(t.tx, t.amount), ..l.put(c, a.after_deposit(t.amount)) },
                None,
            ),
            TransactionKind::Withdrawal => if t.amount > a.available {
                (l, Some(Reason::WithdrawalRefused(BalanceError::InsufficientFunds)))
            } else {
                (
                    Ledger {
                        applied: l.applied.insert(t.tx, t.amount),
                        ..l.put(c, a.after_withdraw(t.amount))
                    },
                    None,
                )
            },
            TransactionKind::Dispute => if !l.applied.contains_key(t.tx) {
                (l, Some(Reason::UnknownToDispute))
            } else if l.disputed.contains_key(t.tx) {
                (l, Some(Reason::DisputedTwice))
            } else if l.applied[t.tx] > a.available {
                (l, Some(Reason::DisputeRefused(BalanceError::InsufficientFunds)))
            } else {
                let amount = l.applied[t.tx];
                (
                    Ledger {
                        disputed: l.disputed.insert(t.tx, amount),
                        ..l.put(c, a.after_dispute(amount))
                    },
                    None,
                )
            },
            TransactionKind::Resolve => if !l.disputed.contains_key(t.tx) {
                (l, Some(Reason::UnknownToResolve))
            } else if l.disputed[t.tx] > a.held {
                (l, Some(Reason::ResolveRefused(BalanceError::InsufficientHeld)))
            } else {
                let amount = l.disputed[t.tx];
                (
                    Ledger {
                        disputed: l.disputed.remove(t.tx),
                        ..l.put(c, a.after_resolve(amount))
                    },
                    None,
                )
            },
            TransactionKind::Chargeback => if !l.disputed.contains_key(t.tx) {
                (l, Some(Reason::UnknownToChargeBack))
            } else if l.disputed[t.tx] > a.held {
                (l, Some(Reason::ChargebackRefused(BalanceError::InsufficientHeld)))
            } else {
                let amount = l.disputed[t.tx];
                (
                    Ledger {
                        disputed: l.disputed.remove(t.tx),
                        ..l.put(c, a.after_chargeback(amount))
                    },
                    None,
                )
            },
            TransactionKind::Unrecognized => (l, Some(Reason::UnhandledType(t.transaction_type))),
        }
    }

    /// Every account is balanced, filed under its own client id, and holds
    /// a total of at most `k` times the largest single amount.
    pub open spec fn bounded(self, k: int) -> bool {
        forall|c: u16| #[trigger]
            self.accounts.contains_key(c) ==> {
                let a = self.accounts[c];
                &&& a.balanced()
                &&& a.client == c
                &&& a.total <= k * (u64::MAX as int)
            }
    }
}

/// Replays a sequence of records from the empty ledger: the final state and
/// one diagnostic per skipped record, in input order.
pub open spec fn replay(txs: Seq<Transaction>) -> (Ledger, Seq<Diagnostic>)
    decreases txs.len(),
{
    if txs.len() == 0 {
        (Ledger::initial(), Seq::empty())
    } else {
        let (l, d) = replay(txs.drop_last());
        let t = txs.last();
        let (l2, r) = l.step(t);
        match r {
            Some(reason) => (l2, d.push(Diagnostic { tx: t.tx, reason })),
            None => (l2, d),
        }
    }
}

/// How many records of `txs` the dispatch rules skip, each judged against
/// the state that the records before it left.
pub open spec fn skipped(txs: Seq<Transaction>) -> nat
    decreases txs.len(),
{
    if txs.len() == 0 {
        0
    } else {
        let prior = replay(txs.drop_last()).0;
        skipped(txs.drop_last()) + if prior.refuses(txs.last()) {
            1nat
        } else {
            0nat
        }
    }
}

/// `k + 1` largest amounts fit in a `u128` while `k + 1` fits in a `usize`.
pub(crate) proof fn lemma_product_fits(k: int)
    requires
        0 <= k,
        k + 1 <= usize::MAX,
    ensures
        (k + 1) * (u64::MAX as int) <= u128::MAX,
        (k + 1) * (u64::MAX as int) == k * (u64::MAX as int) + u64::MAX,
        k * (u64::MAX as int) <= (k + 1) * (u64::MAX as int),
{
    assert((k + 1) * (u64::MAX as int) <= (u64::MAX as int) * (u64::MAX as int)) by (nonlinear_arith)
        requires
            k + 1 <= u64::MAX,
    ;
    assert((k + 1) * (u64::MAX as int) == k * (u64::MAX as int) + u64::MAX) by (nonlinear_arith);
}

/// One step keeps every account balanced and raises the bound on totals by
/// at most one amount.
pub proof fn lemma_step_bounded(l: Ledger, t: Transaction, k: int)
    requires
        0 <= k,
        k + 1 <= usize::MAX,
        l.bounded(k),
    ensures
        l.step(t).0.bounded(k + 1),
{
    lemma_product_fits(k);
    let m = l.with_account(t.client);
    assert(m.bounded(k));
    assert(m.bounded(k + 1));
}

/// Every account that a replay reaches is balanced: its total is its
/// available plus its held funds.
pub proof fn lemma_replay_balanced(txs: Seq<Transaction>)
    requires
        txs.len() <= usize::MAX,
    ensures
        replay(txs).0.bounded(txs.len() as int),
        forall|c: u16| #[trigger]
            replay(txs).0.accounts.contains_key(c) ==> replay(txs).0.accounts[c].balanced(),
    decreases txs.len(),
{
    if txs.len() > 0 {
        lemma_replay_balanced(txs.drop_last());
        lemma_step_bounded(replay(txs.drop_last()).0, txs.last(), txs.len() - 1);
    }
}

/// A record yields a diagnostic exactly when the dispatch rules skip it, and
/// a skipped record changes nothing but opening its client's account.
pub proof fn lemma_step_refusal(l: Ledger, t: Transaction)
    ensures
        l.step(t).1 is Some <==> l.refuses(t),
        l.refuses(t) ==> l.step(t).0 == l.with_account(t.client),
{
}

/// The number of diagnostics of a replay is the number of records that the
/// dispatch rules skip.
pub proof fn lemma_diagnostics_count(txs: Seq<Transaction>)
    ensures
        replay(txs).1.len() == skipped(txs),
    decreases txs.len(),
{
    if txs.len() > 0 {
        lemma_diagnostics_count(txs.drop_last());
        lemma_step_refusal(replay(txs.drop_last()).0, txs.last());
    }
}

/// Once a dispute of a transaction succeeds, the same dispute again is
/// refused as a second dispute.
pub proof fn lemma_dispute_twice(l: Ledger, t: Transaction)
    requires
        kind_of(t.transaction_type@) == TransactionKind::Dispute,
        l.step(t).1 is None,
    ensures
        l.step(t).0.step(t).1 == Some(Reason::DisputedTwice),
{
}

/// Once a resolve of a disputed transaction succeeds, the same resolve again
/// is refused: the transaction is no longer under dispute.
pub proof fn lemma_resolve_twice(l: Ledger, t: Transaction)
    requires
        kind_of(t.transaction_type@) == TransactionKind::Resolve,
        l.step(t).1 is None,
    ensures
        l.step(t).0.step(t).1 == Some(Reason::UnknownToResolve),
{
}

/// Once a chargeback of a disputed transaction succeeds, the same chargeback
/// again is refused: the transaction is no longer under dispute.
pub proof fn lemma_chargeback_twice(l: Ledger, t: Transaction)
    requires
        kind_of(t.transaction_type@) == TransactionKind::Chargeback,
        l.step(t).1 is None,
    ensures
        l.step(t).0.step(t).1 == Some(Reason::UnknownToChargeBack),
{
}

/// A replay holds exactly one account for each client id that some record
/// names, and lists each of them once.
pub proof fn lemma_one_account_per_client(txs: Seq<Transaction>)
    ensures
        replay(txs).0.order.no_duplicates(),
        forall|c: u16|
            #![trigger replay(txs).0.accounts.contains_key(c)]
            replay(txs).0.accounts.contains_key(c) <==> replay(txs).0.order.contains(c),
        forall|c: u16|
            #![trigger replay(txs).0.accounts.contains_key(c)]
            replay(txs).0.accounts.contains_key(c) <==> exists|i: int|
                0 <= i < txs.len() && (#[trigger] txs[i]).client == c,
    decreases txs.len(),
{
    if txs.len() > 0 {
        let prev = txs.drop_last();
        lemma_one_account_per_client(prev);
        let l = replay(prev).0;
        let t = txs.last();
        let m = l.with_account(t.client);
        assert(replay(txs).0.accounts.dom() == m.accounts.dom());
        assert(replay(txs).0.order == m.order);
        assert forall|c: u16| m.accounts.contains_key(c) <==> m.order.contains(c) by {
            if !l.accounts.contains_key(t.client) {
                if c == t.client {
                    assert(m.order[m.order.len() - 1] == c);
                } else if l.order.contains(c) {
                    let j = choose|j: int| 0 <= j < l.order.len() && l.order[j] == c;
                    assert(m.order[j] == c);
                } else if m.order.contains(c) {
                    let j = choose|j: int| 0 <= j < m.order.len() && m.order[j] == c;
                    assert(l.order[j] == c);
                }
            }
        }
        assert forall|c: u16|
            m.accounts.contains_key(c) <==> exists|i: int|
                0 <= i < txs.len() && (#[trigger] txs[i]).client == c by {
            if m.accounts.contains_key(c) {
                if c == t.client {
                    assert(txs[txs.len() - 1].client == c);
                } else {
                    let i = choose|i: int| 0 <= i < prev.len() && (#[trigger] prev[i]).client == c;
                    assert(txs[i] == prev[i]);
                }
            } else {
                assert forall|i: int| 0 <= i < txs.len() implies (#[trigger] txs[i]).client != c by {
                    if i < prev.len() {
                        assert(txs[i] == prev[i]);
                    }
                }
            }
        }
    }
}

} // verus!
