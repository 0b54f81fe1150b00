use vstd::prelude::*;
use std::collections::HashMap;
use crate::account::Account;
use crate::ledger::{
    Diagnostic, Ledger, Reason, replay, lemma_product_fits, lemma_step_bounded, lemma_replay_balanced,
};
use crate::transaction::{Transaction, TransactionKind, classify};

verus! {

broadcast use vstd::std_specs::hash::group_hash_axioms;

/// The accounts in order of first appearance, an index from client id to
/// position, and the two transaction ledgers.
struct Processor {
    accounts: Vec<Account>,
    slots: HashMap<u16, usize>,
    applied: HashMap<u32, u64>,
    disputed: HashMap<u32, u64>,
}

impl Processor {
    closed spec fn ledger(&self) -> Ledger {
        Ledger {
            accounts: Map::new(
                |c: u16| self.slots@.contains_key(c),
                |c: u16| self.accounts@[self.slots@[c] as int],
            ),
            order: self.accounts@.map_values(|a: Account| a.client),
            applied: self.applied@,
            disputed: self.disputed@,
        }
    }

    closed spec fn inv(&self) -> bool {
        &&& forall|i: int|
            0 <= i < self.accounts@.len() ==> #[trigger] self.slots@.contains_key(
                self.accounts@[i].client,
            ) && self.slots@[self.accounts@[i].client] == i
        &&& forall|c: u16| #[trigger]
            self.slots@.contains_key(c) ==> self.slots@[c] < self.accounts@.len()
                && self.accounts@[self.slots@[c] as int].client == c
    }

    fn new() -> (p: Processor)
        ensures
            p.inv(),
            p.ledger() == Ledger::initial(),
    {
        let p = Processor {
            accounts: Vec::new(),
            slots: HashMap::new(),
            applied: HashMap::new(),
            disputed: HashMap::new(),
        };
        assert(p.ledger().accounts =~= Map::empty());
        assert(p.ledger().order =~= Seq::empty());
        p
    }

    /// The position of the account of `client`, opening it if needed.
    fn slot_for(&mut self, client: u16) -> (s: usize)
        requires
            old(self).inv(),
        ensures
            final(self).inv(),
            final(self).ledger() == old(self).ledger().with_account(client),
            s < final(self).accounts@.len(),
            final(self).slots@.contains_key(client),
            final(self).slots@[client] == s,
            final(self).applied == old(self).applied,
            final(self).disputed == old(self).disputed,
    {
        match self.slots.get(&client) {
            Some(s) => *s,
            None => {
                let s = self.accounts.len();
                self.accounts.push(Account::empty(client));
                self.slots.insert(client, s);
                proof {
                    let l = old(self).ledger().with_account(client);
                    assert(self.ledger().accounts =~= l.accounts);
                    assert(self.ledger().order =~= l.order);
                }
                s
            },
        }
    }

    /// Writes back the account at position `s`.
    fn store(&mut self, s: usize, a: Account)
        requires
            old(self).inv(),
            s < old(self).accounts@.len(),
            a.client == old(self).accounts@[s as int].client,
        ensures
            final(self).inv(),
            final(self).ledger() == old(self).ledger().put(a.client, a),
            final(self).slots == old(self).slots,
            final(self).applied == old(self).applied,
            final(self).disputed == old(self).disputed,
    {
        self.accounts.set(s, a);
        proof {
            let l = old(self).ledger().put(a.client, a);
            assert(self.ledger().accounts =~= l.accounts);
            assert(self.ledger().order =~= l.order);
        }
    }

    /// Applies one record; returns why it was skipped, if it was.
    fn apply(&mut self, t: &Transaction) -> (r: Option<Reason>)
        requires
            old(self).inv(),
            forall|c: u16| #[trigger]
                old(self).ledger().accounts.contains_key(c) ==> old(self).ledger().accounts[c].balanced()
                    && old(self).ledger().accounts[c].total + t.amount <= u128::MAX,
        ensures
            final(self).inv(),
            final(self).ledger() == old(self).ledger().step(*t).0,
            r == old(self).ledger().step(*t).1,
    {
        let s = self.slot_for(t.client);
        let ghost l = self.ledger();
        let mut a = self.accounts[s];
        assert(a == l.accounts[t.client]);
        match classify(&t.transaction_type) {
            TransactionKind::Deposit => {
                let _ = a.deposit(t.amount);
                self.store(s, a);
                self.applied.insert(t.tx, t.amount);
                None
            },
            TransactionKind::Withdrawal => match a.withdraw(t.amount) {
                Ok(()) => {
                    self.store(s, a);
                    self.applied.insert(t.tx, t.amount);
                    None
                },
                Err(e) => Some(Reason::WithdrawalRefused(e)),
            },
            TransactionKind::Dispute => {
                let amount = match self.applied.get(&t.tx) {
                    Some(amount) => *amount,
                    None => {
                        return Some(Reason::UnknownToDispute);
                    },
                };
                if self.disputed.contains_key(&t.tx) {
                    return Some(Reason::DisputedTwice);
                }
                match a.dispute(amount) {
                    Ok(()) => {
                        self.store(s, a);
                        self.disputed.insert(t.tx, amount);
                        None
                    },
                    Err(e) => Some(Reason::DisputeRefused(e)),
                }
            },
            TransactionKind::Resolve => {
                let amount = match self.disputed.get(&t.tx) {
                    Some(amount) => *amount,
                    None => {
                        return Some(Reason::UnknownToResolve);
                    },
                };
                match a.resolve(amount) {
                    Ok(()) => {
                        self.store(s, a);
                        self.disputed.remove(&t.tx);
                        None
                    },
                    Err(e) => Some(Reason::ResolveRefused(e)),
                }
            },
            TransactionKind::Chargeback => {
                let amount = match self.disputed.get(&t.tx) {
                    Some(amount) => *amount,
                    None => {
                        return Some(Reason::UnknownToChargeBack);
                    },
                };
                match a.chargeback(amount) {
                    Ok(()) => {
                        self.store(s, a);
                        self.disputed.remove(&t.tx);
                        None
                    },
                    Err(e) => Some(Reason::ChargebackRefused(e)),
                }
            },
            TransactionKind::Unrecognized => Some(Reason::UnhandledType(t.transaction_type.clone())),
        }
    }
}

/// Applies the records in order and returns the accounts, one per client id
/// in order of first appearance, and one diagnostic per skipped record.
pub fn process_transactions(transactions: Vec<Transaction>) -> (r: (Vec<Account>, Vec<Diagnostic>))
    ensures
        r.0@.len() == replay(transactions@).0.order.len(),
        forall|i: int|
            0 <= i < r.0@.len() ==> #[trigger] r.0@[i] == replay(transactions@).0.accounts[replay(
                transactions@,
            ).0.order[i]],
        forall|i: int| 0 <= i < r.0@.len() ==> (#[trigger] r.0@[i]).balanced(),
        r.1@ == replay(transactions@).1,
{
    let mut p = Processor::new();
    let mut diagnostics: Vec<Diagnostic> = Vec::new();
    let n = transactions.len();
    let mut i: usize = 0;
    proof {
        assert(transactions@.take(0) =~= Seq::<Transaction>::empty());
    }
    while i < n
        invariant
            n == transactions@.len(),
            i <= n,
            p.inv(),
            p.ledger() == replay(transactions@.take(i as int)).0,
            diagnostics@ == replay(transactions@.take(i as int)).1,
            p.ledger().bounded(i as int),
        decreases n - i,
    {
        let t = &transactions[i];
        proof {
            let prefix = transactions@.take(i + 1);
            assert(prefix.drop_last() =~= transactions@.take(i as int));
            assert(prefix.last() == transactions@[i as int]);
            lemma_step_bounded(p.ledger(), *t, i as int);
            assert forall|c: u16| #[trigger]
                p.ledger().accounts.contains_key(c) implies p.ledger().accounts[c].balanced()
                    && p.ledger().accounts[c].total + t.amount <= u128::MAX by {
                lemma_product_fits(i as int);
            }
        }
        match p.apply(t) {
            Some(reason) => diagnostics.push(Diagnostic { tx: t.tx, reason }),
            None => {},
        }
        i = i + 1;
    }
    proof {
        assert(transactions@.take(n as int) =~= transactions@);
        lemma_replay_balanced(transactions@);
        assert forall|i: int| 0 <= i < p.accounts@.len() implies (#[trigger] p.accounts@[i]).balanced() by {
            let c = p.accounts@[i].client;
            assert(p.ledger().accounts.contains_key(c));
        }
    }
    (p.accounts, diagnostics)
}

} // verus!
