use vstd::prelude::*;

verus! {

/// One input record. `amount` is counted in ten-thousandths of a currency
/// unit and only matters for deposits and withdrawals.
#[derive(Debug, Clone)]
pub struct Transaction {
    pub transaction_type: String,
    pub client: u16,
    pub tx: u32,
    pub amount: u64,
}

impl Transaction {
    pub fn new(transaction_type: String, client: u16, tx: u32, amount: u64) -> (r: Transaction)
        ensures
            r.transaction_type@ == transaction_type@,
            r.client == client,
            r.tx == tx,
            r.amount == amount,
    {
        Transaction { transaction_type, client, tx, amount }
    }
}

/// The closed set of record types, with a fallback for any other text.
#[derive(Debug, Clone, Copy, PartialEq, Eq, Structural)]
pub enum TransactionKind {
    Deposit,
    Withdrawal,
    Dispute,
    Resolve,
    Chargeback,
    Unrecognized,
}

/// The kind that a type string names.
pub open spec fn kind_of(s: Seq<char>) -> TransactionKind {
    if s == "deposit"@ {
        TransactionKind::Deposit
    } else if s == "withdrawal"@ {
        TransactionKind::Withdrawal
    } else if s == "dispute"@ {
        TransactionKind::Dispute
    } else if s == "resolve"@ {
        TransactionKind::Resolve
    } else if s == "chargeback"@ {
        TransactionKind::Chargeback
    } else {
        TransactionKind::Unrecognized
    }
}

/// Reads the kind of a type string.
pub fn classify(s: &String) -> (k: TransactionKind)
    ensures
        k == kind_of(s@),
{
    if *s == "deposit".to_owned() {
        TransactionKind::Deposit
    } else if *s == "withdrawal".to_owned() {
        TransactionKind::Withdrawal
    } else if *s == "dispute".to_owned() {
        TransactionKind::Dispute
    } else if *s == "resolve".to_owned() {
        TransactionKind::Resolve
    } else if *s == "chargeback".to_owned() {
        TransactionKind::Chargeback
    } else {
        TransactionKind::Unrecognized
    }
}

} // verus!
