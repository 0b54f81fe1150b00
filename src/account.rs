use vstd::prelude::*;

verus! {

/// Why a balance transition was refused.
#[derive(Debug, Clone, Copy, PartialEq, Eq, Structural)]
pub enum BalanceError {
    /// The amount exceeds the available funds.
    InsufficientFunds,
    /// The amount exceeds the held funds.
    InsufficientHeld,
}

/// Balance state of one client. Amounts are counted in ten-thousandths of a
/// currency unit, so every value the engine handles is exact.
#[derive(Debug, Clone, Copy, PartialEq, Eq, Structural)]
pub struct Account {
    pub client: u16,
    pub available: u128,
    pub held: u128,
    pub total: u128,
    pub locked: bool,
}

impl Account {
    /// The balance invariant: the total is the available plus the held funds.
    pub open spec fn balanced(self) -> bool {
        self.total == self.available + self.held
    }

    pub open spec fn opened(client: u16) -> Account {
        Account { client, available: 0, held: 0, total: 0, locked: false }
    }

    pub open spec fn after_deposit(self, amount: u64) -> Account {
        Account {
            available: (self.available + amount) as u128,
            total: (self.total + amount) as u128,
            ..self
        }
    }

    pub open spec fn after_withdraw(self, amount: u64) -> Account {
        Account {
            available: (self.available - amount) as u128,
            total: (self.total - amount) as u128,
            ..self
        }
    }

    pub open spec fn after_dispute(self, amount: u64) -> Account {
        Account {
            available: (self.available - amount) as u128,
            held: (self.held + amount) as u128,
            ..self
        }
    }

    pub open spec fn after_resolve(self, amount: u64) -> Account {
        Account {
            available: (self.available + amount) as u128,
            held: (self.held - amount) as u128,
            ..self
        }
    }

    pub open spec fn after_chargeback(self, amount: u64) -> Account {
        Account {
            held: (self.held - amount) as u128,
            total: (self.total - amount) as u128,
            locked: true,
            ..self
        }
    }

    /// An account with the given balances; the total is derived from them.
    pub fn new(client: u16, available: u128, held: u128, locked: bool) -> (r: Account)
        requires
            available + held <= u128::MAX,
        ensures
            r == (Account { client, available, held, total: (available + held) as u128, locked }),
            r.balanced(),
    {
        Account { client, available, held, total: available + held, locked }
    }

    /// The account a client starts with: all zero, unlocked.
    pub fn empty(client: u16) -> (r: Account)
        ensures
            r == Account::opened(client),
            r.balanced(),
    {
        Account::new(client, 0, 0, false)
    }

    /// Adds `amount` to the available funds and the total. Always succeeds.
    pub fn deposit(&mut self, amount: u64) -> (r: Result<(), BalanceError>)
        requires
            old(self).balanced(),
            old(self).total + amount <= u128::MAX,
        ensures
            r is Ok,
            *final(self) == old(self).after_deposit(amount),
            final(self).balanced(),
    {
        self.available = self.available + amount as u128;
        self.total = self.total + amount as u128;
        Ok(())
    }

    /// Takes `amount` out of the available funds and the total, unless it
    /// exceeds the available funds.
    pub fn withdraw(&mut self, amount: u64) -> (r: Result<(), BalanceError>)
        requires
            old(self).balanced(),
        ensures
            final(self).balanced(),
            amount > old(self).available ==> r == Err::<(), BalanceError>(
                BalanceError::InsufficientFunds,
            ) && *final(self) == *old(self),
            amount <= old(self).available ==> r is Ok && *final(self) == old(self).after_withdraw(
                amount,
            ),
    {
        if amount as u128 > self.available {
            return Err(BalanceError::InsufficientFunds);
        }
        self.available = self.available - amount as u128;
        self.total = self.total - amount as u128;
        Ok(())
    }

    /// Moves `amount` from the available funds to the held funds, unless it
    /// exceeds the available funds.
    pub fn dispute(&mut self, amount: u64) -> (r: Result<(), BalanceError>)
        requires
            old(self).balanced(),
        ensures
            final(self).balanced(),
            amount > old(self).available ==> r == Err::<(), BalanceError>(
                BalanceError::InsufficientFunds,
            ) && *final(self) == *old(self),
            amount <= old(self).available ==> r is Ok && *final(self) == old(self).after_dispute(
                amount,
            ),
    {
        if amount as u128 > self.available {
            return Err(BalanceError::InsufficientFunds);
        }
        self.available = self.available - amount as u128;
        self.held = self.held + amount as u128;
        Ok(())
    }

    /// Moves `amount` from the held funds back to the available funds, unless
    /// it exceeds the held funds.
    pub fn resolve(&mut self, amount: u64) -> (r: Result<(), BalanceError>)
        requires
            old(self).balanced(),
        ensures
            final(self).balanced(),
            amount > old(self).held ==> r == Err::<(), BalanceError>(BalanceError::InsufficientHeld)
                && *final(self) == *old(self),
            amount <= old(self).held ==> r is Ok && *final(self) == old(self).after_resolve(amount),
    {
        if amount as u128 > self.held {
            return Err(BalanceError::InsufficientHeld);
        }
        self.available = self.available + amount as u128;
        self.held = self.held - amount as u128;
        Ok(())
    }

    /// Removes `amount` from the held funds and the total and locks the
    /// account, unless it exceeds the held funds.
    pub fn chargeback(&mut self, amount: u64) -> (r: Result<(), BalanceError>)
        requires
            old(self).balanced(),
        ensures
            final(self).balanced(),
            amount > old(self).held ==> r == Err::<(), BalanceError>(BalanceError::InsufficientHeld)
                && *final(self) == *old(self),
            amount <= old(self).held ==> r is Ok && *final(self) == old(self).after_chargeback(
                amount,
            ),
    {
        if amount as u128 > self.held {
            return Err(BalanceError::InsufficientHeld);
        }
        self.held = self.held - amount as u128;
        self.total = self.total - amount as u128;
        self.locked = true;
        Ok(())
    }
}

/// Disputing an amount and then resolving the same amount gives back the
/// account exactly as it was.
pub proof fn lemma_dispute_then_resolve(a: Account, amount: u64)
    requires
        a.balanced(),
        amount <= a.available,
    ensures
        a.after_dispute(amount).after_resolve(amount) == a,
{
}

} // verus!
