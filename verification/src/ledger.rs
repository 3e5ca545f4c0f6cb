//! The ledger state and its operations.
//!
//! Accounts are kept in a vector with pairwise-distinct owners; each
//! account carries its balance and a vector of allowances with
//! pairwise-distinct spenders. The specification-level model reads both
//! vectors through recursive lookup functions, so an identity without an
//! entry is defined to have balance 0 and allowance 0.

use vstd::prelude::*;

verus! {

/// An opaque caller identity. The transport layer assigns each principal
/// a distinct number; the ledger only ever compares identities.
#[derive(Clone, Copy, PartialEq, Eq, Structural, Debug)]
pub struct AccountId {
    pub id: u64,
}

/// One allowance entry: `spender` may move up to `amount` of the owning
/// account's tokens.
#[derive(Clone, Copy, PartialEq, Eq, Structural, Debug)]
pub struct Allowance {
    pub spender: AccountId,
    pub amount: u128,
}

/// One holder's entry in the ledger: its balance and the allowances it
/// has granted.
pub struct Account {
    pub owner: AccountId,
    pub balance: u128,
    pub allowances: Vec<Allowance>,
}

/// The closed set of failures a ledger operation can report. Every error
/// is detected before any mutation, so a failed call leaves the ledger
/// exactly as it was.
#[derive(Clone, Copy, PartialEq, Eq, Structural, Debug)]
pub enum LedgerError {
    /// A mint would push `total_supply` above `max_supply`.
    SupplyExceeded,
    /// The referenced owner or sender has no ledger entry.
    AccountNotFound,
    /// The balance is too low for the requested debit.
    InsufficientBalance,
    /// The allowance is too low for a delegated transfer.
    InsufficientAllowance,
    /// A delegated transfer was attempted with no allowance entry at all.
    NotAuthorized,
}

/// The whole ledger: the supply counters and the account vector.
pub struct Ledger {
    pub total_supply: u128,
    pub max_supply: u128,
    pub accounts: Vec<Account>,
}

/// The allowance entry for `spender`, if one exists (entries are searched
/// from the back; with distinct spenders the choice does not matter).
pub open spec fn find_allowance_spec(s: Seq<Allowance>, spender: AccountId) -> Option<Allowance>
    decreases s.len(),
{
    if s.len() == 0 {
        None
    } else if s.last().spender == spender {
        Some(s.last())
    } else {
        find_allowance_spec(s.drop_last(), spender)
    }
}

/// The account owned by `id`, if one exists.
pub open spec fn find_account_spec(s: Seq<Account>, id: AccountId) -> Option<Account>
    decreases s.len(),
{
    if s.len() == 0 {
        None
    } else if s.last().owner == id {
        Some(s.last())
    } else {
        find_account_spec(s.drop_last(), id)
    }
}

/// No two allowance entries name the same spender.
pub open spec fn unique_spenders(s: Seq<Allowance>) -> bool {
    forall|i: int, j: int|
        #![trigger s[i].spender, s[j].spender]
        0 <= i < j < s.len() ==> s[i].spender != s[j].spender
}

/// No two accounts name the same owner.
pub open spec fn unique_owners(s: Seq<Account>) -> bool {
    forall|i: int, j: int|
        #![trigger s[i].owner, s[j].owner]
        0 <= i < j < s.len() ==> s[i].owner != s[j].owner
}

/// Owners are pairwise distinct and so are the spenders within each
/// account's allowance list.
pub open spec fn accounts_wf(s: Seq<Account>) -> bool {
    &&& unique_owners(s)
    &&& forall|i: int| 0 <= i < s.len() ==> unique_spenders(#[trigger] s[i].allowances@)
}

/// The sum of all account balances.
pub open spec fn sum_balances(s: Seq<Account>) -> int
    decreases s.len(),
{
    if s.len() == 0 {
        0
    } else {
        sum_balances(s.drop_last()) + s.last().balance
    }
}

impl Ledger {
    /// Well-formedness: the account vector is well formed, the recorded
    /// `total_supply` equals the sum of all balances, and the supply cap
    /// holds. Every operation preserves this invariant.
    pub open spec fn wf(self) -> bool {
        &&& accounts_wf(self.accounts@)
        &&& self.total_supply as int == sum_balances(self.accounts@)
        &&& self.total_supply <= self.max_supply
    }

    /// Whether `id` has a ledger entry.
    pub open spec fn has_account(self, id: AccountId) -> bool {
        find_account_spec(self.accounts@, id) is Some
    }

    /// The balance of `id`; an identity without an entry has balance 0.
    pub open spec fn spec_balance_of(self, id: AccountId) -> nat {
        match find_account_spec(self.accounts@, id) {
            Some(a) => a.balance as nat,
            None => 0,
        }
    }

    /// Whether `owner` has an allowance entry for `spender` (an entry with
    /// amount 0 still counts as present).
    pub open spec fn has_allowance_entry(self, owner: AccountId, spender: AccountId) -> bool {
        match find_account_spec(self.accounts@, owner) {
            Some(a) => find_allowance_spec(a.allowances@, spender) is Some,
            None => false,
        }
    }

    /// The allowance `owner` has granted `spender`; 0 if `owner` has no
    /// entry or no allowance for `spender`.
    pub open spec fn spec_allowance(self, owner: AccountId, spender: AccountId) -> nat {
        match find_account_spec(self.accounts@, owner) {
            Some(a) => match find_allowance_spec(a.allowances@, spender) {
                Some(al) => al.amount as nat,
                None => 0,
            },
            None => 0,
        }
    }

    /// One-time setup: fixes the supply cap and starts with no tokens and
    /// no accounts.
    pub fn init(max_supply: u128) -> (l: Ledger)
        ensures
            l.wf(),
            l.total_supply == 0,
            l.max_supply == max_supply,
            forall|id: AccountId| !l.has_account(id),
            forall|id: AccountId| l.spec_balance_of(id) == 0,
            forall|o: AccountId, s: AccountId| l.spec_allowance(o, s) == 0,
            forall|o: AccountId, s: AccountId| !l.has_allowance_entry(o, s),
    {
        Ledger { total_supply: 0, max_supply, accounts: Vec::new() }
    }

    /// The maximum number of tokens that can ever exist.
    pub fn max_supply(&self) -> (r: u128)
        ensures
            r == self.max_supply,
    {
        self.max_supply
    }

    /// How many tokens exist in total.
    pub fn total_supply(&self) -> (r: u128)
        ensures
            r == self.total_supply,
    {
        self.total_supply
    }

    /// The index of `id`'s account, if it has one.
    fn find_account_index(&self, id: AccountId) -> (r: Option<usize>)
        ensures
            match r {
                Some(i) => i < self.accounts@.len() && self.accounts@[i as int].owner == id,
                None => forall|k: int| 0 <= k < self.accounts@.len() ==> self.accounts@[k].owner != id,
            },
    {
        let mut i: usize = 0;
        while i < self.accounts.len()
            invariant
                i <= self.accounts@.len(),
                forall|k: int| 0 <= k < i ==> self.accounts@[k].owner != id,
            decreases self.accounts@.len() - i,
        {
            if self.accounts[i].owner == id {
                return Some(i);
            }
            i = i + 1;
        }
        None
    }

    /// How many tokens are in `account`'s entry.
    pub fn balance_of(&self, account: AccountId) -> (r: u128)
        requires
            self.wf(),
        ensures
            r == self.spec_balance_of(account),
    {
        match self.find_account_index(account) {
            Some(i) => {
                proof {
                    lemma_find_account_present(self.accounts@, i as int);
                }
                self.accounts[i].balance
            }
            None => {
                proof {
                    lemma_find_account_absent(self.accounts@, account);
                }
                0
            }
        }
    }

    /// How many tokens `owner` lets `spender` move on its behalf.
    pub fn allowance(&self, owner: AccountId, spender: AccountId) -> (r: u128)
        requires
            self.wf(),
        ensures
            r == self.spec_allowance(owner, spender),
    {
        match self.find_account_index(owner) {
            Some(i) => {
                proof {
                    lemma_find_account_present(self.accounts@, i as int);
                }
                match find_allowance_index(&self.accounts[i].allowances, spender) {
                    Some(j) => {
                        proof {
                            lemma_find_allowance_present(
                                self.accounts@[i as int].allowances@,
                                j as int,
                            );
                        }
                        self.accounts[i].allowances[j].amount
                    }
                    None => {
                        proof {
                            lemma_find_allowance_absent(
                                self.accounts@[i as int].allowances@,
                                spender,
                            );
                        }
                        0
                    }
                }
            }
            None => {
                proof {
                    lemma_find_account_absent(self.accounts@, owner);
                }
                0
            }
        }
    }

    /// Creates `amount` new tokens on `to`'s account, creating the account
    /// (with no allowances) if absent. Fails with `SupplyExceeded`, and
    /// changes nothing, when the new total would pass the cap; a zero
    /// amount is a successful no-op.
    pub fn mint(&mut self, to: AccountId, amount: u128) -> (r: Result<(), LedgerError>)
        requires
            old(self).wf(),
        ensures
            final(self).wf(),
            r is Ok <==> old(self).total_supply + amount <= old(self).max_supply,
            r is Ok ==> mint_ok(*old(self), *final(self), to, amount),
            r is Err ==> *final(self) == *old(self) && r == Err::<(), LedgerError>(
                LedgerError::SupplyExceeded,
            ),
    {
        if amount > self.max_supply - self.total_supply {
            return Err(LedgerError::SupplyExceeded);
        }
        let ghost pre = *self;
        match self.find_account_index(to) {
            Some(i) => {
                proof {
                    lemma_find_account_present(pre.accounts@, i as int);
                    lemma_sum_bound(pre.accounts@, i as int);
                }
                let mut a = self.accounts.remove(i);
                a.balance = a.balance + amount;
                let ghost a1 = a;
                self.accounts.push(a);
                self.total_supply = self.total_supply + amount;
                proof {
                    lemma_accounts_replace(pre.accounts@, i as int, a1);
                    assert forall|o: AccountId, s: AccountId|
                        self.spec_allowance(o, s) == pre.spec_allowance(o, s) by {
                        if o == to {
                            assert(find_account_spec(self.accounts@, o) == Some(a1));
                            assert(find_account_spec(pre.accounts@, o) == Some(
                                pre.accounts@[i as int],
                            ));
                        }
                    }
                    assert forall|o: AccountId, s: AccountId|
                        self.has_allowance_entry(o, s) == pre.has_allowance_entry(o, s) by {
                        if o == to {
                            assert(find_account_spec(self.accounts@, o) == Some(a1));
                            assert(find_account_spec(pre.accounts@, o) == Some(
                                pre.accounts@[i as int],
                            ));
                        }
                    }
                }
                Ok(())
            }
            None => {
                let a = Account { owner: to, balance: amount, allowances: Vec::new() };
                let ghost a1 = a;
                self.accounts.push(a);
                self.total_supply = self.total_supply + amount;
                proof {
                    lemma_find_account_absent(pre.accounts@, to);
                    lemma_accounts_append(pre.accounts@, a1);
                }
                Ok(())
            }
        }
    }

    /// Sets (replaces, never adds to) `owner`'s allowance for `spender`
    /// to exactly `amount`; 0 revokes. Fails with `AccountNotFound`, and
    /// changes nothing, when `owner` has no account.
    pub fn approve(&mut self, owner: AccountId, spender: AccountId, amount: u128) -> (r: Result<
        (),
        LedgerError,
    >)
        requires
            old(self).wf(),
        ensures
            final(self).wf(),
            r is Ok <==> old(self).has_account(owner),
            r is Ok ==> approve_ok(*old(self), *final(self), owner, spender, amount),
            r is Err ==> *final(self) == *old(self) && r == Err::<(), LedgerError>(
                LedgerError::AccountNotFound,
            ),
    {
        let ghost pre = *self;
        match self.find_account_index(owner) {
            None => {
                proof {
                    lemma_find_account_absent(pre.accounts@, owner);
                }
                Err(LedgerError::AccountNotFound)
            }
            Some(i) => {
                proof {
                    lemma_find_account_present(pre.accounts@, i as int);
                    assert(unique_spenders(pre.accounts@[i as int].allowances@));
                }
                let mut a = self.accounts.remove(i);
                let ghost a0 = a;
                match find_allowance_index(&a.allowances, spender) {
                    Some(j) => {
                        let _ = a.allowances.remove(j);
                        a.allowances.push(Allowance { spender, amount });
                        proof {
                            lemma_allowances_replace(
                                a0.allowances@,
                                j as int,
                                (Allowance { spender, amount }),
                            );
                        }
                    }
                    None => {
                        a.allowances.push(Allowance { spender, amount });
                        proof {
                            lemma_find_allowance_absent(a0.allowances@, spender);
                            lemma_allowances_append(
                                a0.allowances@,
                                (Allowance { spender, amount }),
                            );
                        }
                    }
                }
                let ghost a1 = a;
                self.accounts.push(a);
                proof {
                    lemma_accounts_replace(pre.accounts@, i as int, a1);
                    assert forall|o: AccountId, s: AccountId|
                        !(o == owner && s == spender) implies self.spec_allowance(o, s)
                        == pre.spec_allowance(o, s) by {
                        if o == owner {
                            assert(find_account_spec(self.accounts@, o) == Some(a1));
                            assert(find_account_spec(pre.accounts@, o) == Some(
                                pre.accounts@[i as int],
                            ));
                        }
                    }
                    assert forall|o: AccountId, s: AccountId|
                        !(o == owner && s == spender) implies self.has_allowance_entry(o, s)
                        == pre.has_allowance_entry(o, s) by {
                        if o == owner {
                            assert(find_account_spec(self.accounts@, o) == Some(a1));
                            assert(find_account_spec(pre.accounts@, o) == Some(
                                pre.accounts@[i as int],
                            ));
                        }
                    }
                    assert forall|id: AccountId|
                        self.spec_balance_of(id) == pre.spec_balance_of(id) by {
                        if id == owner {
                            assert(find_account_spec(self.accounts@, id) == Some(a1));
                            assert(find_account_spec(pre.accounts@, id) == Some(
                                pre.accounts@[i as int],
                            ));
                        }
                    }
                }
                Ok(())
            }
        }
    }

    /// Removes `amount` tokens from `from`'s account and from
    /// `total_supply`, both or neither. Fails with `AccountNotFound` when
    /// `from` has no account, with `InsufficientBalance` when its balance
    /// is below `amount`; a failed call changes nothing. The account is
    /// kept even when its balance reaches 0.
    pub fn burn(&mut self, from: AccountId, amount: u128) -> (r: Result<(), LedgerError>)
        requires
            old(self).wf(),
        ensures
            final(self).wf(),
            r is Ok <==> old(self).has_account(from) && old(self).spec_balance_of(from) >= amount,
            r is Ok ==> burn_ok(*old(self), *final(self), from, amount),
            r is Err ==> *final(self) == *old(self),
            r == Err::<(), LedgerError>(LedgerError::AccountNotFound) <==> !old(self).has_account(
                from,
            ),
            r == Err::<(), LedgerError>(LedgerError::InsufficientBalance) <==> old(
                self,
            ).has_account(from) && old(self).spec_balance_of(from) < amount,
    {
        let ghost pre = *self;
        match self.find_account_index(from) {
            None => {
                proof {
                    lemma_find_account_absent(pre.accounts@, from);
                }
                Err(LedgerError::AccountNotFound)
            }
            Some(i) => {
                proof {
                    lemma_find_account_present(pre.accounts@, i as int);
                    lemma_sum_bound(pre.accounts@, i as int);
                }
                if self.accounts[i].balance < amount {
                    return Err(LedgerError::InsufficientBalance);
                }
                let mut a = self.accounts.remove(i);
                a.balance = a.balance - amount;
                let ghost a1 = a;
                self.accounts.push(a);
                self.total_supply = self.total_supply - amount;
                proof {
                    lemma_accounts_replace(pre.accounts@, i as int, a1);
                    assert forall|o: AccountId, s: AccountId|
                        self.spec_allowance(o, s) == pre.spec_allowance(o, s) by {
                        if o == from {
                            assert(find_account_spec(self.accounts@, o) == Some(a1));
                            assert(find_account_spec(pre.accounts@, o) == Some(
                                pre.accounts@[i as int],
                            ));
                        }
                    }
                    assert forall|o: AccountId, s: AccountId|
                        self.has_allowance_entry(o, s) == pre.has_allowance_entry(o, s) by {
                        if o == from {
                            assert(find_account_spec(self.accounts@, o) == Some(a1));
                            assert(find_account_spec(pre.accounts@, o) == Some(
                                pre.accounts@[i as int],
                            ));
                        }
                    }
                }
                Ok(())
            }
        }
    }

    /// Moves `amount` tokens from `from` to `to`, creating `to`'s account
    /// (with no allowances) if absent. When `caller != from` the transfer
    /// must be backed by an allowance `from` granted `caller`, which is
    /// decremented by `amount`; `caller == from` needs no allowance. The
    /// allowance check comes before the balance check, and `total_supply`
    /// never changes; a failed call changes nothing. A self-transfer
    /// (`from == to`) still needs the full checks but leaves the balance
    /// unchanged.
    pub fn transfer(
        &mut self,
        caller: AccountId,
        from: AccountId,
        to: AccountId,
        amount: u128,
    ) -> (r: Result<(), LedgerError>)
        requires
            old(self).wf(),
        ensures
            final(self).wf(),
            r is Ok <==> (old(self).has_account(from) && (caller == from || (old(
                self,
            ).has_allowance_entry(from, caller) && old(self).spec_allowance(from, caller)
                >= amount)) && old(self).spec_balance_of(from) >= amount),
            r is Ok ==> transfer_ok(*old(self), *final(self), caller, from, to, amount),
            r is Err ==> *final(self) == *old(self),
            r == Err::<(), LedgerError>(LedgerError::AccountNotFound) <==> !old(self).has_account(
                from,
            ),
            r == Err::<(), LedgerError>(LedgerError::NotAuthorized) <==> (old(self).has_account(
                from,
            ) && caller != from && !old(self).has_allowance_entry(from, caller)),
            r == Err::<(), LedgerError>(LedgerError::InsufficientAllowance) <==> (old(
                self,
            ).has_account(from) && caller != from && old(self).has_allowance_entry(from, caller)
                && old(self).spec_allowance(from, caller) < amount),
            r == Err::<(), LedgerError>(LedgerError::InsufficientBalance) <==> (old(
                self,
            ).has_account(from) && (caller == from || (old(self).has_allowance_entry(from, caller)
                && old(self).spec_allowance(from, caller) >= amount)) && old(
                self,
            ).spec_balance_of(from) < amount),
    {
        let ghost pre = *self;
        let from_i = match self.find_account_index(from) {
            None => {
                proof {
                    lemma_find_account_absent(pre.accounts@, from);
                }
                return Err(LedgerError::AccountNotFound);
            },
            Some(i) => i,
        };
        proof {
            lemma_find_account_present(pre.accounts@, from_i as int);
            lemma_sum_bound(pre.accounts@, from_i as int);
            assert(unique_spenders(pre.accounts@[from_i as int].allowances@));
        }
        let mut allow_j: Option<usize> = None;
        if caller != from {
            match find_allowance_index(&self.accounts[from_i].allowances, caller) {
                None => {
                    proof {
                        lemma_find_allowance_absent(
                            pre.accounts@[from_i as int].allowances@,
                            caller,
                        );
                    }
                    return Err(LedgerError::NotAuthorized);
                }
                Some(j) => {
                    proof {
                        lemma_find_allowance_present(
                            pre.accounts@[from_i as int].allowances@,
                            j as int,
                        );
                    }
                    if self.accounts[from_i].allowances[j].amount < amount {
                        return Err(LedgerError::InsufficientAllowance);
                    }
                    allow_j = Some(j);
                }
            }
        }
        if self.accounts[from_i].balance < amount {
            return Err(LedgerError::InsufficientBalance);
        }
        let mut a = self.accounts.remove(from_i);
        let ghost a0 = a;
        match allow_j {
            Some(j) => {
                let cur = a.allowances[j].amount;
                let _ = a.allowances.remove(j);
                a.allowances.push(Allowance { spender: caller, amount: cur - amount });
                proof {
                    lemma_allowances_replace(
                        a0.allowances@,
                        j as int,
                        (Allowance { spender: caller, amount: (cur - amount) as u128 }),
                    );
                    assert forall|s: AccountId|
                        s != caller implies find_allowance_spec(a.allowances@, s)
                        == find_allowance_spec(a0.allowances@, s) by {
                        assert(find_allowance_spec(
                            a0.allowances@.remove(j as int).push(
                                Allowance { spender: caller, amount: (cur - amount) as u128 },
                            ),
                            s,
                        ) == find_allowance_spec(a0.allowances@, s));
                    }
                    assert(find_allowance_spec(a.allowances@, caller) == Some(
                        Allowance { spender: caller, amount: (cur - amount) as u128 },
                    ));
                    assert(unique_spenders(a.allowances@));
                    assert(cur == pre.spec_allowance(from, caller));
                }
            }
            None => {}
        }
        a.balance = a.balance - amount;
        let ghost a1 = a;
        self.accounts.push(a);
        proof {
            lemma_accounts_replace(pre.accounts@, from_i as int, a1);
            assert(a1.owner == from);
            assert(a1.balance == pre.accounts@[from_i as int].balance - amount);
            assert forall|id: AccountId|
                id != from implies find_account_spec(self.accounts@, id) == find_account_spec(
                pre.accounts@,
                id,
            ) by {
                assert(find_account_spec(
                    pre.accounts@.remove(from_i as int).push(a1),
                    id,
                ) == find_account_spec(pre.accounts@, id));
            }
            assert(find_account_spec(self.accounts@, from) == Some(a1));
        }
        let ghost mid = *self;
        proof {
            assert forall|id: AccountId|
                id != from implies mid.spec_balance_of(id) == pre.spec_balance_of(id) by {}
            assert(mid.spec_balance_of(from) == pre.spec_balance_of(from) - amount);
            assert forall|id: AccountId| mid.has_account(id) == pre.has_account(id) by {}
            assert forall|o: AccountId, s: AccountId|
                !(o == from && s == caller && caller != from) implies mid.spec_allowance(o, s)
                == pre.spec_allowance(o, s) by {
                if o == from {
                    assert(find_account_spec(mid.accounts@, o) == Some(a1));
                    assert(find_account_spec(pre.accounts@, o) == Some(
                        pre.accounts@[from_i as int],
                    ));
                }
            }
            assert forall|o: AccountId, s: AccountId|
                mid.has_allowance_entry(o, s) == pre.has_allowance_entry(o, s) by {
                if o == from {
                    assert(find_account_spec(mid.accounts@, o) == Some(a1));
                    assert(find_account_spec(pre.accounts@, o) == Some(
                        pre.accounts@[from_i as int],
                    ));
                    if caller != from && s == caller {
                        assert(find_allowance_spec(
                            pre.accounts@[from_i as int].allowances@,
                            s,
                        ) is Some);
                        assert(find_allowance_spec(a1.allowances@, s) is Some);
                    }
                }
            }
            if caller != from {
                assert(mid.spec_allowance(from, caller) == pre.spec_allowance(from, caller)
                    - amount);
            }
            assert(sum_balances(mid.accounts@) == sum_balances(pre.accounts@) - amount);
            assert(accounts_wf(mid.accounts@));
        }
        match self.find_account_index(to) {
            Some(ti) => {
                proof {
                    lemma_find_account_present(mid.accounts@, ti as int);
                    lemma_sum_bound(mid.accounts@, ti as int);
                    lemma_sum_nonneg(mid.accounts@);
                }
                let mut t = self.accounts.remove(ti);
                t.balance = t.balance + amount;
                let ghost t1 = t;
                self.accounts.push(t);
                proof {
                    lemma_accounts_replace(mid.accounts@, ti as int, t1);
                    assert forall|id: AccountId|
                        id != to implies find_account_spec(self.accounts@, id)
                        == find_account_spec(mid.accounts@, id) by {
                        assert(find_account_spec(
                            mid.accounts@.remove(ti as int).push(t1),
                            id,
                        ) == find_account_spec(mid.accounts@, id));
                    }
                    assert(find_account_spec(self.accounts@, to) == Some(t1));
                    assert(find_account_spec(mid.accounts@, to) == Some(
                        mid.accounts@[ti as int],
                    ));
                    assert(t1.allowances == mid.accounts@[ti as int].allowances);
                    assert(t1.balance == mid.accounts@[ti as int].balance + amount);
                    assert forall|id: AccountId|
                        id != to implies self.spec_balance_of(id) == mid.spec_balance_of(id) by {}
                    assert(self.spec_balance_of(to) == mid.spec_balance_of(to) + amount);
                    assert forall|id: AccountId|
                        self.has_account(id) == (mid.has_account(id) || id == to) by {}
                    assert forall|o: AccountId, s: AccountId|
                        self.spec_allowance(o, s) == mid.spec_allowance(o, s) by {}
                    assert forall|o: AccountId, s: AccountId|
                        self.has_allowance_entry(o, s) == mid.has_allowance_entry(o, s) by {}
                }
            }
            None => {
                let t = Account { owner: to, balance: amount, allowances: Vec::new() };
                let ghost t1 = t;
                self.accounts.push(t);
                proof {
                    lemma_find_account_absent(mid.accounts@, to);
                    lemma_accounts_append(mid.accounts@, t1);
                    assert forall|id: AccountId|
                        id != to implies find_account_spec(self.accounts@, id)
                        == find_account_spec(mid.accounts@, id) by {
                        assert(find_account_spec(mid.accounts@.push(t1), id)
                            == find_account_spec(mid.accounts@, id));
                    }
                    assert(find_account_spec(self.accounts@, to) == Some(t1));
                    assert(find_account_spec(mid.accounts@, to) is None);
                    assert forall|id: AccountId|
                        id != to implies self.spec_balance_of(id) == mid.spec_balance_of(id) by {}
                    assert(self.spec_balance_of(to) == mid.spec_balance_of(to) + amount);
                    assert forall|id: AccountId|
                        self.has_account(id) == (mid.has_account(id) || id == to) by {}
                    assert forall|o: AccountId, s: AccountId|
                        self.spec_allowance(o, s) == mid.spec_allowance(o, s) by {
                        if o == to {
                            assert(find_account_spec(self.accounts@, o) == Some(t1));
                        }
                    }
                    assert forall|o: AccountId, s: AccountId|
                        self.has_allowance_entry(o, s) == mid.has_allowance_entry(o, s) by {
                        if o == to {
                            assert(find_account_spec(self.accounts@, o) == Some(t1));
                        }
                    }
                }
            }
        }
        Ok(())
    }
}

/// What a successful mint does: `amount` new tokens appear on `to`'s
/// account (created if absent) and in `total_supply`; every other
/// balance, every allowance, and the cap are unchanged.
pub open spec fn mint_ok(pre: Ledger, post: Ledger, to: AccountId, amount: u128) -> bool {
    &&& post.spec_balance_of(to) == pre.spec_balance_of(to) + amount
    &&& forall|id: AccountId|
        id != to ==> post.spec_balance_of(id) == pre.spec_balance_of(id)
    &&& forall|id: AccountId| post.has_account(id) == (pre.has_account(id) || id == to)
    &&& forall|o: AccountId, s: AccountId| post.spec_allowance(o, s) == pre.spec_allowance(o, s)
    &&& forall|o: AccountId, s: AccountId|
        post.has_allowance_entry(o, s) == pre.has_allowance_entry(o, s)
    &&& post.total_supply == pre.total_supply + amount
    &&& post.max_supply == pre.max_supply
}

/// What a successful burn does: `amount` tokens leave `from`'s account
/// and `total_supply`; every other balance, every allowance, the set of
/// accounts, and the cap are unchanged.
pub open spec fn burn_ok(pre: Ledger, post: Ledger, from: AccountId, amount: u128) -> bool {
    &&& post.spec_balance_of(from) == pre.spec_balance_of(from) - amount
    &&& forall|id: AccountId|
        id != from ==> post.spec_balance_of(id) == pre.spec_balance_of(id)
    &&& forall|id: AccountId| post.has_account(id) == pre.has_account(id)
    &&& forall|o: AccountId, s: AccountId| post.spec_allowance(o, s) == pre.spec_allowance(o, s)
    &&& forall|o: AccountId, s: AccountId|
        post.has_allowance_entry(o, s) == pre.has_allowance_entry(o, s)
    &&& post.total_supply == pre.total_supply - amount
    &&& post.max_supply == pre.max_supply
}

/// What a successful approve does: `owner`'s allowance for `spender` is
/// now exactly `amount` (replaced, not added); every other allowance,
/// every balance, the set of accounts, and the supply counters are
/// unchanged.
pub open spec fn approve_ok(
    pre: Ledger,
    post: Ledger,
    owner: AccountId,
    spender: AccountId,
    amount: u128,
) -> bool {
    &&& post.spec_allowance(owner, spender) == amount
    &&& post.has_allowance_entry(owner, spender)
    &&& forall|o: AccountId, s: AccountId|
        !(o == owner && s == spender) ==> post.spec_allowance(o, s) == pre.spec_allowance(o, s)
    &&& forall|o: AccountId, s: AccountId|
        !(o == owner && s == spender) ==> post.has_allowance_entry(o, s)
            == pre.has_allowance_entry(o, s)
    &&& forall|id: AccountId| post.spec_balance_of(id) == pre.spec_balance_of(id)
    &&& forall|id: AccountId| post.has_account(id) == pre.has_account(id)
    &&& post.total_supply == pre.total_supply
    &&& post.max_supply == pre.max_supply
}

/// What a successful transfer does: `amount` moves from `from` to `to`
/// (`to`'s account is created if absent; a self-transfer leaves the
/// balance unchanged), a delegated transfer consumes `amount` of the
/// allowance `from` granted `caller`, and `total_supply` is conserved.
pub open spec fn transfer_ok(
    pre: Ledger,
    post: Ledger,
    caller: AccountId,
    from: AccountId,
    to: AccountId,
    amount: u128,
) -> bool {
    &&& from != to ==> post.spec_balance_of(from) == pre.spec_balance_of(from) - amount
        && post.spec_balance_of(to) == pre.spec_balance_of(to) + amount
    &&& from == to ==> post.spec_balance_of(from) == pre.spec_balance_of(from)
    &&& forall|id: AccountId|
        id != from && id != to ==> post.spec_balance_of(id) == pre.spec_balance_of(id)
    &&& forall|id: AccountId| post.has_account(id) == (pre.has_account(id) || id == to)
    &&& caller != from ==> post.spec_allowance(from, caller) == pre.spec_allowance(from, caller)
        - amount
    &&& forall|o: AccountId, s: AccountId|
        !(o == from && s == caller && caller != from) ==> post.spec_allowance(o, s)
            == pre.spec_allowance(o, s)
    &&& forall|o: AccountId, s: AccountId|
        post.has_allowance_entry(o, s) == pre.has_allowance_entry(o, s)
    &&& post.total_supply == pre.total_supply
    &&& post.max_supply == pre.max_supply
}

/// The allowance entry index for `spender`, if one exists.
fn find_allowance_index(allowances: &Vec<Allowance>, spender: AccountId) -> (r: Option<usize>)
    ensures
        match r {
            Some(j) => j < allowances@.len() && allowances@[j as int].spender == spender,
            None => forall|k: int| 0 <= k < allowances@.len() ==> allowances@[k].spender != spender,
        },
{
    let mut j: usize = 0;
    while j < allowances.len()
        invariant
            j <= allowances@.len(),
            forall|k: int| 0 <= k < j ==> allowances@[k].spender != spender,
        decreases allowances@.len() - j,
    {
        if allowances[j].spender == spender {
            return Some(j);
        }
        j = j + 1;
    }
    None
}

/// With distinct owners, the lookup returns exactly the account at any
/// index whose owner matches.
pub proof fn lemma_find_account_present(s: Seq<Account>, i: int)
    requires
        unique_owners(s),
        0 <= i < s.len(),
    ensures
        find_account_spec(s, s[i].owner) == Some(s[i]),
    decreases s.len(),
{
    if i == s.len() - 1 {
        assert(s.last() == s[i]);
    } else {
        assert(s.last().owner != s[i].owner);
        assert(s.drop_last()[i] == s[i]);
        lemma_find_account_present(s.drop_last(), i);
    }
}

/// The lookup fails exactly when no account has the given owner.
pub proof fn lemma_find_account_absent(s: Seq<Account>, id: AccountId)
    ensures
        (find_account_spec(s, id) is None) <==> (forall|k: int|
            0 <= k < s.len() ==> s[k].owner != id),
    decreases s.len(),
{
    if s.len() == 0 {
    } else if s.last().owner == id {
        assert(s[s.len() - 1].owner == id);
    } else {
        lemma_find_account_absent(s.drop_last(), id);
        assert(forall|k: int| 0 <= k < s.len() - 1 ==> s.drop_last()[k] == s[k]);
    }
}

/// With distinct spenders, the lookup returns exactly the entry at any
/// index whose spender matches.
pub proof fn lemma_find_allowance_present(s: Seq<Allowance>, j: int)
    requires
        unique_spenders(s),
        0 <= j < s.len(),
    ensures
        find_allowance_spec(s, s[j].spender) == Some(s[j]),
    decreases s.len(),
{
    if j == s.len() - 1 {
        assert(s.last() == s[j]);
    } else {
        assert(s.last().spender != s[j].spender);
        assert(s.drop_last()[j] == s[j]);
        lemma_find_allowance_present(s.drop_last(), j);
    }
}

/// The allowance lookup fails exactly when no entry has the given spender.
pub proof fn lemma_find_allowance_absent(s: Seq<Allowance>, spender: AccountId)
    ensures
        (find_allowance_spec(s, spender) is None) <==> (forall|k: int|
            0 <= k < s.len() ==> s[k].spender != spender),
    decreases s.len(),
{
    if s.len() == 0 {
    } else if s.last().spender == spender {
        assert(s[s.len() - 1].spender == spender);
    } else {
        lemma_find_allowance_absent(s.drop_last(), spender);
        assert(forall|k: int| 0 <= k < s.len() - 1 ==> s.drop_last()[k] == s[k]);
    }
}

proof fn lemma_unique_owners_drop_last(s: Seq<Account>)
    requires
        unique_owners(s),
        s.len() > 0,
    ensures
        unique_owners(s.drop_last()),
{
    assert forall|i: int, j: int| 0 <= i < j < s.drop_last().len() implies #[trigger] s.drop_last()[i].owner
        != #[trigger] s.drop_last()[j].owner by {
        assert(s.drop_last()[i] == s[i]);
        assert(s.drop_last()[j] == s[j]);
    }
}

proof fn lemma_unique_spenders_drop_last(s: Seq<Allowance>)
    requires
        unique_spenders(s),
        s.len() > 0,
    ensures
        unique_spenders(s.drop_last()),
{
    assert forall|i: int, j: int| 0 <= i < j < s.drop_last().len() implies #[trigger] s.drop_last()[i].spender
        != #[trigger] s.drop_last()[j].spender by {
        assert(s.drop_last()[i] == s[i]);
        assert(s.drop_last()[j] == s[j]);
    }
}

proof fn lemma_unique_owners_remove(s: Seq<Account>, i: int)
    requires
        unique_owners(s),
        0 <= i < s.len(),
    ensures
        unique_owners(s.remove(i)),
{
    s.remove_ensures(i);
    assert forall|k: int, l: int| 0 <= k < l < s.remove(i).len() implies #[trigger] s.remove(
        i,
    )[k].owner != #[trigger] s.remove(i)[l].owner by {
        let k2 = if k < i { k } else { k + 1 };
        let l2 = if l < i { l } else { l + 1 };
        assert(s.remove(i)[k] == s[k2]);
        assert(s.remove(i)[l] == s[l2]);
    }
}

proof fn lemma_unique_spenders_remove(s: Seq<Allowance>, j: int)
    requires
        unique_spenders(s),
        0 <= j < s.len(),
    ensures
        unique_spenders(s.remove(j)),
{
    s.remove_ensures(j);
    assert forall|k: int, l: int| 0 <= k < l < s.remove(j).len() implies #[trigger] s.remove(
        j,
    )[k].spender != #[trigger] s.remove(j)[l].spender by {
        let k2 = if k < j { k } else { k + 1 };
        let l2 = if l < j { l } else { l + 1 };
        assert(s.remove(j)[k] == s[k2]);
        assert(s.remove(j)[l] == s[l2]);
    }
}

/// Removing one account takes its lookup entry away and leaves every
/// other lookup unchanged.
proof fn lemma_find_account_remove(s: Seq<Account>, i: int, id: AccountId)
    requires
        unique_owners(s),
        0 <= i < s.len(),
    ensures
        id == s[i].owner ==> find_account_spec(s.remove(i), id) is None,
        id != s[i].owner ==> find_account_spec(s.remove(i), id) == find_account_spec(s, id),
    decreases s.len(),
{
    s.remove_ensures(i);
    let t = s.remove(i);
    if i == s.len() - 1 {
        assert(t =~= s.drop_last());
        if id == s[i].owner {
            assert forall|k: int| 0 <= k < s.drop_last().len() implies s.drop_last()[k].owner
                != id by {
                assert(s.drop_last()[k] == s[k]);
            }
            lemma_find_account_absent(s.drop_last(), id);
        }
    } else {
        assert(t.last() == s.last());
        s.drop_last().remove_ensures(i);
        assert(t.drop_last() =~= s.drop_last().remove(i));
        if s.last().owner == id {
            assert(id != s[i].owner);
        } else {
            lemma_unique_owners_drop_last(s);
            assert(s.drop_last()[i] == s[i]);
            lemma_find_account_remove(s.drop_last(), i, id);
        }
    }
}

/// Removing one allowance entry takes its lookup away and leaves every
/// other lookup unchanged.
proof fn lemma_find_allowance_remove(s: Seq<Allowance>, j: int, spender: AccountId)
    requires
        unique_spenders(s),
        0 <= j < s.len(),
    ensures
        spender == s[j].spender ==> find_allowance_spec(s.remove(j), spender) is None,
        spender != s[j].spender ==> find_allowance_spec(s.remove(j), spender)
            == find_allowance_spec(s, spender),
    decreases s.len(),
{
    s.remove_ensures(j);
    let t = s.remove(j);
    if j == s.len() - 1 {
        assert(t =~= s.drop_last());
        if spender == s[j].spender {
            assert forall|k: int| 0 <= k < s.drop_last().len() implies s.drop_last()[k].spender
                != spender by {
                assert(s.drop_last()[k] == s[k]);
            }
            lemma_find_allowance_absent(s.drop_last(), spender);
        }
    } else {
        assert(t.last() == s.last());
        s.drop_last().remove_ensures(j);
        assert(t.drop_last() =~= s.drop_last().remove(j));
        if s.last().spender == spender {
            assert(spender != s[j].spender);
        } else {
            lemma_unique_spenders_drop_last(s);
            assert(s.drop_last()[j] == s[j]);
            lemma_find_allowance_remove(s.drop_last(), j, spender);
        }
    }
}

/// The balance sum is never negative.
pub proof fn lemma_sum_nonneg(s: Seq<Account>)
    ensures
        sum_balances(s) >= 0,
    decreases s.len(),
{
    if s.len() > 0 {
        lemma_sum_nonneg(s.drop_last());
    }
}

/// Removing one account subtracts exactly its balance from the sum.
proof fn lemma_sum_remove(s: Seq<Account>, i: int)
    requires
        0 <= i < s.len(),
    ensures
        sum_balances(s.remove(i)) == sum_balances(s) - s[i].balance,
    decreases s.len(),
{
    s.remove_ensures(i);
    let t = s.remove(i);
    if i == s.len() - 1 {
        assert(t =~= s.drop_last());
    } else {
        assert(t.last() == s.last());
        s.drop_last().remove_ensures(i);
        assert(t.drop_last() =~= s.drop_last().remove(i));
        assert(s.drop_last()[i] == s[i]);
        lemma_sum_remove(s.drop_last(), i);
    }
}

/// Every single balance is bounded by the sum of all balances.
pub proof fn lemma_sum_bound(s: Seq<Account>, i: int)
    requires
        0 <= i < s.len(),
    ensures
        s[i].balance <= sum_balances(s),
{
    lemma_sum_remove(s, i);
    lemma_sum_nonneg(s.remove(i));
}

/// Replacing the account at index `i` by `a` (same owner): the new vector
/// is still well formed, `a.owner` now looks up to `a`, every other
/// lookup is unchanged, and the sum moves by the balance difference.
proof fn lemma_accounts_replace(s: Seq<Account>, i: int, a: Account)
    requires
        accounts_wf(s),
        0 <= i < s.len(),
        a.owner == s[i].owner,
        unique_spenders(a.allowances@),
    ensures
        ({
            let t = s.remove(i).push(a);
            &&& accounts_wf(t)
            &&& find_account_spec(t, a.owner) == Some(a)
            &&& forall|id: AccountId|
                id != a.owner ==> find_account_spec(t, id) == find_account_spec(s, id)
            &&& sum_balances(t) == sum_balances(s) - s[i].balance + a.balance
            &&& t.len() == s.len()
        }),
{
    s.remove_ensures(i);
    let u = s.remove(i);
    let t = u.push(a);
    lemma_unique_owners_remove(s, i);
    lemma_sum_remove(s, i);
    lemma_find_account_remove(s, i, a.owner);
    lemma_find_account_absent(u, a.owner);
    assert(t.drop_last() =~= u);
    assert(t.last() == a);
    assert(find_account_spec(t, a.owner) == Some(a));
    assert forall|id: AccountId| id != a.owner implies find_account_spec(t, id)
        == find_account_spec(s, id) by {
        lemma_find_account_remove(s, i, id);
    }
    assert forall|k: int, l: int| 0 <= k < l < t.len() implies #[trigger] t[k].owner
        != #[trigger] t[l].owner by {
        if l < t.len() - 1 {
            assert(t[k] == u[k]);
            assert(t[l] == u[l]);
        } else {
            assert(t[k] == u[k]);
            assert(t[l] == a);
        }
    }
    assert forall|k: int| 0 <= k < t.len() implies unique_spenders(
        #[trigger] t[k].allowances@,
    ) by {
        if k < t.len() - 1 {
            let k2 = if k < i { k } else { k + 1 };
            assert(t[k] == u[k]);
            assert(u[k] == s[k2]);
        } else {
            assert(t[k] == a);
        }
    }
}

/// Appending a fresh account (an owner with no entry yet): the new vector
/// is still well formed, the new owner looks up to `a`, every other
/// lookup is unchanged, and the sum grows by `a.balance`.
proof fn lemma_accounts_append(s: Seq<Account>, a: Account)
    requires
        accounts_wf(s),
        find_account_spec(s, a.owner) is None,
        unique_spenders(a.allowances@),
    ensures
        ({
            let t = s.push(a);
            &&& accounts_wf(t)
            &&& find_account_spec(t, a.owner) == Some(a)
            &&& forall|id: AccountId|
                id != a.owner ==> find_account_spec(t, id) == find_account_spec(s, id)
            &&& sum_balances(t) == sum_balances(s) + a.balance
        }),
{
    let t = s.push(a);
    lemma_find_account_absent(s, a.owner);
    assert(t.drop_last() =~= s);
    assert(t.last() == a);
    assert forall|k: int, l: int| 0 <= k < l < t.len() implies #[trigger] t[k].owner
        != #[trigger] t[l].owner by {
        if l < t.len() - 1 {
            assert(t[k] == s[k]);
            assert(t[l] == s[l]);
        } else {
            assert(t[k] == s[k]);
            assert(t[l] == a);
        }
    }
    assert forall|k: int| 0 <= k < t.len() implies unique_spenders(
        #[trigger] t[k].allowances@,
    ) by {
        if k < t.len() - 1 {
            assert(t[k] == s[k]);
        } else {
            assert(t[k] == a);
        }
    }
}

/// Replacing the allowance entry at index `j` by `al` (same spender): the
/// spenders stay distinct, `al.spender` now looks up to `al`, and every
/// other lookup is unchanged.
proof fn lemma_allowances_replace(s: Seq<Allowance>, j: int, al: Allowance)
    requires
        unique_spenders(s),
        0 <= j < s.len(),
        al.spender == s[j].spender,
    ensures
        ({
            let t = s.remove(j).push(al);
            &&& unique_spenders(t)
            &&& find_allowance_spec(t, al.spender) == Some(al)
            &&& forall|sp: AccountId|
                sp != al.spender ==> find_allowance_spec(t, sp) == find_allowance_spec(s, sp)
        }),
{
    s.remove_ensures(j);
    let u = s.remove(j);
    let t = u.push(al);
    lemma_unique_spenders_remove(s, j);
    lemma_find_allowance_remove(s, j, al.spender);
    lemma_find_allowance_absent(u, al.spender);
    assert(t.drop_last() =~= u);
    assert(t.last() == al);
    assert forall|sp: AccountId| sp != al.spender implies find_allowance_spec(t, sp)
        == find_allowance_spec(s, sp) by {
        lemma_find_allowance_remove(s, j, sp);
    }
    assert forall|k: int, l: int| 0 <= k < l < t.len() implies #[trigger] t[k].spender
        != #[trigger] t[l].spender by {
        if l < t.len() - 1 {
            assert(t[k] == u[k]);
            assert(t[l] == u[l]);
        } else {
            assert(t[k] == u[k]);
            assert(t[l] == al);
        }
    }
}

/// Appending a fresh allowance entry (a spender with no entry yet): the
/// spenders stay distinct, the new spender looks up to `al`, and every
/// other lookup is unchanged.
proof fn lemma_allowances_append(s: Seq<Allowance>, al: Allowance)
    requires
        unique_spenders(s),
        find_allowance_spec(s, al.spender) is None,
    ensures
        ({
            let t = s.push(al);
            &&& unique_spenders(t)
            &&& find_allowance_spec(t, al.spender) == Some(al)
            &&& forall|sp: AccountId|
                sp != al.spender ==> find_allowance_spec(t, sp) == find_allowance_spec(s, sp)
        }),
{
    let t = s.push(al);
    lemma_find_allowance_absent(s, al.spender);
    assert(t.drop_last() =~= s);
    assert(t.last() == al);
    assert forall|k: int, l: int| 0 <= k < l < t.len() implies #[trigger] t[k].spender
        != #[trigger] t[l].spender by {
        if l < t.len() - 1 {
            assert(t[k] == s[k]);
            assert(t[l] == s[l]);
        } else {
            assert(t[k] == s[k]);
            assert(t[l] == al);
        }
    }
}

} // verus!
