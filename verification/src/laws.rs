//! Library-wide laws, proved from the operation contracts alone.
//!
//! Each operation's own `ensures` states its exact effect through the
//! transition predicates of [`crate::ledger`]; the lemmas here state the
//! properties that relate several calls or summarize the invariant.

use vstd::prelude::*;
use crate::ledger::{
    AccountId, Ledger, approve_ok, sum_balances, transfer_ok,
};

verus! {

/// The reachable-state invariant: a well-formed ledger's recorded
/// `total_supply` equals the sum of all balances and stays between 0 and
/// `max_supply`. `Ledger::init` establishes `wf` and every operation
/// ensures it again, so this holds of every reachable state.
pub proof fn lemma_supply_invariant(l: Ledger)
    requires
        l.wf(),
    ensures
        l.total_supply as int == sum_balances(l.accounts@),
        0 <= l.total_supply <= l.max_supply,
{
}

/// Idempotence of `approve`: approving the same owner, spender and
/// amount twice leaves the allowance at exactly `amount`, and the second
/// call changes nothing at all (last-writer-wins, not additive).
pub proof fn lemma_approve_idempotent(
    l0: Ledger,
    l1: Ledger,
    l2: Ledger,
    owner: AccountId,
    spender: AccountId,
    amount: u128,
)
    requires
        approve_ok(l0, l1, owner, spender, amount),
        approve_ok(l1, l2, owner, spender, amount),
    ensures
        l1.spec_allowance(owner, spender) == amount,
        l2.spec_allowance(owner, spender) == amount,
        forall|o: AccountId, s: AccountId| l2.spec_allowance(o, s) == l1.spec_allowance(o, s),
        forall|o: AccountId, s: AccountId|
            l2.has_allowance_entry(o, s) == l1.has_allowance_entry(o, s),
        forall|id: AccountId| l2.spec_balance_of(id) == l1.spec_balance_of(id),
        forall|id: AccountId| l2.has_account(id) == l1.has_account(id),
        l2.total_supply == l1.total_supply,
        l2.max_supply == l1.max_supply,
{
}

/// Conservation: a successful transfer moves exactly `amount` from the
/// sender to the receiver (net zero on a self-transfer), touches no other
/// balance, and leaves `total_supply` — and with it the sum of all
/// balances — unchanged.
pub proof fn lemma_transfer_conserves(
    pre: Ledger,
    post: Ledger,
    caller: AccountId,
    from: AccountId,
    to: AccountId,
    amount: u128,
)
    requires
        pre.wf(),
        post.wf(),
        transfer_ok(pre, post, caller, from, to, amount),
    ensures
        post.total_supply == pre.total_supply,
        sum_balances(post.accounts@) == sum_balances(pre.accounts@),
        from != to ==> post.spec_balance_of(from) + amount == pre.spec_balance_of(from),
        from != to ==> post.spec_balance_of(to) == pre.spec_balance_of(to) + amount,
        from == to ==> post.spec_balance_of(from) == pre.spec_balance_of(from),
        forall|id: AccountId|
            id != from && id != to ==> post.spec_balance_of(id) == pre.spec_balance_of(id),
{
}

} // verus!
