//! The ledger's laws, stated once over the store model and the operation
//! effects that the executable functions ensure.

use vstd::prelude::*;

use crate::balance::{credit_applied, debit_applied};
use crate::store::{
    count_depositors, lemma_balance_nonneg, lemma_sum_nonneg, sum_balances, Store,
};

verus! {

/// The pool total always equals the sum of the stored balances: one ledger
/// entry per address ever touched, so this is the sum of `user_balance` over
/// those addresses.
pub proof fn lemma_pool_is_sum_of_balances(s: Store)
    requires
        s.wf(),
    ensures
        s.pool_value() == sum_balances(s.users@),
{
}

/// The depositor count always equals the number of addresses whose stored
/// balance is strictly positive.
pub proof fn lemma_depositor_count_matches(s: Store)
    requires
        s.wf(),
    ensures
        s.depositor_count() == count_depositors(s.users@),
{
}

/// No user's balance is ever negative.
pub proof fn lemma_user_balance_nonnegative(s: Store, user: u64)
    requires
        s.wf(),
    ensures
        s.user_balance(user) >= 0,
{
    lemma_balance_nonneg(s.users@, user);
}

/// The pool total is never negative.
pub proof fn lemma_pool_balance_nonnegative(s: Store)
    requires
        s.wf(),
    ensures
        s.pool_value() >= 0,
{
    lemma_sum_nonneg(s.users@);
}

/// Round trip: a deposit followed by an immediate withdrawal of the same
/// amount by the same user restores every balance, the pool total and the
/// depositor count to their pre-deposit values.
pub proof fn lemma_deposit_withdraw_round_trip(
    pre: Store,
    mid: Store,
    post: Store,
    user: u64,
    amount: int,
)
    requires
        credit_applied(pre, mid, user, amount),
        debit_applied(mid, post, user, amount),
    ensures
        post.user_balance(user) == pre.user_balance(user),
        forall|a: u64| post.user_balance(a) == pre.user_balance(a),
        post.pool_value() == pre.pool_value(),
        post.depositor_count() == pre.depositor_count(),
{
    assert forall|a: u64| post.user_balance(a) == pre.user_balance(a) by {
        if a != user {
            assert(mid.user_balance(a) == pre.user_balance(a));
        }
    }
}

} // verus!
