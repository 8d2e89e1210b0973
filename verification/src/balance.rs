//! The balance ledger: per-user balances plus the pool-total and
//! depositor-count aggregates, kept exactly consistent on every mutation.
//!
//! Reads are total (an absent record answers zero) and, like writes, refresh
//! the remaining lifetime of the record they touch whenever it has fallen
//! below the configured threshold.

use vstd::prelude::*;

use crate::store::{
    balance_in, count_depositors, lemma_aggregates_push, lemma_aggregates_update,
    lemma_balance_le_sum, lemma_balance_nonneg, lemma_count_bounds, lemma_lookup_absent,
    lemma_lookup_at, lemma_lookup_push_new, lemma_lookup_push_other, lemma_lookup_update_other,
    lemma_positive_count, lemma_sum_nonneg, lemma_unique_push, lemma_unique_update,
    lemma_untouched_reads_zero,
    nonnegative_balances, refreshed_at, slot_ttl, sum_balances, touched_in, ttl_in, unique_addrs,
    Slot, Store, UserEntry, BALANCE_BUMP_AMOUNT, BALANCE_LIFETIME_THRESHOLD,
};

verus! {

/// Refresh a remaining lifetime that has fallen below the threshold.
fn touch(ttl: u32) -> (r: u32)
    ensures
        r == refreshed_at(ttl as int),
{
    if ttl < BALANCE_LIFETIME_THRESHOLD {
        BALANCE_BUMP_AMOUNT
    } else {
        ttl
    }
}

/// Index of `addr`'s entry, if one exists.
pub(crate) fn find_user(users: &Vec<UserEntry>, addr: u64) -> (r: Option<usize>)
    ensures
        match r {
            Some(i) => i < users@.len() && users@[i as int].addr == addr,
            None => forall|k: int| 0 <= k < users@.len() ==> users@[k].addr != addr,
        },
{
    let mut i: usize = 0;
    while i < users.len()
        invariant
            i <= users@.len(),
            forall|k: int| 0 <= k < i ==> users@[k].addr != addr,
        decreases users@.len() - i,
    {
        if users[i].addr == addr {
            return Some(i);
        }
        i = i + 1;
    }
    None
}

/// What a lifetime-extending read of `addr`'s balance record leaves behind:
/// every stored value unchanged, only that record's remaining lifetime
/// refreshed.
pub open spec fn read_applied(pre: Store, post: Store, addr: u64) -> bool {
    &&& forall|a: u64| post.user_balance(a) == pre.user_balance(a)
    &&& forall|a: u64| post.touched(a) == pre.touched(a)
    &&& forall|a: u64| a != addr ==> post.user_ttl(a) == pre.user_ttl(a)
    &&& post.user_ttl(addr) == (if pre.touched(addr) {
        refreshed_at(pre.user_ttl(addr))
    } else {
        pre.user_ttl(addr)
    })
    &&& post.pool == pre.pool
    &&& post.depositors == pre.depositors
    &&& post.admin == pre.admin
    &&& post.assets == pre.assets
}

/// Exactly how a credit of `amount` to `addr` moves the ledger: the user's
/// balance and the pool total rise by `amount`, the depositor count rises by
/// one exactly when the balance was zero before the credit, and nothing else
/// changes but the touched records' remaining lifetimes.
pub open spec fn credit_applied(pre: Store, post: Store, addr: u64, amount: int) -> bool {
    &&& post.user_balance(addr) == pre.user_balance(addr) + amount
    &&& forall|a: u64| a != addr ==> post.user_balance(a) == pre.user_balance(a)
    &&& forall|a: u64| post.touched(a) == (pre.touched(a) || a == addr)
    &&& post.pool_value() == pre.pool_value() + amount
    &&& post.depositor_count() == pre.depositor_count() + (if pre.user_balance(addr) == 0 {
        1int
    } else {
        0int
    })
    &&& post.admin == pre.admin
    &&& post.assets == pre.assets
    &&& post.user_ttl(addr) == refreshed_at(pre.user_ttl(addr))
    &&& forall|a: u64| a != addr ==> post.user_ttl(a) == pre.user_ttl(a)
    &&& post.pool is Some
    &&& slot_ttl(post.pool) == refreshed_at(slot_ttl(pre.pool))
    &&& (pre.user_balance(addr) == 0 ==> post.depositors is Some && slot_ttl(post.depositors)
        == refreshed_at(slot_ttl(pre.depositors)))
    &&& (pre.user_balance(addr) != 0 ==> post.depositors == pre.depositors)
}

/// Exactly how a debit of `amount` from `addr` moves the ledger: the user's
/// balance and the pool total fall by `amount`, the depositor count falls by
/// one exactly when the debit empties the balance, and nothing else changes
/// but the touched records' remaining lifetimes.
pub open spec fn debit_applied(pre: Store, post: Store, addr: u64, amount: int) -> bool {
    &&& post.user_balance(addr) == pre.user_balance(addr) - amount
    &&& forall|a: u64| a != addr ==> post.user_balance(a) == pre.user_balance(a)
    &&& forall|a: u64| post.touched(a) == (pre.touched(a) || a == addr)
    &&& post.pool_value() == pre.pool_value() - amount
    &&& post.depositor_count() == pre.depositor_count() - (if pre.user_balance(addr) == amount {
        1int
    } else {
        0int
    })
    &&& post.admin == pre.admin
    &&& post.assets == pre.assets
    &&& post.user_ttl(addr) == refreshed_at(pre.user_ttl(addr))
    &&& forall|a: u64| a != addr ==> post.user_ttl(a) == pre.user_ttl(a)
    &&& post.pool is Some
    &&& slot_ttl(post.pool) == refreshed_at(slot_ttl(pre.pool))
    &&& (pre.user_balance(addr) == amount ==> post.depositors is Some && slot_ttl(
        post.depositors,
    ) == refreshed_at(slot_ttl(pre.depositors)))
    &&& (pre.user_balance(addr) != amount ==> post.depositors == pre.depositors)
}

/// The stored balance for `addr`, or zero when no record exists.  On a hit
/// the record's remaining lifetime is refreshed; nothing else changes.
pub fn read_user_balance(store: &mut Store, addr: u64) -> (r: i128)
    requires
        unique_addrs(old(store).users@),
    ensures
        r == old(store).user_balance(addr),
        read_applied(*old(store), *final(store), addr),
        unique_addrs(final(store).users@),
        nonnegative_balances(old(store).users@) ==> nonnegative_balances(final(store).users@),
        sum_balances(final(store).users@) == sum_balances(old(store).users@),
        count_depositors(final(store).users@) == count_depositors(old(store).users@),
        old(store).wf() ==> final(store).wf(),
{
    match find_user(&store.users, addr) {
        None => {
            proof {
                lemma_lookup_absent(store.users@, addr);
            }
            0
        },
        Some(i) => {
            let ghost s0 = store.users@;
            let e = store.users[i];
            let ne = UserEntry { addr: e.addr, value: e.value, ttl: touch(e.ttl) };
            store.users[i] = ne;
            proof {
                let s1 = store.users@;
                lemma_lookup_at(s0, addr, i as int);
                lemma_unique_update(s0, i as int, ne);
                lemma_aggregates_update(s0, i as int, ne);
                lemma_lookup_at(s1, addr, i as int);
                assert forall|a: u64| a != addr implies balance_in(s1, a) == balance_in(s0, a)
                    && ttl_in(s1, a) == ttl_in(s0, a) && touched_in(s1, a) == touched_in(
                    s0,
                    a,
                ) by {
                    lemma_lookup_update_other(s0, i as int, ne, a);
                }
                assert forall|k: int| 0 <= k < s1.len() && nonnegative_balances(s0) implies s1[k].value >= 0 by {
                    assert(s0[k].value >= 0);
                }
            }
            e.value
        },
    }
}

/// The pool-total aggregate, or zero when it was never written.  On a hit
/// the record's remaining lifetime is refreshed; nothing else changes.
pub fn read_pool_balance(store: &mut Store) -> (r: i128)
    ensures
        r == old(store).pool_value(),
        final(store).pool_value() == old(store).pool_value(),
        final(store).pool is Some <==> old(store).pool is Some,
        slot_ttl(final(store).pool) == (if old(store).pool is Some {
            refreshed_at(slot_ttl(old(store).pool))
        } else {
            slot_ttl(old(store).pool)
        }),
        final(store).users == old(store).users,
        final(store).depositors == old(store).depositors,
        final(store).admin == old(store).admin,
        final(store).assets == old(store).assets,
        old(store).wf() ==> final(store).wf(),
{
    match store.pool {
        None => 0,
        Some(c) => {
            store.pool = Some(Slot { value: c.value, ttl: touch(c.ttl) });
            c.value
        },
    }
}

/// The depositor-count aggregate, or zero when it was never written.  On a
/// hit the record's remaining lifetime is refreshed; nothing else changes.
pub fn read_depositors(store: &mut Store) -> (r: i128)
    ensures
        r == old(store).depositor_count(),
        final(store).depositor_count() == old(store).depositor_count(),
        final(store).depositors is Some <==> old(store).depositors is Some,
        slot_ttl(final(store).depositors) == (if old(store).depositors is Some {
            refreshed_at(slot_ttl(old(store).depositors))
        } else {
            slot_ttl(old(store).depositors)
        }),
        final(store).users == old(store).users,
        final(store).pool == old(store).pool,
        final(store).admin == old(store).admin,
        final(store).assets == old(store).assets,
        old(store).wf() ==> final(store).wf(),
{
    match store.depositors {
        None => 0,
        Some(c) => {
            store.depositors = Some(Slot { value: c.value, ttl: touch(c.ttl) });
            c.value
        },
    }
}

/// Record `amount` as `addr`'s stored balance, creating the record when it
/// does not exist, and refresh its remaining lifetime.
fn write_user_balance(store: &mut Store, addr: u64, amount: i128)
    requires
        unique_addrs(old(store).users@),
        amount >= 0,
    ensures
        unique_addrs(final(store).users@),
        nonnegative_balances(old(store).users@) ==> nonnegative_balances(final(store).users@),
        final(store).touched(addr),
        final(store).user_balance(addr) == amount,
        final(store).user_ttl(addr) == refreshed_at(old(store).user_ttl(addr)),
        forall|a: u64|
            a != addr ==> final(store).user_balance(a) == old(store).user_balance(a)
                && final(store).user_ttl(a) == old(store).user_ttl(a)
                && final(store).touched(a) == old(store).touched(a),
        forall|a: u64| final(store).touched(a) == (old(store).touched(a) || a == addr),
        sum_balances(final(store).users@) == sum_balances(old(store).users@)
            - (if old(store).touched(addr) { old(store).user_balance(addr) } else { 0int })
            + amount,
        count_depositors(final(store).users@) == count_depositors(old(store).users@)
            - (if old(store).user_balance(addr) > 0 { 1int } else { 0int })
            + (if amount > 0 { 1int } else { 0int }),
        final(store).pool == old(store).pool,
        final(store).depositors == old(store).depositors,
        final(store).admin == old(store).admin,
        final(store).assets == old(store).assets,
{
    match find_user(&store.users, addr) {
        Some(i) => {
            let ghost s0 = store.users@;
            let e = store.users[i];
            let ne = UserEntry { addr, value: amount, ttl: touch(e.ttl) };
            store.users[i] = ne;
            proof {
                let s1 = store.users@;
                lemma_lookup_at(s0, addr, i as int);
                lemma_unique_update(s0, i as int, ne);
                lemma_aggregates_update(s0, i as int, ne);
                lemma_lookup_at(s1, addr, i as int);
                assert forall|a: u64| a != addr implies balance_in(s1, a) == balance_in(s0, a)
                    && ttl_in(s1, a) == ttl_in(s0, a) && touched_in(s1, a) == touched_in(
                    s0,
                    a,
                ) by {
                    lemma_lookup_update_other(s0, i as int, ne, a);
                }
                assert forall|k: int|
                    0 <= k < s1.len() && nonnegative_balances(s0) implies s1[k].value >= 0 by {
                    if k != i {
                        assert(s0[k].value >= 0);
                    }
                }
            }
        },
        None => {
            let ghost s0 = store.users@;
            let ne = UserEntry { addr, value: amount, ttl: BALANCE_BUMP_AMOUNT };
            store.users.push(ne);
            proof {
                let s1 = store.users@;
                lemma_lookup_absent(s0, addr);
                lemma_unique_push(s0, ne);
                lemma_aggregates_push(s0, ne);
                lemma_lookup_push_new(s0, ne);
                assert forall|a: u64| a != addr implies balance_in(s1, a) == balance_in(s0, a)
                    && ttl_in(s1, a) == ttl_in(s0, a) && touched_in(s1, a) == touched_in(
                    s0,
                    a,
                ) by {
                    lemma_lookup_push_other(s0, ne, a);
                }
                assert forall|k: int|
                    0 <= k < s1.len() && nonnegative_balances(s0) implies s1[k].value >= 0 by {
                    if k < s0.len() {
                        assert(s0[k].value >= 0);
                    }
                }
            }
        },
    }
}

/// Move the pool total by the signed delta `amount`.  Setting a negative
/// aggregate is ruled out up front, as a defensive invariant check.
pub fn write_pool_balance(store: &mut Store, amount: i128)
    requires
        0 <= old(store).pool_value() + amount,
        old(store).pool_value() + amount <= i128::MAX,
    ensures
        final(store).pool_value() == old(store).pool_value() + amount,
        final(store).pool is Some,
        slot_ttl(final(store).pool) == refreshed_at(slot_ttl(old(store).pool)),
        final(store).users == old(store).users,
        final(store).depositors == old(store).depositors,
        final(store).admin == old(store).admin,
        final(store).assets == old(store).assets,
{
    let cur = read_pool_balance(store);
    let newttl = match store.pool {
        Some(c) => touch(c.ttl),
        None => BALANCE_BUMP_AMOUNT,
    };
    store.pool = Some(Slot { value: cur + amount, ttl: newttl });
}

/// Move the depositor count by the signed delta `inc`.
fn write_depositors(store: &mut Store, inc: i128)
    requires
        i128::MIN <= old(store).depositor_count() + inc <= i128::MAX,
    ensures
        final(store).depositor_count() == old(store).depositor_count() + inc,
        final(store).depositors is Some,
        slot_ttl(final(store).depositors) == refreshed_at(slot_ttl(old(store).depositors)),
        final(store).users == old(store).users,
        final(store).pool == old(store).pool,
        final(store).admin == old(store).admin,
        final(store).assets == old(store).assets,
{
    let cur = read_depositors(store);
    let newttl = match store.depositors {
        Some(c) => touch(c.ttl),
        None => BALANCE_BUMP_AMOUNT,
    };
    store.depositors = Some(Slot { value: cur + inc, ttl: newttl });
}

/// Credit `addr` with the caller-validated gross `amount`: one logical unit
/// that raises the balance and the pool total and, on a zero-crossing,
/// the depositor count.
pub fn add_balance(store: &mut Store, addr: u64, amount: i128)
    requires
        old(store).wf(),
        amount >= 0,
        old(store).pool_value() + amount <= i128::MAX,
    ensures
        credit_applied(*old(store), *final(store), addr, amount as int),
        amount > 0 || old(store).user_balance(addr) > 0 ==> final(store).wf(),
{
    proof {
        lemma_balance_nonneg(old(store).users@, addr);
        lemma_balance_le_sum(old(store).users@, addr);
        lemma_sum_nonneg(old(store).users@);
        lemma_count_bounds(old(store).users@);
        assert(old(store).users@.len() == old(store).users.len());
        if !old(store).touched(addr) {
            lemma_untouched_reads_zero(old(store).users@, addr);
        }
    }
    let balance = read_user_balance(store, addr);
    let ghost s1 = *store;
    write_user_balance(store, addr, balance + amount);
    let ghost s2 = *store;
    write_pool_balance(store, amount);
    let ghost s3 = *store;
    if balance == 0 {
        write_depositors(store, 1);
    }
    proof {
        assert forall|a: u64|
            a != addr implies store.user_balance(a) == old(store).user_balance(a) && store.user_ttl(
            a,
        ) == old(store).user_ttl(a) by {
            assert(s1.user_balance(a) == old(store).user_balance(a));
            assert(s1.user_ttl(a) == old(store).user_ttl(a));
            assert(s2.user_balance(a) == s1.user_balance(a));
            assert(s2.user_ttl(a) == s1.user_ttl(a));
            assert(s3.users == s2.users);
            assert(store.users == s3.users);
        }
        assert forall|a: u64|
            store.touched(a) == (old(store).touched(a) || a == addr) by {
            assert(s1.touched(a) == old(store).touched(a));
            assert(s2.touched(a) == (s1.touched(a) || a == addr));
            assert(s3.users == s2.users);
            assert(store.users == s3.users);
        }
    }
}

/// Debit `addr` by `amount`, which must not exceed the stored balance: one
/// logical unit that lowers the balance and the pool total and, when the
/// balance is emptied, the depositor count.
pub fn subtract_balance(store: &mut Store, addr: u64, amount: i128)
    requires
        old(store).wf(),
        0 <= amount <= old(store).user_balance(addr),
    ensures
        debit_applied(*old(store), *final(store), addr, amount as int),
        amount > 0 || old(store).user_balance(addr) > 0 ==> final(store).wf(),
{
    proof {
        lemma_balance_nonneg(old(store).users@, addr);
        lemma_balance_le_sum(old(store).users@, addr);
        lemma_sum_nonneg(old(store).users@);
        lemma_count_bounds(old(store).users@);
        if old(store).user_balance(addr) == amount && amount > 0 {
            lemma_positive_count(old(store).users@, addr);
        }
        if !old(store).touched(addr) {
            lemma_untouched_reads_zero(old(store).users@, addr);
        }
    }
    let balance = read_user_balance(store, addr);
    let ghost s1 = *store;
    write_user_balance(store, addr, balance - amount);
    let ghost s2 = *store;
    write_pool_balance(store, -amount);
    let ghost s3 = *store;
    let remaining = read_user_balance(store, addr);
    let ghost s4 = *store;
    if remaining == 0 {
        write_depositors(store, -1);
    }
    proof {
        assert forall|a: u64|
            a != addr implies store.user_balance(a) == old(store).user_balance(a) && store.user_ttl(
            a,
        ) == old(store).user_ttl(a) by {
            assert(s1.user_balance(a) == old(store).user_balance(a));
            assert(s1.user_ttl(a) == old(store).user_ttl(a));
            assert(s2.user_balance(a) == s1.user_balance(a));
            assert(s2.user_ttl(a) == s1.user_ttl(a));
            assert(s3.users == s2.users);
            assert(s4.user_balance(a) == s3.user_balance(a));
            assert(s4.user_ttl(a) == s3.user_ttl(a));
            assert(store.users == s4.users);
        }
        assert forall|a: u64|
            store.touched(a) == (old(store).touched(a) || a == addr) by {
            assert(s1.touched(a) == old(store).touched(a));
            assert(s2.touched(a) == (s1.touched(a) || a == addr));
            assert(s3.users == s2.users);
            assert(s4.touched(a) == s3.touched(a));
            assert(store.users == s4.users);
        }
    }
}

} // verus!
