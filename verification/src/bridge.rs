//! Bridge operations over the verified balance ledger: deposit, withdraw,
//! the two cross-chain transfer paths, and the admin-gated asset address map.
//!
//! Each operation validates its inputs and the authenticated caller, mutates
//! the ledger as one unit, and returns the event payload the surrounding host
//! publishes on success.  The host performs the actual asset movement and runs
//! every operation all-or-nothing, so a rejected operation changes nothing.

use vstd::prelude::*;

use crate::balance::{
    add_balance, credit_applied, debit_applied, find_user, read_applied, read_depositors,
    read_pool_balance, read_user_balance, subtract_balance,
};
use crate::store::{
    lemma_asset_lookup_absent, lemma_asset_lookup_at, lemma_asset_push_new,
    lemma_asset_push_other, lemma_asset_update_other, lemma_lookup_absent, lemma_lookup_at,
    lemma_unique_assets_push, lemma_unique_assets_update, refreshed_at, remote_in, slot_ttl,
    AssetEntry, Store,
};

verus! {

/// Why a bridge operation was rejected.  Every rejection aborts the whole
/// operation with no state change.
#[derive(Clone, Copy, PartialEq, Eq, Structural, Debug)]
pub enum BridgeError {
    /// An amount failed validation: non-positive where a positive amount is
    /// required, or negative where a non-negative one is.
    Validation,
    /// The caller is not the required identity (self, oracle or administrator).
    Authorization,
    /// A withdrawal asked for more than the recorded balance.
    InsufficientFunds,
    /// `initialize` ran after an administrator was already stored.
    AlreadyInitialized,
}

/// The account a bridge event names: a local ledger identity, or an address
/// on the remote chain.
#[derive(Clone, PartialEq, Eq, Debug)]
pub enum Counterparty {
    Local(u64),
    Remote(String),
}

/// The observability payload a successful operation reports: the amount
/// moved, the remote-chain address mapped to the asset (when one is
/// configured), and the counterparty.
#[derive(Clone, PartialEq, Eq, Debug)]
pub struct BridgeEvent {
    pub amount: i128,
    pub remote_asset: Option<String>,
    pub counterparty: Counterparty,
}

/// The view of an optional remote-chain address.
pub open spec fn remote_view(o: Option<String>) -> Option<Seq<char>> {
    match o {
        Some(s) => Some(s@),
        None => None,
    }
}

/// Index of `asset`'s mapping, if one exists.
fn find_asset(assets: &Vec<AssetEntry>, asset: u64) -> (r: Option<usize>)
    ensures
        match r {
            Some(i) => i < assets@.len() && assets@[i as int].asset == asset,
            None => forall|k: int| 0 <= k < assets@.len() ==> assets@[k].asset != asset,
        },
{
    let mut i: usize = 0;
    while i < assets.len()
        invariant
            i <= assets@.len(),
            forall|k: int| 0 <= k < i ==> assets@[k].asset != asset,
        decreases assets@.len() - i,
    {
        if assets[i].asset == asset {
            return Some(i);
        }
        i = i + 1;
    }
    None
}

/// The bridge contract state: the persistent store that holds the ledger,
/// the administrator and the asset address map.
#[derive(Clone)]
pub struct MultiChainBridge {
    pub store: Store,
}

impl MultiChainBridge {
    /// The contract state is well-formed when its ledger invariant holds.
    pub open spec fn wf(self) -> bool {
        self.store.wf()
    }

    /// A fresh bridge: nothing deposited, no administrator, no mappings.
    pub fn new() -> (b: MultiChainBridge)
        ensures
            b.wf(),
            b.store.users@.len() == 0,
            b.store.pool is None,
            b.store.depositors is None,
            b.store.admin is None,
            b.store.assets@.len() == 0,
            forall|a: u64| !b.store.touched(a) && b.store.user_balance(a) == 0,
    {
        MultiChainBridge {
            store: Store {
                users: Vec::new(),
                pool: None,
                depositors: None,
                admin: None,
                assets: Vec::new(),
            },
        }
    }

    /// Store the administrator, exactly once.  A later call signals the
    /// conflict and leaves the stored administrator (and everything else)
    /// unchanged.
    pub fn initialize(&mut self, admin: u64) -> (r: Result<(), BridgeError>)
        ensures
            r is Ok <==> old(self).store.admin is None,
            r is Err ==> *final(self) == *old(self) && r == Err::<(), BridgeError>(
                BridgeError::AlreadyInitialized,
            ),
            r is Ok ==> final(self).store == (Store { admin: Some(admin), ..old(self).store }),
            old(self).wf() ==> final(self).wf(),
    {
        if self.store.admin.is_some() {
            return Err(BridgeError::AlreadyInitialized);
        }
        self.store.admin = Some(admin);
        Ok(())
    }

    /// Deposit `amount` of `token`: the caller must be `from` and the amount
    /// positive; the host pulls the asset into custody after validation and
    /// before the ledger credit.  On success the user's balance and the pool
    /// rise by `amount` and the depositor count counts a zero-crossing.
    pub fn deposit_token(&mut self, caller: u64, from: u64, token: u64, amount: i128) -> (r:
        Result<BridgeEvent, BridgeError>)
        requires
            old(self).wf(),
            caller == from && amount > 0 ==> old(self).store.pool_value() + amount <= i128::MAX,
        ensures
            final(self).wf(),
            r is Ok <==> caller == from && amount > 0,
            r matches Err(e) ==> *final(self) == *old(self) && e == (if caller != from {
                BridgeError::Authorization
            } else {
                BridgeError::Validation
            }),
            r matches Ok(ev) ==> credit_applied(
                old(self).store,
                final(self).store,
                from,
                amount as int,
            ) && ev.amount == amount && remote_view(ev.remote_asset) == old(self).store.remote_of(
                token,
            ) && ev.counterparty == Counterparty::Local(from),
    {
        if caller != from {
            return Err(BridgeError::Authorization);
        }
        if amount <= 0 {
            return Err(BridgeError::Validation);
        }
        let remote = self.get_token_evm_address(token);
        add_balance(&mut self.store, from, amount);
        Ok(BridgeEvent { amount, remote_asset: remote, counterparty: Counterparty::Local(from) })
    }

    /// Withdraw `amount` of `token`: the caller must be `to`, the amount
    /// positive and no more than the recorded balance.  On success the
    /// ledger is debited and the host then pushes the asset out of custody.
    pub fn withdraw_token(&mut self, caller: u64, to: u64, token: u64, amount: i128) -> (r:
        Result<BridgeEvent, BridgeError>)
        requires
            old(self).wf(),
        ensures
            final(self).wf(),
            r is Ok <==> caller == to && amount > 0 && amount <= old(self).store.user_balance(to),
            r matches Err(e) ==> *final(self) == *old(self) && e == (if caller != to {
                BridgeError::Authorization
            } else if amount <= 0 {
                BridgeError::Validation
            } else {
                BridgeError::InsufficientFunds
            }),
            r matches Ok(ev) ==> debit_applied(
                old(self).store,
                final(self).store,
                to,
                amount as int,
            ) && ev.amount == amount && remote_view(ev.remote_asset) == old(self).store.remote_of(
                token,
            ) && ev.counterparty == Counterparty::Local(to),
    {
        if caller != to {
            return Err(BridgeError::Authorization);
        }
        if amount <= 0 {
            return Err(BridgeError::Validation);
        }
        let cur_balance = self.peek_user_balance(to);
        if amount > cur_balance {
            return Err(BridgeError::InsufficientFunds);
        }
        let remote = self.get_token_evm_address(token);
        subtract_balance(&mut self.store, to, amount);
        Ok(BridgeEvent { amount, remote_asset: remote, counterparty: Counterparty::Local(to) })
    }

    /// Outbound transfer to the remote chain: validation, authorization and
    /// the event payload only.  The host pulls the asset into escrow; the
    /// deposit ledger is not touched on this path.
    pub fn transfer_to_evm(&self, caller: u64, from: u64, to: String, token: u64, amount: i128)
        -> (r: Result<BridgeEvent, BridgeError>)
        requires
            self.wf(),
        ensures
            r is Ok <==> amount >= 0 && caller == from,
            r matches Err(e) ==> e == (if amount < 0 {
                BridgeError::Validation
            } else {
                BridgeError::Authorization
            }),
            r matches Ok(ev) ==> ev.amount == amount && remote_view(ev.remote_asset)
                == self.store.remote_of(token) && ev.counterparty == Counterparty::Remote(to),
    {
        if amount < 0 {
            return Err(BridgeError::Validation);
        }
        if caller != from {
            return Err(BridgeError::Authorization);
        }
        let remote = self.get_token_evm_address(token);
        Ok(BridgeEvent { amount, remote_asset: remote, counterparty: Counterparty::Remote(to) })
    }

    /// Inbound payout of a transfer observed on the remote chain: only the
    /// trusted oracle may trigger it.  The host pushes the asset from custody
    /// to `to`; the deposit ledger is not touched on this path.
    pub fn transfer_payout(&self, caller: u64, oracle: u64, to: u64, token: u64, amount: i128)
        -> (r: Result<BridgeEvent, BridgeError>)
        requires
            self.wf(),
        ensures
            r is Ok <==> amount >= 0 && caller == oracle,
            r matches Err(e) ==> e == (if amount < 0 {
                BridgeError::Validation
            } else {
                BridgeError::Authorization
            }),
            r matches Ok(ev) ==> ev.amount == amount && remote_view(ev.remote_asset)
                == self.store.remote_of(token) && ev.counterparty == Counterparty::Local(to),
    {
        if amount < 0 {
            return Err(BridgeError::Validation);
        }
        if caller != oracle {
            return Err(BridgeError::Authorization);
        }
        let remote = self.get_token_evm_address(token);
        Ok(BridgeEvent { amount, remote_asset: remote, counterparty: Counterparty::Local(to) })
    }

    /// Balance lookup without the lifetime side effect, for validation.
    fn peek_user_balance(&self, user: u64) -> (r: i128)
        requires
            self.wf(),
        ensures
            r == self.store.user_balance(user),
    {
        match find_user(&self.store.users, user) {
            Some(i) => {
                proof {
                    lemma_lookup_at(self.store.users@, user, i as int);
                }
                self.store.users[i].value
            },
            None => {
                proof {
                    lemma_lookup_absent(self.store.users@, user);
                }
                0
            },
        }
    }

    /// The stored balance for `user`, or zero; the read refreshes the
    /// record's remaining lifetime.
    pub fn get_user_balance(&mut self, user: u64) -> (r: i128)
        requires
            old(self).wf(),
        ensures
            final(self).wf(),
            r == old(self).store.user_balance(user),
            read_applied(old(self).store, final(self).store, user),
    {
        read_user_balance(&mut self.store, user)
    }

    /// The pool total, or zero; the read refreshes the record's lifetime.
    pub fn get_pool_balance(&mut self) -> (r: i128)
        requires
            old(self).wf(),
        ensures
            final(self).wf(),
            r == old(self).store.pool_value(),
            final(self).store.pool_value() == old(self).store.pool_value(),
            final(self).store.pool is Some <==> old(self).store.pool is Some,
            slot_ttl(final(self).store.pool) == (if old(self).store.pool is Some {
                refreshed_at(slot_ttl(old(self).store.pool))
            } else {
                slot_ttl(old(self).store.pool)
            }),
            final(self).store.users == old(self).store.users,
            final(self).store.depositors == old(self).store.depositors,
            final(self).store.admin == old(self).store.admin,
            final(self).store.assets == old(self).store.assets,
    {
        read_pool_balance(&mut self.store)
    }

    /// The depositor count, or zero; the read refreshes the record's
    /// lifetime.
    pub fn get_users_count(&mut self) -> (r: i128)
        requires
            old(self).wf(),
        ensures
            final(self).wf(),
            r == old(self).store.depositor_count(),
            final(self).store.depositor_count() == old(self).store.depositor_count(),
            final(self).store.depositors is Some <==> old(self).store.depositors is Some,
            slot_ttl(final(self).store.depositors) == (if old(self).store.depositors is Some {
                refreshed_at(slot_ttl(old(self).store.depositors))
            } else {
                slot_ttl(old(self).store.depositors)
            }),
            final(self).store.users == old(self).store.users,
            final(self).store.pool == old(self).store.pool,
            final(self).store.admin == old(self).store.admin,
            final(self).store.assets == old(self).store.assets,
    {
        read_depositors(&mut self.store)
    }

    /// The remote-chain address configured for `token`, if any.  No
    /// authorization is required and nothing is written.
    pub fn get_token_evm_address(&self, token: u64) -> (r: Option<String>)
        requires
            self.wf(),
        ensures
            remote_view(r) == self.store.remote_of(token),
    {
        match find_asset(&self.store.assets, token) {
            Some(i) => {
                proof {
                    lemma_asset_lookup_at(self.store.assets@, token, i as int);
                }
                Some(self.store.assets[i].remote.clone())
            },
            None => {
                proof {
                    lemma_asset_lookup_absent(self.store.assets@, token);
                }
                None
            },
        }
    }

    /// Configure the remote-chain address for `token`: only the stored
    /// administrator may, and the write overwrites unconditionally.
    pub fn set_token_evm_address(&mut self, caller: u64, token: u64, evm_address: String) -> (r:
        Result<(), BridgeError>)
        requires
            old(self).wf(),
        ensures
            final(self).wf(),
            r is Ok <==> old(self).store.admin == Some(caller),
            r is Err ==> *final(self) == *old(self) && r == Err::<(), BridgeError>(
                BridgeError::Authorization,
            ),
            r is Ok ==> final(self).store.remote_of(token) == Some(evm_address@) && (forall|t: u64|
                t != token ==> final(self).store.remote_of(t) == old(self).store.remote_of(t))
                && final(self).store.users == old(self).store.users && final(self).store.pool
                == old(self).store.pool && final(self).store.depositors == old(
                self,
            ).store.depositors && final(self).store.admin == old(self).store.admin,
    {
        match self.store.admin {
            None => {
                return Err(BridgeError::Authorization);
            },
            Some(a) => {
                if a != caller {
                    return Err(BridgeError::Authorization);
                }
            },
        }
        let ghost s0 = self.store.assets@;
        match find_asset(&self.store.assets, token) {
            Some(i) => {
                let ne = AssetEntry { asset: token, remote: evm_address };
                self.store.assets[i] = ne;
                proof {
                    let s1 = self.store.assets@;
                    lemma_unique_assets_update(s0, i as int, ne);
                    lemma_asset_lookup_at(s1, token, i as int);
                    assert forall|t: u64| t != token implies remote_in(s1, t)
                        == remote_in(s0, t) by {
                        lemma_asset_update_other(s0, i as int, ne, t);
                    }
                }
            },
            None => {
                let ne = AssetEntry { asset: token, remote: evm_address };
                self.store.assets.push(ne);
                proof {
                    let s1 = self.store.assets@;
                    lemma_unique_assets_push(s0, ne);
                    lemma_asset_push_new(s0, ne);
                    assert forall|t: u64| t != token implies remote_in(s1, t)
                        == remote_in(s0, t) by {
                        lemma_asset_push_other(s0, ne, t);
                    }
                }
            },
        }
        Ok(())
    }
}

} // verus!
