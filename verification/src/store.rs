//! Model of the expiring key-value store that holds every ledger record.
//!
//! Each record carries the remaining lifetime (in ledger ticks) of its store
//! entry; a read or write of a record refreshes that lifetime whenever it has
//! fallen below a configured threshold, which is what keeps live ledger
//! entries from lapsing.

use vstd::prelude::*;

verus! {

/// Ticks a refreshed entry stays live after a touch.
pub const BALANCE_BUMP_AMOUNT: u32 = 518400;

/// A touch refreshes an entry whose remaining lifetime fell below this.
pub const BALANCE_LIFETIME_THRESHOLD: u32 = 501120;

/// Remaining lifetime after a touch: bumped when it fell below the threshold.
pub open spec fn refreshed_at(ttl: int) -> int {
    if ttl < BALANCE_LIFETIME_THRESHOLD as int {
        BALANCE_BUMP_AMOUNT as int
    } else {
        ttl
    }
}

/// One user's ledger entry: the recorded balance and the remaining lifetime
/// of the store entry that holds it.
#[derive(Clone, Copy, PartialEq, Eq, Structural)]
pub struct UserEntry {
    pub addr: u64,
    pub value: i128,
    pub ttl: u32,
}

/// A singleton ledger record (pool total or depositor count) with the
/// remaining lifetime of its store entry.
#[derive(Clone, Copy, PartialEq, Eq, Structural)]
pub struct Slot {
    pub value: i128,
    pub ttl: u32,
}

/// One local asset mapped to its remote-chain address.
#[derive(Clone)]
pub struct AssetEntry {
    pub asset: u64,
    pub remote: String,
}

/// The key-addressed persistent store all ledger state lives in: per-user
/// balances, the two aggregate singletons, the administrator, and the
/// asset address map.  An absent balance record reads as zero.
#[derive(Clone)]
pub struct Store {
    pub users: Vec<UserEntry>,
    pub pool: Option<Slot>,
    pub depositors: Option<Slot>,
    pub admin: Option<u64>,
    pub assets: Vec<AssetEntry>,
}

/// Sum of the recorded balances, one entry per address ever touched.
pub open spec fn sum_balances(s: Seq<UserEntry>) -> int
    decreases s.len(),
{
    if s.len() == 0 {
        0
    } else {
        s[0].value + sum_balances(s.drop_first())
    }
}

/// Number of entries with a strictly positive balance.
pub open spec fn count_depositors(s: Seq<UserEntry>) -> int
    decreases s.len(),
{
    if s.len() == 0 {
        0
    } else {
        (if s[0].value > 0 {
            1int
        } else {
            0int
        }) + count_depositors(s.drop_first())
    }
}

/// The balance recorded for `addr`, or zero when no entry exists.
pub open spec fn balance_in(s: Seq<UserEntry>, addr: u64) -> int
    decreases s.len(),
{
    if s.len() == 0 {
        0
    } else if s[0].addr == addr {
        s[0].value as int
    } else {
        balance_in(s.drop_first(), addr)
    }
}

/// Remaining lifetime of `addr`'s entry, or zero when no entry exists.
pub open spec fn ttl_in(s: Seq<UserEntry>, addr: u64) -> int
    decreases s.len(),
{
    if s.len() == 0 {
        0
    } else if s[0].addr == addr {
        s[0].ttl as int
    } else {
        ttl_in(s.drop_first(), addr)
    }
}

/// Whether `addr` has a ledger entry at all.
pub open spec fn touched_in(s: Seq<UserEntry>, addr: u64) -> bool
    decreases s.len(),
{
    if s.len() == 0 {
        false
    } else {
        s[0].addr == addr || touched_in(s.drop_first(), addr)
    }
}

/// At most one entry per address.
pub open spec fn unique_addrs(s: Seq<UserEntry>) -> bool {
    forall|i: int, j: int| 0 <= i < j < s.len() ==> s[i].addr != s[j].addr
}

/// No recorded balance is negative.
pub open spec fn nonnegative_balances(s: Seq<UserEntry>) -> bool {
    forall|i: int| 0 <= i < s.len() ==> s[i].value >= 0
}

/// The remote-chain address mapped to `asset`, if one was configured.
pub open spec fn remote_in(s: Seq<AssetEntry>, asset: u64) -> Option<Seq<char>>
    decreases s.len(),
{
    if s.len() == 0 {
        None
    } else if s[0].asset == asset {
        Some(s[0].remote@)
    } else {
        remote_in(s.drop_first(), asset)
    }
}

/// At most one mapping per asset.
pub open spec fn unique_assets(s: Seq<AssetEntry>) -> bool {
    forall|i: int, j: int| 0 <= i < j < s.len() ==> s[i].asset != s[j].asset
}

/// Value of a singleton record, zero when the record was never written.
pub open spec fn slot_value(s: Option<Slot>) -> int {
    match s {
        Some(c) => c.value as int,
        None => 0,
    }
}

/// Remaining lifetime of a singleton record, zero when absent.
pub open spec fn slot_ttl(s: Option<Slot>) -> int {
    match s {
        Some(c) => c.ttl as int,
        None => 0,
    }
}

impl Store {
    /// The balance the ledger answers for `addr`: the stored value, or zero.
    pub open spec fn user_balance(self, addr: u64) -> int {
        balance_in(self.users@, addr)
    }

    /// Remaining lifetime of `addr`'s balance entry.
    pub open spec fn user_ttl(self, addr: u64) -> int {
        ttl_in(self.users@, addr)
    }

    /// Whether `addr` ever had a balance record written.
    pub open spec fn touched(self, addr: u64) -> bool {
        touched_in(self.users@, addr)
    }

    /// The pool-total aggregate.
    pub open spec fn pool_value(self) -> int {
        slot_value(self.pool)
    }

    /// The depositor-count aggregate.
    pub open spec fn depositor_count(self) -> int {
        slot_value(self.depositors)
    }

    /// Remaining lifetime of the pool-total record.
    pub open spec fn pool_ttl(self) -> int {
        slot_ttl(self.pool)
    }

    /// Remaining lifetime of the depositor-count record.
    pub open spec fn depositors_ttl(self) -> int {
        slot_ttl(self.depositors)
    }

    /// The remote-chain address configured for `asset`, if any.
    pub open spec fn remote_of(self, asset: u64) -> Option<Seq<char>> {
        remote_in(self.assets@, asset)
    }

    /// The ledger's consistency invariant: one entry per address, no
    /// negative balance, and the two aggregates exactly equal to the sum
    /// and the positive-balance count of the individual entries.
    pub open spec fn wf(self) -> bool {
        &&& unique_addrs(self.users@)
        &&& nonnegative_balances(self.users@)
        &&& self.pool_value() == sum_balances(self.users@)
        &&& self.depositor_count() == count_depositors(self.users@)
        &&& unique_assets(self.assets@)
    }
}

pub proof fn lemma_unique_drop_first(s: Seq<UserEntry>)
    requires
        unique_addrs(s),
        s.len() > 0,
    ensures
        unique_addrs(s.drop_first()),
{
    assert forall|x: int, y: int|
        0 <= x < y < s.drop_first().len() implies s.drop_first()[x].addr
        != s.drop_first()[y].addr by {
        assert(s[x + 1].addr != s[y + 1].addr);
    }
}

/// With unique addresses, the entry at any matching index is the one looked up.
pub proof fn lemma_lookup_at(s: Seq<UserEntry>, addr: u64, i: int)
    requires
        unique_addrs(s),
        0 <= i < s.len(),
        s[i].addr == addr,
    ensures
        touched_in(s, addr),
        balance_in(s, addr) == s[i].value,
        ttl_in(s, addr) == s[i].ttl,
    decreases s.len(),
{
    if i == 0 {
    } else {
        assert(s[0].addr != s[i].addr);
        lemma_unique_drop_first(s);
        assert(s.drop_first()[i - 1] == s[i]);
        lemma_lookup_at(s.drop_first(), addr, i - 1);
    }
}

/// An address with no entry reads as zero.
pub proof fn lemma_lookup_absent(s: Seq<UserEntry>, addr: u64)
    requires
        forall|k: int| 0 <= k < s.len() ==> s[k].addr != addr,
    ensures
        !touched_in(s, addr),
        balance_in(s, addr) == 0,
        ttl_in(s, addr) == 0,
    decreases s.len(),
{
    if s.len() == 0 {
    } else {
        assert forall|k: int|
            0 <= k < s.drop_first().len() implies s.drop_first()[k].addr != addr by {
            assert(s[k + 1].addr != addr);
        }
        lemma_lookup_absent(s.drop_first(), addr);
    }
}

/// Rewriting one entry in place leaves every other address's record alone.
pub proof fn lemma_lookup_update_other(s: Seq<UserEntry>, i: int, e: UserEntry, a: u64)
    requires
        0 <= i < s.len(),
        s[i].addr == e.addr,
        a != e.addr,
    ensures
        balance_in(s.update(i, e), a) == balance_in(s, a),
        ttl_in(s.update(i, e), a) == ttl_in(s, a),
        touched_in(s.update(i, e), a) == touched_in(s, a),
    decreases s.len(),
{
    let t = s.update(i, e);
    if i == 0 {
        assert(t.drop_first() =~= s.drop_first());
    } else {
        assert(t[0] == s[0]);
        assert(t.drop_first() =~= s.drop_first().update(i - 1, e));
        if s[0].addr != a {
            assert(s.drop_first()[i - 1] == s[i]);
            lemma_lookup_update_other(s.drop_first(), i - 1, e, a);
        }
    }
}

/// Appending an entry leaves every other address's record alone.
pub proof fn lemma_lookup_push_other(s: Seq<UserEntry>, e: UserEntry, a: u64)
    requires
        a != e.addr,
    ensures
        balance_in(s.push(e), a) == balance_in(s, a),
        ttl_in(s.push(e), a) == ttl_in(s, a),
        touched_in(s.push(e), a) == touched_in(s, a),
    decreases s.len(),
{
    let t = s.push(e);
    if s.len() == 0 {
        assert(t[0] == e);
        assert(t.drop_first() =~= s);
    } else {
        assert(t[0] == s[0]);
        assert(t.drop_first() =~= s.drop_first().push(e));
        if s[0].addr != a {
            lemma_lookup_push_other(s.drop_first(), e, a);
        }
    }
}

/// Appending an entry for a fresh address makes that entry its record.
pub proof fn lemma_lookup_push_new(s: Seq<UserEntry>, e: UserEntry)
    requires
        forall|k: int| 0 <= k < s.len() ==> s[k].addr != e.addr,
    ensures
        touched_in(s.push(e), e.addr),
        balance_in(s.push(e), e.addr) == e.value,
        ttl_in(s.push(e), e.addr) == e.ttl,
    decreases s.len(),
{
    let t = s.push(e);
    if s.len() == 0 {
        assert(t[0] == e);
    } else {
        assert(t[0] == s[0]);
        assert(s[0].addr != e.addr);
        assert(t.drop_first() =~= s.drop_first().push(e));
        assert forall|k: int|
            0 <= k < s.drop_first().len() implies s.drop_first()[k].addr != e.addr by {
            assert(s[k + 1].addr != e.addr);
        }
        lemma_lookup_push_new(s.drop_first(), e);
    }
}

/// How rewriting one entry moves the sum and the depositor count.
pub proof fn lemma_aggregates_update(s: Seq<UserEntry>, i: int, e: UserEntry)
    requires
        0 <= i < s.len(),
    ensures
        sum_balances(s.update(i, e)) == sum_balances(s) - s[i].value + e.value,
        count_depositors(s.update(i, e)) == count_depositors(s) - (if s[i].value > 0 {
            1int
        } else {
            0int
        }) + (if e.value > 0 {
            1int
        } else {
            0int
        }),
    decreases s.len(),
{
    let t = s.update(i, e);
    if i == 0 {
        assert(t.drop_first() =~= s.drop_first());
    } else {
        assert(t[0] == s[0]);
        assert(t.drop_first() =~= s.drop_first().update(i - 1, e));
        assert(s.drop_first()[i - 1] == s[i]);
        lemma_aggregates_update(s.drop_first(), i - 1, e);
    }
}

/// How appending an entry moves the sum and the depositor count.
pub proof fn lemma_aggregates_push(s: Seq<UserEntry>, e: UserEntry)
    ensures
        sum_balances(s.push(e)) == sum_balances(s) + e.value,
        count_depositors(s.push(e)) == count_depositors(s) + (if e.value > 0 {
            1int
        } else {
            0int
        }),
    decreases s.len(),
{
    let t = s.push(e);
    if s.len() == 0 {
        assert(t[0] == e);
        assert(t.drop_first() =~= s);
    } else {
        assert(t[0] == s[0]);
        assert(t.drop_first() =~= s.drop_first().push(e));
        lemma_aggregates_push(s.drop_first(), e);
    }
}

/// A sum of non-negative balances is non-negative.
pub proof fn lemma_sum_nonneg(s: Seq<UserEntry>)
    requires
        nonnegative_balances(s),
    ensures
        sum_balances(s) >= 0,
    decreases s.len(),
{
    if s.len() > 0 {
        assert forall|k: int|
            0 <= k < s.drop_first().len() implies s.drop_first()[k].value >= 0 by {
            assert(s[k + 1].value >= 0);
        }
        lemma_sum_nonneg(s.drop_first());
    }
}

/// An address without an entry reads as zero, with no lifetime.
pub proof fn lemma_untouched_reads_zero(s: Seq<UserEntry>, addr: u64)
    requires
        !touched_in(s, addr),
    ensures
        balance_in(s, addr) == 0,
        ttl_in(s, addr) == 0,
    decreases s.len(),
{
    if s.len() > 0 {
        lemma_untouched_reads_zero(s.drop_first(), addr);
    }
}

/// A looked-up balance is non-negative when no entry is.
pub proof fn lemma_balance_nonneg(s: Seq<UserEntry>, addr: u64)
    requires
        nonnegative_balances(s),
    ensures
        balance_in(s, addr) >= 0,
    decreases s.len(),
{
    if s.len() > 0 && s[0].addr != addr {
        assert forall|k: int|
            0 <= k < s.drop_first().len() implies s.drop_first()[k].value >= 0 by {
            assert(s[k + 1].value >= 0);
        }
        lemma_balance_nonneg(s.drop_first(), addr);
    }
}

/// No single balance exceeds the sum, when none is negative.
pub proof fn lemma_balance_le_sum(s: Seq<UserEntry>, addr: u64)
    requires
        nonnegative_balances(s),
    ensures
        balance_in(s, addr) <= sum_balances(s),
    decreases s.len(),
{
    if s.len() > 0 {
        assert forall|k: int|
            0 <= k < s.drop_first().len() implies s.drop_first()[k].value >= 0 by {
            assert(s[k + 1].value >= 0);
        }
        if s[0].addr == addr {
            lemma_sum_nonneg(s.drop_first());
        } else {
            lemma_balance_le_sum(s.drop_first(), addr);
        }
    }
}

/// The depositor count lies between zero and the number of entries.
pub proof fn lemma_count_bounds(s: Seq<UserEntry>)
    ensures
        0 <= count_depositors(s) <= s.len(),
    decreases s.len(),
{
    if s.len() > 0 {
        lemma_count_bounds(s.drop_first());
    }
}

/// An address with a positive balance witnesses a positive depositor count.
pub proof fn lemma_positive_count(s: Seq<UserEntry>, addr: u64)
    requires
        balance_in(s, addr) > 0,
    ensures
        count_depositors(s) >= 1,
    decreases s.len(),
{
    lemma_count_bounds(s.drop_first());
    if s.len() > 0 && s[0].addr != addr {
        lemma_positive_count(s.drop_first(), addr);
    }
}

/// Rewriting an entry under its own address keeps the addresses unique.
pub proof fn lemma_unique_update(s: Seq<UserEntry>, i: int, e: UserEntry)
    requires
        unique_addrs(s),
        0 <= i < s.len(),
        s[i].addr == e.addr,
    ensures
        unique_addrs(s.update(i, e)),
{
    let t = s.update(i, e);
    assert forall|x: int, y: int| 0 <= x < y < t.len() implies t[x].addr != t[y].addr by {
        assert(s[x].addr != s[y].addr);
    }
}

/// Appending an entry for a fresh address keeps the addresses unique.
pub proof fn lemma_unique_push(s: Seq<UserEntry>, e: UserEntry)
    requires
        unique_addrs(s),
        forall|k: int| 0 <= k < s.len() ==> s[k].addr != e.addr,
    ensures
        unique_addrs(s.push(e)),
{
    let t = s.push(e);
    assert forall|x: int, y: int| 0 <= x < y < t.len() implies t[x].addr != t[y].addr by {
        if y < s.len() {
            assert(s[x].addr != s[y].addr);
        } else {
            assert(s[x].addr != e.addr);
        }
    }
}

pub proof fn lemma_unique_assets_drop_first(s: Seq<AssetEntry>)
    requires
        unique_assets(s),
        s.len() > 0,
    ensures
        unique_assets(s.drop_first()),
{
    assert forall|x: int, y: int|
        0 <= x < y < s.drop_first().len() implies s.drop_first()[x].asset
        != s.drop_first()[y].asset by {
        assert(s[x + 1].asset != s[y + 1].asset);
    }
}

/// With unique asset keys, the mapping at any matching index is the one looked up.
pub proof fn lemma_asset_lookup_at(s: Seq<AssetEntry>, asset: u64, i: int)
    requires
        unique_assets(s),
        0 <= i < s.len(),
        s[i].asset == asset,
    ensures
        remote_in(s, asset) == Some(s[i].remote@),
    decreases s.len(),
{
    if i == 0 {
    } else {
        assert(s[0].asset != s[i].asset);
        lemma_unique_assets_drop_first(s);
        assert(s.drop_first()[i - 1] == s[i]);
        lemma_asset_lookup_at(s.drop_first(), asset, i - 1);
    }
}

/// An asset with no mapping reads as none.
pub proof fn lemma_asset_lookup_absent(s: Seq<AssetEntry>, asset: u64)
    requires
        forall|k: int| 0 <= k < s.len() ==> s[k].asset != asset,
    ensures
        remote_in(s, asset) is None,
    decreases s.len(),
{
    if s.len() > 0 {
        assert forall|k: int|
            0 <= k < s.drop_first().len() implies s.drop_first()[k].asset != asset by {
            assert(s[k + 1].asset != asset);
        }
        lemma_asset_lookup_absent(s.drop_first(), asset);
    }
}

/// Overwriting one mapping leaves every other asset's mapping alone.
pub proof fn lemma_asset_update_other(s: Seq<AssetEntry>, i: int, e: AssetEntry, a: u64)
    requires
        0 <= i < s.len(),
        s[i].asset == e.asset,
        a != e.asset,
    ensures
        remote_in(s.update(i, e), a) == remote_in(s, a),
    decreases s.len(),
{
    let t = s.update(i, e);
    if i == 0 {
        assert(t.drop_first() =~= s.drop_first());
    } else {
        assert(t[0] == s[0]);
        assert(t.drop_first() =~= s.drop_first().update(i - 1, e));
        if s[0].asset != a {
            assert(s.drop_first()[i - 1] == s[i]);
            lemma_asset_update_other(s.drop_first(), i - 1, e, a);
        }
    }
}

/// Appending a mapping leaves every other asset's mapping alone.
pub proof fn lemma_asset_push_other(s: Seq<AssetEntry>, e: AssetEntry, a: u64)
    requires
        a != e.asset,
    ensures
        remote_in(s.push(e), a) == remote_in(s, a),
    decreases s.len(),
{
    let t = s.push(e);
    if s.len() == 0 {
        assert(t[0] == e);
        assert(t.drop_first() =~= s);
    } else {
        assert(t[0] == s[0]);
        assert(t.drop_first() =~= s.drop_first().push(e));
        if s[0].asset != a {
            lemma_asset_push_other(s.drop_first(), e, a);
        }
    }
}

/// Appending a mapping for a fresh asset makes that mapping its record.
pub proof fn lemma_asset_push_new(s: Seq<AssetEntry>, e: AssetEntry)
    requires
        forall|k: int| 0 <= k < s.len() ==> s[k].asset != e.asset,
    ensures
        remote_in(s.push(e), e.asset) == Some(e.remote@),
    decreases s.len(),
{
    let t = s.push(e);
    if s.len() == 0 {
        assert(t[0] == e);
    } else {
        assert(t[0] == s[0]);
        assert(s[0].asset != e.asset);
        assert(t.drop_first() =~= s.drop_first().push(e));
        assert forall|k: int|
            0 <= k < s.drop_first().len() implies s.drop_first()[k].asset != e.asset by {
            assert(s[k + 1].asset != e.asset);
        }
        lemma_asset_push_new(s.drop_first(), e);
    }
}

/// Overwriting a mapping under its own asset keeps the keys unique.
pub proof fn lemma_unique_assets_update(s: Seq<AssetEntry>, i: int, e: AssetEntry)
    requires
        unique_assets(s),
        0 <= i < s.len(),
        s[i].asset == e.asset,
    ensures
        unique_assets(s.update(i, e)),
{
    let t = s.update(i, e);
    assert forall|x: int, y: int| 0 <= x < y < t.len() implies t[x].asset != t[y].asset by {
        assert(s[x].asset != s[y].asset);
    }
}

/// Appending a mapping for a fresh asset keeps the keys unique.
pub proof fn lemma_unique_assets_push(s: Seq<AssetEntry>, e: AssetEntry)
    requires
        unique_assets(s),
        forall|k: int| 0 <= k < s.len() ==> s[k].asset != e.asset,
    ensures
        unique_assets(s.push(e)),
{
    let t = s.push(e);
    assert forall|x: int, y: int| 0 <= x < y < t.len() implies t[x].asset != t[y].asset by {
        if y < s.len() {
            assert(s[x].asset != s[y].asset);
        } else {
            assert(s[x].asset != e.asset);
        }
    }
}

} // verus!
