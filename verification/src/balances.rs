//! The balance table: account keys mapped to token amounts.

use vstd::prelude::*;

verus! {

/// A table of account balances: a vector of (key, amount) entries whose keys
/// are pairwise distinct. A key that carries no entry stands for a balance of
/// zero, so an account is never materialized before its first credit.
pub struct BalanceTable {
    entries: Vec<(u64, u128)>,
}

/// The amount recorded for key `k`: the value of the first entry carrying
/// `k`, or zero when no entry does.
pub open spec fn balance_lookup(s: Seq<(u64, u128)>, k: u64) -> u128
    decreases s.len(),
{
    if s.len() == 0 {
        0
    } else if s[0].0 == k {
        s[0].1
    } else {
        balance_lookup(s.skip(1), k)
    }
}

/// Whether some entry of `s` carries the key `k`.
pub open spec fn balance_contains(s: Seq<(u64, u128)>, k: u64) -> bool {
    exists|i: int| 0 <= i < s.len() && (#[trigger] s[i]).0 == k
}

/// The sum of all amounts recorded in `s`.
pub open spec fn balances_total(s: Seq<(u64, u128)>) -> int
    decreases s.len(),
{
    if s.len() == 0 {
        0
    } else {
        s[0].1 + balances_total(s.skip(1))
    }
}

/// No two entries of `s` share a key.
pub open spec fn balance_keys_unique(s: Seq<(u64, u128)>) -> bool {
    forall|i: int, j: int| 0 <= i < j < s.len() ==> (#[trigger] s[i]).0 != (#[trigger] s[j]).0
}

/// The total of a table is never negative.
pub proof fn lemma_total_nonneg(s: Seq<(u64, u128)>)
    ensures
        balances_total(s) >= 0,
    decreases s.len(),
{
    if s.len() > 0 {
        lemma_total_nonneg(s.skip(1));
    }
}

/// No single recorded balance exceeds the total of the table.
pub proof fn lemma_lookup_le_total(s: Seq<(u64, u128)>, k: u64)
    ensures
        0 <= balance_lookup(s, k) <= balances_total(s),
    decreases s.len(),
{
    if s.len() > 0 {
        lemma_total_nonneg(s.skip(1));
        lemma_lookup_le_total(s.skip(1), k);
    }
}

/// When every entry of `s` misses `k`, the lookup of `k` is zero.
proof fn lemma_miss_all_lookup_zero(s: Seq<(u64, u128)>, k: u64)
    requires
        forall|j: int| 0 <= j < s.len() ==> (#[trigger] s[j]).0 != k,
    ensures
        balance_lookup(s, k) == 0,
    decreases s.len(),
{
    if s.len() > 0 {
        assert forall|j: int| 0 <= j < s.skip(1).len() implies (#[trigger] s.skip(1)[j]).0 != k by {
            assert(s.skip(1)[j] == s[j + 1]);
        }
        lemma_miss_all_lookup_zero(s.skip(1), k);
    }
}

/// A key that no entry carries looks up to zero.
pub proof fn lemma_absent_lookup_zero(s: Seq<(u64, u128)>, k: u64)
    requires
        !balance_contains(s, k),
    ensures
        balance_lookup(s, k) == 0,
{
    assert(forall|j: int| 0 <= j < s.len() ==> (#[trigger] s[j]).0 != k);
    lemma_miss_all_lookup_zero(s, k);
}

/// When the first entry carrying `k` stands at position `i`, the lookup of
/// `k` returns its amount.
proof fn lemma_lookup_hit(s: Seq<(u64, u128)>, i: int, k: u64)
    requires
        0 <= i < s.len(),
        s[i].0 == k,
        forall|j: int| 0 <= j < i ==> (#[trigger] s[j]).0 != k,
    ensures
        balance_lookup(s, k) == s[i].1,
    decreases i,
{
    if i > 0 {
        assert(s[0].0 != k);
        assert forall|j: int| 0 <= j < i - 1 implies (#[trigger] s.skip(1)[j]).0 != k by {
            assert(s.skip(1)[j] == s[j + 1]);
        }
        assert(s.skip(1)[i - 1] == s[i]);
        lemma_lookup_hit(s.skip(1), i - 1, k);
    }
}

/// Overwriting the amount at position `i` makes the key of that entry look
/// up to the new amount, provided no earlier entry carries the same key.
proof fn lemma_update_hit(s: Seq<(u64, u128)>, i: int, v: u128)
    requires
        0 <= i < s.len(),
        forall|j: int| 0 <= j < i ==> (#[trigger] s[j]).0 != s[i].0,
    ensures
        balance_lookup(s.update(i, (s[i].0, v)), s[i].0) == v,
    decreases i,
{
    let t = s.update(i, (s[i].0, v));
    if i == 0 {
        assert(t[0] == (s[0].0, v));
    } else {
        assert(t[0] == s[0]);
        assert(s[0].0 != s[i].0);
        assert(t.skip(1) =~= s.skip(1).update(i - 1, (s[i].0, v)));
        assert(s.skip(1)[i - 1] == s[i]);
        assert forall|j: int| 0 <= j < i - 1 implies (#[trigger] s.skip(1)[j]).0 != s.skip(1)[i - 1].0 by {
            assert(s.skip(1)[j] == s[j + 1]);
        }
        lemma_update_hit(s.skip(1), i - 1, v);
    }
}

/// Overwriting the amount at position `i` leaves every other key's lookup
/// unchanged.
proof fn lemma_update_miss(s: Seq<(u64, u128)>, i: int, v: u128, k2: u64)
    requires
        0 <= i < s.len(),
        k2 != s[i].0,
    ensures
        balance_lookup(s.update(i, (s[i].0, v)), k2) == balance_lookup(s, k2),
    decreases s.len(),
{
    let t = s.update(i, (s[i].0, v));
    if i == 0 {
        assert(t[0] == (s[0].0, v));
        assert(t.skip(1) =~= s.skip(1));
    } else {
        assert(t[0] == s[0]);
        if s[0].0 != k2 {
            assert(t.skip(1) =~= s.skip(1).update(i - 1, (s[i].0, v)));
            assert(s.skip(1)[i - 1] == s[i]);
            lemma_update_miss(s.skip(1), i - 1, v, k2);
        }
    }
}

/// Overwriting the amount at position `i` changes the total by the
/// difference of the new and the old amount.
proof fn lemma_total_update(s: Seq<(u64, u128)>, i: int, v: u128)
    requires
        0 <= i < s.len(),
    ensures
        balances_total(s.update(i, (s[i].0, v))) == balances_total(s) - s[i].1 + v,
    decreases s.len(),
{
    let t = s.update(i, (s[i].0, v));
    if i == 0 {
        assert(t[0] == (s[0].0, v));
        assert(t.skip(1) =~= s.skip(1));
    } else {
        assert(t[0] == s[0]);
        assert(t.skip(1) =~= s.skip(1).update(i - 1, (s[i].0, v)));
        assert(s.skip(1)[i - 1] == s[i]);
        lemma_total_update(s.skip(1), i - 1, v);
    }
}

/// Appending an entry for a key that no entry carries makes that key look up
/// to the appended amount.
proof fn lemma_push_hit(s: Seq<(u64, u128)>, k: u64, v: u128)
    requires
        forall|j: int| 0 <= j < s.len() ==> (#[trigger] s[j]).0 != k,
    ensures
        balance_lookup(s.push((k, v)), k) == v,
    decreases s.len(),
{
    let t = s.push((k, v));
    if s.len() == 0 {
        assert(t[0] == (k, v));
    } else {
        assert(t[0] == s[0]);
        assert(s[0].0 != k);
        assert(t.skip(1) =~= s.skip(1).push((k, v)));
        assert forall|j: int| 0 <= j < s.skip(1).len() implies (#[trigger] s.skip(1)[j]).0 != k by {
            assert(s.skip(1)[j] == s[j + 1]);
        }
        lemma_push_hit(s.skip(1), k, v);
    }
}

/// Appending an entry leaves every other key's lookup unchanged.
proof fn lemma_push_miss(s: Seq<(u64, u128)>, k: u64, v: u128, k2: u64)
    requires
        k2 != k,
    ensures
        balance_lookup(s.push((k, v)), k2) == balance_lookup(s, k2),
    decreases s.len(),
{
    let t = s.push((k, v));
    if s.len() == 0 {
        assert(t[0] == (k, v));
        assert(t.skip(1) =~= s);
    } else {
        assert(t[0] == s[0]);
        if s[0].0 != k2 {
            assert(t.skip(1) =~= s.skip(1).push((k, v)));
            lemma_push_miss(s.skip(1), k, v, k2);
        }
    }
}

/// Appending an entry raises the total by the appended amount.
proof fn lemma_total_push(s: Seq<(u64, u128)>, k: u64, v: u128)
    ensures
        balances_total(s.push((k, v))) == balances_total(s) + v,
    decreases s.len(),
{
    let t = s.push((k, v));
    if s.len() == 0 {
        assert(t[0] == (k, v));
        assert(t.skip(1) =~= s);
    } else {
        assert(t[0] == s[0]);
        assert(t.skip(1) =~= s.skip(1).push((k, v)));
        lemma_total_push(s.skip(1), k, v);
    }
}

impl View for BalanceTable {
    type V = Seq<(u64, u128)>;

    closed spec fn view(&self) -> Seq<(u64, u128)> {
        self.entries@
    }
}

impl BalanceTable {
    /// An empty table: every key looks up to zero and the total is zero.
    pub fn new() -> (r: Self)
        ensures
            r@ == Seq::<(u64, u128)>::empty(),
            balance_keys_unique(r@),
            balances_total(r@) == 0,
    {
        BalanceTable { entries: Vec::new() }
    }

    /// The amount recorded for `k`, zero when `k` carries no entry.
    pub fn get(&self, k: u64) -> (r: u128)
        ensures
            r == balance_lookup(self@, k),
    {
        let ghost s = self.entries@;
        let n = self.entries.len();
        proof {
            assert(s.skip(0) =~= s);
        }
        let mut i: usize = 0;
        while i < n
            invariant
                0 <= i <= n,
                n == s.len(),
                s == self.entries@,
                balance_lookup(s, k) == balance_lookup(s.skip(i as int), k),
            decreases n - i,
        {
            proof {
                assert(s.skip(i as int)[0] == s[i as int]);
            }
            if self.entries[i].0 == k {
                return self.entries[i].1;
            }
            proof {
                assert(s.skip(i as int).skip(1) =~= s.skip(i as int + 1));
            }
            i += 1;
        }
        proof {
            assert(s.skip(n as int) =~= Seq::<(u64, u128)>::empty());
        }
        0
    }

    /// Records amount `v` for key `k`: overwrites the entry carrying `k`, or
    /// appends a new entry when `k` is absent. Other keys keep their amounts
    /// and the total moves by exactly the difference.
    pub fn insert(&mut self, k: u64, v: u128)
        requires
            balance_keys_unique(old(self)@),
        ensures
            balance_keys_unique(final(self)@),
            balance_lookup(final(self)@, k) == v,
            forall|k2: u64| k2 != k ==> balance_lookup(final(self)@, k2) == balance_lookup(old(self)@, k2),
            balances_total(final(self)@) == balances_total(old(self)@) - balance_lookup(old(self)@, k) + v,
    {
        let ghost s0 = self.entries@;
        let n = self.entries.len();
        let mut i: usize = 0;
        while i < n
            invariant
                0 <= i <= n,
                n == s0.len(),
                s0 == self.entries@,
                s0 == old(self)@,
                balance_keys_unique(s0),
                forall|j: int| 0 <= j < i ==> (#[trigger] s0[j]).0 != k,
            decreases n - i,
        {
            if self.entries[i].0 == k {
                self.entries[i] = (k, v);
                proof {
                    let t = self.entries@;
                    assert(t == s0.update(i as int, (s0[i as int].0, v)));
                    lemma_lookup_hit(s0, i as int, k);
                    lemma_update_hit(s0, i as int, v);
                    lemma_total_update(s0, i as int, v);
                    assert forall|k2: u64| k2 != k implies balance_lookup(t, k2) == balance_lookup(s0, k2) by {
                        lemma_update_miss(s0, i as int, v, k2);
                    }
                    assert forall|a: int, b: int| 0 <= a < b < t.len() implies (#[trigger] t[a]).0 != (#[trigger] t[b]).0 by {
                        assert(s0[a].0 != s0[b].0);
                        assert(t[a].0 == s0[a].0);
                        assert(t[b].0 == s0[b].0);
                    }
                }
                return;
            }
            i += 1;
        }
        self.entries.push((k, v));
        proof {
            let t = self.entries@;
            assert(t == s0.push((k, v)));
            lemma_miss_all_lookup_zero(s0, k);
            lemma_push_hit(s0, k, v);
            lemma_total_push(s0, k, v);
            assert forall|k2: u64| k2 != k implies balance_lookup(t, k2) == balance_lookup(s0, k2) by {
                lemma_push_miss(s0, k, v, k2);
            }
            assert forall|a: int, b: int| 0 <= a < b < t.len() implies (#[trigger] t[a]).0 != (#[trigger] t[b]).0 by {
                if b < s0.len() {
                    assert(t[a] == s0[a]);
                    assert(t[b] == s0[b]);
                } else {
                    assert(t[b] == (k, v));
                    assert(t[a] == s0[a]);
                    assert(s0[a].0 != k);
                }
            }
        }
    }
}

} // verus!
