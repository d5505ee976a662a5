//! The allowance table: (owner, spender) pairs mapped to amounts an owner
//! has authorized a spender to move on its behalf.

use vstd::prelude::*;

verus! {

/// A table of allowances: a vector of (owner, spender, amount) entries whose
/// (owner, spender) pairs are pairwise distinct. A pair that carries no entry
/// stands for an allowance of zero.
pub struct AllowanceTable {
    entries: Vec<(u64, u64, u128)>,
}

/// The amount recorded for the pair `(o, sp)`: the value of the first entry
/// carrying that pair, or zero when no entry does.
pub open spec fn allowance_lookup(s: Seq<(u64, u64, u128)>, o: u64, sp: u64) -> u128
    decreases s.len(),
{
    if s.len() == 0 {
        0
    } else if s[0].0 == o && s[0].1 == sp {
        s[0].2
    } else {
        allowance_lookup(s.skip(1), o, sp)
    }
}

/// Whether some entry of `s` carries the pair `(o, sp)`.
pub open spec fn allowance_contains(s: Seq<(u64, u64, u128)>, o: u64, sp: u64) -> bool {
    exists|i: int| 0 <= i < s.len() && (#[trigger] s[i]).0 == o && s[i].1 == sp
}

/// No two entries of `s` share an (owner, spender) pair.
pub open spec fn allowance_keys_unique(s: Seq<(u64, u64, u128)>) -> bool {
    forall|i: int, j: int|
        0 <= i < j < s.len() ==> !((#[trigger] s[i]).0 == (#[trigger] s[j]).0 && s[i].1 == s[j].1)
}

/// When every entry of `s` misses the pair `(o, sp)`, its lookup is zero.
proof fn lemma_miss_all_lookup_zero(s: Seq<(u64, u64, u128)>, o: u64, sp: u64)
    requires
        forall|j: int| 0 <= j < s.len() ==> !((#[trigger] s[j]).0 == o && s[j].1 == sp),
    ensures
        allowance_lookup(s, o, sp) == 0,
    decreases s.len(),
{
    if s.len() > 0 {
        assert forall|j: int| 0 <= j < s.skip(1).len() implies !((#[trigger] s.skip(1)[j]).0 == o
            && s.skip(1)[j].1 == sp) by {
            assert(s.skip(1)[j] == s[j + 1]);
        }
        lemma_miss_all_lookup_zero(s.skip(1), o, sp);
    }
}

/// A pair that no entry carries looks up to zero.
pub proof fn lemma_absent_lookup_zero(s: Seq<(u64, u64, u128)>, o: u64, sp: u64)
    requires
        !allowance_contains(s, o, sp),
    ensures
        allowance_lookup(s, o, sp) == 0,
{
    assert(forall|j: int| 0 <= j < s.len() ==> !((#[trigger] s[j]).0 == o && s[j].1 == sp));
    lemma_miss_all_lookup_zero(s, o, sp);
}

/// Overwriting the amount at position `i` makes the pair of that entry look
/// up to the new amount, provided no earlier entry carries the same pair.
proof fn lemma_update_hit(s: Seq<(u64, u64, u128)>, i: int, v: u128)
    requires
        0 <= i < s.len(),
        forall|j: int| 0 <= j < i ==> !((#[trigger] s[j]).0 == s[i].0 && s[j].1 == s[i].1),
    ensures
        allowance_lookup(s.update(i, (s[i].0, s[i].1, v)), s[i].0, s[i].1) == v,
    decreases i,
{
    let t = s.update(i, (s[i].0, s[i].1, v));
    if i == 0 {
        assert(t[0] == (s[0].0, s[0].1, v));
    } else {
        assert(t[0] == s[0]);
        assert(!(s[0].0 == s[i].0 && s[0].1 == s[i].1));
        assert(t.skip(1) =~= s.skip(1).update(i - 1, (s[i].0, s[i].1, v)));
        assert(s.skip(1)[i - 1] == s[i]);
        assert forall|j: int| 0 <= j < i - 1 implies !((#[trigger] s.skip(1)[j]).0 == s.skip(1)[i
            - 1].0 && s.skip(1)[j].1 == s.skip(1)[i - 1].1) by {
            assert(s.skip(1)[j] == s[j + 1]);
        }
        lemma_update_hit(s.skip(1), i - 1, v);
    }
}

/// Overwriting the amount at position `i` leaves every other pair's lookup
/// unchanged.
proof fn lemma_update_miss(s: Seq<(u64, u64, u128)>, i: int, v: u128, o2: u64, sp2: u64)
    requires
        0 <= i < s.len(),
        !(o2 == s[i].0 && sp2 == s[i].1),
    ensures
        allowance_lookup(s.update(i, (s[i].0, s[i].1, v)), o2, sp2) == allowance_lookup(s, o2, sp2),
    decreases s.len(),
{
    let t = s.update(i, (s[i].0, s[i].1, v));
    if i == 0 {
        assert(t[0] == (s[0].0, s[0].1, v));
        assert(t.skip(1) =~= s.skip(1));
    } else {
        assert(t[0] == s[0]);
        if !(s[0].0 == o2 && s[0].1 == sp2) {
            assert(t.skip(1) =~= s.skip(1).update(i - 1, (s[i].0, s[i].1, v)));
            assert(s.skip(1)[i - 1] == s[i]);
            lemma_update_miss(s.skip(1), i - 1, v, o2, sp2);
        }
    }
}

/// Appending an entry for a pair that no entry carries makes that pair look
/// up to the appended amount.
proof fn lemma_push_hit(s: Seq<(u64, u64, u128)>, o: u64, sp: u64, v: u128)
    requires
        forall|j: int| 0 <= j < s.len() ==> !((#[trigger] s[j]).0 == o && s[j].1 == sp),
    ensures
        allowance_lookup(s.push((o, sp, v)), o, sp) == v,
    decreases s.len(),
{
    let t = s.push((o, sp, v));
    if s.len() == 0 {
        assert(t[0] == (o, sp, v));
    } else {
        assert(t[0] == s[0]);
        assert(!(s[0].0 == o && s[0].1 == sp));
        assert(t.skip(1) =~= s.skip(1).push((o, sp, v)));
        assert forall|j: int| 0 <= j < s.skip(1).len() implies !((#[trigger] s.skip(1)[j]).0 == o
            && s.skip(1)[j].1 == sp) by {
            assert(s.skip(1)[j] == s[j + 1]);
        }
        lemma_push_hit(s.skip(1), o, sp, v);
    }
}

/// Appending an entry leaves every other pair's lookup unchanged.
proof fn lemma_push_miss(s: Seq<(u64, u64, u128)>, o: u64, sp: u64, v: u128, o2: u64, sp2: u64)
    requires
        !(o2 == o && sp2 == sp),
    ensures
        allowance_lookup(s.push((o, sp, v)), o2, sp2) == allowance_lookup(s, o2, sp2),
    decreases s.len(),
{
    let t = s.push((o, sp, v));
    if s.len() == 0 {
        assert(t[0] == (o, sp, v));
        assert(t.skip(1) =~= s);
    } else {
        assert(t[0] == s[0]);
        if !(s[0].0 == o2 && s[0].1 == sp2) {
            assert(t.skip(1) =~= s.skip(1).push((o, sp, v)));
            lemma_push_miss(s.skip(1), o, sp, v, o2, sp2);
        }
    }
}

impl View for AllowanceTable {
    type V = Seq<(u64, u64, u128)>;

    closed spec fn view(&self) -> Seq<(u64, u64, u128)> {
        self.entries@
    }
}

impl AllowanceTable {
    /// An empty table: every pair looks up to zero.
    pub fn new() -> (r: Self)
        ensures
            r@ == Seq::<(u64, u64, u128)>::empty(),
            allowance_keys_unique(r@),
    {
        AllowanceTable { entries: Vec::new() }
    }

    /// The amount recorded for `(o, sp)`, zero when the pair carries no entry.
    pub fn get(&self, o: u64, sp: u64) -> (r: u128)
        ensures
            r == allowance_lookup(self@, o, sp),
    {
        let ghost s = self.entries@;
        let n = self.entries.len();
        proof {
            assert(s.skip(0) =~= s);
        }
        let mut i: usize = 0;
        while i < n
            invariant
                0 <= i <= n,
                n == s.len(),
                s == self.entries@,
                allowance_lookup(s, o, sp) == allowance_lookup(s.skip(i as int), o, sp),
            decreases n - i,
        {
            proof {
                assert(s.skip(i as int)[0] == s[i as int]);
            }
            if self.entries[i].0 == o && self.entries[i].1 == sp {
                return self.entries[i].2;
            }
            proof {
                assert(s.skip(i as int).skip(1) =~= s.skip(i as int + 1));
            }
            i += 1;
        }
        proof {
            assert(s.skip(n as int) =~= Seq::<(u64, u64, u128)>::empty());
        }
        0
    }

    /// Records amount `v` for the pair `(o, sp)`: overwrites the entry
    /// carrying that pair, or appends a new entry when the pair is absent.
    /// Other pairs keep their amounts.
    pub fn insert(&mut self, o: u64, sp: u64, v: u128)
        requires
            allowance_keys_unique(old(self)@),
        ensures
            allowance_keys_unique(final(self)@),
            allowance_lookup(final(self)@, o, sp) == v,
            forall|o2: u64, sp2: u64|
                !(o2 == o && sp2 == sp) ==> allowance_lookup(final(self)@, o2, sp2)
                    == allowance_lookup(old(self)@, o2, sp2),
    {
        let ghost s0 = self.entries@;
        let n = self.entries.len();
        let mut i: usize = 0;
        while i < n
            invariant
                0 <= i <= n,
                n == s0.len(),
                s0 == self.entries@,
                s0 == old(self)@,
                allowance_keys_unique(s0),
                forall|j: int| 0 <= j < i ==> !((#[trigger] s0[j]).0 == o && s0[j].1 == sp),
            decreases n - i,
        {
            if self.entries[i].0 == o && self.entries[i].1 == sp {
                self.entries[i] = (o, sp, v);
                proof {
                    let t = self.entries@;
                    assert(t == s0.update(i as int, (s0[i as int].0, s0[i as int].1, v)));
                    lemma_update_hit(s0, i as int, v);
                    assert forall|o2: u64, sp2: u64| !(o2 == o && sp2 == sp) implies allowance_lookup(
                        t,
                        o2,
                        sp2,
                    ) == allowance_lookup(s0, o2, sp2) by {
                        lemma_update_miss(s0, i as int, v, o2, sp2);
                    }
                    assert forall|a: int, b: int| 0 <= a < b < t.len() implies !((#[trigger] t[a]).0
                        == (#[trigger] t[b]).0 && t[a].1 == t[b].1) by {
                        assert(!(s0[a].0 == s0[b].0 && s0[a].1 == s0[b].1));
                        assert(t[a].0 == s0[a].0 && t[a].1 == s0[a].1);
                        assert(t[b].0 == s0[b].0 && t[b].1 == s0[b].1);
                    }
                }
                return;
            }
            i += 1;
        }
        self.entries.push((o, sp, v));
        proof {
            let t = self.entries@;
            assert(t == s0.push((o, sp, v)));
            lemma_push_hit(s0, o, sp, v);
            assert forall|o2: u64, sp2: u64| !(o2 == o && sp2 == sp) implies allowance_lookup(
                t,
                o2,
                sp2,
            ) == allowance_lookup(s0, o2, sp2) by {
                lemma_push_miss(s0, o, sp, v, o2, sp2);
            }
            assert forall|a: int, b: int| 0 <= a < b < t.len() implies !((#[trigger] t[a]).0
                == (#[trigger] t[b]).0 && t[a].1 == t[b].1) by {
                if b < s0.len() {
                    assert(t[a] == s0[a]);
                    assert(t[b] == s0[b]);
                } else {
                    assert(t[b] == (o, sp, v));
                    assert(t[a] == s0[a]);
                    assert(!(s0[a].0 == o && s0[a].1 == sp));
                }
            }
        }
    }
}

} // verus!
