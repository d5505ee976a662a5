//! The ledger: total supply, balances and allowances, mutated only through
//! atomic operations that preserve the supply invariant.

use vstd::prelude::*;

use crate::allowances::allowance_contains;
use crate::allowances::allowance_keys_unique;
use crate::allowances::allowance_lookup;
use crate::allowances::AllowanceTable;
use crate::balances::balance_contains;
use crate::balances::balance_keys_unique;
use crate::balances::balance_lookup;
use crate::balances::balances_total;
use crate::balances::lemma_lookup_le_total;
use crate::balances::BalanceTable;

verus! {

/// An account identifier: opaque to the ledger beyond equality.
pub type AccountId = u64;

/// An amount of token units.
pub type Balance = u128;

/// Why a mutating operation was refused. On any error the ledger is left
/// exactly as it was.
#[derive(Clone, Copy, Debug, PartialEq, Eq, Structural)]
pub enum Error {
    /// A balance or allowance precondition was not met.
    InsufficientBalance,
    /// Crediting the requested amount would overflow the supply.
    Overflow,
}

/// The record emitted by a successful transfer or delegated transfer.
#[derive(Clone, Copy, Debug, PartialEq, Eq, Structural)]
pub struct Transfer {
    pub from: AccountId,
    pub to: AccountId,
    pub value: Balance,
}

/// The record emitted by a successful burn.
#[derive(Clone, Copy, Debug, PartialEq, Eq, Structural)]
pub struct Burn {
    pub from: AccountId,
    pub value: Balance,
}

/// The record emitted by a successful mint.
#[derive(Clone, Copy, Debug, PartialEq, Eq, Structural)]
pub struct Mint {
    pub from: AccountId,
    pub value: Balance,
}

/// One entry of the ledger's event log.
#[derive(Clone, Copy, Debug, PartialEq, Eq, Structural)]
pub enum Event {
    Transfer(Transfer),
    Burn(Burn),
    Mint(Mint),
}

/// The mathematical state of a ledger: the supply scalar, the two tables as
/// sequences of entries, and the log of emitted records, oldest first.
pub struct LedgerView {
    pub total_supply: Balance,
    pub balances: Seq<(AccountId, Balance)>,
    pub allowances: Seq<(AccountId, AccountId, Balance)>,
    pub events: Seq<Event>,
}

impl LedgerView {
    /// The balance held by `a`: zero for an account never credited.
    pub open spec fn balance_of(self, a: AccountId) -> Balance {
        balance_lookup(self.balances, a)
    }

    /// The amount `owner` has authorized `spender` to move: zero for a pair
    /// never approved.
    pub open spec fn allowance_of(self, owner: AccountId, spender: AccountId) -> Balance {
        allowance_lookup(self.allowances, owner, spender)
    }

    /// Well-formedness: both tables keep their keys distinct, and the sum of
    /// all balances equals the total supply.
    pub open spec fn wf(self) -> bool {
        &&& balance_keys_unique(self.balances)
        &&& allowance_keys_unique(self.allowances)
        &&& balances_total(self.balances) == self.total_supply as int
    }

    /// Every allowance is zero. This holds in every reachable state, because
    /// the ledger exposes no operation that raises an allowance.
    pub open spec fn allowances_all_zero(self) -> bool {
        forall|o: AccountId, s: AccountId| #[trigger] allowance_lookup(self.allowances, o, s) == 0
    }
}

/// How a successful movement of `value` from `from` to `to` relates the view
/// after to the view before: the source is debited and the destination
/// credited by exactly `value` (a self-transfer nets to no change), every
/// other balance and the supply stay, and one Transfer record is appended.
pub open spec fn balances_moved(
    pre: LedgerView,
    post: LedgerView,
    from: AccountId,
    to: AccountId,
    value: Balance,
) -> bool {
    &&& post.total_supply == pre.total_supply
    &&& from != to ==> post.balance_of(from) == pre.balance_of(from) - value
        && post.balance_of(to) == pre.balance_of(to) + value
    &&& from == to ==> post.balance_of(from) == pre.balance_of(from)
    &&& forall|a: AccountId|
        a != from && a != to ==> #[trigger] post.balance_of(a) == pre.balance_of(a)
    &&& post.events == pre.events.push(Event::Transfer(Transfer { from, to, value }))
}

/// The ledger. It owns the supply scalar, the two tables and the event log;
/// the host resolves the calling account and passes it to each operation,
/// and reads emitted records back from the log.
pub struct Erc20 {
    total_supply: Balance,
    balances: BalanceTable,
    allowances: AllowanceTable,
    events: Vec<Event>,
}

impl View for Erc20 {
    type V = LedgerView;

    closed spec fn view(&self) -> LedgerView {
        LedgerView {
            total_supply: self.total_supply,
            balances: self.balances@,
            allowances: self.allowances@,
            events: self.events@,
        }
    }
}

impl Erc20 {
    /// Creates a ledger whose whole initial supply is credited to `creator`,
    /// with no allowances and an empty event log. Cannot fail.
    pub fn new(init_supply: Balance, creator: AccountId) -> (r: Self)
        ensures
            r@.wf(),
            r@.allowances_all_zero(),
            r@.total_supply == init_supply,
            r@.balance_of(creator) == init_supply,
            forall|a: AccountId| a != creator ==> #[trigger] r@.balance_of(a) == 0,
            forall|o: AccountId, s: AccountId| #[trigger] r@.allowance_of(o, s) == 0,
            r@.events == Seq::<Event>::empty(),
    {
        let mut balances = BalanceTable::new();
        balances.insert(creator, init_supply);
        let r = Erc20 {
            total_supply: init_supply,
            balances,
            allowances: AllowanceTable::new(),
            events: Vec::new(),
        };
        proof {
            assert(balance_lookup(Seq::<(AccountId, Balance)>::empty(), creator) == 0);
            assert(balances_total(Seq::<(AccountId, Balance)>::empty()) == 0);
            assert forall|o: AccountId, s: AccountId| #[trigger] r@.allowance_of(o, s) == 0 by {
                assert(allowance_lookup(Seq::<(AccountId, AccountId, Balance)>::empty(), o, s)
                    == 0);
            }
            assert forall|a: AccountId| a != creator implies #[trigger] r@.balance_of(a) == 0 by {
                assert(balance_lookup(Seq::<(AccountId, Balance)>::empty(), a) == 0);
            }
        }
        r
    }

    /// The total number of token units outstanding.
    pub fn total_supply(&self) -> (r: Balance)
        ensures
            r == self@.total_supply,
    {
        self.total_supply
    }

    /// The balance held by `owner`, zero for an account never credited.
    pub fn balance_of(&self, owner: AccountId) -> (r: Balance)
        ensures
            r == self@.balance_of(owner),
    {
        self.balances.get(owner)
    }

    /// The amount `owner` has authorized `spender` to move, zero for a pair
    /// never approved.
    pub fn allowance_of(&self, owner: AccountId, spender: AccountId) -> (r: Balance)
        ensures
            r == self@.allowance_of(owner, spender),
    {
        self.allowances.get(owner, spender)
    }

    /// The log of records emitted by successful operations, oldest first.
    pub fn events(&self) -> (r: &Vec<Event>)
        ensures
            r@ == self@.events,
    {
        &self.events
    }

    /// Moves `value` from `caller` to `to`. Succeeds exactly when `caller`
    /// holds at least `value`; on failure nothing changes.
    pub fn transfer(&mut self, caller: AccountId, to: AccountId, value: Balance) -> (r: Result<
        (),
        Error,
    >)
        requires
            old(self)@.wf(),
        ensures
            final(self)@.wf(),
            final(self)@.allowances == old(self)@.allowances,
            ({
                let pre = old(self)@;
                let post = final(self)@;
                &&& (pre.balance_of(caller) >= value ==> r is Ok && balances_moved(
                    pre,
                    post,
                    caller,
                    to,
                    value,
                ))
                &&& (pre.balance_of(caller) < value ==> r == Err::<(), Error>(
                    Error::InsufficientBalance,
                ) && post == pre)
            }),
    {
        self.transfer_from_to(caller, to, value)
    }

    /// Moves `value` from `from` to `to` on behalf of `spender`. Succeeds
    /// exactly when the allowance granted by `from` to `spender` and the
    /// balance of `from` both cover `value`; the allowance is then reduced by
    /// exactly `value`. On failure neither table changes: both preconditions
    /// are checked before either mutation.
    pub fn transfer_from(
        &mut self,
        spender: AccountId,
        from: AccountId,
        to: AccountId,
        value: Balance,
    ) -> (r: Result<(), Error>)
        requires
            old(self)@.wf(),
        ensures
            final(self)@.wf(),
            ({
                let pre = old(self)@;
                let post = final(self)@;
                &&& (pre.allowance_of(from, spender) >= value && pre.balance_of(from) >= value
                    ==> {
                    &&& r is Ok
                    &&& balances_moved(pre, post, from, to, value)
                    &&& post.allowance_of(from, spender) == pre.allowance_of(from, spender) - value
                    &&& forall|o: AccountId, s: AccountId|
                        !(o == from && s == spender) ==> #[trigger] post.allowance_of(o, s)
                            == pre.allowance_of(o, s)
                })
                &&& (pre.allowance_of(from, spender) < value || pre.balance_of(from) < value ==> {
                    &&& r == Err::<(), Error>(Error::InsufficientBalance)
                    &&& post == pre
                })
                &&& (pre.allowances_all_zero() ==> post.allowances_all_zero())
            }),
    {
        let allowance = self.allowances.get(from, spender);
        if allowance < value {
            return Err(Error::InsufficientBalance);
        }
        let from_balance = self.balances.get(from);
        if from_balance < value {
            return Err(Error::InsufficientBalance);
        }
        self.allowances.insert(from, spender, allowance - value);
        let r = self.transfer_from_to(from, to, value);
        proof {
            if old(self)@.allowances_all_zero() {
                assert forall|o: AccountId, s: AccountId| #[trigger] allowance_lookup(
                    self@.allowances,
                    o,
                    s,
                ) == 0 by {
                    assert(allowance_lookup(old(self)@.allowances, o, s) == 0);
                }
            }
        }
        r
    }

    /// Moves `value` from `from` to `to` when `from` holds at least `value`,
    /// appending one Transfer record; otherwise changes nothing. The
    /// allowance table is never touched.
    fn transfer_from_to(&mut self, from: AccountId, to: AccountId, value: Balance) -> (r: Result<
        (),
        Error,
    >)
        requires
            old(self)@.wf(),
        ensures
            final(self)@.wf(),
            final(self)@.allowances == old(self)@.allowances,
            ({
                let pre = old(self)@;
                let post = final(self)@;
                &&& (pre.balance_of(from) >= value ==> r is Ok && balances_moved(
                    pre,
                    post,
                    from,
                    to,
                    value,
                ))
                &&& (pre.balance_of(from) < value ==> r == Err::<(), Error>(
                    Error::InsufficientBalance,
                ) && post == pre)
            }),
    {
        let from_balance = self.balances.get(from);
        if from_balance < value {
            return Err(Error::InsufficientBalance);
        }
        self.balances.insert(from, from_balance - value);
        let to_balance = self.balances.get(to);
        proof {
            lemma_lookup_le_total(self.balances@, to);
        }
        self.balances.insert(to, to_balance + value);
        self.events.push(Event::Transfer(Transfer { from, to, value }));
        Ok(())
    }

    /// Destroys `value` units held by `caller`: its balance and the total
    /// supply both fall by exactly `value`, and one Burn record is appended.
    /// Succeeds exactly when `caller` holds at least `value`; on failure
    /// nothing changes.
    pub fn burn(&mut self, caller: AccountId, value: Balance) -> (r: Result<(), Error>)
        requires
            old(self)@.wf(),
        ensures
            final(self)@.wf(),
            final(self)@.allowances == old(self)@.allowances,
            ({
                let pre = old(self)@;
                let post = final(self)@;
                &&& (pre.balance_of(caller) >= value ==> {
                    &&& r is Ok
                    &&& post.total_supply == pre.total_supply - value
                    &&& post.balance_of(caller) == pre.balance_of(caller) - value
                    &&& forall|a: AccountId|
                        a != caller ==> #[trigger] post.balance_of(a) == pre.balance_of(a)
                    &&& post.events == pre.events.push(Event::Burn(Burn { from: caller, value }))
                })
                &&& (pre.balance_of(caller) < value ==> r == Err::<(), Error>(
                    Error::InsufficientBalance,
                ) && post == pre)
            }),
    {
        let balance = self.balances.get(caller);
        if balance < value {
            return Err(Error::InsufficientBalance);
        }
        proof {
            lemma_lookup_le_total(self.balances@, caller);
        }
        self.total_supply = self.total_supply - value;
        self.balances.insert(caller, balance - value);
        self.events.push(Event::Burn(Burn { from: caller, value }));
        Ok(())
    }

    /// Creates `value` new units credited to `caller`: its balance and the
    /// total supply both rise by exactly `value`, and one Mint record is
    /// appended. Succeeds for every caller whenever the grown supply still
    /// fits a Balance; otherwise fails with Overflow and nothing changes.
    pub fn mint(&mut self, caller: AccountId, value: Balance) -> (r: Result<(), Error>)
        requires
            old(self)@.wf(),
        ensures
            final(self)@.wf(),
            final(self)@.allowances == old(self)@.allowances,
            ({
                let pre = old(self)@;
                let post = final(self)@;
                &&& (pre.total_supply + value <= Balance::MAX ==> {
                    &&& r is Ok
                    &&& post.total_supply == pre.total_supply + value
                    &&& post.balance_of(caller) == pre.balance_of(caller) + value
                    &&& forall|a: AccountId|
                        a != caller ==> #[trigger] post.balance_of(a) == pre.balance_of(a)
                    &&& post.events == pre.events.push(Event::Mint(Mint { from: caller, value }))
                })
                &&& (pre.total_supply + value > Balance::MAX ==> r == Err::<(), Error>(
                    Error::Overflow,
                ) && post == pre)
            }),
    {
        if value > Balance::MAX - self.total_supply {
            return Err(Error::Overflow);
        }
        let balance = self.balances.get(caller);
        proof {
            lemma_lookup_le_total(self.balances@, caller);
        }
        self.total_supply = self.total_supply + value;
        self.balances.insert(caller, balance + value);
        self.events.push(Event::Mint(Mint { from: caller, value }));
        Ok(())
    }
}

/// Law: in a well-formed ledger no single balance exceeds the total supply.
pub proof fn lemma_balance_le_total_supply(v: LedgerView, a: AccountId)
    requires
        v.wf(),
    ensures
        v.balance_of(a) <= v.total_supply,
{
    lemma_lookup_le_total(v.balances, a);
}

/// Law: an account that no balance entry carries holds a balance of zero.
pub proof fn lemma_uncredited_balance_zero(v: LedgerView, a: AccountId)
    requires
        !balance_contains(v.balances, a),
    ensures
        v.balance_of(a) == 0,
{
    crate::balances::lemma_absent_lookup_zero(v.balances, a);
}

/// Law: a pair that no allowance entry carries has an allowance of zero.
pub proof fn lemma_unapproved_allowance_zero(v: LedgerView, owner: AccountId, spender: AccountId)
    requires
        !allowance_contains(v.allowances, owner, spender),
    ensures
        v.allowance_of(owner, spender) == 0,
{
    crate::allowances::lemma_absent_lookup_zero(v.allowances, owner, spender);
}

/// Law: the ledger exposes no operation that raises an allowance, so in any
/// state where every allowance is zero (as in every reachable state) a
/// delegated transfer of a positive amount cannot meet its allowance
/// precondition.
pub proof fn lemma_delegated_transfer_starved(
    v: LedgerView,
    from: AccountId,
    spender: AccountId,
    value: Balance,
)
    requires
        v.allowances_all_zero(),
        value > 0,
    ensures
        v.allowance_of(from, spender) < value,
{
}

} // verus!
