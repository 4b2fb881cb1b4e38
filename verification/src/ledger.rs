//! The staking ledger itself: a map from accounts to staked balances and a
//! running total kept equal to the sum of those balances.
//!
//! Overflow policy: balances are 128-bit, wide enough that overflow is
//! unreachable in realistic use; `stake` nevertheless demands of its caller
//! that the new total fits, so the arithmetic is proved exact — the ledger
//! never wraps silently.

use std::collections::HashMap;
use vstd::prelude::*;

use crate::sums::{lemma_entry_le_sum, lemma_sum_empty, lemma_sum_insert, sum_of};

verus! {

/// An account is an opaque key supplied by the caller's execution context;
/// here it is carried as a plain integer identifier.
pub type AccountId = u64;

/// A staked amount: a non-negative integer quantity.
pub type Balance = u128;

/// The balance a map records for an account, zero when the account is absent.
pub open spec fn stake_of(m: Map<AccountId, Balance>, a: AccountId) -> Balance {
    if m.contains_key(a) {
        m[a]
    } else {
        0
    }
}

/// The one failure the ledger can report: a withdrawal larger than the
/// caller's recorded balance.
#[derive(Clone, Copy, Debug, PartialEq, Eq, Structural)]
pub enum StakingError {
    InsufficientStake,
}

impl StakingError {
    /// A human-readable description of the failure.
    pub fn message(&self) -> (r: &'static str)
        ensures
            r@ == "Not enough staked"@,
    {
        "Not enough staked"
    }
}

/// The ledger: per-account staked balances and their running total.
pub struct StakingContract {
    stakes: HashMap<AccountId, Balance>,
    total_staked: Balance,
}

impl View for StakingContract {
    type V = Map<AccountId, Balance>;

    /// A ledger is abstractly the map it records: the total is determined by
    /// that map through the well-formedness invariant.
    closed spec fn view(&self) -> Map<AccountId, Balance> {
        self.stakes@
    }
}

impl StakingContract {
    /// The recorded running total.
    pub closed spec fn spec_total_staked(&self) -> Balance {
        self.total_staked
    }

    /// Well-formedness: the running total equals the sum of all recorded
    /// balances. Established at construction, preserved by every operation.
    pub closed spec fn wf(&self) -> bool {
        &&& self.stakes@.dom().finite()
        &&& self.total_staked == sum_of(self.stakes@)
    }

    /// A fresh ledger: no entries, zero total.
    pub fn new() -> (r: StakingContract)
        ensures
            r.wf(),
            r@ == Map::<AccountId, Balance>::empty(),
            r.spec_total_staked() == 0,
            forall|a: AccountId| stake_of(r@, a) == 0,
    {
        proof {
            lemma_sum_empty();
        }
        StakingContract { stakes: HashMap::new(), total_staked: 0 }
    }

    /// Deposit `amount` for `caller`: the caller's balance and the running
    /// total each grow by exactly `amount`; every other account is untouched.
    /// Always succeeds; the precondition only keeps the 128-bit total from
    /// overflowing.
    pub fn stake(&mut self, caller: AccountId, amount: Balance)
        requires
            old(self).wf(),
            old(self).spec_total_staked() + amount <= u128::MAX,
        ensures
            final(self).wf(),
            final(self)@ == old(self)@.insert(
                caller,
                (stake_of(old(self)@, caller) + amount) as Balance,
            ),
            stake_of(final(self)@, caller) == stake_of(old(self)@, caller) + amount,
            forall|a: AccountId|
                a != caller ==> stake_of(final(self)@, a) == stake_of(old(self)@, a),
            final(self).spec_total_staked() == old(self).spec_total_staked() + amount,
            sum_of(final(self)@) == sum_of(old(self)@) + amount,
    {
        let current: Balance = match self.stakes.get(&caller) {
            Some(v) => *v,
            None => 0,
        };
        proof {
            if old(self).stakes@.contains_key(caller) {
                lemma_entry_le_sum(old(self).stakes@, caller);
            }
        }
        let updated: Balance = current + amount;
        self.stakes.insert(caller, updated);
        proof {
            lemma_sum_insert(old(self).stakes@, caller, updated);
        }
        self.total_staked = self.total_staked + amount;
    }

    /// Withdraw `amount` for `caller`. Succeeds exactly when the caller's
    /// recorded balance covers the request, in which case that balance and
    /// the running total each shrink by exactly `amount` and every other
    /// account is untouched. Otherwise it reports `InsufficientStake` and
    /// leaves the ledger unchanged.
    pub fn unstake(&mut self, caller: AccountId, amount: Balance) -> (r: Result<
        (),
        StakingError,
    >)
        requires
            old(self).wf(),
        ensures
            final(self).wf(),
            amount <= stake_of(old(self)@, caller) ==> {
                &&& r == Ok::<(), StakingError>(())
                &&& final(self)@ == old(self)@.insert(
                    caller,
                    (stake_of(old(self)@, caller) - amount) as Balance,
                )
                &&& stake_of(final(self)@, caller) == stake_of(old(self)@, caller) - amount
                &&& forall|a: AccountId|
                    a != caller ==> stake_of(final(self)@, a) == stake_of(old(self)@, a)
                &&& final(self).spec_total_staked() == old(self).spec_total_staked() - amount
                &&& sum_of(final(self)@) == sum_of(old(self)@) - amount
            },
            amount > stake_of(old(self)@, caller) ==> {
                &&& r == Err::<(), StakingError>(StakingError::InsufficientStake)
                &&& final(self)@ == old(self)@
                &&& final(self).spec_total_staked() == old(self).spec_total_staked()
            },
    {
        let current: Balance = match self.stakes.get(&caller) {
            Some(v) => *v,
            None => 0,
        };
        if current < amount {
            return Err(StakingError::InsufficientStake);
        }
        proof {
            if old(self).stakes@.contains_key(caller) {
                lemma_entry_le_sum(old(self).stakes@, caller);
            }
        }
        let updated: Balance = current - amount;
        self.stakes.insert(caller, updated);
        proof {
            lemma_sum_insert(old(self).stakes@, caller, updated);
        }
        self.total_staked = self.total_staked - amount;
        Ok(())
    }

    /// The balance recorded for `account`, zero when it never staked.
    pub fn get_stake(&self, account: AccountId) -> (r: Balance)
        ensures
            r == stake_of(self@, account),
    {
        match self.stakes.get(&account) {
            Some(v) => *v,
            None => 0,
        }
    }

    /// The running total; in a well-formed ledger, the sum of all balances.
    pub fn get_total_staked(&self) -> (r: Balance)
        ensures
            r == self.spec_total_staked(),
            self.wf() ==> r == sum_of(self@),
    {
        self.total_staked
    }
}

/// Invariant law: in every well-formed ledger the recorded running total
/// equals the sum of all recorded balances. Every constructor and operation
/// of the ledger establishes or preserves well-formedness, so this holds in
/// every reachable state.
pub proof fn lemma_total_is_sum(s: &StakingContract)
    requires
        s.wf(),
    ensures
        s.spec_total_staked() == sum_of(s@),
{
}

/// Non-negativity law: the balance the ledger reads for any account, at any
/// time, is at least zero.
pub proof fn lemma_balances_nonnegative(s: &StakingContract)
    ensures
        forall|a: AccountId| stake_of(s@, a) >= 0,
{
}

/// Default-zero law: an account the ledger holds no entry for — in
/// particular one that never staked — reads as balance zero.
pub proof fn lemma_default_zero(s: &StakingContract, a: AccountId)
    requires
        !s@.contains_key(a),
    ensures
        stake_of(s@, a) == 0,
{
}

} // verus!
