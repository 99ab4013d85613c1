//! The per-account storage-rent escrow.
//!
//! Accounts prepay for the bytes their data occupies. A deposit raises both
//! `total` and `available`; consuming storage lowers `available`; freeing
//! storage credits it back; a withdrawal lowers both. At every point,
//! `available <= total`.

use vstd::prelude::*;
use crate::errors::OracleError;
use crate::fungible_token_handler::PendingEffect;
use crate::helpers::STORAGE_PRICE_PER_BYTE;
use crate::oracle::{FirstPartyOracle, Provider};

verus! {

/// The least deposit `storage_deposit` accepts.
pub const STORAGE_MINIMUM_BALANCE: u128 = 10_000_000_000_000_000_000_000;

/// An account's storage-rent balance: what it has deposited in all, and what
/// is not yet consumed by stored bytes.
#[derive(Clone, Copy, PartialEq, Eq, Structural, Debug)]
pub struct AccountStorageBalance {
    pub total: u128,
    pub available: u128,
}

impl AccountStorageBalance {
    /// The balance invariant: nothing more is available than was deposited.
    pub open spec fn wf(&self) -> bool {
        self.available <= self.total
    }

    /// An empty balance.
    pub fn zero() -> (r: Self)
        ensures
            r == (AccountStorageBalance { total: 0, available: 0 }),
    {
        AccountStorageBalance { total: 0, available: 0 }
    }
}

/// The deposit bounds the escrow enforces: a least amount, no greatest.
pub struct StorageBalanceBounds {
    pub min: u128,
    pub max: Option<u128>,
}

/// The balance an account holds in `m`, or an empty balance where the
/// account has none.
pub open spec fn spec_balance_of(m: Map<Seq<char>, Provider>, account: Seq<char>) -> AccountStorageBalance {
    if m.contains_key(account) {
        m[account].balance
    } else {
        AccountStorageBalance { total: 0, available: 0 }
    }
}

impl FirstPartyOracle {
    /// The storage balance recorded for `account_id`; empty where the
    /// account has no record.
    pub fn get_storage_account_balance(&self, account_id: &String) -> (b: AccountStorageBalance)
        ensures
            b == spec_balance_of(self.providers@, account_id@),
    {
        match self.providers.get(account_id) {
            Some(p) => p.get_balance(),
            None => AccountStorageBalance::zero(),
        }
    }

    /// Overwrites the storage balance recorded for `account_id`, creating
    /// the record where it is absent.
    pub fn set_storage_account_balance(&mut self, account_id: &String, balance: AccountStorageBalance)
        ensures
            final(self).payment_token == old(self).payment_token,
            final(self).providers@.dom() == old(self).providers@.dom().insert(account_id@),
            forall|a: Seq<char>|
                a != account_id@ && old(self).providers@.contains_key(a) ==> final(self).providers@[a] == old(self).providers@[a],
            ({
                let p = final(self).providers@[account_id@];
                if old(self).providers@.contains_key(account_id@) {
                    p == (Provider { balance, ..old(self).providers@[account_id@] })
                } else {
                    p.balance == balance && p.query_fee == 0 && p.earnings == 0 && p.pairs@
                        == Map::<Seq<char>, crate::oracle::PriceEntry>::empty()
                }
            }),
    {
        let taken = self.providers.replace(account_id, Provider::new());
        let mut p = match taken {
            Some(p) => p,
            None => Provider::new(),
        };
        p.set_balance(balance);
        self.providers.insert(account_id, p);
        proof {
            assert(self.providers@.dom() =~= old(self).providers@.dom().insert(account_id@));
        }
    }

    /// Accepts a storage prepayment of `attached` for `account_id` (the
    /// caller where absent). A deposit below the minimum is rejected whole.
    pub fn storage_deposit(
        &mut self,
        caller: &String,
        account_id: Option<String>,
        attached: u128,
    ) -> (r: Result<AccountStorageBalance, OracleError>)
        requires
            old(self).wf(),
            ({
                let target = match account_id {
                    Some(a) => a@,
                    None => caller@,
                };
                spec_balance_of(old(self).providers@, target).total + attached <= u128::MAX
            }),
        ensures
            final(self).wf(),
            final(self).payment_token == old(self).payment_token,
            ({
                let target = match account_id {
                    Some(a) => a@,
                    None => caller@,
                };
                let before = spec_balance_of(old(self).providers@, target);
                match r {
                    Ok(b) => attached >= STORAGE_MINIMUM_BALANCE && b
                        == (AccountStorageBalance {
                        total: (before.total + attached) as u128,
                        available: (before.available + attached) as u128,
                    }) && spec_balance_of(final(self).providers@, target) == b,
                    Err(e) => e == OracleError::StorageInsufficientError && attached
                        < STORAGE_MINIMUM_BALANCE && *final(self) == *old(self),
                }
            }),
    {
        let account: String = match account_id {
            Some(a) => a,
            None => caller.clone(),
        };
        if attached < STORAGE_MINIMUM_BALANCE {
            return Err(OracleError::StorageInsufficientError);
        }
        let mut balance = self.get_storage_account_balance(&account);
        proof {
            assert(balance.wf());
        }
        balance.available = balance.available + attached;
        balance.total = balance.total + attached;
        self.set_storage_account_balance(&account, balance);
        Ok(balance)
    }

    /// Withdraws `amount` from the caller's available storage balance,
    /// demanding exactly one smallest unit attached against spam, and
    /// describes the outbound transfer of the withdrawn amount.
    pub fn storage_withdraw(&mut self, caller: &String, attached: u128, amount: u128) -> (r: Result<
        (AccountStorageBalance, PendingEffect),
        OracleError,
    >)
        requires
            old(self).wf(),
        ensures
            final(self).wf(),
            final(self).payment_token == old(self).payment_token,
            ({
                let before = spec_balance_of(old(self).providers@, caller@);
                match r {
                    Ok((b, effect)) => attached == 1 && amount <= before.available && b
                        == (AccountStorageBalance {
                        total: (before.total - amount) as u128,
                        available: (before.available - amount) as u128,
                    }) && spec_balance_of(final(self).providers@, caller@) == b && effect
                        == (PendingEffect::NativeTransfer { receiver: *caller, amount }),
                    Err(e) => *final(self) == *old(self) && (if attached != 1 {
                        e == OracleError::PaymentInsufficientError
                    } else {
                        e == OracleError::StorageInsufficientError && amount > before.available
                    }),
                }
            }),
    {
        if attached != 1 {
            return Err(OracleError::PaymentInsufficientError);
        }
        let mut balance = self.get_storage_account_balance(caller);
        proof {
            assert(balance.wf());
        }
        if amount > balance.available {
            return Err(OracleError::StorageInsufficientError);
        }
        balance.available = balance.available - amount;
        balance.total = balance.total - amount;
        self.set_storage_account_balance(caller, balance);
        Ok((balance, PendingEffect::NativeTransfer { receiver: caller.clone(), amount }))
    }

    /// The deposit bounds the escrow enforces.
    pub fn storage_balance_bounds(&self) -> (r: StorageBalanceBounds)
        ensures
            r.min == STORAGE_MINIMUM_BALANCE,
            r.max is None,
    {
        StorageBalanceBounds { min: STORAGE_MINIMUM_BALANCE, max: None }
    }

    /// The storage balance of `account_id`, or `None` where the account has
    /// never deposited; reads nothing else and changes nothing.
    pub fn storage_balance_of(&self, account_id: &String) -> (r: Option<AccountStorageBalance>)
        ensures
            match r {
                Some(b) => self.providers@.contains_key(account_id@) && b
                    == self.providers@[account_id@].balance,
                None => !self.providers@.contains_key(account_id@),
            },
    {
        match self.providers.get(account_id) {
            Some(p) => Some(p.get_balance()),
            None => None,
        }
    }

    /// Settles the storage consumed by the enclosing call: growth is charged
    /// against the available balance read at the call's start, shrinkage is
    /// credited back. Where the cost exceeds that balance the call must be
    /// aborted whole, and nothing here changes.
    pub fn use_storage(
        &mut self,
        sender_id: &String,
        initial_storage_usage: u64,
        current_storage_usage: u64,
        initial_available_balance: u128,
    ) -> (r: Result<(), OracleError>)
        requires
            old(self).wf(),
            initial_available_balance <= spec_balance_of(old(self).providers@, sender_id@).total,
            current_storage_usage < initial_storage_usage ==> initial_available_balance + (
            initial_storage_usage - current_storage_usage) * STORAGE_PRICE_PER_BYTE
                <= spec_balance_of(old(self).providers@, sender_id@).total,
        ensures
            final(self).wf(),
            final(self).payment_token == old(self).payment_token,
            ({
                let before = spec_balance_of(old(self).providers@, sender_id@);
                let grown = current_storage_usage >= initial_storage_usage;
                let cost = if grown {
                    (current_storage_usage - initial_storage_usage) * STORAGE_PRICE_PER_BYTE
                } else {
                    0
                };
                let freed = if grown {
                    0
                } else {
                    (initial_storage_usage - current_storage_usage) * STORAGE_PRICE_PER_BYTE
                };
                match r {
                    Ok(()) => cost <= initial_available_balance && spec_balance_of(
                        final(self).providers@,
                        sender_id@,
                    ) == (AccountStorageBalance {
                        total: before.total,
                        available: (initial_available_balance - cost + freed) as u128,
                    }),
                    Err(e) => e == OracleError::StorageInsufficientError && cost
                        > initial_available_balance && *final(self) == *old(self),
                }
            }),
    {
        if current_storage_usage >= initial_storage_usage {
            let difference = (current_storage_usage - initial_storage_usage) as u128;
            proof {
                vstd::arithmetic::mul::lemma_mul_upper_bound(
                    difference as int,
                    u64::MAX as int,
                    STORAGE_PRICE_PER_BYTE as int,
                    STORAGE_PRICE_PER_BYTE as int,
                );
            }
            let cost = difference * STORAGE_PRICE_PER_BYTE;
            if cost > initial_available_balance {
                return Err(OracleError::StorageInsufficientError);
            }
            let mut balance = self.get_storage_account_balance(sender_id);
            balance.available = initial_available_balance - cost;
            self.set_storage_account_balance(sender_id, balance);
            Ok(())
        } else {
            let difference = (initial_storage_usage - current_storage_usage) as u128;
            proof {
                vstd::arithmetic::mul::lemma_mul_upper_bound(
                    difference as int,
                    u64::MAX as int,
                    STORAGE_PRICE_PER_BYTE as int,
                    STORAGE_PRICE_PER_BYTE as int,
                );
            }
            let freed = difference * STORAGE_PRICE_PER_BYTE;
            let mut balance = self.get_storage_account_balance(sender_id);
            balance.available = initial_available_balance + freed;
            self.set_storage_account_balance(sender_id, balance);
            Ok(())
        }
    }
}

} // verus!
