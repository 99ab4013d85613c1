//! The data-request coordinator.
//!
//! An inbound staked deposit becomes a persisted request record under a
//! fresh id, which is also appended as the record's last tag for later
//! correlation; a forwarding call to the oracle peer is scheduled. The
//! oracle later finalizes the record exactly once, which schedules the
//! staked bond back to the record's creator.

use vstd::prelude::*;
use crate::errors::OracleError;
use crate::fungible_token_handler::{fungible_token_transfer, PendingEffect};
use crate::helpers::{dec_digits, dec_to_u64, dec_val, is_dec_seq, u64_to_dec};
use crate::lookup::LookupMap;
use crate::oracle::{storage_freed, storage_required};
use crate::storage_manager::AccountStorageBalance;
use crate::types::{DataRequest, NewDataRequestArgs, Nonce, Payload, RequestStatus};
use crate::types::Outcome;

verus! {

/// Whether `caller` may create data requests under whitelist `wl`: an unset
/// or empty whitelist permits any caller, a non-empty one only its members.
pub open spec fn whitelisted(wl: Option<Vec<String>>, caller: Seq<char>) -> bool {
    match wl {
        None => true,
        Some(l) => l@.len() == 0 || exists|i: int| 0 <= i < l@.len() && l@[i]@ == caller,
    }
}

/// A well-formed persisted record for id `i`: its last tag reads back as
/// `i`.
pub open spec fn request_wf(r: DataRequest, i: int) -> bool {
    r.tags@.len() > 0 && r.tags@.last()@ == dec_digits(i as nat)
}

/// The coordinator: the oracle peer it forwards to, the token ledger it
/// settles on, an optional creator whitelist, the request store, the id
/// counter, and the storage-rent ledger for inbound transfers.
pub struct RequesterContract {
    pub oracle: String,
    pub payment_token: String,
    pub whitelist: Option<Vec<String>>,
    pub data_requests: Vec<DataRequest>,
    pub nonce: Nonce,
    pub accounts: LookupMap<AccountStorageBalance>,
}

/// The storage balance `c` records for `a`, empty where there is none.
pub open spec fn spec_account_of(c: RequesterContract, a: Seq<char>) -> AccountStorageBalance {
    if c.accounts@.contains_key(a) {
        c.accounts@[a]
    } else {
        AccountStorageBalance { total: 0, available: 0 }
    }
}

fn clone_string_vec(v: &Vec<String>) -> (r: Vec<String>)
    ensures
        r@ == v@,
{
    let mut r: Vec<String> = Vec::new();
    let mut i: usize = 0;
    proof {
        assert(v@.take(0) =~= Seq::<String>::empty());
    }
    while i < v.len()
        invariant
            i <= v@.len(),
            r@ == v@.take(i as int),
        decreases v@.len() - i,
    {
        proof {
            assert(v@.take(i as int + 1).drop_last() =~= v@.take(i as int));
            assert(v@.take(i as int + 1).last() == v@[i as int]);
        }
        r.push(v[i].clone());
        proof {
            assert(r@ =~= v@.take(i as int + 1));
        }
        i = i + 1;
    }
    proof {
        assert(v@.take(v@.len() as int) =~= v@);
    }
    r
}

/// A record's trailing tag always names it: the tag appended at creation
/// reads back as exactly the record's id, so a finalize call correlated by
/// tags can never reach the wrong record.
pub proof fn lemma_tag_names_record(c: RequesterContract, i: int)
    requires
        c.wf(),
        0 <= i < c.data_requests@.len(),
    ensures
        is_dec_seq(c.data_requests@[i].tags@.last()@),
        dec_val(c.data_requests@[i].tags@.last()@) == i,
{
    crate::helpers::lemma_dec_round_trip(i as nat);
}

impl RequesterContract {
    /// The coordinator's invariant: the id counter matches the store, every
    /// record's last tag reads back as its id, and every storage balance is
    /// well formed.
    pub open spec fn wf(&self) -> bool {
        &&& self.nonce.0 == self.data_requests@.len()
        &&& (forall|i: int|
            0 <= i < self.data_requests@.len() ==> request_wf(
                #[trigger] self.data_requests@[i],
                i,
            ))
        &&& (forall|a: Seq<char>|
            self.accounts@.contains_key(a) ==> (#[trigger] self.accounts@[a]).available
                <= self.accounts@[a].total)
    }

    /// A fresh coordinator for the given oracle peer, token ledger, and
    /// optional creator whitelist.
    pub fn new(oracle: String, payment_token: String, whitelist: Option<Vec<String>>) -> (r: Self)
        ensures
            r.oracle == oracle,
            r.payment_token == payment_token,
            r.whitelist == whitelist,
            r.data_requests@ == Seq::<DataRequest>::empty(),
            r.nonce.0 == 0,
            r.accounts@ == Map::<Seq<char>, AccountStorageBalance>::empty(),
            r.wf(),
    {
        Self {
            oracle,
            payment_token,
            whitelist,
            data_requests: Vec::new(),
            nonce: Nonce::new(),
            accounts: LookupMap::new(),
        }
    }

    /// Rejects any caller but the configured oracle peer.
    pub fn assert_oracle(&self, caller: &String) -> (r: Result<(), OracleError>)
        ensures
            match r {
                Ok(_) => caller@ == self.oracle@,
                Err(e) => e == OracleError::AuthorizationError && caller@ != self.oracle@,
            },
    {
        if *caller == self.oracle {
            Ok(())
        } else {
            Err(OracleError::AuthorizationError)
        }
    }

    /// Rejects a caller the whitelist does not permit.
    #[verifier::loop_isolation(false)]
    pub fn assert_whitelisted(&self, caller: &String) -> (r: Result<(), OracleError>)
        ensures
            match r {
                Ok(_) => whitelisted(self.whitelist, caller@),
                Err(e) => e == OracleError::AuthorizationError && !whitelisted(
                    self.whitelist,
                    caller@,
                ),
            },
    {
        match &self.whitelist {
            None => Ok(()),
            Some(l) => {
                if l.len() == 0 {
                    return Ok(());
                }
                let mut i: usize = 0;
                while i < l.len()
                    invariant
                        i <= l@.len(),
                        forall|j: int| 0 <= j < i ==> l@[j]@ != caller@,
                    decreases l@.len() - i,
                {
                    if l[i] == *caller {
                        return Ok(());
                    }
                    i = i + 1;
                }
                Err(OracleError::AuthorizationError)
            }
        }
    }

    /// Persists a new data request under the next id for a whitelisted
    /// sender, appending the id as the record's last tag, and schedules the
    /// forwarding call to the oracle peer.
    pub fn create_data_request(
        &mut self,
        sender: &String,
        amount: u128,
        payload: NewDataRequestArgs,
    ) -> (r: Result<(u64, PendingEffect), OracleError>)
        requires
            old(self).wf(),
            old(self).data_requests@.len() < u64::MAX,
        ensures
            final(self).wf(),
            final(self).oracle == old(self).oracle,
            final(self).payment_token == old(self).payment_token,
            final(self).whitelist == old(self).whitelist,
            final(self).accounts@ == old(self).accounts@,
            match r {
                Ok((id, eff)) => {
                    &&& whitelisted(old(self).whitelist, sender@)
                    &&& id == old(self).data_requests@.len()
                    &&& final(self).data_requests@.len() == old(self).data_requests@.len() + 1
                    &&& (forall|j: int|
                        0 <= j < old(self).data_requests@.len() ==> final(self).data_requests@[j]
                            == old(self).data_requests@[j])
                    &&& ({
                        let req = final(self).data_requests@.last();
                        &&& req.amount == amount
                        &&& req.payload == payload
                        &&& req.status == RequestStatus::Pending
                        &&& req.creator@ == sender@
                        &&& !req.bond_withdrawn
                        &&& req.tags@.len() == payload.tags@.len() + 1
                        &&& (forall|j: int|
                            0 <= j < payload.tags@.len() ==> req.tags@[j] == payload.tags@[j])
                        &&& req.tags@.last()@ == dec_digits(id as nat)
                    })
                    &&& eff == (PendingEffect::OracleRequest {
                        oracle: old(self).oracle,
                        requester: *sender,
                        amount,
                        request_id: id,
                    })
                },
                Err(e) => e == OracleError::AuthorizationError && !whitelisted(
                    old(self).whitelist,
                    sender@,
                ) && *final(self) == *old(self),
            },
    {
        match self.assert_whitelisted(sender) {
            Ok(_) => (),
            Err(e) => {
                return Err(e);
            }
        }
        let id = self.nonce.get_and_incr();
        let mut tags = clone_string_vec(&payload.tags);
        let tag = u64_to_dec(id);
        tags.push(tag);
        let req = DataRequest {
            amount,
            payload,
            tags,
            status: RequestStatus::Pending,
            creator: sender.clone(),
            bond_withdrawn: false,
        };
        self.data_requests.push(req);
        let effect = PendingEffect::OracleRequest {
            oracle: self.oracle.clone(),
            requester: sender.clone(),
            amount,
            request_id: id,
        };
        Ok((id, effect))
    }

    /// The persisted record under `id`, if any.
    pub fn get_data_request(&self, id: u64) -> (r: Option<&DataRequest>)
        ensures
            match r {
                Some(req) => id < self.data_requests@.len() && *req == self.data_requests@[
                    id as int],
                None => id >= self.data_requests@.len(),
            },
    {
        if id < self.data_requests.len() as u64 {
            Some(&self.data_requests[id as usize])
        } else {
            None
        }
    }

    /// Describes an outbound transfer on behalf of the oracle peer: only the
    /// oracle may ask, and only on the configured payment token.
    pub fn request_ft_transfer(
        &self,
        caller: &String,
        token_id: &String,
        amount: u128,
        receiver_id: &String,
    ) -> (r: Result<PendingEffect, OracleError>)
        ensures
            match r {
                Ok(eff) => caller@ == self.oracle@ && token_id@ == self.payment_token@ && (
                match eff {
                    PendingEffect::FtTransfer { token, receiver, amount: a } => token@
                        == self.payment_token@ && receiver@ == receiver_id@ && a == amount,
                    _ => false,
                }),
                Err(e) => (if caller@ != self.oracle@ {
                    e == OracleError::AuthorizationError
                } else {
                    e == OracleError::ValidationError && token_id@ != self.payment_token@
                }),
            },
    {
        match self.assert_oracle(caller) {
            Ok(_) => (),
            Err(e) => {
                return Err(e);
            }
        }
        if !(*token_id == self.payment_token) {
            return Err(OracleError::ValidationError);
        }
        Ok(fungible_token_transfer(self.payment_token.clone(), receiver_id.clone(), amount))
    }

    /// Finalizes the record named by the trailing tag, exactly once. Only
    /// the configured oracle, paying exactly one smallest unit, may
    /// finalize; the named record must exist, belong to `requestor`, and
    /// still be pending. The staked bond is scheduled back to the creator.
    pub fn set_outcome(
        &mut self,
        caller: &String,
        attached: u128,
        requestor: &String,
        outcome: Outcome,
        tags: Vec<String>,
    ) -> (r: Result<PendingEffect, OracleError>)
        requires
            old(self).wf(),
        ensures
            final(self).wf(),
            final(self).oracle == old(self).oracle,
            final(self).payment_token == old(self).payment_token,
            final(self).whitelist == old(self).whitelist,
            final(self).accounts@ == old(self).accounts@,
            ({
                let ok_parse = tags@.len() > 0 && is_dec_seq(tags@.last()@) && dec_val(
                    tags@.last()@,
                ) <= u64::MAX;
                let id = dec_val(tags@.last()@) as int;
                match r {
                    Ok(eff) => {
                        &&& caller@ == old(self).oracle@
                        &&& attached == 1
                        &&& ok_parse
                        &&& id < old(self).data_requests@.len()
                        &&& old(self).data_requests@[id].creator@ == requestor@
                        &&& old(self).data_requests@[id].status is Pending
                        &&& final(self).data_requests@ == old(self).data_requests@.update(
                            id,
                            (DataRequest {
                                status: RequestStatus::Finalized(outcome),
                                bond_withdrawn: true,
                                ..old(self).data_requests@[id]
                            }),
                        )
                        &&& eff == (PendingEffect::FtTransfer {
                            token: old(self).payment_token,
                            receiver: old(self).data_requests@[id].creator,
                            amount: old(self).data_requests@[id].amount,
                        })
                    },
                    Err(e) => *final(self) == *old(self) && (if caller@ != old(self).oracle@ {
                        e == OracleError::AuthorizationError
                    } else if attached != 1 {
                        e == OracleError::PaymentInsufficientError
                    } else {
                        e == OracleError::ValidationError && (!ok_parse || id >= old(self).data_requests@.len() || old(self).data_requests@[id].creator@
                            != requestor@ || !(old(self).data_requests@[id].status is Pending))
                    }),
                }
            }),
    {
        match self.assert_oracle(caller) {
            Ok(_) => (),
            Err(e) => {
                return Err(e);
            }
        }
        if attached != 1 {
            return Err(OracleError::PaymentInsufficientError);
        }
        if tags.len() == 0 {
            return Err(OracleError::ValidationError);
        }
        let tag = &tags[tags.len() - 1];
        proof {
            assert(tags@.last() == tags@[tags@.len() - 1]);
        }
        let id64 = match dec_to_u64(tag) {
            Some(v) => v,
            None => {
                return Err(OracleError::ValidationError);
            }
        };
        if id64 >= self.data_requests.len() as u64 {
            return Err(OracleError::ValidationError);
        }
        let idx = id64 as usize;
        if !(self.data_requests[idx].creator == *requestor) {
            return Err(OracleError::ValidationError);
        }
        let pending = match &self.data_requests[idx].status {
            RequestStatus::Pending => true,
            RequestStatus::Finalized(_) => false,
        };
        if !pending {
            return Err(OracleError::ValidationError);
        }
        let creator = self.data_requests[idx].creator.clone();
        let bond = self.data_requests[idx].amount;
        let rec = &mut self.data_requests[idx];
        rec.status = RequestStatus::Finalized(outcome);
        rec.bond_withdrawn = true;
        proof {
            assert(self.data_requests@ =~= old(self).data_requests@.update(
                idx as int,
                (DataRequest {
                    status: RequestStatus::Finalized(outcome),
                    bond_withdrawn: true,
                    ..old(self).data_requests@[idx as int]
                }),
            ));
            assert forall|i: int|
                0 <= i < self.data_requests@.len() implies request_wf(
                #[trigger] self.data_requests@[i],
                i,
            ) by {
                if i != idx as int {
                    assert(self.data_requests@[i] == old(self).data_requests@[i]);
                } else {
                    assert(self.data_requests@[i].tags == old(self).data_requests@[i].tags);
                }
            }
        }
        Ok(fungible_token_transfer(self.payment_token.clone(), creator, bond))
    }

    /// The storage balance recorded for `account_id`; empty where the
    /// account has never deposited.
    pub fn get_storage_account(&self, account_id: &String) -> (b: AccountStorageBalance)
        ensures
            b == spec_account_of(*self, account_id@),
    {
        match self.accounts.get(account_id) {
            Some(b) => *b,
            None => AccountStorageBalance::zero(),
        }
    }

    /// Accepts a storage prepayment of `attached` for `account_id` (the
    /// caller where absent). A deposit below the minimum is rejected whole.
    pub fn storage_deposit(
        &mut self,
        caller: &String,
        account_id: Option<String>,
        attached: u128,
    ) -> (r: Result<AccountStorageBalance, OracleError>)
        requires
            old(self).wf(),
            ({
                let target = match account_id {
                    Some(a) => a@,
                    None => caller@,
                };
                spec_account_of(*old(self), target).total + attached <= u128::MAX
            }),
        ensures
            final(self).wf(),
            final(self).oracle == old(self).oracle,
            final(self).payment_token == old(self).payment_token,
            final(self).whitelist == old(self).whitelist,
            final(self).data_requests == old(self).data_requests,
            final(self).nonce == old(self).nonce,
            ({
                let target = match account_id {
                    Some(a) => a@,
                    None => caller@,
                };
                let before = spec_account_of(*old(self), target);
                match r {
                    Ok(b) => attached >= crate::storage_manager::STORAGE_MINIMUM_BALANCE && b
                        == (AccountStorageBalance {
                        total: (before.total + attached) as u128,
                        available: (before.available + attached) as u128,
                    }) && spec_account_of(*final(self), target) == b && (forall|a: Seq<char>|
                        a != target && old(self).accounts@.contains_key(a)
                            ==> final(self).accounts@[a] == old(self).accounts@[a]),
                    Err(e) => e == OracleError::StorageInsufficientError && attached
                        < crate::storage_manager::STORAGE_MINIMUM_BALANCE && *final(self) == *old(
                        self,
                    ),
                }
            }),
    {
        let account: String = match account_id {
            Some(a) => a,
            None => caller.clone(),
        };
        if attached < crate::storage_manager::STORAGE_MINIMUM_BALANCE {
            return Err(OracleError::StorageInsufficientError);
        }
        let mut balance = self.get_storage_account(&account);
        balance.available = balance.available + attached;
        balance.total = balance.total + attached;
        self.accounts.insert(&account, balance);
        Ok(balance)
    }

    /// Settles the storage delta of the enclosing call against the sender's
    /// prepaid balance; the caller has already checked that the cost is
    /// covered.
    fn apply_storage_delta(
        &mut self,
        sender: &String,
        initial_storage_usage: u64,
        current_storage_usage: u64,
    )
        requires
            forall|a: Seq<char>|
                old(self).accounts@.contains_key(a) ==> (#[trigger] old(self).accounts@[
                    a]).available <= old(self).accounts@[a].total,
            storage_required(initial_storage_usage, current_storage_usage) <= spec_account_of(
                *old(self),
                sender@,
            ).available,
            current_storage_usage < initial_storage_usage ==> spec_account_of(
                *old(self),
                sender@,
            ).available + (initial_storage_usage - current_storage_usage)
                * crate::helpers::STORAGE_PRICE_PER_BYTE <= spec_account_of(
                *old(self),
                sender@,
            ).total,
        ensures
            final(self).oracle == old(self).oracle,
            final(self).payment_token == old(self).payment_token,
            final(self).whitelist == old(self).whitelist,
            final(self).data_requests == old(self).data_requests,
            final(self).nonce == old(self).nonce,
            final(self).accounts@.dom() == old(self).accounts@.dom().insert(sender@),
            forall|a: Seq<char>|
                a != sender@ && old(self).accounts@.contains_key(a) ==> final(self).accounts@[a]
                    == old(self).accounts@[a],
            ({
                let acct = spec_account_of(*old(self), sender@);
                let cost = storage_required(initial_storage_usage, current_storage_usage);
                let freed = storage_freed(initial_storage_usage, current_storage_usage);
                final(self).accounts@[sender@] == (AccountStorageBalance {
                    total: acct.total,
                    available: (acct.available - cost + freed) as u128,
                })
            }),
            forall|a: Seq<char>|
                final(self).accounts@.contains_key(a) ==> (#[trigger] final(self).accounts@[
                    a]).available <= final(self).accounts@[a].total,
    {
        let acct = match self.accounts.get(sender) {
            Some(b) => *b,
            None => AccountStorageBalance::zero(),
        };
        let mut balance = acct;
        if current_storage_usage >= initial_storage_usage {
            let difference = (current_storage_usage - initial_storage_usage) as u128;
            proof {
                vstd::arithmetic::mul::lemma_mul_upper_bound(
                    difference as int,
                    u64::MAX as int,
                    crate::helpers::STORAGE_PRICE_PER_BYTE as int,
                    crate::helpers::STORAGE_PRICE_PER_BYTE as int,
                );
            }
            let cost = difference * crate::helpers::STORAGE_PRICE_PER_BYTE;
            balance.available = acct.available - cost;
        } else {
            let difference = (initial_storage_usage - current_storage_usage) as u128;
            proof {
                vstd::arithmetic::mul::lemma_mul_upper_bound(
                    difference as int,
                    u64::MAX as int,
                    crate::helpers::STORAGE_PRICE_PER_BYTE as int,
                    crate::helpers::STORAGE_PRICE_PER_BYTE as int,
                );
            }
            let freed = difference * crate::helpers::STORAGE_PRICE_PER_BYTE;
            balance.available = acct.available + freed;
        }
        self.accounts.insert(sender, balance);
        proof {
            assert(self.accounts@.dom() =~= old(self).accounts@.dom().insert(sender@));
        }
    }

    /// Whether the sender's prepaid balance covers the storage the call
    /// consumed.
    fn storage_covered(
        &self,
        sender: &String,
        initial_storage_usage: u64,
        current_storage_usage: u64,
    ) -> (b: bool)
        ensures
            b == (storage_required(initial_storage_usage, current_storage_usage)
                <= spec_account_of(*self, sender@).available),
    {
        if current_storage_usage <= initial_storage_usage {
            return true;
        }
        let acct = match self.accounts.get(sender) {
            Some(b) => *b,
            None => AccountStorageBalance::zero(),
        };
        let difference = (current_storage_usage - initial_storage_usage) as u128;
        proof {
            vstd::arithmetic::mul::lemma_mul_upper_bound(
                difference as int,
                u64::MAX as int,
                crate::helpers::STORAGE_PRICE_PER_BYTE as int,
                crate::helpers::STORAGE_PRICE_PER_BYTE as int,
            );
        }
        let cost = difference * crate::helpers::STORAGE_PRICE_PER_BYTE;
        cost <= acct.available
    }

    /// Receives an inbound token transfer carrying a decoded payload. A new
    /// data request is created for a whitelisted sender; a stake raises a
    /// pending record's bond. Either way, the storage the call consumed is
    /// settled against the sender's prepaid balance, and a cost the balance
    /// cannot cover aborts the whole call with no change.
    pub fn ft_on_transfer(
        &mut self,
        token: &String,
        sender: &String,
        amount: u128,
        payload: Payload,
        initial_storage_usage: u64,
        current_storage_usage: u64,
    ) -> (r: Result<(u128, Option<PendingEffect>), OracleError>)
        requires
            old(self).wf(),
            old(self).data_requests@.len() < u64::MAX,
            current_storage_usage < initial_storage_usage ==> spec_account_of(
                *old(self),
                sender@,
            ).available + (initial_storage_usage - current_storage_usage)
                * crate::helpers::STORAGE_PRICE_PER_BYTE <= spec_account_of(
                *old(self),
                sender@,
            ).total,
        ensures
            final(self).wf(),
            final(self).oracle == old(self).oracle,
            final(self).payment_token == old(self).payment_token,
            final(self).whitelist == old(self).whitelist,
            ({
                let acct = spec_account_of(*old(self), sender@);
                let cost = storage_required(initial_storage_usage, current_storage_usage);
                let freed = storage_freed(initial_storage_usage, current_storage_usage);
                match r {
                    Ok((unspent, eff)) => {
                        &&& unspent == 0
                        &&& cost <= acct.available
                        &&& final(self).accounts@.dom() == old(self).accounts@.dom().insert(
                            sender@,
                        )
                        &&& (forall|a: Seq<char>|
                            a != sender@ && old(self).accounts@.contains_key(a) ==> final(self).accounts@[a] == old(self).accounts@[a])
                        &&& final(self).accounts@[sender@] == (AccountStorageBalance {
                            total: acct.total,
                            available: (acct.available - cost + freed) as u128,
                        })
                        &&& (match payload {
                            Payload::NewDataRequest(args) => {
                                &&& token@ == old(self).payment_token@
                                &&& whitelisted(old(self).whitelist, sender@)
                                &&& final(self).data_requests@.len() == old(self).data_requests@.len() + 1
                                &&& (forall|j: int|
                                    0 <= j < old(self).data_requests@.len() ==> final(self).data_requests@[j] == old(self).data_requests@[j])
                                &&& ({
                                    let req = final(self).data_requests@.last();
                                    req.amount == amount && req.payload == args && req.status
                                        == RequestStatus::Pending && req.creator@ == sender@
                                        && !req.bond_withdrawn
                                })
                                &&& eff == Some(
                                    (PendingEffect::OracleRequest {
                                        oracle: old(self).oracle,
                                        requester: *sender,
                                        amount,
                                        request_id: old(self).data_requests@.len() as u64,
                                    }),
                                )
                            },
                            Payload::StakeDataRequest(args) => {
                                &&& token@ == old(self).payment_token@
                                &&& args.id < old(self).data_requests@.len()
                                &&& old(self).data_requests@[args.id as int].status is Pending
                                &&& old(self).data_requests@[args.id as int].amount + amount
                                    <= u128::MAX
                                &&& final(self).data_requests@ == old(self).data_requests@.update(
                                    args.id as int,
                                    (DataRequest {
                                        amount: (old(self).data_requests@[args.id as int].amount
                                            + amount) as u128,
                                        ..old(self).data_requests@[args.id as int]
                                    }),
                                )
                                &&& eff is None
                            },
                        })
                    },
                    Err(e) => *final(self) == *old(self) && (match payload {
                        Payload::NewDataRequest(_) => {
                            if token@ != old(self).payment_token@ {
                                e == OracleError::ValidationError
                            } else if !whitelisted(old(self).whitelist, sender@) {
                                e == OracleError::AuthorizationError
                            } else {
                                e == OracleError::StorageInsufficientError && cost > acct.available
                            }
                        },
                        Payload::StakeDataRequest(args) => {
                            if token@ != old(self).payment_token@ || args.id >= old(self).data_requests@.len() || !(old(self).data_requests@[
                            args.id as int].status is Pending) || old(self).data_requests@[
                            args.id as int].amount + amount > u128::MAX {
                                e == OracleError::ValidationError
                            } else {
                                e == OracleError::StorageInsufficientError && cost > acct.available
                            }
                        },
                    }),
                }
            }),
    {
        match payload {
            Payload::NewDataRequest(args) => {
                if !(*token == self.payment_token) {
                    return Err(OracleError::ValidationError);
                }
                match self.assert_whitelisted(sender) {
                    Ok(_) => (),
                    Err(e) => {
                        return Err(e);
                    }
                }
                if !self.storage_covered(sender, initial_storage_usage, current_storage_usage) {
                    return Err(OracleError::StorageInsufficientError);
                }
                let eff = match self.create_data_request(sender, amount, args) {
                    Ok((_, eff)) => eff,
                    Err(_) => {
                        proof {
                            assert(false);
                        }
                        return Err(OracleError::AuthorizationError);
                    }
                };
                self.apply_storage_delta(sender, initial_storage_usage, current_storage_usage);
                Ok((0, Some(eff)))
            }
            Payload::StakeDataRequest(args) => {
                if !(*token == self.payment_token) {
                    return Err(OracleError::ValidationError);
                }
                if args.id >= self.data_requests.len() as u64 {
                    return Err(OracleError::ValidationError);
                }
                let idx = args.id as usize;
                let pending = match &self.data_requests[idx].status {
                    RequestStatus::Pending => true,
                    RequestStatus::Finalized(_) => false,
                };
                if !pending {
                    return Err(OracleError::ValidationError);
                }
                let staked = match self.data_requests[idx].amount.checked_add(amount) {
                    Some(v) => v,
                    None => {
                        return Err(OracleError::ValidationError);
                    }
                };
                if !self.storage_covered(sender, initial_storage_usage, current_storage_usage) {
                    return Err(OracleError::StorageInsufficientError);
                }
                let rec = &mut self.data_requests[idx];
                rec.amount = staked;
                proof {
                    assert(self.data_requests@ =~= old(self).data_requests@.update(
                        idx as int,
                        (DataRequest {
                            amount: staked,
                            ..old(self).data_requests@[idx as int]
                        }),
                    ));
                    assert forall|i: int|
                        0 <= i < self.data_requests@.len() implies request_wf(
                        #[trigger] self.data_requests@[i],
                        i,
                    ) by {
                        if i != idx as int {
                            assert(self.data_requests@[i] == old(self).data_requests@[i]);
                        } else {
                            assert(self.data_requests@[i].tags == old(self).data_requests@[i].tags);
                        }
                    }
                }
                self.apply_storage_delta(sender, initial_storage_usage, current_storage_usage);
                Ok((0, None))
            }
        }
    }
}

} // verus!
