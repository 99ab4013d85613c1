//! The provider/price store and its fee-metered query engine.
//!
//! Providers publish price entries per ticker and charge a query fee.
//! Lookups validate existence, payment, and freshness; a failing lookup never
//! charges a fee, and every query settles exactly: the amount attached equals
//! the fees charged plus the refund returned.

use vstd::prelude::*;
use crate::errors::OracleError;
use crate::fungible_token_handler::{fungible_token_transfer, PendingEffect};
use crate::helpers::{avg_result_ok, lemma_pow10_pos, pow10, pow10_checked, refund_storage, scaled_average, STORAGE_PRICE_PER_BYTE};
use crate::lookup::LookupMap;
use crate::storage_manager::AccountStorageBalance;

verus! {

/// A published price: the value, its decimal scaling, and when it was set.
#[derive(Clone, Copy, PartialEq, Eq, Structural, Debug)]
pub struct PriceEntry {
    pub price: u128,
    pub decimals: u32,
    pub last_update: u64,
}

/// The settlement of one query: the entries served, if any, and the exact
/// refund owed to the caller.
#[derive(Clone, PartialEq, Debug)]
pub struct Outcome {
    pub entries: Option<Vec<PriceEntry>>,
    pub refund: u128,
}

/// The settlement of a collecting query: one slot per requested lookup.
#[derive(Clone, PartialEq, Debug)]
pub struct CollectOutcome {
    pub entries: Option<Vec<Option<PriceEntry>>>,
    pub refund: u128,
}

/// A provider's record: its fee, its published pairs, what it has earned,
/// and its storage-rent balance.
pub struct Provider {
    pub query_fee: u128,
    pub pairs: LookupMap<PriceEntry>,
    pub earnings: u128,
    pub balance: AccountStorageBalance,
}

impl Provider {
    /// A fresh provider record with no pairs, no fee, and empty balances.
    pub fn new() -> (r: Self)
        ensures
            r.query_fee == 0,
            r.pairs@ == Map::<Seq<char>, PriceEntry>::empty(),
            r.earnings == 0,
            r.balance == (AccountStorageBalance { total: 0, available: 0 }),
    {
        Self {
            query_fee: 0,
            pairs: LookupMap::new(),
            earnings: 0,
            balance: AccountStorageBalance { total: 0, available: 0 },
        }
    }

    /// The entry published for `pair`, if any.
    pub fn get_entry(&self, pair: &String) -> (r: Option<PriceEntry>)
        ensures
            match r {
                Some(e) => self.pairs@.contains_key(pair@) && e == self.pairs@[pair@],
                None => !self.pairs@.contains_key(pair@),
            },
    {
        match self.pairs.get(pair) {
            Some(e) => Some(*e),
            None => None,
        }
    }

    /// What the provider has earned and not yet claimed.
    pub fn get_earnings(&self) -> (r: u128)
        ensures
            r == self.earnings,
    {
        self.earnings
    }

    /// The provider's storage-rent balance.
    pub fn get_balance(&self) -> (r: AccountStorageBalance)
        ensures
            r == self.balance,
    {
        self.balance
    }

    /// Overwrites the provider's storage-rent balance.
    pub fn set_balance(&mut self, balance: AccountStorageBalance)
        ensures
            *final(self) == (Provider { balance, ..*old(self) }),
    {
        self.balance = balance;
    }

    /// Overwrites the query fee; no bound is checked.
    pub fn set_fee(&mut self, fee: u128)
        ensures
            *final(self) == (Provider { query_fee: fee, ..*old(self) }),
    {
        self.query_fee = fee;
    }

    /// The provider's query fee.
    pub fn get_fee(&self) -> (r: u128)
        ensures
            r == self.query_fee,
    {
        self.query_fee
    }

    /// Publishes `price` for `pair` with `decimals`, stamped at `now`.
    pub fn set_price(&mut self, pair: &String, price: u128, decimals: u32, now: u64)
        ensures
            final(self).pairs@ == old(self).pairs@.insert(
                pair@,
                PriceEntry { price, decimals, last_update: now },
            ),
            final(self).query_fee == old(self).query_fee,
            final(self).earnings == old(self).earnings,
            final(self).balance == old(self).balance,
    {
        let entry = PriceEntry { price, decimals, last_update: now };
        self.pairs.insert(pair, entry);
    }

    /// Credits `amount` to the provider's earnings.
    pub fn add_earnings(&mut self, amount: u128)
        requires
            old(self).earnings + amount <= u128::MAX,
        ensures
            *final(self) == (Provider {
                earnings: (old(self).earnings + amount) as u128,
                ..*old(self)
            }),
    {
        self.earnings = self.earnings + amount;
    }

    /// Debits earnings: a given amount, or everything. Fails without change
    /// where more is asked than is there.
    pub fn withdraw_earnings(&mut self, amount: Option<u128>) -> (r: Result<u128, OracleError>)
        ensures
            match r {
                Ok(w) => (match amount {
                    Some(i) => i <= old(self).earnings && w == i,
                    None => w == old(self).earnings,
                }) && *final(self) == (Provider {
                    earnings: (old(self).earnings - w) as u128,
                    ..*old(self)
                }),
                Err(e) => e == OracleError::StorageInsufficientError && (match amount {
                    Some(i) => i > old(self).earnings,
                    None => false,
                }) && *final(self) == *old(self),
            },
    {
        match amount {
            Some(i) => {
                if self.earnings < i {
                    return Err(OracleError::StorageInsufficientError);
                }
                self.earnings = self.earnings - i;
                Ok(i)
            }
            None => {
                let withdrawal = self.earnings;
                self.earnings = 0;
                Ok(withdrawal)
            }
        }
    }
}

/// Whether `m` has a provider `provider` publishing `pair`.
pub open spec fn has_pair(m: Map<Seq<char>, Provider>, provider: Seq<char>, pair: Seq<char>) -> bool {
    m.contains_key(provider) && m[provider].pairs@.contains_key(pair)
}

/// The entry `provider` publishes for `pair`.
pub open spec fn entry_of(m: Map<Seq<char>, Provider>, provider: Seq<char>, pair: Seq<char>) -> PriceEntry {
    m[provider].pairs@[pair]
}

/// The fee `provider` charges per query.
pub open spec fn fee_of(m: Map<Seq<char>, Provider>, provider: Seq<char>) -> u128 {
    m[provider].query_fee
}

/// Whether one lookup succeeds: the pair exists, the payment covers the fee,
/// the entry is fresher than `min_last_update`, and crediting the fee fits
/// the earnings counter.
pub open spec fn lookup_ok(
    m: Map<Seq<char>, Provider>,
    pair: Seq<char>,
    provider: Seq<char>,
    min_last_update: u64,
    amount: int,
) -> bool {
    &&& has_pair(m, provider, pair)
    &&& amount >= fee_of(m, provider)
    &&& min_last_update < entry_of(m, provider, pair).last_update
    &&& m[provider].earnings + fee_of(m, provider) <= u128::MAX
}

/// `m` with `fee` credited to the earnings of `provider`.
pub open spec fn spec_charge(m: Map<Seq<char>, Provider>, provider: Seq<char>, fee: u128) -> Map<
    Seq<char>,
    Provider,
> {
    m.insert(
        provider,
        Provider { earnings: (m[provider].earnings + fee) as u128, ..m[provider] },
    )
}

/// The storage-rent invariant: every provider's available balance stays
/// within its total.
pub open spec fn balances_ok(m: Map<Seq<char>, Provider>) -> bool {
    forall|a: Seq<char>|
        m.contains_key(a) ==> (#[trigger] m[a]).balance.available <= m[a].balance.total
}

/// The provider/price store: a payment-token account and the provider map.
pub struct FirstPartyOracle {
    pub payment_token: String,
    pub providers: LookupMap<Provider>,
}

impl FirstPartyOracle {
    /// The store's invariant: storage balances are well formed.
    pub open spec fn wf(&self) -> bool {
        balances_ok(self.providers@)
    }

    /// A fresh store settling payments on the given token ledger.
    pub fn new(payment_token: String) -> (r: Self)
        ensures
            r.payment_token == payment_token,
            r.providers@ == Map::<Seq<char>, Provider>::empty(),
            r.wf(),
    {
        Self { payment_token, providers: LookupMap::new() }
    }

    /// Whether `provider` publishes `pair`.
    pub fn provider_pair_exists(&self, pair: &String, provider: &String) -> (b: bool)
        ensures
            b == has_pair(self.providers@, provider@, pair@),
    {
        match self.providers.get(provider) {
            Some(p) => p.pairs.contains_key(pair),
            None => false,
        }
    }

    /// Whether `provider`'s entry for `pair` is fresher than `min_last_update`.
    fn pair_updated(&self, pair: &String, provider: &String, min_last_update: u64) -> (b: bool)
        requires
            has_pair(self.providers@, provider@, pair@),
        ensures
            b == (min_last_update < entry_of(self.providers@, provider@, pair@).last_update),
    {
        let p = match self.providers.get(provider) {
            Some(p) => p,
            None => {
                proof {
                    assert(false);
                }
                return false;
            }
        };
        match p.pairs.get(pair) {
            Some(e) => min_last_update < e.last_update,
            None => {
                proof {
                    assert(false);
                }
                false
            }
        }
    }

    /// Whether `amount` covers `provider`'s query fee.
    pub fn payment_sufficient(&self, provider: &String, amount: u128) -> (b: bool)
        requires
            self.providers@.contains_key(provider@),
        ensures
            b == (amount >= fee_of(self.providers@, provider@)),
    {
        let p = match self.providers.get(provider) {
            Some(p) => p,
            None => {
                proof {
                    assert(false);
                }
                return false;
            }
        };
        amount >= p.query_fee
    }

    /// Whether the batch shape is acceptable: equal, non-zero lengths.
    fn same_length(&self, pairs: &Vec<String>, providers: &Vec<String>) -> (b: bool)
        ensures
            b == (pairs@.len() == providers@.len() && pairs@.len() > 0),
    {
        pairs.len() == providers.len() && pairs.len() > 0
    }

    /// Whether one lookup would succeed, charging nothing.
    fn run_checks(
        &self,
        pair: &String,
        provider: &String,
        min_last_update: u64,
        amount_left: u128,
    ) -> (b: bool)
        ensures
            b == lookup_ok(self.providers@, pair@, provider@, min_last_update, amount_left as int),
    {
        if !self.provider_pair_exists(pair, provider) {
            return false;
        }
        if !self.payment_sufficient(provider, amount_left) {
            return false;
        }
        if !self.pair_updated(pair, provider, min_last_update) {
            return false;
        }
        let p = match self.providers.get(provider) {
            Some(p) => p,
            None => {
                proof {
                    assert(false);
                }
                return false;
            }
        };
        p.earnings <= u128::MAX - p.query_fee
    }

    /// Credits `amount` to `provider`'s earnings.
    fn add_earnings(&mut self, provider: &String, amount: u128)
        requires
            old(self).providers@.contains_key(provider@),
            old(self).providers@[provider@].earnings + amount <= u128::MAX,
        ensures
            final(self).providers@ == spec_charge(old(self).providers@, provider@, amount),
            final(self).payment_token == old(self).payment_token,
    {
        let taken = self.providers.replace(provider, Provider::new());
        let mut p = match taken {
            Some(p) => p,
            None => {
                proof {
                    assert(false);
                }
                Provider::new()
            }
        };
        p.add_earnings(amount);
        self.providers.insert(provider, p);
        proof {
            assert(self.providers@ =~= spec_charge(old(self).providers@, provider@, amount));
        }
    }

    /// Debits and returns everything `provider` has earned.
    fn withdraw_earnings(&mut self, provider: &String) -> (r: Result<u128, OracleError>)
        ensures
            match r {
                Ok(w) => old(self).providers@.contains_key(provider@) && w == old(
                    self,
                ).providers@[provider@].earnings && final(self).providers@ == old(
                    self,
                ).providers@.insert(
                    provider@,
                    (Provider { earnings: 0, ..old(self).providers@[provider@] }),
                ) && final(self).payment_token == old(self).payment_token,
                Err(e) => e == OracleError::ValidationError && !old(self).providers@.contains_key(
                    provider@,
                ) && *final(self) == *old(self),
            },
    {
        if !self.providers.contains_key(provider) {
            return Err(OracleError::ValidationError);
        }
        let taken = self.providers.replace(provider, Provider::new());
        let mut p = match taken {
            Some(p) => p,
            None => {
                proof {
                    assert(false);
                }
                Provider::new()
            }
        };
        let w = match p.withdraw_earnings(None) {
            Ok(w) => w,
            Err(_) => {
                proof {
                    assert(false);
                }
                0
            }
        };
        self.providers.insert(provider, p);
        proof {
            assert(self.providers@ =~= old(self).providers@.insert(
                provider@,
                (Provider { earnings: 0, ..old(self).providers@[provider@] }),
            ));
        }
        Ok(w)
    }

    /// Debits the caller's earnings and describes one outbound token
    /// transfer of that amount to the caller.
    pub fn claim_earnings(&mut self, caller: &String) -> (r: Result<
        (u128, PendingEffect),
        OracleError,
    >)
        requires
            old(self).wf(),
        ensures
            final(self).wf(),
            final(self).payment_token == old(self).payment_token,
            match r {
                Ok((w, effect)) => old(self).providers@.contains_key(caller@) && w == old(
                    self,
                ).providers@[caller@].earnings && final(self).providers@ == old(
                    self,
                ).providers@.insert(
                    caller@,
                    (Provider { earnings: 0, ..old(self).providers@[caller@] }),
                ) && effect == (PendingEffect::FtTransfer {
                    token: old(self).payment_token,
                    receiver: *caller,
                    amount: w,
                }),
                Err(e) => e == OracleError::ValidationError && !old(self).providers@.contains_key(
                    caller@,
                ) && *final(self) == *old(self),
            },
    {
        let w = match self.withdraw_earnings(caller) {
            Ok(w) => w,
            Err(e) => {
                return Err(e);
            }
        };
        let effect = fungible_token_transfer(self.payment_token.clone(), caller.clone(), w);
        Ok((w, effect))
    }

    /// Serves one lookup: on success the entry and the payment less the fee,
    /// the fee credited to the provider; on failure no entry, the full
    /// payment back, and no change. A failing lookup never charges.
    fn lookup_single(
        &mut self,
        pair: &String,
        provider: &String,
        min_last_update: u64,
        amount_left: u128,
    ) -> (r: Outcome)
        requires
            old(self).wf(),
        ensures
            final(self).wf(),
            final(self).payment_token == old(self).payment_token,
            ({
                let m = old(self).providers@;
                if lookup_ok(m, pair@, provider@, min_last_update, amount_left as int) {
                    let fee = fee_of(m, provider@);
                    &&& (match r.entries {
                        Some(es) => es@ == seq![entry_of(m, provider@, pair@)],
                        None => false,
                    })
                    &&& r.refund == amount_left - fee
                    &&& final(self).providers@ == spec_charge(m, provider@, fee)
                } else {
                    &&& r.entries is None
                    &&& r.refund == amount_left
                    &&& *final(self) == *old(self)
                }
            }),
    {
        if self.run_checks(pair, provider, min_last_update, amount_left) {
            let (entry, fee): (PriceEntry, u128) = match self.providers.get(provider) {
                Some(p) => {
                    let e = match p.get_entry(pair) {
                        Some(e) => e,
                        None => {
                            proof {
                                assert(false);
                            }
                            PriceEntry { price: 0, decimals: 0, last_update: 0 }
                        }
                    };
                    (e, p.get_fee())
                }
                None => {
                    proof {
                        assert(false);
                    }
                    (PriceEntry { price: 0, decimals: 0, last_update: 0 }, 0)
                }
            };
            self.add_earnings(provider, fee);
            let entries = vec![entry];
            proof {
                assert(entries@ =~= seq![entry]);
                let m2 = self.providers@;
                assert forall|a: Seq<char>| m2.contains_key(a) implies (
                #[trigger] m2[a]).balance.available <= m2[a].balance.total by {
                    if a != provider@ {
                        assert(m2[a] == old(self).providers@[a]);
                    }
                }
            }
            Outcome { entries: Some(entries), refund: amount_left - fee }
        } else {
            Outcome { entries: None, refund: amount_left }
        }
    }

    /// Serves one paid query. An unknown pair or provider and an
    /// insufficient payment abort the call; a stale entry (or an earnings
    /// counter that cannot take the fee) fails softly with a full refund.
    pub fn get_entry(
        &mut self,
        pair: &String,
        provider: &String,
        min_last_update: u64,
        amount: u128,
    ) -> (r: Result<Outcome, OracleError>)
        requires
            old(self).wf(),
        ensures
            final(self).wf(),
            final(self).payment_token == old(self).payment_token,
            get_entry_post(
                old(self).providers@,
                final(self).providers@,
                pair@,
                provider@,
                min_last_update,
                amount,
                r,
            ),
    {
        if !self.provider_pair_exists(pair, provider) {
            return Err(OracleError::ValidationError);
        }
        if !self.payment_sufficient(provider, amount) {
            return Err(OracleError::PaymentInsufficientError);
        }
        Ok(self.lookup_single(pair, provider, min_last_update, amount))
    }

    /// Serves a batch of lookups and returns every slot's individual result
    /// plus the exact refund, charging only the successful slots. A batch of
    /// unequal or zero lengths is rejected whole, with everything refunded
    /// and nothing charged.
    #[verifier::loop_isolation(false)]
    pub fn aggregate_collect(
        &mut self,
        pairs: Vec<String>,
        providers: Vec<String>,
        min_last_update: u64,
        amount: u128,
    ) -> (r: CollectOutcome)
        requires
            old(self).wf(),
        ensures
            final(self).wf(),
            final(self).payment_token == old(self).payment_token,
            collect_post(
                old(self).providers@,
                final(self).providers@,
                pairs.deep_view(),
                providers.deep_view(),
                min_last_update,
                amount,
                r,
            ),
    {
        proof {
            assert(pairs.deep_view().len() == pairs@.len());
            assert(providers.deep_view().len() == providers@.len());
        }
        if !self.same_length(&pairs, &providers) {
            return CollectOutcome { entries: None, refund: amount };
        }
        let ghost m0 = self.providers@;
        let ghost pv = pairs.deep_view();
        let ghost rv = providers.deep_view();
        let mut entries: Vec<Option<PriceEntry>> = Vec::new();
        let mut amount_left: u128 = amount;
        let mut i: usize = 0;
        proof {
            assert(pv.skip(0) =~= pv);
            assert(rv.skip(0) =~= rv);
            assert(Seq::<Option<PriceEntry>>::empty() + collect_entries(
                m0,
                pv,
                rv,
                min_last_update,
                amount as int,
            ) =~= collect_entries(m0, pv, rv, min_last_update, amount as int));
        }
        while i < pairs.len()
            invariant
                i <= pairs@.len(),
                self.wf(),
                self.payment_token == old(self).payment_token,
                collect_entries(m0, pv, rv, min_last_update, amount as int) == entries@
                    + collect_entries(
                    self.providers@,
                    pv.skip(i as int),
                    rv.skip(i as int),
                    min_last_update,
                    amount_left as int,
                ),
                remaining_after(m0, pv, rv, min_last_update, amount as int) == remaining_after(
                    self.providers@,
                    pv.skip(i as int),
                    rv.skip(i as int),
                    min_last_update,
                    amount_left as int,
                ),
                final_providers(m0, pv, rv, min_last_update, amount as int) == final_providers(
                    self.providers@,
                    pv.skip(i as int),
                    rv.skip(i as int),
                    min_last_update,
                    amount_left as int,
                ),
            decreases pairs@.len() - i,
        {
            let ghost mcur = self.providers@;
            let ghost sp = pv.skip(i as int);
            let ghost sr = rv.skip(i as int);
            let ghost done = entries@;
            proof {
                assert(pv[i as int] == pairs@[i as int]@);
                assert(rv[i as int] == providers@[i as int]@);
                assert(sp[0] == pv[i as int]);
                assert(sr[0] == rv[i as int]);
                assert(sp.drop_first() =~= pv.skip(i as int + 1));
                assert(sr.drop_first() =~= rv.skip(i as int + 1));
            }
            let o = self.lookup_single(&pairs[i], &providers[i], min_last_update, amount_left);
            match o.entries {
                Some(es) => {
                    let e = es[0];
                    entries.push(Some(e));
                    proof {
                        assert(done + (seq![Some(e)] + collect_entries(
                            self.providers@,
                            pv.skip(i as int + 1),
                            rv.skip(i as int + 1),
                            min_last_update,
                            o.refund as int,
                        )) =~= done.push(Some(e)) + collect_entries(
                            self.providers@,
                            pv.skip(i as int + 1),
                            rv.skip(i as int + 1),
                            min_last_update,
                            o.refund as int,
                        ));
                    }
                    amount_left = o.refund;
                }
                None => {
                    entries.push(None);
                    proof {
                        assert(done + (seq![None::<PriceEntry>] + collect_entries(
                            self.providers@,
                            pv.skip(i as int + 1),
                            rv.skip(i as int + 1),
                            min_last_update,
                            amount_left as int,
                        )) =~= done.push(None) + collect_entries(
                            self.providers@,
                            pv.skip(i as int + 1),
                            rv.skip(i as int + 1),
                            min_last_update,
                            amount_left as int,
                        ));
                    }
                }
            }
            i = i + 1;
        }
        proof {
            assert(pv.skip(pv.len() as int) =~= Seq::<Seq<char>>::empty());
            assert(rv.skip(rv.len() as int) =~= Seq::<Seq<char>>::empty());
            assert(entries@ + Seq::<Option<PriceEntry>>::empty() =~= entries@);
        }
        CollectOutcome { entries: Some(entries), refund: amount_left }
    }

    /// Serves a batch and reports one entry averaging the successful slots,
    /// charging only those, with the exact refund. The divisor is the count
    /// of successful entries, and the result's decimals are the least count
    /// that reproduces the average exactly. A batch of unequal or zero
    /// lengths is rejected whole; a batch with no successful slot, or whose
    /// scaled sum cannot be represented, reports no entry but still settles
    /// exactly.
    #[verifier::loop_isolation(false)]
    pub fn aggregate_avg(
        &mut self,
        pairs: Vec<String>,
        providers: Vec<String>,
        min_last_update: u64,
        amount: u128,
    ) -> (r: Outcome)
        requires
            old(self).wf(),
        ensures
            final(self).wf(),
            final(self).payment_token == old(self).payment_token,
            avg_post(
                old(self).providers@,
                final(self).providers@,
                pairs.deep_view(),
                providers.deep_view(),
                min_last_update,
                amount,
                r,
            ),
    {
        proof {
            assert(pairs.deep_view().len() == pairs@.len());
            assert(providers.deep_view().len() == providers@.len());
        }
        if !self.same_length(&pairs, &providers) {
            return Outcome { entries: None, refund: amount };
        }
        let ghost m0 = self.providers@;
        let ghost pv = pairs.deep_view();
        let ghost rv = providers.deep_view();
        let co = self.aggregate_collect(pairs, providers, min_last_update, amount);
        let es: Vec<Option<PriceEntry>> = match co.entries {
            Some(es) => es,
            None => {
                proof {
                    assert(false);
                }
                Vec::new()
            }
        };
        let ghost esv = es@;
        let mut succ: Vec<PriceEntry> = Vec::new();
        let mut j: usize = 0;
        proof {
            assert(esv.take(0) =~= Seq::<Option<PriceEntry>>::empty());
        }
        while j < es.len()
            invariant
                j <= esv.len(),
                es@ == esv,
                succ@ == successes(esv.take(j as int)),
            decreases esv.len() - j,
        {
            let ghost done = succ@;
            proof {
                assert(esv.take(j as int + 1).drop_last() =~= esv.take(j as int));
                assert(esv.take(j as int + 1).last() == esv[j as int]);
            }
            match es[j] {
                Some(e) => {
                    succ.push(e);
                    proof {
                        assert(done + seq![e] =~= done.push(e));
                    }
                }
                None => {
                    proof {
                        assert(done + Seq::<PriceEntry>::empty() =~= done);
                    }
                }
            }
            j = j + 1;
        }
        proof {
            assert(esv.take(esv.len() as int) =~= esv);
        }
        let n = succ.len();
        if n == 0 {
            return Outcome { entries: None, refund: co.refund };
        }
        let mut maxd: u32 = 0;
        let mut j2: usize = 0;
        proof {
            assert(succ@.take(0) =~= Seq::<PriceEntry>::empty());
        }
        while j2 < n
            invariant
                j2 <= succ@.len(),
                n == succ@.len(),
                maxd == max_decimals(succ@.take(j2 as int)),
            decreases succ@.len() - j2,
        {
            proof {
                assert(succ@.take(j2 as int + 1).drop_last() =~= succ@.take(j2 as int));
                assert(succ@.take(j2 as int + 1).last() == succ@[j2 as int]);
            }
            let e = succ[j2];
            if e.decimals > maxd {
                maxd = e.decimals;
            }
            j2 = j2 + 1;
        }
        proof {
            assert(succ@.take(succ@.len() as int) =~= succ@);
        }
        let ghost d = maxd as nat;
        let mut sum: u128 = 0;
        let mut j3: usize = 0;
        proof {
            assert(succ@.take(0) =~= Seq::<PriceEntry>::empty());
        }
        while j3 < n
            invariant
                j3 <= succ@.len(),
                n == succ@.len(),
                d == max_decimals(succ@),
                maxd == d,
                sum == scaled_sum(succ@.take(j3 as int), d),
                scale_fits(succ@.take(j3 as int), d),
            decreases succ@.len() - j3,
        {
            let e = succ[j3];
            proof {
                lemma_max_decimals_ge(succ@, j3 as int);
                assert(succ@.take(j3 as int + 1).drop_last() =~= succ@.take(j3 as int));
                assert(succ@.take(j3 as int + 1).last() == e);
            }
            let exp = maxd - e.decimals;
            let p = match pow10_checked(exp) {
                Some(p) => p,
                None => {
                    proof {
                        if scale_fits(succ@, d) {
                            lemma_scale_fits_prefix(succ@, d, j3 as int + 1);
                        }
                    }
                    return Outcome { entries: None, refund: co.refund };
                }
            };
            let term = match e.price.checked_mul(p) {
                Some(t) => t,
                None => {
                    proof {
                        if scale_fits(succ@, d) {
                            lemma_scale_fits_prefix(succ@, d, j3 as int + 1);
                        }
                    }
                    return Outcome { entries: None, refund: co.refund };
                }
            };
            sum = match sum.checked_add(term) {
                Some(s2) => s2,
                None => {
                    proof {
                        if scale_fits(succ@, d) {
                            lemma_scale_fits_prefix(succ@, d, j3 as int + 1);
                        }
                    }
                    return Outcome { entries: None, refund: co.refund };
                }
            };
            j3 = j3 + 1;
        }
        proof {
            assert(succ@.take(succ@.len() as int) =~= succ@);
        }
        let p_d = match pow10_checked(maxd) {
            Some(p) => p,
            None => {
                proof {
                    lemma_pow10_pos(d);
                    vstd::arithmetic::mul::lemma_mul_inequality(
                        1,
                        succ@.len() as int,
                        pow10(d),
                    );
                }
                return Outcome { entries: None, refund: co.refund };
            }
        };
        let t = match (n as u128).checked_mul(p_d) {
            Some(t) => t,
            None => {
                return Outcome { entries: None, refund: co.refund };
            }
        };
        proof {
            lemma_pow10_pos(d);
            vstd::arithmetic::mul::lemma_mul_inequality(1, succ@.len() as int, pow10(d));
        }
        let (price, decimals) = scaled_average(sum, t);
        let entry = PriceEntry { price, decimals, last_update: min_last_update };
        let entries = vec![entry];
        proof {
            assert(entries@ =~= seq![entry]);
        }
        Outcome { entries: Some(entries), refund: co.refund }
    }

    /// Stores one entry under the caller's record, creating the record
    /// where it is absent, and settles the storage prepayment: the unused
    /// part of the attached deposit comes back as a transfer effect, and a
    /// deposit that cannot cover the storage growth aborts the call whole,
    /// changing nothing.
    fn store_entry(
        &mut self,
        caller: &String,
        pair: &String,
        price: u128,
        decimals: u32,
        now: u64,
        initial_storage_usage: u64,
        current_storage_usage: u64,
        attached_deposit: u128,
    ) -> (r: Result<Option<PendingEffect>, OracleError>)
        requires
            old(self).wf(),
            current_storage_usage < initial_storage_usage ==> attached_deposit + (
            initial_storage_usage - current_storage_usage) * STORAGE_PRICE_PER_BYTE <= u128::MAX,
        ensures
            final(self).wf(),
            final(self).payment_token == old(self).payment_token,
            ({
                let m = old(self).providers@;
                let required = storage_required(initial_storage_usage, current_storage_usage);
                let freed = storage_freed(initial_storage_usage, current_storage_usage);
                match r {
                    Ok(eff) => {
                        &&& required <= attached_deposit
                        &&& pairs_updated_post(
                            m,
                            final(self).providers@,
                            caller@,
                            pair@,
                            PriceEntry { price, decimals, last_update: now },
                        )
                        &&& refund_effect_ok(
                            (attached_deposit - required + freed) as u128,
                            *caller,
                            eff,
                        )
                    },
                    Err(e) => e == OracleError::StorageInsufficientError && required
                        > attached_deposit && *final(self) == *old(self),
                }
            }),
    {
        let effect = match refund_storage(
            initial_storage_usage,
            current_storage_usage,
            attached_deposit,
            caller.clone(),
        ) {
            Ok((_, eff)) => eff,
            Err(e) => {
                return Err(e);
            }
        };
        let taken = self.providers.replace(caller, Provider::new());
        let mut p = match taken {
            Some(p) => p,
            None => Provider::new(),
        };
        p.set_price(pair, price, decimals, now);
        self.providers.insert(caller, p);
        proof {
            assert(self.providers@.dom() =~= old(self).providers@.dom().insert(caller@));
            let m2 = self.providers@;
            assert forall|a: Seq<char>| m2.contains_key(a) implies (
            #[trigger] m2[a]).balance.available <= m2[a].balance.total by {
                if a != caller@ {
                    assert(m2[a] == old(self).providers@[a]);
                }
            }
        }
        Ok(effect)
    }

    /// Updates the price of a pair the caller already publishes, stamped
    /// `now`, leaving the query fee alone and settling the storage
    /// prepayment; a pair never registered is rejected.
    pub fn push_data(
        &mut self,
        caller: &String,
        pair: &String,
        price: u128,
        decimals: u32,
        now: u64,
        initial_storage_usage: u64,
        current_storage_usage: u64,
        attached_deposit: u128,
    ) -> (r: Result<Option<PendingEffect>, OracleError>)
        requires
            old(self).wf(),
            current_storage_usage < initial_storage_usage ==> attached_deposit + (
            initial_storage_usage - current_storage_usage) * STORAGE_PRICE_PER_BYTE <= u128::MAX,
        ensures
            final(self).wf(),
            final(self).payment_token == old(self).payment_token,
            ({
                let m = old(self).providers@;
                let required = storage_required(initial_storage_usage, current_storage_usage);
                let freed = storage_freed(initial_storage_usage, current_storage_usage);
                if !has_pair(m, caller@, pair@) {
                    r == Err::<Option<PendingEffect>, OracleError>(OracleError::ValidationError)
                        && *final(self) == *old(self)
                } else {
                    match r {
                        Ok(eff) => {
                            &&& required <= attached_deposit
                            &&& pairs_updated_post(
                                m,
                                final(self).providers@,
                                caller@,
                                pair@,
                                PriceEntry { price, decimals, last_update: now },
                            )
                            &&& refund_effect_ok(
                                (attached_deposit - required + freed) as u128,
                                *caller,
                                eff,
                            )
                        },
                        Err(e) => e == OracleError::StorageInsufficientError && required
                            > attached_deposit && *final(self) == *old(self),
                    }
                }
            }),
    {
        if !self.provider_pair_exists(pair, caller) {
            return Err(OracleError::ValidationError);
        }
        self.store_entry(
            caller,
            pair,
            price,
            decimals,
            now,
            initial_storage_usage,
            current_storage_usage,
            attached_deposit,
        )
    }

    /// Registers a new pair for the caller with an initial price, stamped
    /// `now`, creating the provider record where it is absent, rejecting a
    /// pair the caller already publishes, and settling the storage
    /// prepayment as `push_data` does.
    pub fn create_pair(
        &mut self,
        caller: &String,
        pair: &String,
        decimals: u32,
        initial_price: u128,
        now: u64,
        initial_storage_usage: u64,
        current_storage_usage: u64,
        attached_deposit: u128,
    ) -> (r: Result<Option<PendingEffect>, OracleError>)
        requires
            old(self).wf(),
            current_storage_usage < initial_storage_usage ==> attached_deposit + (
            initial_storage_usage - current_storage_usage) * STORAGE_PRICE_PER_BYTE <= u128::MAX,
        ensures
            final(self).wf(),
            final(self).payment_token == old(self).payment_token,
            ({
                let m = old(self).providers@;
                let required = storage_required(initial_storage_usage, current_storage_usage);
                let freed = storage_freed(initial_storage_usage, current_storage_usage);
                if has_pair(m, caller@, pair@) {
                    r == Err::<Option<PendingEffect>, OracleError>(OracleError::ValidationError)
                        && *final(self) == *old(self)
                } else {
                    match r {
                        Ok(eff) => {
                            &&& required <= attached_deposit
                            &&& pairs_updated_post(
                                m,
                                final(self).providers@,
                                caller@,
                                pair@,
                                PriceEntry { price: initial_price, decimals, last_update: now },
                            )
                            &&& refund_effect_ok(
                                (attached_deposit - required + freed) as u128,
                                *caller,
                                eff,
                            )
                        },
                        Err(e) => e == OracleError::StorageInsufficientError && required
                            > attached_deposit && *final(self) == *old(self),
                    }
                }
            }),
    {
        if self.provider_pair_exists(pair, caller) {
            return Err(OracleError::ValidationError);
        }
        self.store_entry(
            caller,
            pair,
            initial_price,
            decimals,
            now,
            initial_storage_usage,
            current_storage_usage,
            attached_deposit,
        )
    }

    /// Overwrites the caller's query fee, with no bound checked; a caller
    /// without a provider record is rejected.
    pub fn set_fee(&mut self, caller: &String, fee: u128) -> (r: Result<(), OracleError>)
        requires
            old(self).wf(),
        ensures
            final(self).wf(),
            final(self).payment_token == old(self).payment_token,
            ({
                let m = old(self).providers@;
                match r {
                    Ok(_) => m.contains_key(caller@) && final(self).providers@ == m.insert(
                        caller@,
                        (Provider { query_fee: fee, ..m[caller@] }),
                    ),
                    Err(e) => e == OracleError::ValidationError && !m.contains_key(caller@)
                        && *final(self) == *old(self),
                }
            }),
    {
        if !self.providers.contains_key(caller) {
            return Err(OracleError::ValidationError);
        }
        let taken = self.providers.replace(caller, Provider::new());
        let mut p = match taken {
            Some(p) => p,
            None => {
                proof {
                    assert(false);
                }
                Provider::new()
            }
        };
        p.set_fee(fee);
        self.providers.insert(caller, p);
        proof {
            assert(self.providers@ =~= old(self).providers@.insert(
                caller@,
                (Provider { query_fee: fee, ..old(self).providers@[caller@] }),
            ));
            let m2 = self.providers@;
            assert forall|a: Seq<char>| m2.contains_key(a) implies (
            #[trigger] m2[a]).balance.available <= m2[a].balance.total by {
                if a != caller@ {
                    assert(m2[a] == old(self).providers@[a]);
                }
            }
        }
        Ok(())
    }

    /// Sums the fees of the listed lookups, counting only pairs that exist.
    /// The batch must have equal, non-zero lengths.
    #[verifier::loop_isolation(false)]
    pub fn get_fee_total(&self, pairs: &Vec<String>, providers: &Vec<String>) -> (r: Result<
        u128,
        OracleError,
    >)
        requires
            spec_fee_total(self.providers@, pairs.deep_view(), providers.deep_view())
                <= u128::MAX,
        ensures
            match r {
                Ok(total) => pairs@.len() == providers@.len() && pairs@.len() > 0 && total
                    == spec_fee_total(self.providers@, pairs.deep_view(), providers.deep_view()),
                Err(e) => e == OracleError::ValidationError && !(pairs@.len() == providers@.len()
                    && pairs@.len() > 0),
            },
    {
        proof {
            assert(pairs.deep_view().len() == pairs@.len());
            assert(providers.deep_view().len() == providers@.len());
        }
        if !self.same_length(pairs, providers) {
            return Err(OracleError::ValidationError);
        }
        let ghost pv = pairs.deep_view();
        let ghost rv = providers.deep_view();
        let mut fee_total: u128 = 0;
        let mut i: usize = 0;
        proof {
            assert(pv.take(0) =~= Seq::<Seq<char>>::empty());
            assert(rv.take(0) =~= Seq::<Seq<char>>::empty());
        }
        while i < pairs.len()
            invariant
                i <= pv.len(),
                fee_total == spec_fee_total(self.providers@, pv.take(i as int), rv.take(i as int)),
            decreases pv.len() - i,
        {
            proof {
                assert(pv[i as int] == pairs@[i as int]@);
                assert(rv[i as int] == providers@[i as int]@);
                assert(pv.take(i as int + 1).drop_last() =~= pv.take(i as int));
                assert(rv.take(i as int + 1).drop_last() =~= rv.take(i as int));
                assert(pv.take(i as int + 1).last() == pv[i as int]);
                assert(rv.take(i as int + 1).last() == rv[i as int]);
                lemma_fee_total_prefix(self.providers@, pv, rv, i as int + 1);
            }
            if self.provider_pair_exists(&pairs[i], &providers[i]) {
                let fee = match self.providers.get(&providers[i]) {
                    Some(p) => p.get_fee(),
                    None => {
                        proof {
                            assert(false);
                        }
                        0
                    }
                };
                fee_total = fee_total + fee;
            }
            i = i + 1;
        }
        proof {
            assert(pv.take(pv.len() as int) =~= pv);
            assert(rv.take(rv.len() as int) =~= rv);
        }
        Ok(fee_total)
    }

    /// Whether an account has a provider record.
    pub fn get_provider_exists(&self, account_id: &String) -> (b: bool)
        ensures
            b == self.providers@.contains_key(account_id@),
    {
        self.providers.contains_key(account_id)
    }

    /// Whether `provider` publishes `pair`.
    pub fn get_pair_exists(&self, pair: &String, provider: &String) -> (b: bool)
        ensures
            b == has_pair(self.providers@, provider@, pair@),
    {
        self.provider_pair_exists(pair, provider)
    }

    /// The pairs a provider publishes, or `None` where the account has no
    /// provider record.
    pub fn get_provider_pairs(&self, account_id: &String) -> (r: Option<&LookupMap<PriceEntry>>)
        ensures
            match r {
                Some(pairs) => self.providers@.contains_key(account_id@) && pairs@
                    == self.providers@[account_id@].pairs@,
                None => !self.providers@.contains_key(account_id@),
            },
    {
        match self.providers.get(account_id) {
            Some(p) => Some(&p.pairs),
            None => None,
        }
    }

    /// Dispatches one decoded request message to the query it names and
    /// wraps its settlement. A single-entry request without a pair and a
    /// provider is rejected.
    pub fn run_method(&mut self, amount: u128, payload: RequestPayload) -> (r: Result<
        QueryResult,
        OracleError,
    >)
        requires
            old(self).wf(),
        ensures
            final(self).wf(),
            final(self).payment_token == old(self).payment_token,
            ({
                let m = old(self).providers@;
                let m2 = final(self).providers@;
                let pv = payload.pairs.deep_view();
                let rv = payload.providers.deep_view();
                match payload.method {
                    QueryMethod::GetEntry => {
                        if pv.len() == 0 || rv.len() == 0 {
                            r == Err::<QueryResult, OracleError>(OracleError::ValidationError)
                                && m2 == m
                        } else {
                            match r {
                                Ok(q) => match q {
                                    QueryResult::Priced(o) => get_entry_post(
                                        m,
                                        m2,
                                        pv[0],
                                        rv[0],
                                        payload.min_last_update,
                                        amount,
                                        Ok(o),
                                    ),
                                    QueryResult::Collected(_) => false,
                                },
                                Err(e) => get_entry_post(
                                    m,
                                    m2,
                                    pv[0],
                                    rv[0],
                                    payload.min_last_update,
                                    amount,
                                    Err(e),
                                ),
                            }
                        }
                    },
                    QueryMethod::AggregateAvg => match r {
                        Ok(q) => match q {
                            QueryResult::Priced(o) => avg_post(
                                m,
                                m2,
                                pv,
                                rv,
                                payload.min_last_update,
                                amount,
                                o,
                            ),
                            QueryResult::Collected(_) => false,
                        },
                        Err(_) => false,
                    },
                    QueryMethod::AggregateCollect => match r {
                        Ok(q) => match q {
                            QueryResult::Collected(c) => collect_post(
                                m,
                                m2,
                                pv,
                                rv,
                                payload.min_last_update,
                                amount,
                                c,
                            ),
                            QueryResult::Priced(_) => false,
                        },
                        Err(_) => false,
                    },
                }
            }),
    {
        match payload.method {
            QueryMethod::GetEntry => {
                if payload.pairs.len() == 0 || payload.providers.len() == 0 {
                    return Err(OracleError::ValidationError);
                }
                proof {
                    assert(payload.pairs.deep_view()[0] == payload.pairs@[0]@);
                    assert(payload.providers.deep_view()[0] == payload.providers@[0]@);
                }
                match self.get_entry(
                    &payload.pairs[0],
                    &payload.providers[0],
                    payload.min_last_update,
                    amount,
                ) {
                    Ok(o) => Ok(QueryResult::Priced(o)),
                    Err(e) => Err(e),
                }
            }
            QueryMethod::AggregateAvg => Ok(
                QueryResult::Priced(
                    self.aggregate_avg(
                        payload.pairs,
                        payload.providers,
                        payload.min_last_update,
                        amount,
                    ),
                ),
            ),
            QueryMethod::AggregateCollect => Ok(
                QueryResult::Collected(
                    self.aggregate_collect(
                        payload.pairs,
                        payload.providers,
                        payload.min_last_update,
                        amount,
                    ),
                ),
            ),
        }
    }
}

/// Which query a decoded request message names.
#[derive(Clone, Copy, PartialEq, Eq, Structural, Debug)]
pub enum QueryMethod {
    GetEntry,
    AggregateAvg,
    AggregateCollect,
}

/// A decoded request message: the query to run and its arguments.
pub struct RequestPayload {
    pub method: QueryMethod,
    pub pairs: Vec<String>,
    pub providers: Vec<String>,
    pub min_last_update: u64,
}

/// What a dispatched query returns.
#[derive(Clone, PartialEq, Debug)]
pub enum QueryResult {
    Priced(Outcome),
    Collected(CollectOutcome),
}

/// The storage cost a call must cover out of its attached deposit.
pub open spec fn storage_required(initial_storage_usage: u64, current_storage_usage: u64) -> int {
    if current_storage_usage > initial_storage_usage {
        (current_storage_usage - initial_storage_usage) * STORAGE_PRICE_PER_BYTE
    } else {
        0
    }
}

/// The storage credit a call earns by freeing bytes.
pub open spec fn storage_freed(initial_storage_usage: u64, current_storage_usage: u64) -> int {
    if current_storage_usage > initial_storage_usage {
        0
    } else {
        (initial_storage_usage - current_storage_usage) * STORAGE_PRICE_PER_BYTE
    }
}

/// Whether `eff` hands `refund` back to `receiver`: a transfer where there
/// is something to return, nothing otherwise.
pub open spec fn refund_effect_ok(refund: u128, receiver: String, eff: Option<PendingEffect>) -> bool {
    if refund > 0 {
        eff == Some(PendingEffect::NativeTransfer { receiver, amount: refund })
    } else {
        eff is None
    }
}

/// What publishing one entry does to the provider map: the caller's record
/// gains the entry (created fresh where absent) and every other record is
/// untouched.
pub open spec fn pairs_updated_post(
    m: Map<Seq<char>, Provider>,
    m2: Map<Seq<char>, Provider>,
    who: Seq<char>,
    pair: Seq<char>,
    e: PriceEntry,
) -> bool {
    &&& m2.dom() == m.dom().insert(who)
    &&& (forall|a: Seq<char>| a != who && m.contains_key(a) ==> m2[a] == m[a])
    &&& ({
        let p = m2[who];
        &&& p.pairs@ == (if m.contains_key(who) {
            m[who].pairs@
        } else {
            Map::<Seq<char>, PriceEntry>::empty()
        }).insert(pair, e)
        &&& p.query_fee == (if m.contains_key(who) {
            m[who].query_fee
        } else {
            0
        })
        &&& p.earnings == (if m.contains_key(who) {
            m[who].earnings
        } else {
            0
        })
        &&& p.balance == (if m.contains_key(who) {
            m[who].balance
        } else {
            AccountStorageBalance { total: 0, available: 0 }
        })
    })
}

/// The fees owed for a batch of lookups: each existing pair's provider fee,
/// a missing pair counting nothing.
pub open spec fn spec_fee_total(
    m: Map<Seq<char>, Provider>,
    pv: Seq<Seq<char>>,
    rv: Seq<Seq<char>>,
) -> int
    decreases pv.len(),
{
    if pv.len() == 0 {
        0
    } else {
        spec_fee_total(m, pv.drop_last(), rv.drop_last()) + (if has_pair(m, rv.last(), pv.last()) {
            fee_of(m, rv.last()) as int
        } else {
            0
        })
    }
}

proof fn lemma_fee_total_prefix(
    m: Map<Seq<char>, Provider>,
    pv: Seq<Seq<char>>,
    rv: Seq<Seq<char>>,
    j: int,
)
    requires
        0 <= j <= pv.len(),
        pv.len() == rv.len(),
    ensures
        0 <= spec_fee_total(m, pv.take(j), rv.take(j)) <= spec_fee_total(m, pv, rv),
    decreases pv.len(),
{
    if j == pv.len() {
        assert(pv.take(j) =~= pv);
        assert(rv.take(j) =~= rv);
        lemma_fee_total_nonneg(m, pv, rv);
    } else {
        lemma_fee_total_prefix(m, pv.drop_last(), rv.drop_last(), j);
        assert(pv.drop_last().take(j) =~= pv.take(j));
        assert(rv.drop_last().take(j) =~= rv.take(j));
    }
}

proof fn lemma_fee_total_nonneg(m: Map<Seq<char>, Provider>, pv: Seq<Seq<char>>, rv: Seq<Seq<char>>)
    ensures
        0 <= spec_fee_total(m, pv, rv),
    decreases pv.len(),
{
    if pv.len() > 0 {
        lemma_fee_total_nonneg(m, pv.drop_last(), rv.drop_last());
    }
}

/// The entries of the successful slots, in order.
pub open spec fn successes(es: Seq<Option<PriceEntry>>) -> Seq<PriceEntry>
    decreases es.len(),
{
    if es.len() == 0 {
        Seq::empty()
    } else {
        successes(es.drop_last()) + (match es.last() {
            Some(e) => seq![e],
            None => Seq::empty(),
        })
    }
}

/// The greatest decimal count among the entries.
pub open spec fn max_decimals(s: Seq<PriceEntry>) -> nat
    decreases s.len(),
{
    if s.len() == 0 {
        0
    } else {
        let rest = max_decimals(s.drop_last());
        if s.last().decimals >= rest {
            s.last().decimals as nat
        } else {
            rest
        }
    }
}

/// The sum of the entries' prices, each scaled up to `d` decimals.
pub open spec fn scaled_sum(s: Seq<PriceEntry>, d: nat) -> int
    decreases s.len(),
{
    if s.len() == 0 {
        0
    } else {
        scaled_sum(s.drop_last(), d) + s.last().price * pow10((d - s.last().decimals) as nat)
    }
}

/// Whether every scaling step and every partial sum fits the result type.
pub open spec fn scale_fits(s: Seq<PriceEntry>, d: nat) -> bool
    decreases s.len(),
{
    if s.len() == 0 {
        true
    } else {
        &&& scale_fits(s.drop_last(), d)
        &&& pow10((d - s.last().decimals) as nat) <= u128::MAX
        &&& s.last().price * pow10((d - s.last().decimals) as nat) <= u128::MAX
        &&& scaled_sum(s, d) <= u128::MAX
    }
}

proof fn lemma_max_decimals_ge(s: Seq<PriceEntry>, i: int)
    requires
        0 <= i < s.len(),
    ensures
        s[i].decimals <= max_decimals(s),
    decreases s.len(),
{
    if i < s.len() - 1 {
        lemma_max_decimals_ge(s.drop_last(), i);
    }
}

proof fn lemma_scale_fits_prefix(s: Seq<PriceEntry>, d: nat, j: int)
    requires
        scale_fits(s, d),
        0 <= j <= s.len(),
    ensures
        scale_fits(s.take(j), d),
    decreases s.len(),
{
    if j < s.len() {
        lemma_scale_fits_prefix(s.drop_last(), d, j);
        assert(s.drop_last().take(j) =~= s.take(j));
    } else {
        assert(s.take(j) =~= s);
    }
}

/// The slot-by-slot result of a batch: `Some` where the lookup succeeded,
/// `None` where it failed, each success charged against the running amount.
pub open spec fn collect_entries(
    m: Map<Seq<char>, Provider>,
    pairs: Seq<Seq<char>>,
    provs: Seq<Seq<char>>,
    min_last_update: u64,
    amount: int,
) -> Seq<Option<PriceEntry>>
    decreases pairs.len(),
{
    if pairs.len() == 0 {
        Seq::empty()
    } else if lookup_ok(m, pairs[0], provs[0], min_last_update, amount) {
        let fee = fee_of(m, provs[0]);
        seq![Some(entry_of(m, provs[0], pairs[0]))] + collect_entries(
            spec_charge(m, provs[0], fee),
            pairs.drop_first(),
            provs.drop_first(),
            min_last_update,
            amount - fee,
        )
    } else {
        seq![None] + collect_entries(
            m,
            pairs.drop_first(),
            provs.drop_first(),
            min_last_update,
            amount,
        )
    }
}

/// What is left of the attached amount after a batch.
pub open spec fn remaining_after(
    m: Map<Seq<char>, Provider>,
    pairs: Seq<Seq<char>>,
    provs: Seq<Seq<char>>,
    min_last_update: u64,
    amount: int,
) -> int
    decreases pairs.len(),
{
    if pairs.len() == 0 {
        amount
    } else if lookup_ok(m, pairs[0], provs[0], min_last_update, amount) {
        let fee = fee_of(m, provs[0]);
        remaining_after(
            spec_charge(m, provs[0], fee),
            pairs.drop_first(),
            provs.drop_first(),
            min_last_update,
            amount - fee,
        )
    } else {
        remaining_after(m, pairs.drop_first(), provs.drop_first(), min_last_update, amount)
    }
}

/// The fees a batch charges in all.
pub open spec fn charged_fees(
    m: Map<Seq<char>, Provider>,
    pairs: Seq<Seq<char>>,
    provs: Seq<Seq<char>>,
    min_last_update: u64,
    amount: int,
) -> int
    decreases pairs.len(),
{
    if pairs.len() == 0 {
        0
    } else if lookup_ok(m, pairs[0], provs[0], min_last_update, amount) {
        let fee = fee_of(m, provs[0]);
        fee + charged_fees(
            spec_charge(m, provs[0], fee),
            pairs.drop_first(),
            provs.drop_first(),
            min_last_update,
            amount - fee,
        )
    } else {
        charged_fees(m, pairs.drop_first(), provs.drop_first(), min_last_update, amount)
    }
}

/// The provider map after a batch: each successful slot's fee credited to
/// its provider, in order.
pub open spec fn final_providers(
    m: Map<Seq<char>, Provider>,
    pairs: Seq<Seq<char>>,
    provs: Seq<Seq<char>>,
    min_last_update: u64,
    amount: int,
) -> Map<Seq<char>, Provider>
    decreases pairs.len(),
{
    if pairs.len() == 0 {
        m
    } else if lookup_ok(m, pairs[0], provs[0], min_last_update, amount) {
        let fee = fee_of(m, provs[0]);
        final_providers(
            spec_charge(m, provs[0], fee),
            pairs.drop_first(),
            provs.drop_first(),
            min_last_update,
            amount - fee,
        )
    } else {
        final_providers(m, pairs.drop_first(), provs.drop_first(), min_last_update, amount)
    }
}

/// What a correct `get_entry` settlement looks like, relating the provider
/// map before (`m`) and after (`m2`) to the result.
pub open spec fn get_entry_post(
    m: Map<Seq<char>, Provider>,
    m2: Map<Seq<char>, Provider>,
    pair: Seq<char>,
    provider: Seq<char>,
    min_last_update: u64,
    amount: u128,
    r: Result<Outcome, OracleError>,
) -> bool {
    if !has_pair(m, provider, pair) {
        r == Err::<Outcome, OracleError>(OracleError::ValidationError) && m2 == m
    } else if amount < fee_of(m, provider) {
        r == Err::<Outcome, OracleError>(OracleError::PaymentInsufficientError) && m2 == m
    } else if lookup_ok(m, pair, provider, min_last_update, amount as int) {
        match r {
            Ok(o) => (match o.entries {
                Some(es) => es@ == seq![entry_of(m, provider, pair)],
                None => false,
            }) && o.refund == amount - fee_of(m, provider) && m2 == spec_charge(
                m,
                provider,
                fee_of(m, provider),
            ),
            Err(_) => false,
        }
    } else {
        match r {
            Ok(o) => o.entries is None && o.refund == amount && m2 == m,
            Err(_) => false,
        }
    }
}

/// What a correct `aggregate_collect` settlement looks like.
pub open spec fn collect_post(
    m: Map<Seq<char>, Provider>,
    m2: Map<Seq<char>, Provider>,
    pv: Seq<Seq<char>>,
    rv: Seq<Seq<char>>,
    min_last_update: u64,
    amount: u128,
    r: CollectOutcome,
) -> bool {
    if pv.len() != rv.len() || pv.len() == 0 {
        r.entries is None && r.refund == amount && m2 == m
    } else {
        &&& (match r.entries {
            Some(es) => es@ == collect_entries(m, pv, rv, min_last_update, amount as int),
            None => false,
        })
        &&& r.refund == remaining_after(m, pv, rv, min_last_update, amount as int)
        &&& m2 == final_providers(m, pv, rv, min_last_update, amount as int)
    }
}

/// What a correct `aggregate_avg` settlement looks like.
pub open spec fn avg_post(
    m: Map<Seq<char>, Provider>,
    m2: Map<Seq<char>, Provider>,
    pv: Seq<Seq<char>>,
    rv: Seq<Seq<char>>,
    min_last_update: u64,
    amount: u128,
    r: Outcome,
) -> bool {
    if pv.len() != rv.len() || pv.len() == 0 {
        r.entries is None && r.refund == amount && m2 == m
    } else {
        let succ = successes(collect_entries(m, pv, rv, min_last_update, amount as int));
        let d = max_decimals(succ);
        let s = scaled_sum(succ, d);
        let t = succ.len() * pow10(d);
        &&& r.refund == remaining_after(m, pv, rv, min_last_update, amount as int)
        &&& m2 == final_providers(m, pv, rv, min_last_update, amount as int)
        &&& (if succ.len() == 0 {
            r.entries is None
        } else if scale_fits(succ, d) && t <= u128::MAX {
            match r.entries {
                Some(es) => es@.len() == 1 && es@[0].last_update == min_last_update
                    && avg_result_ok(s, t, es@[0].price, es@[0].decimals),
                None => false,
            }
        } else {
            r.entries is None
        })
    }
}

/// Round trip: after a provider registers a pair and then pushes a new
/// price for it, a lookup of that pair serves the pushed price with the
/// registered decimals and the later timestamp, which is no older than the
/// first.
pub proof fn lemma_create_push_round_trip(
    m0: Map<Seq<char>, Provider>,
    m1: Map<Seq<char>, Provider>,
    m2: Map<Seq<char>, Provider>,
    who: Seq<char>,
    pair: Seq<char>,
    decimals: u32,
    price1: u128,
    t1: u64,
    price2: u128,
    t2: u64,
)
    requires
        pairs_updated_post(
            m0,
            m1,
            who,
            pair,
            PriceEntry { price: price1, decimals, last_update: t1 },
        ),
        pairs_updated_post(
            m1,
            m2,
            who,
            pair,
            PriceEntry { price: price2, decimals, last_update: t2 },
        ),
        t1 <= t2,
    ensures
        has_pair(m2, who, pair),
        entry_of(m2, who, pair) == (PriceEntry { price: price2, decimals, last_update: t2 }),
        entry_of(m2, who, pair).last_update >= t1,
{
}

/// A batch settles through earnings alone: it serves no provider that was
/// not there, removes none, and leaves every provider's fee, pairs, and
/// storage balance untouched; earnings never shrink.
pub proof fn lemma_aggregate_touches_only_earnings(
    m: Map<Seq<char>, Provider>,
    pairs: Seq<Seq<char>>,
    provs: Seq<Seq<char>>,
    min_last_update: u64,
    amount: int,
)
    ensures
        final_providers(m, pairs, provs, min_last_update, amount).dom() == m.dom(),
        forall|a: Seq<char>|
            #[trigger] m.contains_key(a) ==> {
                let p = m[a];
                let p2 = final_providers(m, pairs, provs, min_last_update, amount)[a];
                p2.query_fee == p.query_fee && p2.pairs == p.pairs && p2.balance == p.balance
                    && p2.earnings >= p.earnings
            },
    decreases pairs.len(),
{
    if pairs.len() > 0 {
        if lookup_ok(m, pairs[0], provs[0], min_last_update, amount) {
            let fee = fee_of(m, provs[0]);
            let m1 = spec_charge(m, provs[0], fee);
            assert(m1.dom() =~= m.dom());
            lemma_aggregate_touches_only_earnings(
                m1,
                pairs.drop_first(),
                provs.drop_first(),
                min_last_update,
                amount - fee,
            );
        } else {
            lemma_aggregate_touches_only_earnings(
                m,
                pairs.drop_first(),
                provs.drop_first(),
                min_last_update,
                amount,
            );
        }
    } else {
        assert(final_providers(m, pairs, provs, min_last_update, amount).dom() =~= m.dom());
    }
}

/// No value appears or vanishes in a batch: the amount attached equals the
/// fees charged plus what is refunded.
pub proof fn lemma_aggregate_conservation(
    m: Map<Seq<char>, Provider>,
    pairs: Seq<Seq<char>>,
    provs: Seq<Seq<char>>,
    min_last_update: u64,
    amount: int,
)
    ensures
        amount == charged_fees(m, pairs, provs, min_last_update, amount) + remaining_after(
            m,
            pairs,
            provs,
            min_last_update,
            amount,
        ),
    decreases pairs.len(),
{
    if pairs.len() > 0 {
        if lookup_ok(m, pairs[0], provs[0], min_last_update, amount) {
            let fee = fee_of(m, provs[0]);
            lemma_aggregate_conservation(
                spec_charge(m, provs[0], fee),
                pairs.drop_first(),
                provs.drop_first(),
                min_last_update,
                amount - fee,
            );
        } else {
            lemma_aggregate_conservation(
                m,
                pairs.drop_first(),
                provs.drop_first(),
                min_last_update,
                amount,
            );
        }
    }
}

} // verus!
