use price_oracle::errors::OracleError;
use price_oracle::fungible_token_handler::PendingEffect;
use price_oracle::helpers::STORAGE_PRICE_PER_BYTE;
use price_oracle::oracle::{
    FirstPartyOracle, PriceEntry, QueryMethod, QueryResult, RequestPayload,
};

fn alice() -> String {
    "alice.near".to_string()
}

fn bob() -> String {
    "bob.near".to_string()
}

fn jack() -> String {
    "jack.near".to_string()
}

fn token() -> String {
    "token.near".to_string()
}

fn ethusd() -> String {
    "ETHUSD".to_string()
}

/// A store with one provider publishing a pair, free of storage bookkeeping:
/// byte counts equal, nothing attached.
fn oracle_with_pair(provider: &String, pair: &String, decimals: u32, price: u128, now: u64) -> FirstPartyOracle {
    let mut contract = FirstPartyOracle::new(token());
    contract
        .create_pair(provider, pair, decimals, price, now, 1000, 1000, 0)
        .unwrap();
    contract
}

#[test]
fn provider_sends_data_and_requester_recieves_it() {
    let mut contract = oracle_with_pair(&jack(), &ethusd(), 0, 1, 1);
    contract
        .push_data(&jack(), &ethusd(), 4000, 0, 2, 1000, 1000, 0)
        .unwrap();
    let outcome = contract.get_entry(&ethusd(), &jack(), 0, 0).unwrap();
    let entries = outcome.entries.unwrap();
    assert_eq!(entries[0].price, 4000);
}

#[test]
fn free_lookup_returns_entry_and_no_refund() {
    // provider registers ETHUSD with two decimals at 400000 and no fee; a
    // lookup attaching nothing returns the entry and refunds nothing
    let mut contract = oracle_with_pair(&alice(), &ethusd(), 2, 400000, 7);
    let outcome = contract.get_entry(&ethusd(), &alice(), 0, 0).unwrap();
    assert_eq!(outcome.refund, 0);
    let entries = outcome.entries.unwrap();
    assert_eq!(
        entries[0],
        PriceEntry {
            price: 400000,
            decimals: 2,
            last_update: 7,
        }
    );
}

#[test]
fn underpaid_lookup_fails_without_charging() {
    let mut contract = oracle_with_pair(&alice(), &ethusd(), 2, 400000, 7);
    contract.set_fee(&alice(), 10).unwrap();
    let err = contract.get_entry(&ethusd(), &alice(), 0, 5).unwrap_err();
    assert_eq!(err, OracleError::PaymentInsufficientError);
    let provider = contract.get_provider_pairs(&alice());
    assert!(provider.is_some());
    let earned = contract.claim_earnings(&alice()).unwrap().0;
    assert_eq!(earned, 0);
}

#[test]
fn paid_lookup_charges_fee_and_refunds_rest() {
    let mut contract = oracle_with_pair(&alice(), &ethusd(), 2, 400000, 7);
    contract.set_fee(&alice(), 10).unwrap();
    contract
        .push_data(&alice(), &ethusd(), 400123, 2, 9, 1000, 1000, 0)
        .unwrap();
    let outcome = contract.get_entry(&ethusd(), &alice(), 0, 15).unwrap();
    assert_eq!(outcome.refund, 5);
    let entries = outcome.entries.unwrap();
    assert_eq!(
        entries[0],
        PriceEntry {
            price: 400123,
            decimals: 2,
            last_update: 9,
        }
    );
    let (earned, effect) = contract.claim_earnings(&alice()).unwrap();
    assert_eq!(earned, 10);
    assert_eq!(
        effect,
        PendingEffect::FtTransfer {
            token: token(),
            receiver: alice(),
            amount: 10,
        }
    );
    // claiming zeroes the earnings
    assert_eq!(contract.claim_earnings(&alice()).unwrap().0, 0);
}

#[test]
fn unknown_pair_lookup_aborts() {
    let mut contract = FirstPartyOracle::new(token());
    let err = contract.get_entry(&ethusd(), &alice(), 0, 0).unwrap_err();
    assert_eq!(err, OracleError::ValidationError);
}

#[test]
fn stale_lookup_refunds_everything() {
    let mut contract = oracle_with_pair(&alice(), &ethusd(), 2, 400000, 5);
    contract.set_fee(&alice(), 10).unwrap();
    let outcome = contract.get_entry(&ethusd(), &alice(), 5, 20).unwrap();
    assert!(outcome.entries.is_none());
    assert_eq!(outcome.refund, 20);
}

#[test]
fn create_pair_rejects_existing_pair() {
    let mut contract = oracle_with_pair(&alice(), &ethusd(), 2, 400000, 5);
    let err = contract
        .create_pair(&alice(), &ethusd(), 2, 500000, 6, 1000, 1000, 0)
        .unwrap_err();
    assert_eq!(err, OracleError::ValidationError);
    // the stored entry is untouched
    let outcome = contract.get_entry(&ethusd(), &alice(), 0, 0).unwrap();
    assert_eq!(outcome.entries.unwrap()[0].price, 400000);
}

#[test]
fn create_pair_then_push_updates_price_and_timestamp() {
    // round trip: create, push a new value, read it back with the newer stamp
    let mut contract = oracle_with_pair(&alice(), &ethusd(), 2, 400000, 5);
    contract
        .push_data(&alice(), &ethusd(), 410000, 2, 8, 1000, 1000, 0)
        .unwrap();
    let outcome = contract.get_entry(&ethusd(), &alice(), 0, 0).unwrap();
    let entry = outcome.entries.unwrap()[0];
    assert_eq!(entry.price, 410000);
    assert_eq!(entry.decimals, 2);
    assert_eq!(entry.last_update, 8);
    assert!(entry.last_update >= 5);
}

#[test]
fn push_data_charges_storage_growth() {
    let mut contract = FirstPartyOracle::new(token());
    // the pair occupies 3 new bytes; 5 byte-prices attached: 2 come back
    let effect = contract
        .create_pair(
            &alice(),
            &ethusd(),
            2,
            400000,
            1,
            1000,
            1003,
            5 * STORAGE_PRICE_PER_BYTE,
        )
        .unwrap();
    assert_eq!(
        effect,
        Some(PendingEffect::NativeTransfer {
            receiver: alice(),
            amount: 2 * STORAGE_PRICE_PER_BYTE,
        })
    );
}

#[test]
fn create_pair_with_insufficient_deposit_aborts() {
    let mut contract = FirstPartyOracle::new(token());
    let err = contract
        .create_pair(&alice(), &ethusd(), 2, 400000, 1, 1000, 1003, STORAGE_PRICE_PER_BYTE)
        .unwrap_err();
    assert_eq!(err, OracleError::StorageInsufficientError);
    assert!(!contract.get_provider_exists(&alice()));
}

#[test]
fn push_data_requires_registered_pair() {
    let mut contract = FirstPartyOracle::new(token());
    let err = contract
        .push_data(&alice(), &ethusd(), 400000, 2, 1, 1000, 1000, 0)
        .unwrap_err();
    assert_eq!(err, OracleError::ValidationError);
    assert!(!contract.get_provider_exists(&alice()));
}

#[test]
fn set_fee_requires_existing_provider() {
    let mut contract = FirstPartyOracle::new(token());
    let err = contract.set_fee(&alice(), 10).unwrap_err();
    assert_eq!(err, OracleError::ValidationError);
}

#[test]
fn aggregate_avg_excludes_stale_entries() {
    // two providers with fee 1 each; bob's entry is older than the cutoff,
    // so only alice's fresh value enters the average
    let mut contract = FirstPartyOracle::new(token());
    contract
        .create_pair(&alice(), &ethusd(), 2, 40010000, 10, 1000, 1000, 0)
        .unwrap();
    contract.set_fee(&alice(), 1).unwrap();
    contract
        .create_pair(&bob(), &ethusd(), 2, 40000000, 3, 1000, 1000, 0)
        .unwrap();
    contract.set_fee(&bob(), 1).unwrap();
    let outcome = contract.aggregate_avg(
        vec![ethusd(), ethusd()],
        vec![alice(), bob()],
        5,
        10,
    );
    // only alice's lookup was charged
    assert_eq!(outcome.refund, 9);
    let entry = outcome.entries.unwrap()[0];
    // 400100.00 averages to a whole number, so zero decimals suffice
    assert_eq!(entry.price, 400100);
    assert_eq!(entry.decimals, 0);
    assert_eq!(entry.last_update, 5);
}

#[test]
fn aggregate_avg_minimal_decimals_is_zero_for_whole_average() {
    // 400000.00 and 400100.00 average to 400050.0 exactly: zero decimals
    let mut contract = FirstPartyOracle::new(token());
    contract
        .create_pair(&alice(), &ethusd(), 2, 40000000, 10, 1000, 1000, 0)
        .unwrap();
    contract
        .create_pair(&bob(), &ethusd(), 2, 40010000, 10, 1000, 1000, 0)
        .unwrap();
    let outcome = contract.aggregate_avg(
        vec![ethusd(), ethusd()],
        vec![alice(), bob()],
        5,
        0,
    );
    let entry = outcome.entries.unwrap()[0];
    assert_eq!(entry.price, 400050);
    assert_eq!(entry.decimals, 0);
}

#[test]
fn aggregate_avg_keeps_fractional_digits_when_needed() {
    // 1.00 and 2.01 average to 1.505: three fractional digits are needed
    let mut contract = FirstPartyOracle::new(token());
    contract
        .create_pair(&alice(), &ethusd(), 2, 100, 10, 1000, 1000, 0)
        .unwrap();
    contract
        .create_pair(&bob(), &ethusd(), 2, 201, 10, 1000, 1000, 0)
        .unwrap();
    let outcome = contract.aggregate_avg(
        vec![ethusd(), ethusd()],
        vec![alice(), bob()],
        5,
        0,
    );
    let entry = outcome.entries.unwrap()[0];
    assert_eq!(entry.price, 1505);
    assert_eq!(entry.decimals, 3);
}

#[test]
fn aggregate_avg_rejects_mismatched_batch() {
    let mut contract = oracle_with_pair(&alice(), &ethusd(), 2, 400000, 5);
    let outcome = contract.aggregate_avg(vec![ethusd()], vec![alice(), bob()], 0, 42);
    assert!(outcome.entries.is_none());
    assert_eq!(outcome.refund, 42);
    let outcome = contract.aggregate_avg(vec![], vec![], 0, 42);
    assert!(outcome.entries.is_none());
    assert_eq!(outcome.refund, 42);
}

#[test]
fn aggregate_avg_with_no_successful_entry_reports_none() {
    let mut contract = oracle_with_pair(&alice(), &ethusd(), 2, 400000, 5);
    let outcome = contract.aggregate_avg(vec![ethusd()], vec![alice()], 9, 3);
    assert!(outcome.entries.is_none());
    assert_eq!(outcome.refund, 3);
}

#[test]
fn aggregate_collect_marks_each_slot() {
    let mut contract = FirstPartyOracle::new(token());
    contract
        .create_pair(&alice(), &ethusd(), 2, 40000000, 10, 1000, 1000, 0)
        .unwrap();
    contract.set_fee(&alice(), 3).unwrap();
    contract
        .create_pair(&bob(), &ethusd(), 2, 40010000, 2, 1000, 1000, 0)
        .unwrap();
    let outcome = contract.aggregate_collect(
        vec![ethusd(), ethusd(), ethusd()],
        vec![alice(), bob(), jack()],
        5,
        10,
    );
    // alice succeeds (fee 3), bob is stale, jack is unknown
    assert_eq!(outcome.refund, 7);
    let entries = outcome.entries.unwrap();
    assert_eq!(entries.len(), 3);
    assert_eq!(
        entries[0],
        Some(PriceEntry {
            price: 40000000,
            decimals: 2,
            last_update: 10,
        })
    );
    assert_eq!(entries[1], None);
    assert_eq!(entries[2], None);
}

#[test]
fn aggregate_collect_rejects_mismatched_batch() {
    let mut contract = FirstPartyOracle::new(token());
    let outcome = contract.aggregate_collect(vec![ethusd()], vec![], 0, 5);
    assert!(outcome.entries.is_none());
    assert_eq!(outcome.refund, 5);
}

#[test]
fn get_fee_total_counts_existing_pairs() {
    let mut contract = FirstPartyOracle::new(token());
    contract
        .create_pair(&alice(), &ethusd(), 2, 1, 1, 1000, 1000, 0)
        .unwrap();
    contract.set_fee(&alice(), 4).unwrap();
    let total = contract
        .get_fee_total(&vec![ethusd(), ethusd()], &vec![alice(), jack()])
        .unwrap();
    assert_eq!(total, 4);
    let err = contract
        .get_fee_total(&vec![ethusd()], &vec![])
        .unwrap_err();
    assert_eq!(err, OracleError::ValidationError);
}

#[test]
fn pair_and_provider_queries() {
    let contract = oracle_with_pair(&alice(), &ethusd(), 2, 400000, 5);
    assert!(contract.get_provider_exists(&alice()));
    assert!(!contract.get_provider_exists(&bob()));
    assert!(contract.get_pair_exists(&ethusd(), &alice()));
    assert!(!contract.get_pair_exists(&"BTCUSD".to_string(), &alice()));
    assert!(!contract.get_pair_exists(&ethusd(), &bob()));
    assert!(contract.get_provider_pairs(&alice()).is_some());
    assert!(contract.get_provider_pairs(&bob()).is_none());
}

#[test]
fn run_method_dispatches_single_lookup() {
    let mut contract = oracle_with_pair(&alice(), &ethusd(), 2, 400000, 7);
    let payload = RequestPayload {
        method: QueryMethod::GetEntry,
        pairs: vec![ethusd()],
        providers: vec![alice()],
        min_last_update: 0,
    };
    match contract.run_method(0, payload).unwrap() {
        QueryResult::Priced(o) => {
            assert_eq!(o.refund, 0);
            assert_eq!(o.entries.unwrap()[0].price, 400000);
        }
        QueryResult::Collected(_) => panic!("expected a single entry"),
    }
}

#[test]
fn run_method_rejects_empty_single_lookup() {
    let mut contract = FirstPartyOracle::new(token());
    let payload = RequestPayload {
        method: QueryMethod::GetEntry,
        pairs: vec![],
        providers: vec![],
        min_last_update: 0,
    };
    let err = contract.run_method(0, payload).unwrap_err();
    assert_eq!(err, OracleError::ValidationError);
}

#[test]
fn run_method_dispatches_collect() {
    let mut contract = oracle_with_pair(&alice(), &ethusd(), 2, 400000, 7);
    let payload = RequestPayload {
        method: QueryMethod::AggregateCollect,
        pairs: vec![ethusd()],
        providers: vec![alice()],
        min_last_update: 0,
    };
    match contract.run_method(9, payload).unwrap() {
        QueryResult::Collected(c) => {
            assert_eq!(c.refund, 9);
            assert_eq!(c.entries.unwrap().len(), 1);
        }
        QueryResult::Priced(_) => panic!("expected a slot list"),
    }
}

#[test]
fn batch_settles_exactly() {
    // what was attached equals the fees charged plus the refund, and the
    // charges land in the providers' earnings
    let mut contract = FirstPartyOracle::new(token());
    contract
        .create_pair(&alice(), &ethusd(), 2, 100, 10, 1000, 1000, 0)
        .unwrap();
    contract.set_fee(&alice(), 3).unwrap();
    contract
        .create_pair(&bob(), &ethusd(), 2, 200, 10, 1000, 1000, 0)
        .unwrap();
    contract.set_fee(&bob(), 4).unwrap();
    let amount = 10u128;
    let outcome = contract.aggregate_collect(
        vec![ethusd(), ethusd()],
        vec![alice(), bob()],
        0,
        amount,
    );
    assert_eq!(outcome.refund, 3);
    let earned_alice = contract.claim_earnings(&alice()).unwrap().0;
    let earned_bob = contract.claim_earnings(&bob()).unwrap().0;
    assert_eq!(earned_alice, 3);
    assert_eq!(earned_bob, 4);
    assert_eq!(amount, earned_alice + earned_bob + outcome.refund);
}
