use price_oracle::fungible_token_handler::{
    fungible_token_transfer, fungible_token_transfer_call, PendingEffect,
};
use price_oracle::helpers::{dec_to_u64, pow10_checked, pow10_exact, scaled_average, u64_to_dec};
use price_oracle::types::Nonce;

#[test]
fn scaled_average_picks_minimal_decimals() {
    // 80010000 / 200 == 400050 exactly with zero fractional digits
    assert_eq!(scaled_average(80010000, 200), (400050, 0));
    // 1 / 8 == 0.125: three digits are the least that round-trip
    assert_eq!(scaled_average(1, 8), (125, 3));
    // 3 / 2 == 1.5
    assert_eq!(scaled_average(3, 2), (15, 1));
    // an integer quotient keeps zero digits
    assert_eq!(scaled_average(10, 5), (2, 0));
    assert_eq!(scaled_average(0, 7), (0, 0));
}

#[test]
fn scaled_average_truncates_when_nothing_round_trips() {
    // 1 / 3 never round-trips within the digit cap: truncated whole quotient
    assert_eq!(scaled_average(1, 3), (0, 0));
    assert_eq!(scaled_average(10, 3), (3, 0));
}

#[test]
fn pow10_values() {
    assert_eq!(pow10_exact(0), 1);
    assert_eq!(pow10_exact(6), 1_000_000);
    assert_eq!(pow10_checked(38), Some(10u128.pow(38)));
    assert_eq!(pow10_checked(39), None);
}

#[test]
fn decimal_strings_round_trip() {
    assert_eq!(u64_to_dec(0), "0");
    assert_eq!(u64_to_dec(7), "7");
    assert_eq!(u64_to_dec(12345), "12345");
    assert_eq!(u64_to_dec(u64::MAX), "18446744073709551615");
    assert_eq!(dec_to_u64(&"0".to_string()), Some(0));
    assert_eq!(dec_to_u64(&"12345".to_string()), Some(12345));
    assert_eq!(dec_to_u64(&u64_to_dec(u64::MAX)), Some(u64::MAX));
}

#[test]
fn decimal_parse_rejects_garbage() {
    assert_eq!(dec_to_u64(&"".to_string()), None);
    assert_eq!(dec_to_u64(&"12a".to_string()), None);
    assert_eq!(dec_to_u64(&"-5".to_string()), None);
    assert_eq!(dec_to_u64(&"99999999999999999999".to_string()), None);
    assert_eq!(dec_to_u64(&"über".to_string()), None);
}

#[test]
fn nonce_counts_up_from_zero() {
    let mut nonce = Nonce::new();
    assert_eq!(nonce.get_and_incr(), 0);
    assert_eq!(nonce.get_and_incr(), 1);
    assert_eq!(nonce.get_and_incr(), 2);
}

#[test]
fn transfer_effects_carry_their_arguments() {
    assert_eq!(
        fungible_token_transfer("t".to_string(), "r".to_string(), 5),
        PendingEffect::FtTransfer {
            token: "t".to_string(),
            receiver: "r".to_string(),
            amount: 5,
        }
    );
    assert_eq!(
        fungible_token_transfer_call("t".to_string(), "r".to_string(), 5, "m".to_string()),
        PendingEffect::FtTransferCall {
            token: "t".to_string(),
            receiver: "r".to_string(),
            amount: 5,
            msg: "m".to_string(),
        }
    );
}
