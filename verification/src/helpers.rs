//! Arithmetic helpers: powers of ten, the minimal-decimals search used to
//! report averages exactly, decimal strings for request-id tags, and the
//! storage-prepayment refund rule.

use vstd::prelude::*;
use crate::errors::OracleError;
use crate::fungible_token_handler::PendingEffect;

verus! {

/// Price per byte of persistent storage, in the ledger's smallest unit.
pub const STORAGE_PRICE_PER_BYTE: u128 = 10_000_000_000_000_000_000;

/// How many fractional digits are searched when choosing the precision of a
/// reported average.
pub const MAX_RESULT_DECIMALS: u32 = 15;

/// Ten to the `k`-th power.
pub open spec fn pow10(k: nat) -> int
    decreases k,
{
    if k == 0 {
        1
    } else {
        10 * pow10((k - 1) as nat)
    }
}

pub proof fn lemma_pow10_pos(k: nat)
    ensures
        pow10(k) >= 1,
    decreases k,
{
    if k > 0 {
        lemma_pow10_pos((k - 1) as nat);
    }
}

pub proof fn lemma_pow10_mono(a: nat, b: nat)
    requires
        a <= b,
    ensures
        pow10(a) <= pow10(b),
    decreases b,
{
    if a < b {
        lemma_pow10_mono(a, (b - 1) as nat);
        lemma_pow10_pos(a);
    }
}

proof fn lemma_pow10_fifteen()
    ensures
        pow10(MAX_RESULT_DECIMALS as nat) == 1_000_000_000_000_000,
{
    reveal_with_fuel(pow10, 17);
}

/// Ten to the `k`-th power, for exponents whose value fits the type.
#[verifier::loop_isolation(false)]
pub fn pow10_exact(k: u32) -> (r: u128)
    requires
        pow10(k as nat) <= u128::MAX,
    ensures
        r == pow10(k as nat),
{
    let mut acc: u128 = 1;
    let mut i: u32 = 0;
    while i < k
        invariant
            i <= k,
            acc == pow10(i as nat),
            pow10(k as nat) <= u128::MAX,
        decreases k - i,
    {
        proof {
            lemma_pow10_mono((i + 1) as nat, k as nat);
            lemma_pow10_pos(i as nat);
        }
        acc = acc * 10;
        i = i + 1;
    }
    acc
}

/// Ten to the `k`-th power, or `None` where the value does not fit.
#[verifier::loop_isolation(false)]
pub fn pow10_checked(k: u32) -> (r: Option<u128>)
    ensures
        match r {
            Some(p) => p == pow10(k as nat),
            None => pow10(k as nat) > u128::MAX,
        },
{
    let mut acc: u128 = 1;
    let mut i: u32 = 0;
    while i < k
        invariant
            i <= k,
            acc == pow10(i as nat),
        decreases k - i,
    {
        match acc.checked_mul(10) {
            Some(a) => {
                acc = a;
            }
            None => {
                proof {
                    lemma_pow10_mono((i + 1) as nat, k as nat);
                }
                return None;
            }
        }
        i = i + 1;
    }
    Some(acc)
}

/// Whether the quotient `s / t` can be written exactly with `k` fractional
/// digits, with the scaled numerator still fitting the result type.
pub open spec fn exact_with_decimals(s: int, t: int, k: nat) -> bool {
    s * pow10(k) <= u128::MAX && (s * pow10(k)) % t == 0
}

/// What a correct scaled quotient looks like: the least digit count at or
/// under [`MAX_RESULT_DECIMALS`] that writes `s / t` exactly, or zero digits
/// and a truncated quotient where none does.
pub open spec fn avg_result_ok(s: int, t: int, price: u128, decimals: u32) -> bool {
    if exists|k: nat| k <= MAX_RESULT_DECIMALS && exact_with_decimals(s, t, k) {
        &&& decimals <= MAX_RESULT_DECIMALS
        &&& exact_with_decimals(s, t, decimals as nat)
        &&& (forall|k: nat| k < decimals ==> !exact_with_decimals(s, t, k))
        &&& price == s * pow10(decimals as nat) / t
    } else {
        decimals == 0 && price == s / t
    }
}

/// Writes the quotient `s / t` as a scaled integer with the least count of
/// fractional digits that reproduces it exactly, searching from zero up to
/// [`MAX_RESULT_DECIMALS`]; where no such count exists the quotient is
/// truncated to a whole number.
#[verifier::loop_isolation(false)]
pub fn scaled_average(s: u128, t: u128) -> (r: (u128, u32))
    requires
        1 <= t,
    ensures
        avg_result_ok(s as int, t as int, r.0, r.1),
{
    let mut k: u32 = 0;
    while k <= MAX_RESULT_DECIMALS
        invariant
            k <= MAX_RESULT_DECIMALS + 1,
            forall|j: nat| j < k ==> !exact_with_decimals(s as int, t as int, j),
        decreases MAX_RESULT_DECIMALS + 1 - k,
    {
        proof {
            lemma_pow10_mono(k as nat, MAX_RESULT_DECIMALS as nat);
            lemma_pow10_fifteen();
            lemma_pow10_pos(k as nat);
        }
        let p = pow10_exact(k);
        match s.checked_mul(p) {
            Some(x) => {
                if x % t == 0 {
                    proof {
                        assert(exact_with_decimals(s as int, t as int, k as nat));
                    }
                    return (x / t, k);
                }
            }
            None => {}
        }
        k = k + 1;
    }
    (s / t, 0)
}

/// Whether `c` is a decimal digit.
pub open spec fn is_digit_char(c: char) -> bool {
    '0' <= c && c <= '9'
}

/// The numeric value of a digit character.
pub open spec fn digit_val(c: char) -> nat {
    (c as u32 - '0' as u32) as nat
}

/// The digit character for a value below ten.
pub open spec fn dec_digit(d: nat) -> char {
    if d == 0 {
        '0'
    } else if d == 1 {
        '1'
    } else if d == 2 {
        '2'
    } else if d == 3 {
        '3'
    } else if d == 4 {
        '4'
    } else if d == 5 {
        '5'
    } else if d == 6 {
        '6'
    } else if d == 7 {
        '7'
    } else if d == 8 {
        '8'
    } else {
        '9'
    }
}

/// The decimal digits of `n`, most significant first, with no leading zero.
pub open spec fn dec_digits(n: nat) -> Seq<char>
    decreases n,
{
    if n < 10 {
        seq![dec_digit(n)]
    } else {
        dec_digits(n / 10).push(dec_digit(n % 10))
    }
}

/// Whether `s` is a non-empty string of decimal digits.
pub open spec fn is_dec_seq(s: Seq<char>) -> bool {
    s.len() > 0 && forall|i: int| 0 <= i < s.len() ==> is_digit_char(#[trigger] s[i])
}

/// The number a string of digits denotes.
pub open spec fn dec_val(s: Seq<char>) -> nat
    decreases s.len(),
{
    if s.len() == 0 {
        0
    } else {
        dec_val(s.drop_last()) * 10 + digit_val(s.last())
    }
}

proof fn lemma_digit_val(d: nat)
    requires
        d < 10,
    ensures
        digit_val(dec_digit(d)) == d,
        is_digit_char(dec_digit(d)),
{
}

/// Writing a number in decimal and reading it back returns the number.
pub proof fn lemma_dec_round_trip(n: nat)
    ensures
        is_dec_seq(dec_digits(n)),
        dec_val(dec_digits(n)) == n,
    decreases n,
{
    if n < 10 {
        lemma_digit_val(n);
        assert(dec_digits(n).drop_last() =~= Seq::<char>::empty());
        assert(dec_val(Seq::<char>::empty()) == 0);
        assert(dec_digits(n).last() == dec_digit(n));
    } else {
        lemma_dec_round_trip(n / 10);
        lemma_digit_val(n % 10);
        assert(dec_digits(n).drop_last() =~= dec_digits(n / 10));
        assert(dec_digits(n).last() == dec_digit(n % 10));
    }
}

proof fn lemma_dec_val_prefix_le(s: Seq<char>, i: int, j: int)
    requires
        0 <= i <= j <= s.len(),
    ensures
        dec_val(s.take(i)) <= dec_val(s.take(j)),
    decreases j - i,
{
    if i < j {
        lemma_dec_val_prefix_le(s, i, j - 1);
        assert(s.take(j).drop_last() =~= s.take(j - 1));
    }
}

fn digit_str(d: u64) -> (s: &'static str)
    requires
        d < 10,
    ensures
        s@ == seq![dec_digit(d as nat)],
{
    if d == 0 {
        let s = "0";
        proof {
            reveal_strlit("0");
            assert(s@ =~= seq![dec_digit(0)]);
        }
        s
    } else if d == 1 {
        let s = "1";
        proof {
            reveal_strlit("1");
            assert(s@ =~= seq![dec_digit(1)]);
        }
        s
    } else if d == 2 {
        let s = "2";
        proof {
            reveal_strlit("2");
            assert(s@ =~= seq![dec_digit(2)]);
        }
        s
    } else if d == 3 {
        let s = "3";
        proof {
            reveal_strlit("3");
            assert(s@ =~= seq![dec_digit(3)]);
        }
        s
    } else if d == 4 {
        let s = "4";
        proof {
            reveal_strlit("4");
            assert(s@ =~= seq![dec_digit(4)]);
        }
        s
    } else if d == 5 {
        let s = "5";
        proof {
            reveal_strlit("5");
            assert(s@ =~= seq![dec_digit(5)]);
        }
        s
    } else if d == 6 {
        let s = "6";
        proof {
            reveal_strlit("6");
            assert(s@ =~= seq![dec_digit(6)]);
        }
        s
    } else if d == 7 {
        let s = "7";
        proof {
            reveal_strlit("7");
            assert(s@ =~= seq![dec_digit(7)]);
        }
        s
    } else if d == 8 {
        let s = "8";
        proof {
            reveal_strlit("8");
            assert(s@ =~= seq![dec_digit(8)]);
        }
        s
    } else {
        let s = "9";
        proof {
            reveal_strlit("9");
            assert(s@ =~= seq![dec_digit(9)]);
        }
        s
    }
}

/// Writes `n` in decimal.
pub fn u64_to_dec(n: u64) -> (r: String)
    ensures
        r@ == dec_digits(n as nat),
    decreases n,
{
    if n < 10 {
        let d = digit_str(n);
        d.to_owned()
    } else {
        let mut r = u64_to_dec(n / 10);
        let d = digit_str(n % 10);
        r.append(d);
        proof {
            assert(dec_digits((n / 10) as nat) + seq![dec_digit((n % 10) as nat)] =~= dec_digits(
                n as nat,
            ));
        }
        r
    }
}

/// Reads a decimal string back as a number; `None` where the string is not
/// all digits, is empty, or denotes a value that does not fit.
#[verifier::loop_isolation(false)]
pub fn dec_to_u64(s: &String) -> (r: Option<u64>)
    ensures
        match r {
            Some(v) => is_dec_seq(s@) && dec_val(s@) == v,
            None => !is_dec_seq(s@) || dec_val(s@) > u64::MAX,
        },
{
    broadcast use vstd::string::is_ascii_spec_bytes;

    let st = s.as_str();
    if !st.is_ascii() {
        proof {
            let i = choose|i: int| 0 <= i < s@.len() && !('\0' <= #[trigger] s@[i] <= '\u{7f}');
            assert(!is_digit_char(s@[i]));
        }
        return None;
    }
    let b = st.as_bytes();
    let n = b.len();
    if n == 0 {
        return None;
    }
    let mut acc: u64 = 0;
    let mut i: usize = 0;
    while i < n
        invariant
            i <= n,
            acc == dec_val(s@.take(i as int)),
            forall|j: int| 0 <= j < i ==> is_digit_char(#[trigger] s@[j]),
        decreases n - i,
    {
        let c = b[i];
        if c < 48 || c > 57 {
            proof {
                assert(!is_digit_char(s@[i as int]));
            }
            return None;
        }
        let d = (c - 48) as u64;
        proof {
            assert(s@.take(i + 1).drop_last() =~= s@.take(i as int));
            assert(digit_val(s@[i as int]) == d);
        }
        let next = match acc.checked_mul(10) {
            Some(a) => a.checked_add(d),
            None => None,
        };
        match next {
            Some(a) => {
                acc = a;
            }
            None => {
                proof {
                    assert(dec_val(s@.take(i + 1)) > u64::MAX);
                    lemma_dec_val_prefix_le(s@, i + 1, s@.len() as int);
                    assert(s@.take(s@.len() as int) =~= s@);
                }
                return None;
            }
        }
        i = i + 1;
    }
    proof {
        assert(s@.take(s@.len() as int) =~= s@);
    }
    Some(acc)
}

/// The refund rule for storage prepayments: growth is paid for out of the
/// attached deposit, shrinkage is credited back, and the remainder goes back
/// to the sender. Relies on the host to report byte counts from one call.
pub fn refund_storage(
    initial_storage: u64,
    current_storage: u64,
    attached_deposit: u128,
    sender_id: String,
) -> (r: Result<(u128, Option<PendingEffect>), OracleError>)
    requires
        current_storage < initial_storage ==> attached_deposit + (initial_storage
            - current_storage) * STORAGE_PRICE_PER_BYTE <= u128::MAX,
    ensures
        ({
            let grown = current_storage > initial_storage;
            let required = if grown {
                (current_storage - initial_storage) * STORAGE_PRICE_PER_BYTE
            } else {
                0
            };
            let freed = if grown {
                0
            } else {
                (initial_storage - current_storage) * STORAGE_PRICE_PER_BYTE
            };
            match r {
                Ok((refund, effect)) => required <= attached_deposit && refund == attached_deposit
                    - required + freed && (if refund > 0 {
                    effect == Some(
                        PendingEffect::NativeTransfer { receiver: sender_id, amount: refund },
                    )
                } else {
                    effect is None
                }),
                Err(e) => e == OracleError::StorageInsufficientError && required
                    > attached_deposit,
            }
        }),
{
    let refund_amount: u128;
    if current_storage > initial_storage {
        let diff = (current_storage - initial_storage) as u128;
        let required_deposit = diff * STORAGE_PRICE_PER_BYTE;
        if required_deposit > attached_deposit {
            return Err(OracleError::StorageInsufficientError);
        }
        refund_amount = attached_deposit - required_deposit;
    } else {
        let diff = (initial_storage - current_storage) as u128;
        refund_amount = attached_deposit + diff * STORAGE_PRICE_PER_BYTE;
    }
    if refund_amount > 0 {
        Ok(
            (
                refund_amount,
                Some(PendingEffect::NativeTransfer { receiver: sender_id, amount: refund_amount }),
            ),
        )
    } else {
        Ok((refund_amount, None))
    }
}

} // verus!
