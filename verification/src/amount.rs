use vstd::prelude::*;

use vstd::arithmetic::div_mod::lemma_fundamental_div_mod;
use vstd::arithmetic::mul::lemma_mul_nonnegative;

use crate::errors::Error;
use crate::text::all_digits;
use crate::text::amount_canonical_text;
use crate::text::balance_canonical_text;
use crate::text::dec_digits;
use crate::text::dec_digits_width;
use crate::text::digit_char;
use crate::text::amount_text_value;
use crate::text::digit_value;
use crate::text::digits_val;
use crate::text::first_dot;
use crate::text::is_digit;
use crate::text::lemma_digits_val_nonneg;
use crate::text::lemma_digits_val_prefix;
use crate::text::lemma_digits_val_step;
use crate::text::lemma_first_dot_unique;
use crate::text::pow10;
use crate::text::valid_amount_text;

verus! {

/// The decimal digit a character stands for, if it is one.
fn char_digit(c: char) -> (r: Option<u64>)
    ensures
        match r {
            Some(d) => is_digit(c) && d == digit_value(c),
            None => !is_digit(c),
        },
{
    match c {
        '0' => Some(0),
        '1' => Some(1),
        '2' => Some(2),
        '3' => Some(3),
        '4' => Some(4),
        '5' => Some(5),
        '6' => Some(6),
        '7' => Some(7),
        '8' => Some(8),
        '9' => Some(9),
        _ => None,
    }
}

/// An amount of an asset, as carried on a deposit or withdrawal.
///
/// It is a non-negative decimal with exactly four fractional digits,
/// stored as the value scaled by 10,000 so that no rounding can occur.
/// It is not used for a client's balances, which can go negative.
#[derive(Clone, Copy, PartialEq, Eq, Structural, Debug)]
pub struct Amount(pub u64);

/// A balance of funds in an account: a decimal with four fractional
/// digits, stored as the value scaled by 10,000. Unlike [`Amount`],
/// a balance may go negative (a client can be disputed for funds they
/// already withdrew).
#[derive(Clone, Copy, PartialEq, Eq, Structural, Debug)]
pub struct Balance(pub i128);

/// The one-character text of a decimal digit value.
fn digit_str(d: u128) -> (r: &'static str)
    requires
        d < 10,
    ensures
        r@ == seq![digit_char(d as int)],
{
    proof {
        reveal_strlit("0");
        reveal_strlit("1");
        reveal_strlit("2");
        reveal_strlit("3");
        reveal_strlit("4");
        reveal_strlit("5");
        reveal_strlit("6");
        reveal_strlit("7");
        reveal_strlit("8");
        reveal_strlit("9");
    }
    let r = if d == 0 {
        "0"
    } else if d == 1 {
        "1"
    } else if d == 2 {
        "2"
    } else if d == 3 {
        "3"
    } else if d == 4 {
        "4"
    } else if d == 5 {
        "5"
    } else if d == 6 {
        "6"
    } else if d == 7 {
        "7"
    } else if d == 8 {
        "8"
    } else {
        "9"
    };
    proof {
        assert(r@ =~= seq![digit_char(d as int)]);
    }
    r
}

/// The decimal text of a number, most significant digit first, without
/// superfluous leading zeros.
fn render_units(n: u128) -> (s: String)
    ensures
        s@ == dec_digits(n as nat),
    decreases n,
{
    if n < 10 {
        String::from_str(digit_str(n))
    } else {
        let prefix = render_units(n / 10);
        let s = prefix.concat(digit_str(n % 10));
        proof {
            assert(s@ =~= dec_digits(n as nat / 10).push(digit_char((n as nat % 10) as int)));
        }
        s
    }
}

/// The canonical text of a scaled amount value: the whole units, a dot,
/// and exactly four fractional digits.
fn render_scaled(v: u128) -> (s: String)
    ensures
        s@ == amount_canonical_text(v as nat),
{
    let whole = render_units(v / 10000);
    let f = v % 10000;
    let d0 = f % 10;
    let r0 = f / 10;
    let d1 = r0 % 10;
    let r1 = r0 / 10;
    let d2 = r1 % 10;
    let r2 = r1 / 10;
    let d3 = r2 % 10;
    proof {
        reveal_strlit(".");
    }
    let s = whole.concat(".").concat(digit_str(d3)).concat(digit_str(d2)).concat(
        digit_str(d1),
    ).concat(digit_str(d0));
    proof {
        reveal_with_fuel(dec_digits_width, 5);
        assert(dec_digits_width(f as nat, 4) =~= seq![
            digit_char(d3 as int),
            digit_char(d2 as int),
            digit_char(d1 as int),
            digit_char(d0 as int),
        ]);
        assert(s@ =~= dec_digits(v as nat / 10000) + seq!['.'] + dec_digits_width(f as nat, 4));
    }
    s
}

impl Amount {
    /// The canonical text of the amount: the whole units, a dot, and
    /// exactly four fractional digits (`1.5` renders as `1.5000`).
    pub fn render(&self) -> (s: String)
        ensures
            s@ == amount_canonical_text(self.0 as nat),
    {
        render_scaled(self.0 as u128)
    }

    /// Parse an amount from its decimal text: one or more digits,
    /// optionally followed by a single dot and at most four fractional
    /// digits (an absent fractional part, or none at all after the dot,
    /// means zero). Anything else — a sign, any other non-digit, more than
    /// four fractional digits, or a value too large for the scaled range —
    /// is refused as a malformed record.
    #[verifier::loop_isolation(false)]
    pub fn from_text(s: &str) -> (r: Result<Amount, Error>)
        ensures
            valid_amount_text(s@) ==> r == Ok::<Amount, Error>(
                Amount(amount_text_value(s@) as u64),
            ),
            !valid_amount_text(s@) ==> r == Err::<Amount, Error>(Error::MalformedRecord),
    {
        let n = s.unicode_len();
        let mut dot: usize = n;
        let mut i: usize = 0;
        while i < n
            invariant
                i <= n,
                dot <= n,
                n == s@.len(),
                dot == n ==> forall|j: int| 0 <= j < i ==> s@[j] != '.',
                dot < n ==> dot < i && s@[dot as int] == '.' && (forall|j: int|
                    0 <= j < dot ==> s@[j] != '.'),
            decreases n - i,
        {
            if dot == n && s.get_char(i) == '.' {
                dot = i;
            }
            i = i + 1;
        }
        proof {
            lemma_first_dot_unique(s@, dot as int);
        }
        let ghost whole = if dot == n {
            s@
        } else {
            s@.subrange(0, dot as int)
        };
        let ghost frac = if dot == n {
            Seq::<char>::empty()
        } else {
            s@.subrange(dot as int + 1, n as int)
        };
        proof {
            if dot == n {
                assert(s@.subrange(0, dot as int) =~= s@);
            }
        }
        if dot == 0 {
            // the whole part is empty (this covers the empty text too)
            return Err(Error::MalformedRecord);
        }
        if dot < n && n - dot - 1 > 4 {
            // more than four fractional digits
            return Err(Error::MalformedRecord);
        }
        let mut acc: u64 = 0;
        i = 0;
        while i < dot
            invariant
                i <= dot,
                dot <= n,
                n == s@.len(),
                first_dot(s@) == dot,
                acc == digits_val(s@.subrange(0, i as int)),
                forall|j: int| 0 <= j < i ==> is_digit(#[trigger] s@[j]),
            decreases dot - i,
        {
            let c = s.get_char(i);
            let d = match char_digit(c) {
                Some(d) => d,
                None => {
                    proof {
                        assert(whole[i as int] == s@[i as int]);
                        assert(!all_digits(whole)) by {
                            assert(!is_digit(whole[i as int]));
                        }
                    }
                    return Err(Error::MalformedRecord);
                },
            };
            if acc > (u64::MAX - d) / 10 {
                proof {
                    lemma_fundamental_div_mod((u64::MAX - d) as int, 10);
                    assert(acc * 10 + d > u64::MAX);
                    lemma_digits_val_step(s@, i as int);
                    assert(digits_val(s@.subrange(0, i as int + 1)) > u64::MAX);
                    assert(whole.subrange(0, i as int + 1) =~= s@.subrange(0, i as int + 1));
                    lemma_digits_val_prefix(whole, i as int + 1);
                    assert(digits_val(whole) > u64::MAX);
                    lemma_digits_val_nonneg(frac);
                    if dot < n {
                        crate::text::lemma_pow10_pos((4 - frac.len()) as nat);
                        lemma_mul_nonnegative(digits_val(frac), pow10((4 - frac.len()) as nat));
                    }
                    assert(amount_text_value(s@) > u64::MAX);
                }
                return Err(Error::MalformedRecord);
            }
            proof {
                lemma_fundamental_div_mod((u64::MAX - d) as int, 10);
                lemma_digits_val_step(s@, i as int);
            }
            acc = acc * 10 + d;
            i = i + 1;
        }
        proof {
            assert(whole.subrange(0, dot as int) =~= whole);
            assert(whole =~= s@.subrange(0, dot as int));
            assert(acc == digits_val(whole));
            assert(all_digits(whole));
        }
        let mut fval: u64 = 0;
        let mut flen: usize = 0;
        if dot < n {
            let frac_len = n - dot - 1;
            let mut j: usize = 0;
            while j < frac_len
                invariant
                    j <= frac_len,
                    frac_len <= 4,
                    frac_len == n - dot - 1,
                    dot < n,
                    n == s@.len(),
                    frac == s@.subrange(dot as int + 1, n as int),
                    fval == digits_val(frac.subrange(0, j as int)),
                    fval < pow10(j as nat),
                    forall|k: int| 0 <= k < j ==> is_digit(#[trigger] frac[k]),
                decreases frac_len - j,
            {
                let c = s.get_char(dot + 1 + j);
                proof {
                    assert(frac[j as int] == s@[dot as int + 1 + j]);
                }
                let d = match char_digit(c) {
                    Some(d) => d,
                    None => {
                        proof {
                            assert(!all_digits(frac)) by {
                                assert(!is_digit(frac[j as int]));
                            }
                        }
                        return Err(Error::MalformedRecord);
                    },
                };
                proof {
                    lemma_digits_val_step(frac, j as int);
                    assert(pow10(1) == 10 && pow10(2) == 100 && pow10(3) == 1000 && pow10(4)
                        == 10000) by {
                        reveal_with_fuel(pow10, 5);
                    }
                }
                fval = fval * 10 + d;
                j = j + 1;
            }
            flen = frac_len;
            proof {
                assert(frac.subrange(0, frac_len as int) =~= frac);
            }
        }
        proof {
            assert(fval == digits_val(frac));
            assert(all_digits(frac));
            assert(fval < pow10(flen as nat));
            assert(pow10(1) == 10 && pow10(2) == 100 && pow10(3) == 1000 && pow10(4) == 10000)
                by {
                reveal_with_fuel(pow10, 5);
            }
        }
        let scale: u64 = if flen == 0 {
            10000
        } else if flen == 1 {
            1000
        } else if flen == 2 {
            100
        } else if flen == 3 {
            10
        } else {
            1
        };
        proof {
            assert(scale == pow10((4 - flen) as nat));
            assert(fval * scale < 10000);
        }
        let scaled: u64 = fval * scale;
        proof {
            if dot < n {
                assert(scaled == digits_val(frac) * pow10((4 - frac.len()) as nat));
                assert(amount_text_value(s@) == digits_val(whole) * 10000 + scaled);
            } else {
                assert(scaled == 0);
                assert(amount_text_value(s@) == digits_val(whole) * 10000);
            }
        }
        if acc > (u64::MAX - scaled) / 10000 {
            proof {
                lemma_fundamental_div_mod((u64::MAX - scaled) as int, 10000);
                assert(acc * 10000 + scaled > u64::MAX);
                assert(amount_text_value(s@) > u64::MAX);
            }
            return Err(Error::MalformedRecord);
        }
        proof {
            lemma_fundamental_div_mod((u64::MAX - scaled) as int, 10000);
            assert(acc * 10000 + scaled <= u64::MAX);
            assert(amount_text_value(s@) == acc * 10000 + scaled);
            assert(valid_amount_text(s@));
        }
        Ok(Amount(acc * 10000 + scaled))
    }
}

impl Default for Amount {
    fn default() -> (r: Self)
        ensures
            r.0 == 0,
    {
        Amount(0)
    }
}

impl Default for Balance {
    fn default() -> (r: Self)
        ensures
            r.0 == 0,
    {
        Balance(0)
    }
}

impl Balance {
    /// The canonical text of the balance: a minus sign when the balance is
    /// negative, then the magnitude's whole units, a dot, and exactly four
    /// fractional digits.
    pub fn render(&self) -> (s: String)
        ensures
            s@ == balance_canonical_text(self.0 as int),
    {
        if self.0 >= 0 {
            render_scaled(self.0 as u128)
        } else {
            let mag: u128 = ((-(self.0 + 1)) as u128) + 1;
            proof {
                assert(mag == -(self.0 as int));
            }
            let tail = render_scaled(mag);
            proof {
                reveal_strlit("-");
            }
            let s = String::from_str("-").concat(tail.as_str());
            proof {
                assert(s@ =~= balance_canonical_text(self.0 as int));
            }
            s
        }
    }

    /// What `try_add` returns: the enlarged balance, or `Overflow` when the
    /// sum would leave the representable range.
    pub open spec fn spec_try_add(self, other: Amount) -> Result<Balance, Error> {
        if self.0 + other.0 <= i128::MAX {
            Ok(Balance((self.0 + other.0) as i128))
        } else {
            Err(Error::Overflow)
        }
    }

    /// What `try_sub` returns: the reduced balance, or `Underflow` when the
    /// difference would leave the representable range.
    pub open spec fn spec_try_sub(self, other: Amount) -> Result<Balance, Error> {
        if self.0 - other.0 >= i128::MIN {
            Ok(Balance((self.0 - other.0) as i128))
        } else {
            Err(Error::Underflow)
        }
    }

    /// Try to add an amount to the balance, failing on overflow.
    /// Returns the new balance; the original balance is never mutated,
    /// so the caller decides whether to commit the result.
    #[must_use]
    pub fn try_add(self, other: Amount) -> (r: Result<Balance, Error>)
        ensures
            r == self.spec_try_add(other),
    {
        if self.0 <= i128::MAX - (other.0 as i128) {
            Ok(Balance(self.0 + other.0 as i128))
        } else {
            Err(Error::Overflow)
        }
    }

    /// Try to subtract an amount from the balance, failing on underflow.
    /// Returns the new balance; the original balance is never mutated,
    /// so the caller decides whether to commit the result.
    #[must_use]
    pub fn try_sub(self, other: Amount) -> (r: Result<Balance, Error>)
        ensures
            r == self.spec_try_sub(other),
    {
        if self.0 >= i128::MIN + (other.0 as i128) {
            Ok(Balance(self.0 - other.0 as i128))
        } else {
            Err(Error::Underflow)
        }
    }
}

} // verus!
