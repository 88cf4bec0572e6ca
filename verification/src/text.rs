use vstd::prelude::*;

use vstd::arithmetic::div_mod::lemma_fundamental_div_mod;
use vstd::arithmetic::div_mod::lemma_mod_breakdown;
use vstd::arithmetic::div_mod::lemma_small_mod;

verus! {

/// Whether a character is a decimal digit.
pub open spec fn is_digit(c: char) -> bool {
    ||| c == '0'
    ||| c == '1'
    ||| c == '2'
    ||| c == '3'
    ||| c == '4'
    ||| c == '5'
    ||| c == '6'
    ||| c == '7'
    ||| c == '8'
    ||| c == '9'
}

/// The value of a decimal digit character (0 for anything else, so that
/// every character has a value; only digits are ever looked up).
pub open spec fn digit_value(c: char) -> int {
    if c == '1' {
        1
    } else if c == '2' {
        2
    } else if c == '3' {
        3
    } else if c == '4' {
        4
    } else if c == '5' {
        5
    } else if c == '6' {
        6
    } else if c == '7' {
        7
    } else if c == '8' {
        8
    } else if c == '9' {
        9
    } else {
        0
    }
}

/// The decimal digit character for a value (of 0 through 9).
pub open spec fn digit_char(d: int) -> char {
    if d == 1 {
        '1'
    } else if d == 2 {
        '2'
    } else if d == 3 {
        '3'
    } else if d == 4 {
        '4'
    } else if d == 5 {
        '5'
    } else if d == 6 {
        '6'
    } else if d == 7 {
        '7'
    } else if d == 8 {
        '8'
    } else if d == 9 {
        '9'
    } else {
        '0'
    }
}

/// Whether every character of a text is a decimal digit.
pub open spec fn all_digits(s: Seq<char>) -> bool {
    forall|i: int| 0 <= i < s.len() ==> is_digit(#[trigger] s[i])
}

/// The number a text of digits denotes, read most significant first.
pub open spec fn digits_val(s: Seq<char>) -> int
    decreases s.len(),
{
    if s.len() == 0 {
        0
    } else {
        digits_val(s.drop_last()) * 10 + digit_value(s.last())
    }
}

/// Ten to the n-th power.
pub open spec fn pow10(n: nat) -> int
    decreases n,
{
    if n == 0 {
        1
    } else {
        10 * pow10((n - 1) as nat)
    }
}

/// The index of the first dot in a text, or its length if it has none.
pub open spec fn first_dot(s: Seq<char>) -> int
    decreases s.len(),
{
    if s.len() == 0 {
        0
    } else if s[0] == '.' {
        0
    } else {
        1 + first_dot(s.subrange(1, s.len() as int))
    }
}

/// The decimal digits of a number, most significant first, without
/// superfluous leading zeros (a plain zero is the single digit `0`).
pub open spec fn dec_digits(n: nat) -> Seq<char>
    decreases n,
{
    if n < 10 {
        seq![digit_char(n as int)]
    } else {
        dec_digits(n / 10).push(digit_char((n % 10) as int))
    }
}

/// The last `width` decimal digits of a number, most significant first,
/// padded with leading zeros.
pub open spec fn dec_digits_width(n: nat, width: nat) -> Seq<char>
    decreases width,
{
    if width == 0 {
        Seq::empty()
    } else {
        dec_digits_width(n / 10, (width - 1) as nat).push(digit_char((n % 10) as int))
    }
}

/// A number's value never goes down when digits are appended.
pub proof fn lemma_digits_val_nonneg(s: Seq<char>)
    ensures
        digits_val(s) >= 0,
    decreases s.len(),
{
    if s.len() > 0 {
        lemma_digits_val_nonneg(s.drop_last());
    }
}

/// Reading one more digit multiplies the prefix value by ten and adds it.
pub proof fn lemma_digits_val_step(s: Seq<char>, i: int)
    requires
        0 <= i < s.len(),
    ensures
        digits_val(s.subrange(0, i + 1)) == digits_val(s.subrange(0, i)) * 10 + digit_value(s[i]),
{
    assert(s.subrange(0, i + 1).drop_last() =~= s.subrange(0, i));
    assert(s.subrange(0, i + 1).last() == s[i]);
}

/// A text of digits is worth at least its every prefix.
pub proof fn lemma_digits_val_prefix(s: Seq<char>, i: int)
    requires
        0 <= i <= s.len(),
    ensures
        digits_val(s) >= digits_val(s.subrange(0, i)),
        digits_val(s.subrange(0, i)) >= 0,
    decreases s.len() - i,
{
    lemma_digits_val_nonneg(s.subrange(0, i));
    if i == s.len() {
        assert(s.subrange(0, i) =~= s);
    } else {
        lemma_digits_val_step(s, i);
        lemma_digits_val_prefix(s, i + 1);
    }
}

/// A text of w digits denotes less than ten to the w.
pub proof fn lemma_digits_val_bound(s: Seq<char>)
    requires
        all_digits(s),
    ensures
        digits_val(s) < pow10(s.len()),
    decreases s.len(),
{
    if s.len() > 0 {
        lemma_digits_val_bound(s.drop_last());
        assert(is_digit(s[s.len() - 1]));
        assert(digit_value(s.last()) <= 9);
    }
}

/// `pow10` is positive.
pub proof fn lemma_pow10_pos(n: nat)
    ensures
        pow10(n) >= 1,
    decreases n,
{
    if n > 0 {
        lemma_pow10_pos((n - 1) as nat);
    }
}

/// The first dot is within the text, sits on a dot, and nothing before it
/// is a dot.
pub proof fn lemma_first_dot(s: Seq<char>)
    ensures
        0 <= first_dot(s) <= s.len(),
        first_dot(s) < s.len() ==> s[first_dot(s)] == '.',
        forall|j: int| 0 <= j < first_dot(s) ==> s[j] != '.',
    decreases s.len(),
{
    if s.len() > 0 && s[0] != '.' {
        let t = s.subrange(1, s.len() as int);
        lemma_first_dot(t);
        assert forall|j: int| 0 <= j < first_dot(s) implies s[j] != '.' by {
            if j > 0 {
                assert(t[j - 1] != '.');
            }
        }
    }
}

/// Any index that sits on a dot with no dot before it is the first dot,
/// and if no index is a dot the first dot is the length.
pub proof fn lemma_first_dot_unique(s: Seq<char>, d: int)
    requires
        0 <= d <= s.len(),
        d < s.len() ==> s[d] == '.',
        forall|j: int| 0 <= j < d ==> s[j] != '.',
        d == s.len() ==> forall|j: int| 0 <= j < s.len() ==> s[j] != '.',
    ensures
        first_dot(s) == d,
    decreases s.len(),
{
    if s.len() == 0 {
    } else if s[0] == '.' {
        assert(d == 0);
    } else {
        let t = s.subrange(1, s.len() as int);
        assert(d >= 1);
        assert forall|j: int| 0 <= j < d - 1 implies t[j] != '.' by {
            assert(s[j + 1] != '.');
        }
        if d == s.len() {
            assert forall|j: int| 0 <= j < t.len() implies t[j] != '.' by {
                assert(s[j + 1] != '.');
            }
        }
        lemma_first_dot_unique(t, d - 1);
    }
}

/// The scaled integer an amount text denotes: the digits before the first
/// dot are whole units, the digits after it are fractional and are scaled
/// up to four places. Only meaningful on texts that `valid_amount_text`
/// accepts.
pub open spec fn amount_text_value(s: Seq<char>) -> int {
    let d = first_dot(s);
    if d == s.len() {
        digits_val(s) * 10000
    } else {
        let whole = s.subrange(0, d);
        let frac = s.subrange(d + 1, s.len() as int);
        digits_val(whole) * 10000 + digits_val(frac) * pow10((4 - frac.len()) as nat)
    }
}

/// Whether a text is a well-formed amount: one or more digits, optionally
/// followed by a single dot and at most four further digits (none at all
/// is allowed), denoting a value whose scaled representation fits the
/// unsigned range. A sign of either kind is a non-digit and is refused.
pub open spec fn valid_amount_text(s: Seq<char>) -> bool {
    let d = first_dot(s);
    if d == s.len() {
        s.len() > 0 && all_digits(s) && amount_text_value(s) <= u64::MAX
    } else {
        let whole = s.subrange(0, d);
        let frac = s.subrange(d + 1, s.len() as int);
        whole.len() > 0 && all_digits(whole) && frac.len() <= 4 && all_digits(frac)
            && amount_text_value(s) <= u64::MAX
    }
}

/// The canonical text of an amount value: the whole units, a dot, and
/// exactly four fractional digits.
pub open spec fn amount_canonical_text(v: nat) -> Seq<char> {
    dec_digits(v / 10000) + seq!['.'] + dec_digits_width(v % 10000, 4)
}

/// The canonical text of a balance value: a minus sign for a negative
/// value, then the magnitude's canonical amount text.
pub open spec fn balance_canonical_text(v: int) -> Seq<char> {
    if v < 0 {
        seq!['-'] + amount_canonical_text((-v) as nat)
    } else {
        amount_canonical_text(v as nat)
    }
}

/// All characters that `dec_digits` produces are digits, there is at least
/// one, and reading them back gives the number.
pub proof fn lemma_dec_digits(n: nat)
    ensures
        all_digits(dec_digits(n)),
        dec_digits(n).len() >= 1,
        digits_val(dec_digits(n)) == n,
    decreases n,
{
    if n < 10 {
        let s = seq![digit_char(n as int)];
        assert(s.drop_last() =~= Seq::<char>::empty());
        assert(digits_val(s.drop_last()) == 0);
        assert(digits_val(s) == digit_value(digit_char(n as int)));
    } else {
        lemma_dec_digits(n / 10);
        let w = dec_digits(n / 10);
        let c = digit_char((n % 10) as int);
        assert(w.push(c).drop_last() =~= w);
        assert(w.push(c).last() == c);
        assert(digit_value(c) == n % 10);
        assert(digits_val(dec_digits(n)) == (n / 10) * 10 + n % 10);
        assert forall|i: int| 0 <= i < w.push(c).len() implies is_digit(#[trigger] w.push(c)[i]) by {
            if i < w.len() {
                assert(is_digit(w[i]));
            }
        }
    }
}

/// All characters that `dec_digits_width` produces are digits, there are
/// exactly `width` of them, and reading them back gives the number's last
/// `width` digits.
pub proof fn lemma_dec_digits_width(n: nat, width: nat)
    ensures
        all_digits(dec_digits_width(n, width)),
        dec_digits_width(n, width).len() == width,
        digits_val(dec_digits_width(n, width)) == n as int % pow10(width),
    decreases width,
{
    if width == 0 {
        assert(n % 1 == 0);
    } else {
        lemma_dec_digits_width(n / 10, (width - 1) as nat);
        let w = dec_digits_width(n / 10, (width - 1) as nat);
        let c = digit_char((n % 10) as int);
        assert(w.push(c).drop_last() =~= w);
        assert(w.push(c).last() == c);
        assert(digit_value(c) == n % 10);
        lemma_pow10_pos((width - 1) as nat);
        lemma_mod_breakdown(n as int, 10, pow10((width - 1) as nat));
        assert(pow10(width) == 10 * pow10((width - 1) as nat));
        assert forall|i: int| 0 <= i < w.push(c).len() implies is_digit(#[trigger] w.push(c)[i]) by {
            if i < w.len() {
                assert(is_digit(w[i]));
            }
        }
    }
}

/// The canonical text of any representable amount value is itself a valid
/// amount text and denotes that very value: rendering loses nothing.
pub proof fn lemma_canonical_text_exact(v: u64)
    ensures
        valid_amount_text(amount_canonical_text(v as nat)),
        amount_text_value(amount_canonical_text(v as nat)) == v,
{
    let w = dec_digits(v as nat / 10000);
    let f = dec_digits_width(v as nat % 10000, 4);
    let s = amount_canonical_text(v as nat);
    lemma_dec_digits(v as nat / 10000);
    lemma_dec_digits_width(v as nat % 10000, 4);
    assert(s.len() == w.len() + 5);
    assert(s[w.len() as int] == '.');
    assert forall|j: int| 0 <= j < w.len() implies s[j] != '.' by {
        assert(s[j] == w[j]);
        assert(is_digit(w[j]));
    }
    lemma_first_dot_unique(s, w.len() as int);
    assert(s.subrange(0, w.len() as int) =~= w);
    assert(s.subrange(w.len() as int + 1, s.len() as int) =~= f);
    assert(pow10(4) == 10000) by {
        reveal_with_fuel(pow10, 5);
    }
    assert(digits_val(f) == (v as nat % 10000) as int % 10000);
    lemma_small_mod(v as nat % 10000, 10000);
    assert(digits_val(f) == v as nat % 10000);
    assert(pow10((4 - f.len()) as nat) == 1);
    lemma_fundamental_div_mod(v as int, 10000);
    assert(amount_text_value(s) == v);
}

/// Round trip: parsing a valid amount text and rendering the parsed value
/// canonically is exact — the canonical text is valid again and denotes
/// the same value as the original text.
pub proof fn lemma_parse_then_render_exact(s: Seq<char>)
    requires
        valid_amount_text(s),
    ensures
        0 <= amount_text_value(s) <= u64::MAX,
        valid_amount_text(amount_canonical_text(amount_text_value(s) as nat)),
        amount_text_value(amount_canonical_text(amount_text_value(s) as nat))
            == amount_text_value(s),
{
    let d = first_dot(s);
    if d == s.len() {
        lemma_digits_val_nonneg(s);
    } else {
        lemma_digits_val_nonneg(s.subrange(0, d));
        lemma_digits_val_nonneg(s.subrange(d + 1, s.len() as int));
        lemma_pow10_pos((4 - s.subrange(d + 1, s.len() as int).len()) as nat);
    }
    lemma_canonical_text_exact(amount_text_value(s) as u64);
}

} // verus!
