//! Decimal text: rendering integers the way the candidate paths need them,
//! and parsing them back.

use vstd::prelude::*;

verus! {

/// The character for one decimal digit value.
pub open spec fn dec_digit(d: int) -> char {
    if d == 0 {
        '0'
    } else if d == 1 {
        '1'
    } else if d == 2 {
        '2'
    } else if d == 3 {
        '3'
    } else if d == 4 {
        '4'
    } else if d == 5 {
        '5'
    } else if d == 6 {
        '6'
    } else if d == 7 {
        '7'
    } else if d == 8 {
        '8'
    } else {
        '9'
    }
}

/// Decimal representation of a natural number: most significant digit first,
/// no leading zeros, a single `0` for zero.
pub open spec fn dec_chars(n: nat) -> Seq<char>
    decreases n,
{
    if n < 10 {
        seq![dec_digit(n as int)]
    } else {
        dec_chars(n / 10) + seq![dec_digit((n % 10) as int)]
    }
}

/// Decimal representation of an integer: a leading `-` for negatives.
pub open spec fn int_chars(n: int) -> Seq<char> {
    if n < 0 {
        seq!['-'] + dec_chars((-n) as nat)
    } else {
        dec_chars(n as nat)
    }
}

/// Whether `c` is an ASCII decimal digit.
pub open spec fn is_dec_digit(c: char) -> bool {
    48 <= c as int <= 57
}

/// The value of one ASCII decimal digit.
pub open spec fn dec_val(c: char) -> int {
    c as int - 48
}

/// Whether every character of `s` is a decimal digit.
pub open spec fn all_dec_digits(s: Seq<char>) -> bool {
    forall|i: int| 0 <= i < s.len() ==> is_dec_digit(s[i])
}

/// The numeric value of a digit string, most significant digit first.
pub open spec fn digits_val(s: Seq<char>) -> int
    decreases s.len(),
{
    if s.len() == 0 {
        0
    } else {
        digits_val(s.drop_last()) * 10 + dec_val(s.last())
    }
}

/// Ten to the `k`.
pub open spec fn pow10(k: nat) -> nat
    decreases k,
{
    if k == 0 {
        1
    } else {
        10 * pow10((k - 1) as nat)
    }
}

/// What `str::parse::<i64>` accepts: an optional sign, then one or more
/// decimal digits, with a value in `i64`'s range; and the value it returns.
pub open spec fn parsed_i64(s: Seq<char>) -> Option<int> {
    let signed = s.len() > 0 && (s[0] == '+' || s[0] == '-');
    let digits = if signed {
        s.drop_first()
    } else {
        s
    };
    if digits.len() == 0 || !all_dec_digits(digits) {
        None
    } else {
        let v = if s.len() > 0 && s[0] == '-' {
            -digits_val(digits)
        } else {
            digits_val(digits)
        };
        if i64::MIN <= v <= i64::MAX {
            Some(v)
        } else {
            None
        }
    }
}

/// A digit string's value is nonnegative.
pub proof fn lemma_digits_val_nonneg(s: Seq<char>)
    requires
        all_dec_digits(s),
    ensures
        digits_val(s) >= 0,
    decreases s.len(),
{
    if s.len() > 0 {
        assert forall|i: int| 0 <= i < s.drop_last().len() implies is_dec_digit(
            s.drop_last()[i],
        ) by {
            assert(s.drop_last()[i] == s[i]);
        }
        lemma_digits_val_nonneg(s.drop_last());
        assert(is_dec_digit(s.last()));
    }
}

/// A digit string's value is below ten to its length.
pub proof fn lemma_digits_val_upper(s: Seq<char>)
    requires
        all_dec_digits(s),
    ensures
        digits_val(s) < pow10(s.len()),
    decreases s.len(),
{
    if s.len() > 0 {
        assert forall|i: int| 0 <= i < s.drop_last().len() implies is_dec_digit(
            s.drop_last()[i],
        ) by {
            assert(s.drop_last()[i] == s[i]);
        }
        lemma_digits_val_upper(s.drop_last());
        assert(is_dec_digit(s.last()));
        assert(pow10(s.len()) == 10 * pow10((s.len() - 1) as nat));
    }
}

/// A digit string with no leading zero is worth at least ten to one less
/// than its length.
pub proof fn lemma_digits_val_lower(s: Seq<char>)
    requires
        all_dec_digits(s),
        s.len() > 0,
        s[0] != '0',
    ensures
        digits_val(s) >= pow10((s.len() - 1) as nat),
    decreases s.len(),
{
    if s.len() == 1 {
        assert(s.drop_last().len() == 0);
        assert(digits_val(s.drop_last()) == 0);
        assert(s.last() == s[0]);
        assert(digits_val(s) == dec_val(s[0]));
        assert(is_dec_digit(s[0]));
        assert(s[0] as int != 48);
        assert(pow10(0) == 1);
    } else {
        let prefix = s.drop_last();
        assert forall|i: int| 0 <= i < prefix.len() implies is_dec_digit(prefix[i]) by {
            assert(prefix[i] == s[i]);
        }
        assert(prefix[0] == s[0]);
        lemma_digits_val_lower(prefix);
        assert(is_dec_digit(s.last()));
        assert(pow10((s.len() - 1) as nat) == 10 * pow10((s.len() - 2) as nat));
    }
}

/// Leading zeros do not change a digit string's value.
pub proof fn lemma_digits_val_drop_leading_zero(s: Seq<char>)
    requires
        s.len() > 0,
        s[0] == '0',
    ensures
        digits_val(s) == digits_val(s.drop_first()),
    decreases s.len(),
{
    if s.len() == 1 {
        assert(s.drop_first().len() == 0);
        assert(digits_val(s.drop_first()) == 0);
        assert(s.drop_last().len() == 0);
        assert(digits_val(s.drop_last()) == 0);
        assert(s.last() == s[0]);
        assert(digits_val(s) == dec_val('0'));
        assert(dec_val('0') == 0);
    } else {
        let shorter = s.drop_last();
        assert(shorter[0] == s[0]);
        lemma_digits_val_drop_leading_zero(shorter);
        assert(shorter.drop_first() =~= s.drop_first().drop_last());
        assert(s.drop_first().last() == s.last());
        assert(s.drop_first().len() > 0);
        assert(digits_val(s.drop_first()) == digits_val(s.drop_first().drop_last()) * 10 + dec_val(
            s.drop_first().last(),
        ));
    }
}

/// What rendering produces: digit characters throughout, at least one,
/// and a value that reads back as the number itself.
pub proof fn lemma_dec_chars_value(n: nat)
    ensures
        dec_chars(n).len() > 0,
        all_dec_digits(dec_chars(n)),
        digits_val(dec_chars(n)) == n,
    decreases n,
{
    if n < 10 {
        let s = dec_chars(n);
        assert(s == seq![dec_digit(n as int)]);
        assert(is_dec_digit(dec_digit(n as int)));
        assert(s.drop_last().len() == 0);
        assert(digits_val(s.drop_last()) == 0);
        assert(s.last() == dec_digit(n as int));
        assert(dec_val(dec_digit(n as int)) == n);
    } else {
        lemma_dec_chars_value(n / 10);
        let prefix = dec_chars(n / 10);
        let s = dec_chars(n);
        assert(s == prefix + seq![dec_digit((n % 10) as int)]);
        assert(s.drop_last() =~= prefix);
        assert(s.last() == dec_digit((n % 10) as int));
        assert(is_dec_digit(dec_digit((n % 10) as int)));
        assert(dec_val(dec_digit((n % 10) as int)) == n % 10);
        assert forall|i: int| 0 <= i < s.len() implies is_dec_digit(s[i]) by {
            if i < prefix.len() {
                assert(s[i] == prefix[i]);
            } else {
                assert(s[i] == dec_digit((n % 10) as int));
            }
        }
        assert(digits_val(s) == digits_val(prefix) * 10 + (n % 10));
    }
}

/// Parsing undoes rendering: the text of an integer in `i64`'s range reads
/// back as exactly that integer.
pub proof fn lemma_int_chars_parse(t: int)
    requires
        i64::MIN <= t <= i64::MAX,
    ensures
        parsed_i64(int_chars(t)) == Some(t),
{
    if t >= 0 {
        let s = dec_chars(t as nat);
        lemma_dec_chars_value(t as nat);
        assert(is_dec_digit(s[0]));
        assert(s[0] != '+' && s[0] != '-');
        assert(parsed_i64(s) == Some(t));
    } else {
        let digits = dec_chars((-t) as nat);
        let s = seq!['-'] + digits;
        lemma_dec_chars_value((-t) as nat);
        assert(s[0] == '-');
        assert(s.drop_first() =~= digits);
        assert(s.len() > 0);
        assert(parsed_i64(s) == Some(t));
    }
}

/// The exec digit for a value below ten.
fn digit_str(d: u64) -> (r: &'static str)
    requires
        d < 10,
    ensures
        r@ =~= seq![dec_digit(d as int)],
{
    proof {
        reveal_strlit("0");
        reveal_strlit("1");
        reveal_strlit("2");
        reveal_strlit("3");
        reveal_strlit("4");
        reveal_strlit("5");
        reveal_strlit("6");
        reveal_strlit("7");
        reveal_strlit("8");
        reveal_strlit("9");
    }
    if d == 0 {
        "0"
    } else if d == 1 {
        "1"
    } else if d == 2 {
        "2"
    } else if d == 3 {
        "3"
    } else if d == 4 {
        "4"
    } else if d == 5 {
        "5"
    } else if d == 6 {
        "6"
    } else if d == 7 {
        "7"
    } else if d == 8 {
        "8"
    } else {
        "9"
    }
}

/// Renders a natural number in decimal.
pub fn u64_to_string(n: u64) -> (r: String)
    ensures
        r@ == dec_chars(n as nat),
    decreases n,
{
    if n < 10 {
        String::from_str(digit_str(n))
    } else {
        let mut s = u64_to_string(n / 10);
        s.append(digit_str(n % 10));
        proof {
            assert(dec_chars(n as nat) == dec_chars(n as nat / 10) + seq![
                dec_digit((n as nat % 10) as int),
            ]);
        }
        s
    }
}

/// Renders a signed integer in decimal, with a leading `-` when negative.
pub fn i64_to_string(n: i64) -> (r: String)
    ensures
        r@ == int_chars(n as int),
{
    if n >= 0 {
        u64_to_string(n as u64)
    } else {
        let magnitude: u64 = if n == i64::MIN {
            9223372036854775808u64
        } else {
            (-n) as u64
        };
        proof {
            reveal_strlit("-");
        }
        let mut s = String::from_str("-");
        let rendered = u64_to_string(magnitude);
        s.append(rendered.as_str());
        proof {
            assert(s@ =~= seq!['-'] + dec_chars(magnitude as nat));
        }
        s
    }
}

/// Parses what `str::parse::<i64>` parses: an optional sign and one or more
/// decimal digits. Returns `None` exactly when the text is malformed or its
/// value does not fit an `i64`.
pub fn parse_i64(s: &str) -> (r: Option<i64>)
    ensures
        r is Some <==> parsed_i64(s@) is Some,
        r matches Some(v) ==> parsed_i64(s@) == Some(v as int),
{
    let n = s.unicode_len();
    let signed = n > 0 && (s.get_char(0) == '+' || s.get_char(0) == '-');
    let negative = n > 0 && s.get_char(0) == '-';
    let start: usize = if signed {
        1
    } else {
        0
    };
    let ghost digits = if signed {
        s@.drop_first()
    } else {
        s@
    };
    if start == n {
        return None;
    }
    // Reject any non-digit character.
    let mut i = start;
    while i < n
        invariant
            start <= i <= n,
            n == s@.len(),
            signed == (s@.len() > 0 && (s@[0] == '+' || s@[0] == '-')),
            start == if signed {
                1int
            } else {
                0int
            },
            digits == if signed {
                s@.drop_first()
            } else {
                s@
            },
            forall|j: int| start <= j < i ==> is_dec_digit(s@[j]),
        decreases n - i,
    {
        let c = s.get_char(i);
        let v = c as u32;
        if v < 48 || v > 57 {
            proof {
                assert(s@[i as int] == c);
                assert(!is_dec_digit(c));
                assert(digits.len() == n - start);
                assert(digits[i - start] == s@[i as int]);
                assert(!is_dec_digit(digits[i - start]));
                assert(!all_dec_digits(digits));
            }
            return None;
        }
        i = i + 1;
    }
    proof {
        assert forall|j: int| 0 <= j < digits.len() implies is_dec_digit(digits[j]) by {
            assert(digits[j] == s@[j + start]);
        }
        lemma_digits_val_nonneg(digits);
    }
    // Skip leading zeros; what remains decides the magnitude.
    proof {
        assert(s@.subrange(start as int, n as int) =~= digits);
    }
    let mut z = start;
    loop
        invariant
            start <= z <= n,
            n == s@.len(),
            digits == if signed {
                s@.drop_first()
            } else {
                s@
            },
            digits_val(digits) == digits_val(s@.subrange(z as int, n as int)),
        ensures
            start <= z <= n,
            digits_val(digits) == digits_val(s@.subrange(z as int, n as int)),
            z == n || s@[z as int] != '0',
        decreases n - z,
    {
        if z == n {
            break ;
        }
        let c = s.get_char(z);
        if c != '0' {
            proof {
                assert(s@[z as int] == c);
            }
            break ;
        }
        proof {
            let tail = s@.subrange(z as int, n as int);
            assert(tail[0] == s@[z as int]);
            lemma_digits_val_drop_leading_zero(tail);
            assert(tail.drop_first() =~= s@.subrange(z as int + 1, n as int));
        }
        z = z + 1;
    }
    let ghost sig = s@.subrange(z as int, n as int);
    proof {
        assert forall|j: int| 0 <= j < sig.len() implies is_dec_digit(sig[j]) by {
            assert(sig[j] == s@[j + z]);
        }
    }
    let k = n - z;
    if k > 19 {
        // At least twenty significant digits: the magnitude is at least
        // ten to the nineteen, past either end of i64's range.
        proof {
            assert(sig[0] == s@[z as int]);
            lemma_digits_val_lower(sig);
            lemma_pow10_19();
            assert(pow10((sig.len() - 1) as nat) >= pow10(19)) by {
                lemma_pow10_increases(19, (sig.len() - 1) as nat);
            }
            assert(digits_val(digits) >= 10000000000000000000);
            assert(digits.len() > 0);
            assert(all_dec_digits(digits));
            assert(parsed_i64(s@) is None);
        }
        return None;
    }
    // At most nineteen significant digits fit a u64 magnitude.
    let mut acc: u64 = 0;
    let mut p = z;
    while p < n
        invariant
            z <= p <= n,
            n == s@.len(),
            sig == s@.subrange(z as int, n as int),
            n - z <= 19,
            forall|j: int| z <= j < n ==> is_dec_digit(s@[j]),
            acc == digits_val(sig.take(p - z)),
            acc < pow10((p - z) as nat),
        decreases n - p,
    {
        let c = s.get_char(p);
        let v = (c as u32) as u64;
        proof {
            assert(s@[p as int] == c);
            assert(is_dec_digit(c));
            let pref = sig.take(p - z);
            lemma_digits_val_upper_take(sig, p - z);
            lemma_pow10_19();
            assert(pow10((p - z) as nat) <= pow10(18)) by {
                lemma_pow10_increases((p - z) as nat, 18);
            }
            assert(sig.take(p + 1 - z).drop_last() =~= pref);
            assert(sig.take(p + 1 - z).last() == sig[p - z]);
            assert(sig[p - z] == s@[p as int]);
        }
        acc = acc * 10 + (v - 48);
        p = p + 1;
        proof {
            assert(pow10((p - z) as nat) == 10 * pow10((p - z - 1) as nat));
        }
    }
    proof {
        assert(sig.take(n - z) =~= sig);
        assert(digits_val(digits) == acc);
    }
    if negative {
        if acc > 9223372036854775808u64 {
            return None;
        }
        if acc == 9223372036854775808u64 {
            Some(i64::MIN)
        } else {
            Some(-(acc as i64))
        }
    } else {
        if acc > 9223372036854775807u64 {
            return None;
        }
        Some(acc as i64)
    }
}

/// Ten to the nineteen, as a number the range checks can use.
pub proof fn lemma_pow10_19()
    ensures
        pow10(19) == 10000000000000000000,
{
    reveal_with_fuel(pow10, 20);
}

/// `pow10` grows with its exponent.
pub proof fn lemma_pow10_increases(a: nat, b: nat)
    requires
        a <= b,
    ensures
        pow10(a) <= pow10(b),
    decreases b,
{
    if a < b {
        lemma_pow10_increases(a, (b - 1) as nat);
        assert(pow10(b) == 10 * pow10((b - 1) as nat));
        assert(pow10((b - 1) as nat) >= 1) by {
            lemma_pow10_pos((b - 1) as nat);
        }
    }
}

/// `pow10` is positive.
pub proof fn lemma_pow10_pos(k: nat)
    ensures
        pow10(k) >= 1,
    decreases k,
{
    if k > 0 {
        lemma_pow10_pos((k - 1) as nat);
    }
}

/// The value of a prefix of a digit string is below ten to its length.
proof fn lemma_digits_val_upper_take(s: Seq<char>, k: int)
    requires
        all_dec_digits(s),
        0 <= k <= s.len(),
    ensures
        digits_val(s.take(k)) < pow10(k as nat),
        digits_val(s.take(k)) >= 0,
{
    let pref = s.take(k);
    assert forall|i: int| 0 <= i < pref.len() implies is_dec_digit(pref[i]) by {
        assert(pref[i] == s[i]);
    }
    lemma_digits_val_upper(pref);
    lemma_digits_val_nonneg(pref);
}

} // verus!
