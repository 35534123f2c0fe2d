//! Decimal integer literals: reading a signed 64-bit integer from characters,
//! and writing one back out.
use vstd::prelude::*;

verus! {

pub open spec fn is_ascii_digit(c: char) -> bool {
    48 <= c as u32 <= 57
}

pub open spec fn digit_value(c: char) -> int {
    (c as u32) - 48
}

/// The character that writes the decimal digit `d`.
pub open spec fn digit_char(d: int) -> char {
    ((d + 48) as u8) as char
}

pub open spec fn all_ascii_digits(s: Seq<char>) -> bool {
    forall|i: int| 0 <= i < s.len() ==> is_ascii_digit(#[trigger] s[i])
}

/// The value of a run of decimal digits, most significant first.
pub open spec fn digits_value(s: Seq<char>) -> int
    decreases s.len(),
{
    if s.len() == 0 {
        0
    } else {
        digits_value(s.drop_last()) * 10 + digit_value(s.last())
    }
}

/// The digits after an optional leading `+` or `-`.
pub open spec fn unsigned_part(s: Seq<char>) -> Seq<char> {
    if s.len() > 0 && (s[0] == '-' || s[0] == '+') {
        s.drop_first()
    } else {
        s
    }
}

/// What reading `s` as a signed 64-bit decimal integer gives: an optional sign,
/// then one or more ASCII digits, with a value in range.
pub open spec fn parse_i64_spec(s: Seq<char>) -> Option<i64> {
    let digits = unsigned_part(s);
    let v = if s.len() > 0 && s[0] == '-' {
        -digits_value(digits)
    } else {
        digits_value(digits)
    };
    if digits.len() > 0 && all_ascii_digits(digits) && i64::MIN <= v <= i64::MAX {
        Some(v as i64)
    } else {
        None
    }
}

/// The shortest decimal writing of a natural number.
pub open spec fn decimal_nat(n: nat) -> Seq<char>
    decreases n,
{
    if n < 10 {
        seq![digit_char(n as int)]
    } else {
        decimal_nat(n / 10).push(digit_char((n % 10) as int))
    }
}

/// The shortest decimal writing of an integer, with a `-` in front when negative.
pub open spec fn decimal_of(n: int) -> Seq<char> {
    if n < 0 {
        seq!['-'] + decimal_nat((-n) as nat)
    } else {
        decimal_nat(n as nat)
    }
}

proof fn lemma_digits_value_grows(s: Seq<char>, i: int)
    requires
        0 <= i <= s.len(),
        all_ascii_digits(s),
    ensures
        0 <= digits_value(s.take(i)) <= digits_value(s),
    decreases s.len() - i,
{
    if i < s.len() {
        lemma_digits_value_grows(s, i + 1);
        assert(s.take(i + 1).drop_last() =~= s.take(i));
        assert(is_ascii_digit(s[i]));
    } else {
        assert(s.take(i) =~= s);
        lemma_digits_value_nonneg(s);
    }
}

proof fn lemma_digits_value_nonneg(s: Seq<char>)
    requires
        all_ascii_digits(s),
    ensures
        digits_value(s) >= 0,
    decreases s.len(),
{
    if s.len() > 0 {
        assert(all_ascii_digits(s.drop_last()));
        lemma_digits_value_nonneg(s.drop_last());
        assert(is_ascii_digit(s[s.len() - 1]));
    }
}

/// Reads `s` as a signed 64-bit decimal integer.
pub fn parse_i64(s: &Vec<char>) -> (r: Option<i64>)
    ensures
        r == parse_i64_spec(s@),
{
    let len = s.len();
    let negative = len > 0 && s[0] == '-';
    let start: usize = if len > 0 && (s[0] == '-' || s[0] == '+') {
        1
    } else {
        0
    };
    let ghost digits = unsigned_part(s@);
    assert(digits =~= s@.subrange(start as int, len as int));
    if start == len {
        return None;
    }
    // Magnitudes above 2^63 fit neither sign.
    let limit: u128 = 0x8000_0000_0000_0000;
    let mut acc: u128 = 0;
    let mut i: usize = start;
    while i < len
        invariant
            start <= i <= len,
            len == s@.len(),
            digits == unsigned_part(s@),
            negative == (s@.len() > 0 && s@[0] == '-'),
            digits =~= s@.subrange(start as int, len as int),
            limit == 0x8000_0000_0000_0000u128,
            acc <= limit,
            all_ascii_digits(digits.take(i - start)),
            acc == digits_value(digits.take(i - start)),
        decreases len - i,
    {
        let code = s[i] as u32;
        assert(digits[i - start] == s@[i as int]);
        if code < 48 || code > 57 {
            assert(!is_ascii_digit(digits[i - start]));
            assert(!all_ascii_digits(digits));
            return None;
        }
        let d = (code - 48) as u128;
        assert(digits.take(i + 1 - start).drop_last() =~= digits.take(i - start));
        assert(digits.take(i + 1 - start).last() == digits[i - start]);
        acc = acc * 10 + d;
        i = i + 1;
        assert(all_ascii_digits(digits.take(i - start)));
        assert(acc == digits_value(digits.take(i - start)));
        if acc > limit {
            proof {
                if all_ascii_digits(digits) {
                    lemma_digits_value_grows(digits, i - start);
                }
            }
            return None;
        }
    }
    assert(digits.take(len - start) =~= digits);
    if negative {
        if acc == limit {
            Some(i64::MIN)
        } else {
            Some(-(acc as i64))
        }
    } else if acc < limit {
        Some(acc as i64)
    } else {
        None
    }
}

/// Writes `n` in decimal, with a `-` in front when negative.
pub fn decimal_chars(n: i64) -> (r: Vec<char>)
    ensures
        r@ == decimal_of(n as int),
{
    let magnitude: u64 = if n < 0 {
        (-(n + 1)) as u64 + 1
    } else {
        n as u64
    };
    let mut m: u64 = magnitude / 10;
    let mut digits: Vec<char> = Vec::new();
    digits.push(((magnitude % 10) as u8 + 48u8) as char);
    assert(m > 0 ==> decimal_nat(magnitude as nat) == decimal_nat(m as nat) + digits@);
    while m > 0
        invariant
            m > 0 ==> decimal_nat(magnitude as nat) == decimal_nat(m as nat) + digits@,
            m == 0 ==> decimal_nat(magnitude as nat) == digits@,
        decreases m,
    {
        let c = ((m % 10) as u8 + 48u8) as char;
        let ghost before = digits@;
        digits.insert(0, c);
        assert(m >= 10 ==> decimal_nat((m / 10) as nat) + digits@ =~= decimal_nat(
            (m / 10) as nat,
        ).push(digit_char((m % 10) as int)) + before);
        assert(m < 10 ==> digits@ =~= seq![digit_char(m as int)] + before);
        m = m / 10;
    }
    if n < 0 {
        digits.insert(0, '-');
    }
    assert(n < 0 ==> digits@ =~= seq!['-'] + decimal_nat(magnitude as nat));
    digits
}

} // verus!
