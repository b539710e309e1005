//! Numbers in text: decimal output, and the numbers that a text spells out.

use vstd::prelude::*;

use crate::text::chars_of;

verus! {

/// The decimal digit of a number below ten.
pub open spec fn digit(d: nat) -> char {
    (48 + d) as char
}

/// A number in decimal, without leading zeros.
pub open spec fn decimal(n: nat) -> Seq<char>
    decreases n,
{
    if n < 10 {
        seq![digit(n)]
    } else {
        decimal(n / 10).push(digit(n % 10))
    }
}

fn digit_char(d: u8) -> (c: char)
    requires
        d < 10,
    ensures
        c == digit(d as nat),
{
    (48u8 + d) as char
}

/// Writes a number in decimal.
pub fn decimal_u64(n: u64) -> (out: String)
    ensures
        out@ == decimal(n as nat),
    decreases n,
{
    if n < 10 {
        let mut out = String::new();
        out.push(digit_char(n as u8));
        out
    } else {
        let mut out = decimal_u64(n / 10);
        out.push(digit_char((n % 10) as u8));
        out
    }
}

/// Writes a count in decimal.
pub fn decimal_usize(n: usize) -> (out: String)
    ensures
        out@ == decimal(n as nat),
{
    decimal_u64(n as u64)
}

/// A signed number in decimal.
pub open spec fn signed_decimal(n: int) -> Seq<char> {
    if n < 0 {
        "-"@ + decimal((-n) as nat)
    } else {
        decimal(n as nat)
    }
}

/// Writes a signed number in decimal.
pub fn decimal_i32(n: i32) -> (out: String)
    ensures
        out@ == signed_decimal(n as int),
{
    if n < 0 {
        let magnitude: u64 = (-(n as i64)) as u64;
        "-".to_string().concat(decimal_u64(magnitude).as_str())
    } else {
        decimal_u64(n as u64)
    }
}


// ---------------------------------------------------------------------------
// Reading

/// Whether a character is a decimal digit.
pub open spec fn is_digit(c: char) -> bool {
    48 <= c as u32 <= 57
}

/// Whether every character is a decimal digit.
pub open spec fn all_digits(s: Seq<char>) -> bool {
    forall|i: int| 0 <= i < s.len() ==> is_digit(#[trigger] s[i])
}

/// The number that a sequence of decimal digits stands for.
pub open spec fn digits_value(s: Seq<char>) -> nat
    decreases s.len(),
{
    if s.len() == 0 {
        0
    } else {
        digits_value(s.drop_last()) * 10 + (s.last() as u32 - 48) as nat
    }
}

/// The number that a text spells: decimal digits, at least one, after an
/// optional plus sign.
pub open spec fn unsigned_value(s: Seq<char>) -> Option<nat> {
    let digits = if s.len() > 0 && s[0] == '+' { s.skip(1) } else { s };
    if digits.len() > 0 && all_digits(digits) {
        Some(digits_value(digits))
    } else {
        None
    }
}

/// The number that a text spells, if it fits in 64 bits.
pub open spec fn u64_value(s: Seq<char>) -> Option<u64> {
    match unsigned_value(s) {
        Some(n) => if n <= u64::MAX { Some(n as u64) } else { None },
        None => None,
    }
}

/// The signed number that a text spells: as `unsigned_value`, or a minus sign
/// and decimal digits.
pub open spec fn signed_value(s: Seq<char>) -> Option<int> {
    if s.len() > 0 && s[0] == '-' {
        if s.len() > 1 && all_digits(s.skip(1)) {
            Some(-(digits_value(s.skip(1)) as int))
        } else {
            None
        }
    } else {
        match unsigned_value(s) {
            Some(n) => Some(n as int),
            None => None,
        }
    }
}

/// The signed number that a text spells, if it fits in 64 bits.
pub open spec fn i64_value(s: Seq<char>) -> Option<i64> {
    match signed_value(s) {
        Some(n) => if i64::MIN <= n <= i64::MAX { Some(n as i64) } else { None },
        None => None,
    }
}

/// A number only grows as digits are added to its end.
proof fn lemma_prefix_value(s: Seq<char>, k: int)
    requires
        all_digits(s),
        0 <= k <= s.len(),
    ensures
        digits_value(s.take(k)) <= digits_value(s),
    decreases s.len() - k,
{
    if k < s.len() {
        lemma_prefix_value(s, k + 1);
        assert(s.take(k + 1).drop_last() == s.take(k));
    } else {
        assert(s.take(k) == s);
    }
}

/// Reads the digits `from..` of a list as a number no larger than `limit`.
fn read_digits(chars: &Vec<char>, from: usize, limit: u64) -> (out: Option<u64>)
    requires
        from <= chars@.len(),
    ensures
        match out {
            Some(n) => from < chars@.len() && all_digits(chars@.skip(from as int)) && n
                == digits_value(chars@.skip(from as int)) && n <= limit,
            None => from == chars@.len() || !all_digits(chars@.skip(from as int)) || digits_value(
                chars@.skip(from as int),
            ) > limit,
        },
{
    let n: usize = chars.len();
    if from == n {
        return None;
    }
    let ghost digits = chars@.skip(from as int);
    let mut value: u128 = 0;
    let mut i: usize = from;
    assert(digits.take(0) == Seq::<char>::empty());
    while i < n
        invariant
            n == chars@.len(),
            from <= i <= n,
            digits == chars@.skip(from as int),
            value == digits_value(digits.take(i - from)),
            value <= limit,
            all_digits(digits.take(i - from)),
        decreases n - i,
    {
        let c: u32 = chars[i] as u32;
        let ghost k = i - from;
        assert(digits[k] == chars@[i as int]);
        if c < 48 || c > 57 {
            assert(!is_digit(digits[k]));
            return None;
        }
        let next: u128 = value * 10 + (c - 48) as u128;
        proof {
            assert(digits.take(k + 1).drop_last() == digits.take(k));
            assert(digits.take(k + 1).last() == digits[k]);
            assert(all_digits(digits.take(k + 1)));
        }
        if next > limit as u128 {
            proof {
                if all_digits(digits) {
                    lemma_prefix_value(digits, k + 1);
                }
            }
            return None;
        }
        value = next;
        i = i + 1;
    }
    assert(digits.take(n - from) == digits);
    Some(value as u64)
}

/// Reads an unsigned 64-bit number: what `str::parse::<u64>` accepts.
pub fn parse_u64(s: &str) -> (out: Option<u64>)
    ensures
        out == u64_value(s@),
{
    let chars = chars_of(s);
    let from: usize = if chars.len() > 0 && chars[0] == '+' { 1 } else { 0 };
    assert(s@.skip(0) == s@);
    read_digits(&chars, from, u64::MAX)
}

/// Reads a signed 64-bit number: what `str::parse::<i64>` accepts.
pub fn parse_i64(s: &str) -> (out: Option<i64>)
    ensures
        out == i64_value(s@),
{
    let chars = chars_of(s);
    assert(s@.skip(0) == s@);
    if chars.len() > 0 && chars[0] == '-' {
        match read_digits(&chars, 1, 0x8000_0000_0000_0000) {
            Some(n) => Some((-(n as i128)) as i64),
            None => None,
        }
    } else {
        let from: usize = if chars.len() > 0 && chars[0] == '+' { 1 } else { 0 };
        match read_digits(&chars, from, 0x7fff_ffff_ffff_ffff) {
            Some(n) => Some(n as i64),
            None => None,
        }
    }
}

// ---------------------------------------------------------------------------
// Laws

/// A number written in decimal is made of digits, at least one, and they stand
/// for that number.
pub proof fn lemma_decimal_value(n: nat)
    ensures
        decimal(n).len() > 0,
        all_digits(decimal(n)),
        digits_value(decimal(n)) == n,
    decreases n,
{
    if n < 10 {
        let s = seq![digit(n)];
        assert(s.drop_last() == Seq::<char>::empty());
        assert(digits_value(s.drop_last()) == 0);
        assert(s.last() as u32 - 48 == n);
    } else {
        lemma_decimal_value(n / 10);
        let s = decimal(n);
        assert(s.drop_last() == decimal(n / 10));
        assert(s.last() == digit(n % 10));
        assert forall|i: int| 0 <= i < s.len() implies is_digit(#[trigger] s[i]) by {
            if i < s.len() - 1 {
                assert(s[i] == decimal(n / 10)[i]);
            }
        }
    }
}

/// Reading a number that was written in decimal gives the number back.
pub proof fn law_decimal_reads_back(n: u64)
    ensures
        u64_value(decimal(n as nat)) == Some(n),
{
    lemma_decimal_value(n as nat);
    assert(is_digit(decimal(n as nat)[0]));
}

/// Two numbers that are written alike are equal.
pub proof fn law_decimal_injective(a: nat, b: nat)
    requires
        decimal(a) == decimal(b),
    ensures
        a == b,
{
    lemma_decimal_value(a);
    lemma_decimal_value(b);
}

/// A text spells a number exactly where it is decimal digits, at least one, with or
/// without a plus sign before them; and the number is then that of the digits, where it
/// fits in 64 bits.
pub proof fn law_number_is_digits(s: Seq<char>, n: u64)
    ensures
        u64_value(s) == Some(n) ==> s.len() > 0 && (is_digit(s[0]) || s[0] == '+') && (forall|
            k: int,
        |
            1 <= k < s.len() ==> is_digit(#[trigger] s[k])),
        s.len() > 0 && all_digits(s) ==> (u64_value(s) == Some(n) <==> digits_value(s) == n),
        all_digits(s) ==> u64_value("+"@ + s) == u64_value(s),
        u64_value(Seq::empty()) is None,
{
    reveal_strlit("+");
    let signed = "+"@ + s;
    assert(signed[0] == '+');
    assert(signed.skip(1) =~= s);
    if s.len() > 0 && all_digits(s) {
        assert(is_digit(s[0]));
    }
    if u64_value(s) == Some(n) {
        if s[0] == '+' {
            assert forall|k: int| 1 <= k < s.len() implies is_digit(#[trigger] s[k]) by {
                assert(s.skip(1)[k - 1] == s[k]);
            }
        } else {
            assert(is_digit(s[0]));
        }
    }
}

/// The last digit counts once and what stands before it ten times; zeros before a number
/// make no difference.
pub proof fn law_digits(s: Seq<char>, d: nat)
    requires
        d < 10,
    ensures
        digits_value(s.push(digit(d))) == 10 * digits_value(s) + d,
        digits_value(seq![digit(0)] + s) == digits_value(s),
    decreases s.len(),
{
    assert(s.push(digit(d)).drop_last() =~= s);
    assert(digit(d) as u32 - 48 == d);
    let led = seq![digit(0)] + s;
    if s.len() == 0 {
        assert(led.drop_last() =~= Seq::<char>::empty());
        assert(led.last() as u32 - 48 == 0);
        assert(digits_value(led.drop_last()) == 0);
    } else {
        law_digits(s.drop_last(), d);
        assert(led.drop_last() =~= seq![digit(0)] + s.drop_last());
        assert(led.last() == s.last());
    }
}

/// A negative number is written with a minus sign before it, another as it is; and
/// reading it gives it back.
pub proof fn law_signed_numbers(n: i64)
    ensures
        n >= 0 ==> signed_decimal(n as int) == decimal(n as nat),
        n < 0 ==> signed_decimal(n as int) == "-"@ + decimal((-n) as nat),
        i64_value(signed_decimal(n as int)) == Some(n),
{
    reveal_strlit("-");
    if n >= 0 {
        lemma_decimal_value(n as nat);
        assert(is_digit(decimal(n as nat)[0]));
    } else {
        let digits = decimal((-n) as nat);
        lemma_decimal_value((-n) as nat);
        let s = "-"@ + digits;
        assert(s[0] == '-');
        assert(s.skip(1) =~= digits);
    }
}

} // verus!
