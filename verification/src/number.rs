//! Decimal numbers: reading them as Rust's `str::parse` does for the integer
//! types, and writing them in base ten.

use crate::text::push_char;
use vstd::prelude::*;

verus! {

pub open spec fn is_digit(c: char) -> bool {
    '0' <= c && c <= '9'
}

pub open spec fn digit_value(c: char) -> nat {
    (c as int - '0' as int) as nat
}

pub open spec fn all_digits(s: Seq<char>) -> bool {
    forall|i: int| 0 <= i < s.len() ==> is_digit(#[trigger] s[i])
}

/// The value of a string of decimal digits.
pub open spec fn digits_value(s: Seq<char>) -> nat
    decreases s.len(),
{
    if s.len() == 0 {
        0
    } else {
        digits_value(s.drop_last()) * 10 + digit_value(s.last())
    }
}

/// The digits after an optional leading `+` (what `parse` reads for an
/// unsigned type).
pub open spec fn unsigned_digits(s: Seq<char>) -> Seq<char> {
    if s.len() > 0 && s[0] == '+' {
        s.drop_first()
    } else {
        s
    }
}

/// `str::parse` for an unsigned integer type whose largest value is `max`: an
/// optional `+`, then at least one decimal digit, and a value within range.
pub open spec fn parse_unsigned(s: Seq<char>, max: nat) -> Option<nat> {
    let d = unsigned_digits(s);
    if d.len() > 0 && all_digits(d) && digits_value(d) <= max {
        Some(digits_value(d))
    } else {
        None
    }
}

/// `str::parse::<i64>`: an optional sign, then at least one decimal digit,
/// and a value within the range of `i64`.
pub open spec fn parse_i64_spec(s: Seq<char>) -> Option<int> {
    if s.len() > 0 && s[0] == '-' {
        let d = s.drop_first();
        if d.len() > 0 && all_digits(d) && digits_value(d) <= 0x8000_0000_0000_0000 {
            Some(-digits_value(d))
        } else {
            None
        }
    } else {
        match parse_unsigned(s, 0x7fff_ffff_ffff_ffff) {
            Some(v) => Some(v as int),
            None => None,
        }
    }
}

proof fn lemma_digits_value_prefix(s: Seq<char>, i: int)
    requires
        0 <= i <= s.len(),
    ensures
        digits_value(s.take(i)) <= digits_value(s),
    decreases s.len() - i,
{
    if i < s.len() {
        lemma_digits_value_prefix(s, i + 1);
        assert(s.take(i + 1).drop_last() =~= s.take(i));
    } else {
        assert(s.take(i) =~= s);
    }
}

/// The value of the digit string `s`, when every character of `s` is a digit
/// and the value is at most `max`.
fn read_digits(s: &[char], max: u64) -> (r: Option<u64>)
    requires
        max >= 9,
    ensures
        match r {
            Some(v) => all_digits(s@) && digits_value(s@) <= max && v == digits_value(s@),
            None => !all_digits(s@) || digits_value(s@) > max,
        },
{
    let mut v: u64 = 0;
    let mut i: usize = 0;
    assert(s@.take(0) =~= Seq::<char>::empty());
    while i < s.len()
        invariant
            i <= s@.len(),
            all_digits(s@.take(i as int)),
            v == digits_value(s@.take(i as int)),
            v <= max,
            max >= 9,
        decreases s@.len() - i,
    {
        let c = s[i];
        if !('0' <= c && c <= '9') {
            assert(!is_digit(s@[i as int]));
            return None;
        }
        let d = (c as u32 - '0' as u32) as u64;
        assert(d <= 9 && d as nat == digit_value(c));
        assert(s@.take(i + 1).drop_last() =~= s@.take(i as int));
        assert(all_digits(s@.take(i + 1)));
        if v > (max - d) / 10 {
            assert(digits_value(s@.take(i + 1)) > max) by (nonlinear_arith)
                requires
                    v > (max - d) / 10,
                    digits_value(s@.take(i + 1)) == v * 10 + d,
                    d <= max,
                    d <= 9,
            ;
            proof {
                if all_digits(s@) {
                    lemma_digits_value_prefix(s@, (i + 1) as int);
                }
            }
            return None;
        }
        assert(v * 10 + d <= max) by (nonlinear_arith)
            requires
                v <= (max - d) / 10,
                d <= 9,
                d <= max,
        ;
        v = v * 10 + d;
        i += 1;
    }
    assert(s@.take(i as int) =~= s@);
    Some(v)
}

/// `str::parse::<u64>`.
pub fn parse_u64(s: &[char]) -> (r: Option<u64>)
    ensures
        match r {
            Some(v) => parse_unsigned(s@, u64::MAX as nat) == Some(v as nat),
            None => parse_unsigned(s@, u64::MAX as nat) is None,
        },
{
    let d = if s.len() > 0 && s[0] == '+' {
        &s[1..s.len()]
    } else {
        &s[0..s.len()]
    };
    assert(d@ =~= unsigned_digits(s@));
    if d.len() == 0 {
        return None;
    }
    read_digits(d, u64::MAX)
}

/// `str::parse::<u8>`.
pub fn parse_u8(s: &[char]) -> (r: Option<u8>)
    ensures
        match r {
            Some(v) => parse_unsigned(s@, u8::MAX as nat) == Some(v as nat),
            None => parse_unsigned(s@, u8::MAX as nat) is None,
        },
{
    let d = if s.len() > 0 && s[0] == '+' {
        &s[1..s.len()]
    } else {
        &s[0..s.len()]
    };
    assert(d@ =~= unsigned_digits(s@));
    if d.len() == 0 {
        return None;
    }
    match read_digits(d, 255) {
        Some(v) => Some(v as u8),
        None => None,
    }
}

/// `str::parse::<usize>`.
pub fn parse_usize(s: &[char]) -> (r: Option<usize>)
    ensures
        match r {
            Some(v) => parse_unsigned(s@, usize::MAX as nat) == Some(v as nat),
            None => parse_unsigned(s@, usize::MAX as nat) is None,
        },
{
    let d = if s.len() > 0 && s[0] == '+' {
        &s[1..s.len()]
    } else {
        &s[0..s.len()]
    };
    assert(d@ =~= unsigned_digits(s@));
    if d.len() == 0 {
        return None;
    }
    match read_digits(d, usize::MAX as u64) {
        Some(v) => Some(v as usize),
        None => None,
    }
}

/// `str::parse::<i64>`.
pub fn parse_i64(s: &[char]) -> (r: Option<i64>)
    ensures
        match r {
            Some(v) => parse_i64_spec(s@) == Some(v as int),
            None => parse_i64_spec(s@) is None,
        },
{
    if s.len() > 0 && s[0] == '-' {
        let d = &s[1..s.len()];
        assert(d@ =~= s@.drop_first());
        if d.len() == 0 {
            return None;
        }
        match read_digits(d, 0x8000_0000_0000_0000) {
            Some(v) => {
                if v == 0x8000_0000_0000_0000 {
                    Some(i64::MIN)
                } else {
                    Some(-(v as i64))
                }
            },
            None => None,
        }
    } else {
        match parse_u64(s) {
            Some(v) => {
                if v <= 0x7fff_ffff_ffff_ffff {
                    Some(v as i64)
                } else {
                    None
                }
            },
            None => None,
        }
    }
}

/// The character of a decimal digit.
pub open spec fn digit_char(d: nat) -> char {
    if d == 0 {
        '0'
    } else if d == 1 {
        '1'
    } else if d == 2 {
        '2'
    } else if d == 3 {
        '3'
    } else if d == 4 {
        '4'
    } else if d == 5 {
        '5'
    } else if d == 6 {
        '6'
    } else if d == 7 {
        '7'
    } else if d == 8 {
        '8'
    } else {
        '9'
    }
}

/// `n` written in base ten, without leading zeros.
pub open spec fn decimal(n: nat) -> Seq<char>
    decreases n,
{
    if n < 10 {
        seq![digit_char(n)]
    } else {
        decimal(n / 10).push(digit_char(n % 10))
    }
}

/// A number written in base ten is a non-empty string of digits that reads
/// back as the number, within any bound that it does not pass.
pub proof fn lemma_decimal_reads_back(n: nat, max: nat)
    requires
        n <= max,
    ensures
        decimal(n).len() > 0,
        all_digits(decimal(n)),
        digits_value(decimal(n)) == n,
        parse_unsigned(decimal(n), max) == Some(n),
    decreases n,
{
    let s = decimal(n);
    let c = digit_char(n % 10);
    assert(is_digit(c) && digit_value(c) == n % 10);
    if n < 10 {
        assert(s.drop_last() =~= Seq::<char>::empty());
        assert(s.last() == c);
        assert(digits_value(s) == digits_value(s.drop_last()) * 10 + digit_value(s.last()));
    } else {
        lemma_decimal_reads_back(n / 10, max);
        assert(s.drop_last() =~= decimal(n / 10));
        assert(s.last() == c);
        assert(digits_value(s) == digits_value(s.drop_last()) * 10 + digit_value(s.last()));
        assert(n == (n / 10) * 10 + n % 10) by (nonlinear_arith);
        assert forall|i: int| 0 <= i < s.len() implies is_digit(#[trigger] s[i]) by {
            if i < s.len() - 1 {
                assert(s[i] == decimal(n / 10)[i]);
            }
        }
    }
    assert(s[0] != '+') by {
        assert(is_digit(s[0]));
    }
    assert(unsigned_digits(s) == s);
}

pub(crate) fn digit_char_exec(d: u128) -> (c: char)
    requires
        d < 10,
    ensures
        c == digit_char(d as nat),
{
    if d == 0 {
        '0'
    } else if d == 1 {
        '1'
    } else if d == 2 {
        '2'
    } else if d == 3 {
        '3'
    } else if d == 4 {
        '4'
    } else if d == 5 {
        '5'
    } else if d == 6 {
        '6'
    } else if d == 7 {
        '7'
    } else if d == 8 {
        '8'
    } else {
        '9'
    }
}

/// Appends `n` in base ten to `out`.
pub fn push_decimal(out: &mut String, n: u128)
    ensures
        final(out)@ == old(out)@ + decimal(n as nat),
    decreases n,
{
    if n >= 10 {
        push_decimal(out, n / 10);
    }
    push_char(out, digit_char_exec(n % 10));
    proof {
        if n >= 10 {
            assert(old(out)@ + decimal(n as nat) =~= old(out)@ + decimal((n / 10) as nat) + seq![
                digit_char((n % 10) as nat),
            ]);
        } else {
            assert(old(out)@ + decimal(n as nat) =~= old(out)@.push(digit_char((n % 10) as nat)));
        }
    }
}

/// A signed integer in base ten, with a leading `-` when negative.
pub open spec fn signed_decimal(n: int) -> Seq<char> {
    if n < 0 {
        seq!['-'] + decimal((-n) as nat)
    } else {
        decimal(n as nat)
    }
}

/// Appends `n` in base ten to `out`.
pub fn push_signed(out: &mut String, n: i64)
    ensures
        final(out)@ == old(out)@ + signed_decimal(n as int),
{
    if n < 0 {
        push_char(out, '-');
        let m: u128 = if n == i64::MIN {
            0x8000_0000_0000_0000
        } else {
            (-n) as u128
        };
        push_decimal(out, m);
        assert(old(out)@ + signed_decimal(n as int) =~= old(out)@.push('-') + decimal(m as nat));
    } else {
        push_decimal(out, n as u128);
    }
}


pub open spec fn pow2n(k: nat) -> nat
    decreases k,
{
    if k == 0 {
        1
    } else {
        2 * pow2n((k - 1) as nat)
    }
}

/// How many times `n` is halved to fall below 2^53.
pub open spec fn halvings(n: nat) -> nat
    decreases n,
{
    if n < 0x20_0000_0000_0000 {
        0
    } else {
        1 + halvings(n / 2)
    }
}

/// `n` rounded to 53 significant bits, halfway cases to the even
/// neighbour: the value that `n as f64` holds.
pub open spec fn float_value(n: nat) -> nat {
    let s = halvings(n);
    if s == 0 {
        n
    } else {
        let p = pow2n(s);
        let q = n / p;
        let r = n % p;
        let half = p / 2;
        let q2 = if r > half || (r == half && q % 2 == 1) {
            q + 1
        } else {
            q
        };
        q2 * p
    }
}

/// `m / 2^30` rounded to hundredths, halfway cases to the even neighbour:
/// what `{:.2}` writes for an exactly representable binary fraction, in
/// units of 0.01.
pub open spec fn gib_hundredths(m: nat) -> nat {
    let q = (m * 100) / 0x4000_0000;
    let r = (m * 100) % 0x4000_0000;
    if 2 * r > 0x4000_0000 || (2 * r == 0x4000_0000 && q % 2 == 1) {
        q + 1
    } else {
        q
    }
}

/// A number of hundredths with two decimal places.
pub open spec fn two_places(h: nat) -> Seq<char> {
    let frac = h % 100;
    decimal(h / 100) + seq!['.'] + if frac < 10 {
        seq!['0', digit_char(frac)]
    } else {
        decimal(frac)
    }
}

/// `bytes` in GiB with two decimal places, as `format!("{:.2}", bytes as f64
/// / 1024f64.powi(3))` writes it.
pub open spec fn gib_text(bytes: nat) -> Seq<char> {
    two_places(gib_hundredths(float_value(bytes)))
}

fn float_value_exec(n: u64) -> (m: u128)
    ensures
        m == float_value(n as nat),
        m <= 0x1_0000_0000_0000_0000_0000,
{
    let mut v: u128 = n as u128;
    let mut s: u64 = 0;
    let mut p: u128 = 1;
    while v >= 0x20_0000_0000_0000
        invariant
            halvings(n as nat) == s + halvings(v as nat),
            p == pow2n(s as nat),
            v == n as nat / p as nat,
            1 <= p <= 0xfff,
            s < p,
        decreases v,
    {
        proof {
            vstd::arithmetic::div_mod::lemma_div_denominator(n as int, p as int, 2);
            vstd::arithmetic::div_mod::lemma_fundamental_div_mod(n as int, p as int);
            assert(p * v <= n);
            assert(p < 0x800) by (nonlinear_arith)
                requires
                    p * v <= n,
                    v >= 0x20_0000_0000_0000,
                    n < 0x1_0000_0000_0000_0000,
                    p >= 1,
            ;
            assert(pow2n((s + 1) as nat) == 2 * pow2n(s as nat));
        }
        v = v / 2;
        p = p * 2;
        s = s + 1;
    }
    if s == 0 {
        return n as u128;
    }
    let q = n as u128 / p;
    let r = n as u128 % p;
    let half = p / 2;
    assert(q == v);
    let q2 = if r > half || (r == half && q % 2 == 1) {
        q + 1
    } else {
        q
    };
    assert(q2 * p <= 0x1_0000_0000_0000_0000_0000) by (nonlinear_arith)
        requires
            q2 <= 0x20_0000_0000_0000,
            p <= 0xfff,
    ;
    q2 * p
}

fn push_two_places(out: &mut String, h: u128)
    ensures
        final(out)@ == old(out)@ + two_places(h as nat),
{
    push_decimal(out, h / 100);
    push_char(out, '.');
    let frac = h % 100;
    if frac < 10 {
        push_char(out, '0');
        push_char(out, digit_char_exec(frac));
        assert(final(out)@ =~= old(out)@ + two_places(h as nat));
    } else {
        push_decimal(out, frac);
        assert(final(out)@ =~= old(out)@ + two_places(h as nat));
    }
}

/// Appends `bytes` in GiB with two decimal places.
pub fn push_gib(out: &mut String, bytes: u64)
    ensures
        final(out)@ == old(out)@ + gib_text(bytes as nat),
{
    let m = float_value_exec(bytes);
    let scaled = m * 100;
    let q = scaled / 0x4000_0000;
    let r = scaled % 0x4000_0000;
    let h = if 2 * r > 0x4000_0000 || (2 * r == 0x4000_0000 && q % 2 == 1) {
        q + 1
    } else {
        q
    };
    assert(h == gib_hundredths(m as nat));
    push_two_places(out, h);
}

} // verus!
