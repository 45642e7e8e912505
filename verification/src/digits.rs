//! Numbers as ASCII text: the positional notation shared by dates, the save
//! header and stringified token ids.

use vstd::prelude::*;

verus! {

/// The ASCII byte of `0`.
pub const ZERO: u8 = 48;

/// The byte that stands for the digit `d`: `0`-`9`, then `a`-`f`.
pub open spec fn digit_byte(d: nat) -> u8 {
    if d < 10 {
        (48 + d) as u8
    } else {
        (87 + d) as u8
    }
}

/// Whether `b` is one of `0`-`9`.
pub open spec fn is_digit(b: u8) -> bool {
    48 <= b <= 57
}

/// Whether every byte of `s` is a decimal digit.
pub open spec fn all_digits(s: Seq<u8>) -> bool {
    forall|i: int| 0 <= i < s.len() ==> is_digit(#[trigger] s[i])
}

/// The digits of `n` in the given base, most significant first, without
/// leading zeros (a lone `0` for zero).
pub open spec fn digits(n: nat, base: nat) -> Seq<u8>
    decreases n,
{
    if base < 2 || n < base {
        seq![digit_byte(n)]
    } else {
        proof {
            lemma_quotient_smaller(n, base);
        }
        digits(n / base, base).push(digit_byte(n % base))
    }
}

/// `count` zero digits.
pub open spec fn zeros(count: nat) -> Seq<u8> {
    Seq::new(count, |i: int| ZERO)
}

/// The digits of `n`, padded on the left with zeros up to `width` bytes.
pub open spec fn padded(n: nat, base: nat, width: nat) -> Seq<u8> {
    let d = digits(n, base);
    if d.len() < width {
        zeros((width - d.len()) as nat) + d
    } else {
        d
    }
}

/// The number that a run of decimal digits denotes; zero for the empty run.
pub open spec fn decimal_value(s: Seq<u8>) -> nat
    decreases s.len(),
{
    if s.len() == 0 {
        0
    } else {
        decimal_value(s.drop_last()) * 10 + (s.last() - 48) as nat
    }
}

/// Dividing by a base of two or more makes a number smaller.
pub proof fn lemma_quotient_smaller(n: nat, base: nat)
    requires
        2 <= base <= n,
    ensures
        n / base < n,
{
    assert(n / base < n) by (nonlinear_arith)
        requires
            2 <= base <= n,
    ;
}

/// A number's digits are never empty.
pub proof fn lemma_digits_len(n: nat, base: nat)
    ensures
        digits(n, base).len() >= 1,
    decreases n,
{
    if base < 2 || n < base {
    } else {
        lemma_quotient_smaller(n, base);
        lemma_digits_len(n / base, base);
    }
}

/// A number below `base^k` has at most `k` digits; stated for the widths in use.
pub proof fn lemma_digits_len_bound(n: nat, base: nat, k: nat, limit: nat)
    requires
        2 <= base,
        k >= 1,
        limit == vstd::arithmetic::power::pow(base as int, k),
        n < limit,
    ensures
        digits(n, base).len() <= k,
    decreases k,
{
    vstd::arithmetic::power::lemma_pow1(base as int);
    if n < base {
    } else {
        assert(k >= 2) by {
            if k == 1 {
                assert(limit == base);
            }
        }
        let k1 = (k - 1) as nat;
        let limit1 = vstd::arithmetic::power::pow(base as int, k1);
        assert(limit == base * limit1) by {
            vstd::arithmetic::power::lemma_pow_adds(base as int, 1, k1);
        }
        vstd::arithmetic::power::lemma_pow_positive(base as int, k1);
        assert(n / base < limit1) by (nonlinear_arith)
            requires
                n < base * limit1,
                base >= 2,
                limit1 > 0,
        ;
        lemma_digits_len_bound(n / base, base, k1, limit1 as nat);
    }
}

/// Decimal digits are digits.
pub proof fn lemma_decimal_digits_are_digits(n: nat)
    ensures
        all_digits(digits(n, 10)),
    decreases n,
{
    if n < 10 {
    } else {
        lemma_decimal_digits_are_digits(n / 10);
    }
}

/// Reading back the decimal digits of a number gives the number.
pub proof fn lemma_decimal_value_of_digits(n: nat)
    ensures
        decimal_value(digits(n, 10)) == n,
    decreases n,
{
    if n < 10 {
        let s = digits(n, 10);
        assert(s.drop_last() =~= Seq::<u8>::empty());
        assert(decimal_value(s.drop_last()) == 0);
    } else {
        lemma_decimal_value_of_digits(n / 10);
        let s = digits(n, 10);
        assert(s.drop_last() =~= digits(n / 10, 10));
    }
}

/// Leading zeros do not change the value of a run of digits.
pub proof fn lemma_decimal_value_leading_zeros(count: nat, s: Seq<u8>)
    ensures
        decimal_value(zeros(count) + s) == decimal_value(s),
    decreases s.len(),
{
    let t = zeros(count) + s;
    if s.len() == 0 {
        assert(t =~= zeros(count));
        lemma_decimal_value_zeros(count);
    } else {
        assert(t.drop_last() =~= zeros(count) + s.drop_last());
        lemma_decimal_value_leading_zeros(count, s.drop_last());
    }
}

/// A run of zeros denotes zero.
pub proof fn lemma_decimal_value_zeros(count: nat)
    ensures
        decimal_value(zeros(count)) == 0,
    decreases count,
{
    if count == 0 {
    } else {
        assert(zeros(count).drop_last() =~= zeros((count - 1) as nat));
        lemma_decimal_value_zeros((count - 1) as nat);
    }
}

/// Reading back a padded decimal number gives the number, and all of its
/// bytes are digits.
pub proof fn lemma_decimal_value_of_padded(n: nat, width: nat)
    ensures
        decimal_value(padded(n, 10, width)) == n,
        all_digits(padded(n, 10, width)),
        padded(n, 10, width).len() >= 1,
{
    lemma_decimal_value_of_digits(n);
    lemma_decimal_digits_are_digits(n);
    lemma_digits_len(n, 10);
    let d = digits(n, 10);
    if d.len() < width {
        lemma_decimal_value_leading_zeros((width - d.len()) as nat, d);
    }
}

/// The byte of a single digit below sixteen.
pub fn digit_of(d: u64) -> (b: u8)
    requires
        d < 16,
    ensures
        b == digit_byte(d as nat),
{
    if d < 10 {
        ZERO + (d as u8)
    } else {
        87u8 + (d as u8)
    }
}

/// Appends `n` in the given base to `buf`, zero-padded to `width` bytes.
pub fn push_number(buf: &mut Vec<u8>, n: u64, base: u64, width: usize)
    requires
        2 <= base <= 16,
    ensures
        final(buf)@ == old(buf)@ + padded(n as nat, base as nat, width as nat),
{
    let ghost start = buf@;
    // least significant digit first
    let mut rev: Vec<u8> = Vec::new();
    let mut m: u64 = n;
    while m >= base
        invariant
            2 <= base <= 16,
            digits(n as nat, base as nat) == digits(m as nat, base as nat) + rev@.reverse(),
        decreases m,
    {
        let ghost before = rev@;
        let d: u64 = m % base;
        let c: u8 = digit_of(d);
        rev.push(c);
        proof {
            assert(rev@.reverse() =~= seq![c] + before.reverse());
            assert(digits(m as nat, base as nat) == digits((m / base) as nat, base as nat).push(c));
            assert(digits((m / base) as nat, base as nat).push(c) + before.reverse()
                =~= digits((m / base) as nat, base as nat) + (seq![c] + before.reverse()));
        }
        m = m / base;
    }
    let ghost before = rev@;
    let last: u8 = digit_of(m);
    rev.push(last);
    proof {
        assert(rev@.reverse() =~= seq![last] + before.reverse());
        assert(digits(m as nat, base as nat) =~= seq![last]);
    }
    assert(digits(n as nat, base as nat) == rev@.reverse());
    let len: usize = rev.len();
    let mut pad: usize = if len < width { width - len } else { 0 };
    let ghost pad_total = pad;
    while pad > 0
        invariant
            pad <= pad_total,
            buf@ == start + zeros((pad_total - pad) as nat),
        decreases pad,
    {
        buf.push(ZERO);
        pad = pad - 1;
        assert(buf@ =~= start + zeros((pad_total - pad) as nat));
    }
    let ghost padded_start = buf@;
    let mut i: usize = len;
    while i > 0
        invariant
            i <= len,
            len == rev@.len(),
            buf@ == padded_start + rev@.reverse().take((len - i) as int),
        decreases i,
    {
        i = i - 1;
        let b: u8 = rev[i];
        buf.push(b);
        proof {
            let r = rev@.reverse();
            assert(r[(len - 1 - i) as int] == rev@[i as int]);
            assert(r.take((len - i) as int) =~= r.take((len - 1 - i) as int).push(b));
        }
    }
    proof {
        let r = rev@.reverse();
        assert(r.take(len as int) =~= r);
        assert(buf@ =~= start + padded(n as nat, base as nat, width as nat));
    }
}

} // verus!
