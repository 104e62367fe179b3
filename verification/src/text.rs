//! ASCII text helpers: decimal rendering of unsigned integers.

use vstd::prelude::*;
use vstd::string::is_ascii;
use vstd::string::StringSliceAdditionalSpecFns;

verus! {

/// The ASCII code of the decimal digit `d` (`d < 10`).
pub open spec fn digit_char(d: nat) -> u8 {
    (48 + d) as u8
}

/// The decimal representation of `n`, most significant digit first,
/// without leading zeros (`0` is written as a single `0`).
pub open spec fn decimal(n: nat) -> Seq<u8>
    decreases n,
{
    if n < 10 {
        seq![digit_char(n)]
    } else {
        decimal(n / 10).push(digit_char(n % 10))
    }
}

/// `s` preceded by as many `0` characters as are needed to reach `width`.
pub open spec fn zero_padded(s: Seq<u8>, width: nat) -> Seq<u8> {
    if s.len() >= width {
        s
    } else {
        Seq::new((width - s.len()) as nat, |i: int| 48u8) + s
    }
}

/// The decimal representation of `n` padded with zeros to at least `width`
/// characters, as `format!("{:0width$}", n)` writes it.
pub open spec fn decimal_padded(n: nat, width: nat) -> Seq<u8> {
    zero_padded(decimal(n), width)
}

/// Every character of a decimal representation is an ASCII digit.
pub proof fn lemma_decimal_digits(n: nat)
    ensures
        decimal(n).len() >= 1,
        forall|i: int| 0 <= i < decimal(n).len() ==> 48 <= #[trigger] decimal(n)[i] <= 57,
    decreases n,
{
    if n >= 10 {
        lemma_decimal_digits(n / 10);
    }
}

/// Ten to the power `k`.
pub open spec fn pow10(k: nat) -> nat
    decreases k,
{
    if k == 0 {
        1
    } else {
        10 * pow10((k - 1) as nat)
    }
}

/// A number below `10^k` has at most `k` decimal digits, and a padded
/// decimal of it to width `k` has exactly `k` characters.
pub proof fn lemma_decimal_len(n: nat, k: nat)
    requires
        1 <= k,
        n < pow10(k),
    ensures
        decimal(n).len() <= k,
        decimal_padded(n, k).len() == k,
    decreases k,
{
    if n >= 10 {
        let p = pow10((k - 1) as nat);
        assert(k >= 2) by {
            if k == 1 {
                assert(pow10(0) == 1);
            }
        }
        assert(n / 10 < p) by (nonlinear_arith)
            requires
                n < 10 * p,
        ;
        lemma_decimal_len(n / 10, (k - 1) as nat);
    }
}

/// The decimal digits of `n`.
pub fn decimal_digits(n: u32) -> (digits: Vec<u8>)
    ensures
        digits@ == decimal(n as nat),
    decreases n,
{
    if n < 10 {
        let mut v: Vec<u8> = Vec::new();
        v.push(48u8 + n as u8);
        v
    } else {
        let mut v = decimal_digits(n / 10);
        v.push(48u8 + (n % 10) as u8);
        v
    }
}

/// Appends the decimal representation of `n`, padded with zeros to at least
/// `width` characters, to `out`.
pub fn push_decimal(out: &mut Vec<u8>, n: u32, width: usize)
    ensures
        final(out)@ == old(out)@ + decimal_padded(n as nat, width as nat),
{
    let digits = decimal_digits(n);
    let len = digits.len();
    let ghost start = out@;
    if len < width {
        let mut k: usize = 0;
        while k < width - len
            invariant
                len < width,
                k <= width - len,
                out@ == start + Seq::new(k as nat, |i: int| 48u8),
            decreases width - len - k,
        {
            out.push(48u8);
            k = k + 1;
        }
    }
    let ghost padded = out@;
    let mut j: usize = 0;
    while j < len
        invariant
            len == digits@.len(),
            j <= len,
            out@ == padded + digits@.take(j as int),
        decreases len - j,
    {
        out.push(digits[j]);
        j = j + 1;
        assert(digits@.take(j as int) == digits@.take((j - 1) as int).push(digits@[j - 1]));
    }
    assert(digits@.take(len as int) == digits@);
    assert(out@ == start + decimal_padded(n as nat, width as nat));
}

/// The bytes of an ASCII character sequence.
pub open spec fn ascii(s: Seq<char>) -> Seq<u8> {
    Seq::new(s.len(), |i: int| s[i] as u8)
}

/// The bytes of the ASCII string `s`, as a vector.
pub fn ascii_text(s: &str) -> (bytes: Vec<u8>)
    requires
        is_ascii(s),
    ensures
        bytes@ == ascii(s@),
{
    broadcast use vstd::string::is_ascii_spec_bytes;

    let b = s.as_bytes();
    let n = b.len();
    let mut out: Vec<u8> = Vec::new();
    let mut i: usize = 0;
    while i < n
        invariant
            n == b@.len(),
            b@ == s.spec_bytes(),
            is_ascii(s),
            i <= n,
            out@ == b@.take(i as int),
        decreases n - i,
    {
        out.push(b[i]);
        i = i + 1;
        assert(b@.take(i as int) == b@.take((i - 1) as int).push(b@[i - 1]));
    }
    assert(b@.take(n as int) == b@);
    out
}

} // verus!
