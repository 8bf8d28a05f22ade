//! Decimal rendering of integers and fixed-point quantities.

use vstd::prelude::*;

verus! {

/// The character of a decimal digit.
pub open spec fn digit_char(d: nat) -> char {
    if d == 0 { '0' }
    else if d == 1 { '1' }
    else if d == 2 { '2' }
    else if d == 3 { '3' }
    else if d == 4 { '4' }
    else if d == 5 { '5' }
    else if d == 6 { '6' }
    else if d == 7 { '7' }
    else if d == 8 { '8' }
    else { '9' }
}

/// Decimal digits of `n`, without leading zeros ("0" for zero).
pub open spec fn nat_text(n: nat) -> Seq<char>
    decreases n,
{
    if n < 10 {
        seq![digit_char(n)]
    } else {
        nat_text(n / 10) + seq![digit_char(n % 10)]
    }
}

/// The last `width` decimal digits of `n`, padded with leading zeros.
pub open spec fn padded_digits(n: nat, width: nat) -> Seq<char>
    decreases width,
{
    if width == 0 {
        seq![]
    } else {
        padded_digits(n / 10, (width - 1) as nat) + seq![digit_char(n % 10)]
    }
}

pub open spec fn pow10(k: nat) -> nat
    decreases k,
{
    if k == 0 { 1 } else { 10 * pow10((k - 1) as nat) }
}

/// The fraction `f / 10^k` with its trailing zero digits dropped, as a new
/// numerator and digit count.
pub open spec fn trim_fraction(f: nat, k: nat) -> (nat, nat)
    decreases k,
{
    if k > 0 && f % 10 == 0 {
        trim_fraction(f / 10, (k - 1) as nat)
    } else {
        (f, k)
    }
}

/// `m / 10^scale` written in decimal: the integral digits, then a point and the
/// fractional digits only where the fraction is not zero, without trailing zeros.
pub open spec fn magnitude_text(m: nat, scale: nat) -> Seq<char> {
    let t = trim_fraction(m % pow10(scale), scale);
    nat_text(m / pow10(scale)) + if t.1 == 0 {
        Seq::<char>::empty()
    } else {
        seq!['.'] + padded_digits(t.0, t.1)
    }
}

/// `units / 10^scale` written in decimal, with a leading minus sign when negative.
pub open spec fn decimal_text(units: int, scale: nat) -> Seq<char> {
    if units < 0 {
        seq!['-'] + magnitude_text((-units) as nat, scale)
    } else {
        magnitude_text(units as nat, scale)
    }
}

/// An integer written in decimal.
pub open spec fn int_text(i: int) -> Seq<char> {
    decimal_text(i, 0)
}

pub open spec fn signed(negative: bool, magnitude: nat) -> int {
    if negative { -(magnitude as int) } else { magnitude as int }
}

fn digit_str(d: u64) -> (r: &'static str)
    requires
        d < 10,
    ensures
        r@ == seq![digit_char(d as nat)],
{
    proof {
        reveal_strlit("0");
        reveal_strlit("1");
        reveal_strlit("2");
        reveal_strlit("3");
        reveal_strlit("4");
        reveal_strlit("5");
        reveal_strlit("6");
        reveal_strlit("7");
        reveal_strlit("8");
        reveal_strlit("9");
    }
    if d == 0 { "0" }
    else if d == 1 { "1" }
    else if d == 2 { "2" }
    else if d == 3 { "3" }
    else if d == 4 { "4" }
    else if d == 5 { "5" }
    else if d == 6 { "6" }
    else if d == 7 { "7" }
    else if d == 8 { "8" }
    else { "9" }
}

fn append_nat(out: &mut String, n: u64)
    ensures
        final(out)@ == old(out)@ + nat_text(n as nat),
    decreases n,
{
    if n >= 10 {
        append_nat(out, n / 10);
    }
    out.append(digit_str(n % 10));
    assert(final(out)@ =~= old(out)@ + nat_text(n as nat));
}

fn append_padded(out: &mut String, n: u64, width: u32)
    ensures
        final(out)@ == old(out)@ + padded_digits(n as nat, width as nat),
    decreases width,
{
    if width > 0 {
        append_padded(out, n / 10, width - 1);
        out.append(digit_str(n % 10));
    }
    assert(final(out)@ =~= old(out)@ + padded_digits(n as nat, width as nat));
}

proof fn lemma_pow10_positive(k: nat)
    ensures
        pow10(k) >= 1,
    decreases k,
{
    if k > 0 {
        lemma_pow10_positive((k - 1) as nat);
    }
}

proof fn lemma_pow10_monotone(j: nat, k: nat)
    requires
        j <= k,
    ensures
        pow10(j) <= pow10(k),
    decreases k,
{
    if j < k {
        lemma_pow10_monotone(j, (k - 1) as nat);
    }
}

fn pow10_exec(k: u32) -> (r: u64)
    requires
        k <= 6,
    ensures
        r == pow10(k as nat),
{
    let mut r: u64 = 1;
    let mut i: u32 = 0;
    while i < k
        invariant
            i <= k <= 6,
            r == pow10(i as nat),
        decreases k - i,
    {
        proof {
            lemma_pow10_monotone(i as nat, 5);
            assert(pow10(5) == 100000) by {
                reveal_with_fuel(pow10, 6);
            }
        }
        r = r * 10;
        i = i + 1;
    }
    r
}

/// Appends `±magnitude / 10^scale` in decimal.
pub fn append_decimal(out: &mut String, negative: bool, magnitude: u64, scale: u32)
    requires
        scale <= 6,
    ensures
        final(out)@ == old(out)@ + decimal_text(signed(negative, magnitude as nat), scale as nat),
{
    let p = pow10_exec(scale);
    proof {
        lemma_pow10_positive(scale as nat);
    }
    let ghost start = out@;
    if negative && magnitude > 0 {
        out.append("-");
        proof {
            reveal_strlit("-");
        }
    }
    let ghost signed_part = out@;
    append_nat(out, magnitude / p);
    let mut f: u64 = magnitude % p;
    let mut k: u32 = scale;
    while k > 0 && f % 10 == 0
        invariant
            trim_fraction(f as nat, k as nat) == trim_fraction((magnitude % p) as nat, scale as nat),
        decreases k,
    {
        f = f / 10;
        k = k - 1;
    }
    let ghost int_part = out@;
    if k > 0 {
        out.append(".");
        proof {
            reveal_strlit(".");
        }
        append_padded(out, f, k);
    }
    proof {
        let m = magnitude as nat;
        let t = trim_fraction(m % pow10(scale as nat), scale as nat);
        assert(t == (f as nat, k as nat));
        if negative && magnitude > 0 {
            assert(signed(negative, m) < 0);
            assert(-signed(negative, m) == m);
            assert(final(out)@ =~= start + decimal_text(signed(negative, m), scale as nat));
        } else {
            assert(signed(negative, m) == m);
            assert(final(out)@ =~= start + decimal_text(signed(negative, m), scale as nat));
        }
    }
}

} // verus!
