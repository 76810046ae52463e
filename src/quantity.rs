//! Fixed-point quantities and their decimal rendering.
//!
//! Baseline quantities are whole numbers of thousandths (milligrams for an
//! ingredient, thousandths of a serving for portions). A portion multiplier is
//! a whole number of hundredths (a percentage: 100 is 1.0x). A scaled quantity
//! is their product, in hundred-thousandths, which is exact.

use vstd::prelude::*;

verus! {

/// The neutral portion multiplier, in percent (1.0x).
pub const UNIT_MULTIPLIER_PCT: u64 = 100;

/// Smallest portion multiplier a controller accepts, in percent (0.5x).
pub const MIN_MULTIPLIER_PCT: u64 = 50;

/// Largest portion multiplier a controller accepts, in percent (10.0x).
pub const MAX_MULTIPLIER_PCT: u64 = 1000;

/// Number of fractional decimal places of a scaled quantity.
pub const SCALED_PLACES: u64 = 5;

/// One whole unit of a scaled quantity, in hundred-thousandths.
pub const SCALED_ONE: u128 = 100_000;

/// A baseline quantity `q` (thousandths) scaled by multiplier `m` (hundredths).
pub open spec fn scale_spec(q: int, m: int) -> int {
    q * m
}

/// The multiplier a controller keeps for a requested value `m`.
pub open spec fn clamp_spec(m: int) -> int {
    if m < MIN_MULTIPLIER_PCT as int {
        MIN_MULTIPLIER_PCT as int
    } else if m > MAX_MULTIPLIER_PCT as int {
        MAX_MULTIPLIER_PCT as int
    } else {
        m
    }
}

/// The character of decimal digit `d`.
pub open spec fn digit_char(d: nat) -> char {
    if d == 0 { '0' }
    else if d == 1 { '1' }
    else if d == 2 { '2' }
    else if d == 3 { '3' }
    else if d == 4 { '4' }
    else if d == 5 { '5' }
    else if d == 6 { '6' }
    else if d == 7 { '7' }
    else if d == 8 { '8' }
    else { '9' }
}

/// The decimal digits of `n`, most significant first, without leading zeros.
pub open spec fn whole_text(n: nat) -> Seq<char>
    decreases n,
{
    if n < 10 {
        seq![digit_char(n)]
    } else {
        whole_text(n / 10).push(digit_char(n % 10))
    }
}

/// The last `p` decimal digits of `f`, leading zeros kept.
pub open spec fn padded_text(f: nat, p: nat) -> Seq<char>
    decreases p,
{
    if p == 0 {
        Seq::empty()
    } else {
        padded_text(f / 10, (p - 1) as nat).push(digit_char(f % 10))
    }
}

/// The fraction `f / 10^p` as its digits after the decimal point, with
/// trailing zeros dropped (empty when the fraction is zero).
pub open spec fn fraction_text(f: nat, p: nat) -> Seq<char>
    decreases p,
{
    if p == 0 {
        Seq::empty()
    } else if f % 10 == 0 {
        fraction_text(f / 10, (p - 1) as nat)
    } else {
        padded_text(f, p)
    }
}

/// A scaled quantity `v` (hundred-thousandths) in decimal notation: the whole
/// part, then a point and the significant fractional digits if there are any.
pub open spec fn scaled_text(v: nat) -> Seq<char> {
    let frac = fraction_text(v % (SCALED_ONE as nat), SCALED_PLACES as nat);
    if frac.len() == 0 {
        whole_text(v / (SCALED_ONE as nat))
    } else {
        whole_text(v / (SCALED_ONE as nat)) + seq!['.'] + frac
    }
}

/// Scales baseline quantity `q` (thousandths) by multiplier `m` (hundredths).
pub fn scale(q: u64, m: u64) -> (r: u128)
    ensures
        r as int == scale_spec(q as int, m as int),
{
    proof {
        assert((q as int) * (m as int) <= 0xffff_ffff_ffff_ffff * 0xffff_ffff_ffff_ffff) by (nonlinear_arith)
            requires
                q <= 0xffff_ffff_ffff_ffffu64,
                m <= 0xffff_ffff_ffff_ffffu64,
        ;
        assert(0xffff_ffff_ffff_ffff * 0xffff_ffff_ffff_ffff <= u128::MAX as int);
    }
    (q as u128) * (m as u128)
}

/// The multiplier kept for a requested value: `m` limited to the accepted range.
pub fn clamp_multiplier(m: u64) -> (r: u64)
    ensures
        r as int == clamp_spec(m as int),
        MIN_MULTIPLIER_PCT <= r <= MAX_MULTIPLIER_PCT,
{
    if m < MIN_MULTIPLIER_PCT {
        MIN_MULTIPLIER_PCT
    } else if m > MAX_MULTIPLIER_PCT {
        MAX_MULTIPLIER_PCT
    } else {
        m
    }
}

/// The one-character text of decimal digit `d`.
fn digit_str(d: u128) -> (r: &'static str)
    requires
        d < 10,
    ensures
        r@ == seq![digit_char(d as nat)],
{
    proof {
        reveal_strlit("0");
        reveal_strlit("1");
        reveal_strlit("2");
        reveal_strlit("3");
        reveal_strlit("4");
        reveal_strlit("5");
        reveal_strlit("6");
        reveal_strlit("7");
        reveal_strlit("8");
        reveal_strlit("9");
    }
    let r = if d == 0 { "0" }
    else if d == 1 { "1" }
    else if d == 2 { "2" }
    else if d == 3 { "3" }
    else if d == 4 { "4" }
    else if d == 5 { "5" }
    else if d == 6 { "6" }
    else if d == 7 { "7" }
    else if d == 8 { "8" }
    else { "9" };
    assert(r@ =~= seq![digit_char(d as nat)]);
    r
}

/// Appends the decimal digits of `n`.
pub fn push_whole(out: &mut String, n: u128)
    ensures
        final(out)@ == old(out)@ + whole_text(n as nat),
    decreases n,
{
    if n >= 10 {
        push_whole(out, n / 10);
    }
    out.append(digit_str(n % 10));
    assert(final(out)@ =~= old(out)@ + whole_text(n as nat));
}

/// Appends the last `p` decimal digits of `f`, leading zeros kept.
fn push_padded(out: &mut String, f: u128, p: u64)
    ensures
        final(out)@ == old(out)@ + padded_text(f as nat, p as nat),
    decreases p,
{
    if p > 0 {
        push_padded(out, f / 10, p - 1);
        out.append(digit_str(f % 10));
        assert(final(out)@ =~= old(out)@ + padded_text(f as nat, p as nat));
    } else {
        assert(final(out)@ =~= old(out)@ + padded_text(f as nat, p as nat));
    }
}

/// Appends scaled quantity `v` (hundred-thousandths) in decimal notation.
pub fn push_scaled(out: &mut String, v: u128)
    ensures
        final(out)@ == old(out)@ + scaled_text(v as nat),
{
    push_whole(out, v / SCALED_ONE);
    let mut f: u128 = v % SCALED_ONE;
    let mut p: u64 = SCALED_PLACES;
    while p > 0 && f % 10 == 0
        invariant
            p <= SCALED_PLACES,
            fraction_text(f as nat, p as nat)
                == fraction_text((v % SCALED_ONE) as nat, SCALED_PLACES as nat),
        decreases p,
    {
        f = f / 10;
        p = p - 1;
    }
    if p > 0 {
        proof {
            reveal_strlit(".");
        }
        out.append(".");
        push_padded(out, f, p);
        assert(final(out)@ =~= old(out)@ + scaled_text(v as nat));
    } else {
        assert(final(out)@ =~= old(out)@ + scaled_text(v as nat));
    }
}

/// Scaling composes: scaling by `m1` and then by `m2` equals scaling once by
/// the product `m1 * m2`.
pub proof fn scaling_composes(q: int, m1: int, m2: int)
    requires
        q >= 0,
        m1 > 0,
        m2 > 0,
    ensures
        scale_spec(scale_spec(q, m1), m2) == scale_spec(q, m1 * m2),
{
    assert((q * m1) * m2 == q * (m1 * m2)) by (nonlinear_arith);
}

} // verus!
