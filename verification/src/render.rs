//! Rendering fixed-point amounts back to decimal text: whole part, a
//! point, and the fractional digits with trailing zeros dropped (at least
//! one kept), the way the balance snapshot is written out.

use vstd::prelude::*;

verus! {

/// The decimal digits of `n`, most significant first.
pub open spec fn digits_of(n: nat) -> Seq<u8>
    decreases n,
{
    if n < 10 {
        seq![(48 + n) as u8]
    } else {
        digits_of(n / 10).push((48 + n % 10) as u8)
    }
}

/// The fractional digits printed for `f` ten-thousandths (`f` below ten
/// thousand): four digits with trailing zeros dropped, at least one kept.
pub open spec fn frac_digits(f: nat) -> Seq<u8> {
    let d1 = (48 + f / 1000 % 10) as u8;
    let d2 = (48 + f / 100 % 10) as u8;
    let d3 = (48 + f / 10 % 10) as u8;
    let d4 = (48 + f % 10) as u8;
    if f % 10 != 0 {
        seq![d1, d2, d3, d4]
    } else if f % 100 != 0 {
        seq![d1, d2, d3]
    } else if f % 1000 != 0 {
        seq![d1, d2]
    } else {
        seq![d1]
    }
}

/// The text for a non-negative count of ten-thousandths.
pub open spec fn render_mag(m: nat) -> Seq<u8> {
    digits_of(m / 10000) + seq![46u8] + frac_digits((m % 10000) as nat)
}

/// The text for a fixed-point amount: a minus sign for negative values,
/// then the magnitude.
pub open spec fn render_spec(v: int) -> Seq<u8> {
    if v < 0 {
        seq![45u8] + render_mag((-v) as nat)
    } else {
        render_mag(v as nat)
    }
}

/// Append the decimal digits of `n` to `out`.
fn push_digits(n: u128, out: &mut Vec<u8>)
    ensures
        final(out)@ == old(out)@ + digits_of(n as nat),
    decreases n,
{
    if n < 10 {
        out.push(48 + n as u8);
        proof {
            assert(out@ =~= old(out)@ + digits_of(n as nat));
        }
    } else {
        push_digits(n / 10, out);
        out.push(48 + (n % 10) as u8);
        proof {
            assert(out@ =~= old(out)@ + digits_of(n as nat));
        }
    }
}

/// Render a fixed-point amount (a count of ten-thousandths) as decimal
/// text, exactly as [`render_spec`] describes it.  The widened argument
/// comfortably holds any balance or any total of two balances.
pub fn render_units(v: i128) -> (out: Vec<u8>)
    requires
        v != i128::MIN,
    ensures
        out@ == render_spec(v as int),
{
    let mut out: Vec<u8> = Vec::new();
    let mag: u128 = if v < 0 {
        out.push(45);
        (-v) as u128
    } else {
        v as u128
    };
    push_digits(mag / 10000, &mut out);
    out.push(46);
    let f = (mag % 10000) as u64;
    let d1 = 48 + (f / 1000 % 10) as u8;
    let d2 = 48 + (f / 100 % 10) as u8;
    let d3 = 48 + (f / 10 % 10) as u8;
    let d4 = 48 + (f % 10) as u8;
    if f % 10 != 0 {
        out.push(d1);
        out.push(d2);
        out.push(d3);
        out.push(d4);
    } else if f % 100 != 0 {
        out.push(d1);
        out.push(d2);
        out.push(d3);
    } else if f % 1000 != 0 {
        out.push(d1);
        out.push(d2);
    } else {
        out.push(d1);
    }
    proof {
        assert(out@ =~= render_spec(v as int));
    }
    out
}

} // verus!
