//! The canonical duration resolver: rational reduction and the fixed table
//! of canonical `(numerator, denominator)` fractions.

use vstd::prelude::*;

use crate::{IllegalLength, Length, NoteShape};

verus! {

/// Greatest common divisor by Euclid's recursion; `gcd(a, 0) == a`.
pub open spec fn gcd(a: nat, b: nat) -> nat
    decreases b,
{
    if b == 0 {
        a
    } else {
        gcd(b, a % b)
    }
}

/// The gcd of two numbers that are not both zero is positive.
pub proof fn lemma_gcd_pos(a: nat, b: nat)
    requires
        a > 0 || b > 0,
    ensures
        gcd(a, b) > 0,
    decreases b,
{
    if b > 0 {
        lemma_gcd_pos(b, a % b);
    }
}

/// Euclid's algorithm.
fn gcd_u64(a0: u64, b0: u64) -> (g: u64)
    ensures
        g as nat == gcd(a0 as nat, b0 as nat),
{
    let mut a = a0;
    let mut b = b0;
    while b != 0
        invariant
            gcd(a as nat, b as nat) == gcd(a0 as nat, b0 as nat),
        decreases b,
    {
        let t = a % b;
        a = b;
        b = t;
    }
    a
}

/// A fraction with numerator 1 is already in lowest terms.
pub proof fn lemma_gcd_one_left(b: nat)
    ensures
        gcd(1, b) == 1,
{
    reveal_with_fuel(gcd, 5);
    if b >= 2 {
        vstd::arithmetic::div_mod::lemma_small_mod(1nat, b);
    }
}

/// Numerator of `n/d` reduced to lowest terms with a positive denominator.
/// Meaningful only for `d != 0`.
pub open spec fn reduced_numer(n: int, d: int) -> int {
    let g = gcd(vstd::math::abs(n), vstd::math::abs(d)) as int;
    if (n < 0) != (d < 0) {
        -(vstd::math::abs(n) as int / g)
    } else {
        vstd::math::abs(n) as int / g
    }
}

/// Denominator of `n/d` reduced to lowest terms with a positive denominator.
/// Meaningful only for `d != 0`.
pub open spec fn reduced_denom(n: int, d: int) -> int {
    let g = gcd(vstd::math::abs(n), vstd::math::abs(d)) as int;
    vstd::math::abs(d) as int / g
}

/// The fixed table of canonical durations, keyed by a fraction in lowest
/// terms. Only the tabulated fractions, `(1, 128)` through `(15, 4)`,
/// have an entry; every other pair maps to `None`. The gaps (not every
/// shape carries all four dot levels) are intentional and must stay as
/// they are.
pub open spec fn canonical_length(p: int, q: int) -> Option<Length> {
    if p == 1 && q == 128 {
        Some(Length { note_shape: NoteShape::Hundred28th, dot: 0 })
    } else if p == 1 && q == 64 {
        Some(Length { note_shape: NoteShape::SixtyFourth, dot: 0 })
    } else if p == 3 && q == 128 {
        Some(Length { note_shape: NoteShape::SixtyFourth, dot: 1 })
    } else if p == 1 && q == 32 {
        Some(Length { note_shape: NoteShape::ThirtySecond, dot: 0 })
    } else if p == 3 && q == 64 {
        Some(Length { note_shape: NoteShape::ThirtySecond, dot: 1 })
    } else if p == 7 && q == 128 {
        Some(Length { note_shape: NoteShape::ThirtySecond, dot: 2 })
    } else if p == 1 && q == 16 {
        Some(Length { note_shape: NoteShape::Sixteenth, dot: 0 })
    } else if p == 3 && q == 32 {
        Some(Length { note_shape: NoteShape::Sixteenth, dot: 1 })
    } else if p == 7 && q == 64 {
        Some(Length { note_shape: NoteShape::Sixteenth, dot: 2 })
    } else if p == 15 && q == 128 {
        Some(Length { note_shape: NoteShape::Sixteenth, dot: 3 })
    } else if p == 1 && q == 8 {
        Some(Length { note_shape: NoteShape::Eighth, dot: 0 })
    } else if p == 3 && q == 16 {
        Some(Length { note_shape: NoteShape::Eighth, dot: 1 })
    } else if p == 7 && q == 32 {
        Some(Length { note_shape: NoteShape::Eighth, dot: 2 })
    } else if p == 15 && q == 64 {
        Some(Length { note_shape: NoteShape::Eighth, dot: 3 })
    } else if p == 1 && q == 4 {
        Some(Length { note_shape: NoteShape::Quarter, dot: 0 })
    } else if p == 3 && q == 8 {
        Some(Length { note_shape: NoteShape::Quarter, dot: 1 })
    } else if p == 7 && q == 16 {
        Some(Length { note_shape: NoteShape::Quarter, dot: 2 })
    } else if p == 15 && q == 32 {
        Some(Length { note_shape: NoteShape::Quarter, dot: 3 })
    } else if p == 1 && q == 2 {
        Some(Length { note_shape: NoteShape::Half, dot: 0 })
    } else if p == 3 && q == 4 {
        Some(Length { note_shape: NoteShape::Half, dot: 1 })
    } else if p == 7 && q == 8 {
        Some(Length { note_shape: NoteShape::Half, dot: 2 })
    } else if p == 15 && q == 16 {
        Some(Length { note_shape: NoteShape::Half, dot: 3 })
    } else if p == 1 && q == 1 {
        Some(Length { note_shape: NoteShape::Whole, dot: 0 })
    } else if p == 3 && q == 2 {
        Some(Length { note_shape: NoteShape::Whole, dot: 1 })
    } else if p == 7 && q == 4 {
        Some(Length { note_shape: NoteShape::Whole, dot: 2 })
    } else if p == 15 && q == 8 {
        Some(Length { note_shape: NoteShape::Whole, dot: 3 })
    } else if p == 2 && q == 1 {
        Some(Length { note_shape: NoteShape::Breve, dot: 0 })
    } else if p == 3 && q == 1 {
        Some(Length { note_shape: NoteShape::Breve, dot: 1 })
    } else if p == 7 && q == 2 {
        Some(Length { note_shape: NoteShape::Breve, dot: 2 })
    } else if p == 15 && q == 4 {
        Some(Length { note_shape: NoteShape::Breve, dot: 3 })
    } else {
        None
    }
}

/// Every tabulated fraction is already in lowest terms, so reduction leaves
/// it unchanged. Together with the contract of [`Length::new`] this gives
/// the round trip: constructing a `Length` from any canonical fraction
/// succeeds and yields exactly the tabulated entry.
pub proof fn lemma_canonical_fraction_reduces_to_itself(p: int, q: int)
    requires
        canonical_length(p, q) is Some,
    ensures
        reduced_numer(p, q) == p,
        reduced_denom(p, q) == q,
{
    reveal_with_fuel(gcd, 10);
    assert(gcd(1, 128) == 1);
    assert(gcd(1, 64) == 1);
    assert(gcd(3, 128) == 1);
    assert(gcd(1, 32) == 1);
    assert(gcd(3, 64) == 1);
    assert(gcd(7, 128) == 1);
    assert(gcd(1, 16) == 1);
    assert(gcd(3, 32) == 1);
    assert(gcd(7, 64) == 1);
    assert(gcd(15, 128) == 1);
    assert(gcd(1, 8) == 1);
    assert(gcd(3, 16) == 1);
    assert(gcd(7, 32) == 1);
    assert(gcd(15, 64) == 1);
    assert(gcd(1, 4) == 1);
    assert(gcd(3, 8) == 1);
    assert(gcd(7, 16) == 1);
    assert(gcd(15, 32) == 1);
    assert(gcd(1, 2) == 1);
    assert(gcd(3, 4) == 1);
    assert(gcd(7, 8) == 1);
    assert(gcd(15, 16) == 1);
    assert(gcd(1, 1) == 1);
    assert(gcd(3, 2) == 1);
    assert(gcd(7, 4) == 1);
    assert(gcd(15, 8) == 1);
    assert(gcd(2, 1) == 1);
    assert(gcd(3, 1) == 1);
    assert(gcd(7, 2) == 1);
    assert(gcd(15, 4) == 1);
    assert(forall|x: int| 0 <= x ==> #[trigger] (x / 1int) == x);
}

impl Length {
    /// Build the canonical duration for the fraction `ratio.0 / ratio.1`:
    /// reduce it to lowest terms (denominator positive) and look the
    /// reduced pair up in the duration table. A reduced fraction with no
    /// table entry is rejected, never rounded to a neighboring shape.
    ///
    /// A zero denominator is a programmer error and is excluded outright.
    pub fn new(ratio: (i32, i32)) -> (r: Result<Length, IllegalLength>)
        requires
            ratio.1 != 0,
        ensures
            ({
                let p = reduced_numer(ratio.0 as int, ratio.1 as int);
                let q = reduced_denom(ratio.0 as int, ratio.1 as int);
                match r {
                    Ok(l) => canonical_length(p, q) == Some(l),
                    Err(_) => canonical_length(p, q) is None,
                }
            }),
    {
        let n64: i64 = ratio.0 as i64;
        let d64: i64 = ratio.1 as i64;
        let a: u64 = if n64 < 0 {
            (-n64) as u64
        } else {
            n64 as u64
        };
        let b: u64 = if d64 < 0 {
            (-d64) as u64
        } else {
            d64 as u64
        };
        proof {
            lemma_gcd_pos(a as nat, b as nat);
        }
        let g = gcd_u64(a, b);
        let p = a / g;
        let q = b / g;
        if (ratio.0 < 0) != (ratio.1 < 0) {
            return Err(IllegalLength);
        }
        match (p, q) {
            (1, 128) => Ok(Length { note_shape: NoteShape::Hundred28th, dot: 0 }),
            (1, 64) => Ok(Length { note_shape: NoteShape::SixtyFourth, dot: 0 }),
            (3, 128) => Ok(Length { note_shape: NoteShape::SixtyFourth, dot: 1 }),
            (1, 32) => Ok(Length { note_shape: NoteShape::ThirtySecond, dot: 0 }),
            (3, 64) => Ok(Length { note_shape: NoteShape::ThirtySecond, dot: 1 }),
            (7, 128) => Ok(Length { note_shape: NoteShape::ThirtySecond, dot: 2 }),
            (1, 16) => Ok(Length { note_shape: NoteShape::Sixteenth, dot: 0 }),
            (3, 32) => Ok(Length { note_shape: NoteShape::Sixteenth, dot: 1 }),
            (7, 64) => Ok(Length { note_shape: NoteShape::Sixteenth, dot: 2 }),
            (15, 128) => Ok(Length { note_shape: NoteShape::Sixteenth, dot: 3 }),
            (1, 8) => Ok(Length { note_shape: NoteShape::Eighth, dot: 0 }),
            (3, 16) => Ok(Length { note_shape: NoteShape::Eighth, dot: 1 }),
            (7, 32) => Ok(Length { note_shape: NoteShape::Eighth, dot: 2 }),
            (15, 64) => Ok(Length { note_shape: NoteShape::Eighth, dot: 3 }),
            (1, 4) => Ok(Length { note_shape: NoteShape::Quarter, dot: 0 }),
            (3, 8) => Ok(Length { note_shape: NoteShape::Quarter, dot: 1 }),
            (7, 16) => Ok(Length { note_shape: NoteShape::Quarter, dot: 2 }),
            (15, 32) => Ok(Length { note_shape: NoteShape::Quarter, dot: 3 }),
            (1, 2) => Ok(Length { note_shape: NoteShape::Half, dot: 0 }),
            (3, 4) => Ok(Length { note_shape: NoteShape::Half, dot: 1 }),
            (7, 8) => Ok(Length { note_shape: NoteShape::Half, dot: 2 }),
            (15, 16) => Ok(Length { note_shape: NoteShape::Half, dot: 3 }),
            (1, 1) => Ok(Length { note_shape: NoteShape::Whole, dot: 0 }),
            (3, 2) => Ok(Length { note_shape: NoteShape::Whole, dot: 1 }),
            (7, 4) => Ok(Length { note_shape: NoteShape::Whole, dot: 2 }),
            (15, 8) => Ok(Length { note_shape: NoteShape::Whole, dot: 3 }),
            (2, 1) => Ok(Length { note_shape: NoteShape::Breve, dot: 0 }),
            (3, 1) => Ok(Length { note_shape: NoteShape::Breve, dot: 1 }),
            (7, 2) => Ok(Length { note_shape: NoteShape::Breve, dot: 2 }),
            (15, 4) => Ok(Length { note_shape: NoteShape::Breve, dot: 3 }),
            _ => Err(IllegalLength),
        }
    }

    /// Same as [`Length::new`], for callers that already hold the numerator
    /// and denominator as separate values.
    pub fn from_ratio(numerator: i32, denominator: i32) -> (r: Result<Length, IllegalLength>)
        requires
            denominator != 0,
        ensures
            ({
                let p = reduced_numer(numerator as int, denominator as int);
                let q = reduced_denom(numerator as int, denominator as int);
                match r {
                    Ok(l) => canonical_length(p, q) == Some(l),
                    Err(_) => canonical_length(p, q) is None,
                }
            }),
    {
        Length::new((numerator, denominator))
    }
}

} // verus!
