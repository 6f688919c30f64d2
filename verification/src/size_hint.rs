use vstd::prelude::*;

verus! {

/// An iterator size hint: a lower bound and an optional upper bound on the
/// number of remaining elements.
pub type SizeHint = (usize, Option<usize>);

/// A count clamped to the machine word.
pub open spec fn sat_usize(x: int) -> int {
    if x <= usize::MAX {
        x
    } else {
        usize::MAX as int
    }
}

/// A count that overflows to absence.
pub open spec fn checked_usize(x: int) -> Option<usize> {
    if x <= usize::MAX {
        Some(x as usize)
    } else {
        None
    }
}

/// Addition clamped to the machine word.
pub open spec fn sat_add(x: int, y: int) -> int {
    sat_usize(x + y)
}

/// Addition that overflows to absence.
pub open spec fn checked_add(x: int, y: int) -> Option<usize> {
    checked_usize(x + y)
}

/// Multiplication clamped to the machine word.
pub open spec fn sat_mul(x: int, y: int) -> int {
    sat_usize(x * y)
}

/// Multiplication that overflows to absence.
pub open spec fn checked_mul(x: int, y: int) -> Option<usize> {
    checked_usize(x * y)
}

/// Adds two size hints: lower bounds add with saturation; upper bounds add
/// only when both are known and their sum fits.
pub fn add(a: SizeHint, b: SizeHint) -> (r: SizeHint)
    ensures
        r.0 as int == sat_add(a.0 as int, b.0 as int),
        r.1 == match (a.1, b.1) {
            (Some(x), Some(y)) => checked_add(x as int, y as int),
            _ => None::<usize>,
        },
{
    let min: usize = if a.0 <= usize::MAX - b.0 {
        a.0 + b.0
    } else {
        usize::MAX
    };
    let max: Option<usize> = match (a.1, b.1) {
        (Option::Some(x), Option::Some(y)) => {
            if x <= usize::MAX - y {
                Some(x + y)
            } else {
                None
            }
        },
        _ => None,
    };
    (min, max)
}

/// Multiplies two size hints: lower bounds multiply with saturation; upper
/// bounds multiply when both are known and the product fits, and a known
/// zero bound forces a zero product whatever the other side.
pub fn mul(a: SizeHint, b: SizeHint) -> (r: SizeHint)
    ensures
        r.0 as int == sat_mul(a.0 as int, b.0 as int),
        r.1 == match (a.1, b.1) {
            (Some(x), Some(y)) => checked_mul(x as int, y as int),
            (Some(0), None) => Some(0usize),
            (None, Some(0)) => Some(0usize),
            _ => None::<usize>,
        },
{
    let low = mul_both(a.0, b.0).0;
    let hi: Option<usize> = match (a.1, b.1) {
        (Option::Some(x), Option::Some(y)) => mul_both(x, y).1,
        (Option::Some(0), Option::None) => Some(0),
        (Option::None, Option::Some(0)) => Some(0),
        _ => None,
    };
    (low, hi)
}

/// Multiplies two words, reporting the product both clamped and checked.
fn mul_both(x: usize, y: usize) -> (r: (usize, Option<usize>))
    ensures
        r.0 as int == sat_mul(x as int, y as int),
        r.1 == checked_mul(x as int, y as int),
{
    if y == 0 {
        assert(x as int * 0 == 0) by (nonlinear_arith);
        return (0, Some(0));
    }
    let q = usize::MAX / y;
    proof {
        vstd::arithmetic::div_mod::lemma_fundamental_div_mod(usize::MAX as int, y as int);
    }
    if x <= q {
        proof {
            vstd::arithmetic::mul::lemma_mul_inequality(x as int, q as int, y as int);
            assert(x as int * y as int <= usize::MAX);
        }
        let p = x * y;
        (p, Some(p))
    } else {
        proof {
            vstd::arithmetic::mul::lemma_mul_inequality(q as int + 1, x as int, y as int);
            assert((q as int + 1) * y as int == q as int * y as int + y as int)
                by (nonlinear_arith);
            assert(x as int * y as int > usize::MAX);
        }
        (usize::MAX, None)
    }
}

} // verus!
