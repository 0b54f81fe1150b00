use vstd::prelude::*;

verus! {

/// Amounts are counted in units of ten to the minus this many.
pub const DECIMAL_PLACES: u32 = 4;

pub open spec fn pow10(n: nat) -> nat
    decreases n,
{
    if n == 0 {
        1
    } else {
        10 * pow10((n - 1) as nat)
    }
}

/// The number of units in the decimal `mantissa * 10^-scale`, where that is
/// a whole, non-negative number of units.
pub open spec fn units_of(mantissa: int, scale: nat) -> int {
    mantissa * pow10((DECIMAL_PLACES - scale) as nat)
}

/// Converts the decimal `mantissa * 10^-scale` to units: `None` when it is
/// negative, finer than one unit, or beyond `u64::MAX` units.
pub fn units_from_parts(mantissa: i128, scale: u32) -> (r: Option<u64>)
    ensures
        r is Some <==> 0 <= mantissa && scale <= DECIMAL_PLACES && units_of(mantissa as int, scale as nat)
            <= u64::MAX,
        r is Some ==> r->Some_0 == units_of(mantissa as int, scale as nat),
{
    if mantissa < 0 || scale > DECIMAL_PLACES {
        return None;
    }
    let factor: u64 = if scale == 0 {
        10000
    } else if scale == 1 {
        1000
    } else if scale == 2 {
        100
    } else if scale == 3 {
        10
    } else {
        1
    };
    proof {
        reveal_with_fuel(pow10, 5);
        assert(factor == pow10((DECIMAL_PLACES - scale) as nat));
    }
    if mantissa > (u64::MAX / factor) as i128 {
        proof {
            assert(mantissa * factor > u64::MAX) by (nonlinear_arith)
                requires
                    mantissa > u64::MAX / factor,
                    factor > 0,
            ;
        }
        return None;
    }
    proof {
        assert(mantissa * factor <= u64::MAX) by (nonlinear_arith)
            requires
                mantissa <= u64::MAX / factor,
                factor > 0,
                mantissa >= 0,
        ;
    }
    Some(mantissa as u64 * factor)
}

} // verus!
