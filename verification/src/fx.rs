//! Fixed-point scalar arithmetic.
//!
//! Every geometric scalar in this library is an `i64` counting 1/65536
//! units. Products and quotients round toward negative infinity; the spec
//! functions below state each operation exactly over `int`.

use vstd::prelude::*;
#[allow(unused_imports)]
use vstd::arithmetic::div_mod::{
    lemma_div_is_ordered, lemma_div_is_ordered_by_denominator, lemma_div_nonincreasing,
    lemma_div_pos_is_pos, lemma_fundamental_div_mod, lemma_mod_division_less_than_divisor,
};

verus! {

/// One whole unit: the fixed-point representation of 1.
pub const SCALE: i64 = 65536;

/// Pi in fixed point, rounded to the nearest representable value.
pub const PI_FX: i64 = 205887;

/// Natural logarithm of 2 in fixed point, rounded.
pub const LN2_FX: i64 = 45426;

/// Bound on the coordinates of scene geometry (4096 units).
pub const COORD_BOUND: i64 = 0x1000_0000;

/// Bound on ray origins and directions (8192 units); looser than
/// `COORD_BOUND` so that hit points near the scene edge stay usable.
pub const RAY_BOUND: i64 = 0x2000_0000;

/// Stand-in for an unbounded upper end of a ray's parameter interval.
pub const T_MAX_FX: i64 = 0x100_0000_0000;

/// Lower cutoff for ray parameters, about 0.001 units: reflection and
/// scattering rays start this far along to avoid re-hitting their surface.
pub const T_EPSILON: i64 = 66;

/// Floor division for an arbitrary nonzero divisor, stated over `int`
/// (Verus `/` on a positive divisor is already the floor).
pub open spec fn div_floor(a: int, b: int) -> int {
    if b > 0 {
        a / b
    } else {
        (-a) / (-b)
    }
}

/// Ceiling division by a positive divisor.
pub open spec fn div_ceil(a: int, b: int) -> int {
    -((-a) / b)
}

/// The product of two fixed-point scalars, scaled back down.
pub open spec fn fx_mul_spec(a: int, b: int) -> int {
    (a * b) / (SCALE as int)
}

/// The quotient of two fixed-point scalars, scaled back up.
pub open spec fn fx_div_spec(a: int, b: int) -> int {
    div_floor(a * (SCALE as int), b)
}

/// The unique nonnegative integer square root rounded down.
pub open spec fn is_sqrt_floor(n: int, r: int) -> bool {
    0 <= r && r * r <= n && n < (r + 1) * (r + 1)
}

pub open spec fn sqrt_floor(n: int) -> int {
    choose|r: int| is_sqrt_floor(n, r)
}

/// A quotient with a divisor of at least 1 lies between 0 and the dividend.
pub proof fn lemma_div_bounds(a: int, b: int)
    requires
        b >= 1,
    ensures
        a >= 0 ==> 0 <= a / b <= a,
        a < 0 ==> a <= a / b <= 0,
{
    lemma_fundamental_div_mod(a, b);
    lemma_mod_division_less_than_divisor(a, b);
    let q = a / b;
    let r = a % b;
    if a >= 0 {
        lemma_div_pos_is_pos(a, b);
        lemma_div_nonincreasing(a, b);
    } else {
        assert(b * q == a - r);
        if q > 0 {
            assert(b * q >= q) by (nonlinear_arith)
                requires b >= 1 && q > 0;
            assert(false);
        }
        assert(b * (q + 1) == a - r + b) by (nonlinear_arith)
            requires b * q == a - r;
        if q + 1 <= 0 {
            assert(b * (q + 1) <= q + 1) by (nonlinear_arith)
                requires b >= 1 && q + 1 <= 0;
            assert(q + 1 > a);
        }
        assert(a <= q <= 0);
    }
}

/// The floor square root is unique.
pub proof fn lemma_sqrt_floor_unique(n: int, r: int)
    requires
        is_sqrt_floor(n, r),
    ensures
        sqrt_floor(n) == r,
{
    assert(is_sqrt_floor(n, sqrt_floor(n))) by {
        assert(exists|x: int| is_sqrt_floor(n, x)) by {
            assert(is_sqrt_floor(n, r));
        }
    }
    let s = sqrt_floor(n);
    if s < r {
        assert((s + 1) * (s + 1) <= r * r) by (nonlinear_arith)
            requires 0 <= s && s < r;
        assert(false);
    }
    if r < s {
        assert((r + 1) * (r + 1) <= s * s) by (nonlinear_arith)
            requires 0 <= r && r < s;
        assert(false);
    }
}

/// Floor division of wide intermediates; `checked_div_euclid` computes
/// exactly the Verus `/` for a positive divisor.
pub fn floor_div_i128(a: i128, b: i128) -> (q: i128)
    requires
        1 <= b,
        -0x4000_0000_0000_0000_0000_0000_0000_0000 < a,
    ensures
        q == a as int / b as int,
        a >= 0 ==> 0 <= q <= a,
        a < 0 ==> a <= q <= 0,
{
    proof {
        lemma_div_bounds(a as int, b as int);
    }
    match a.checked_div_euclid(b) {
        Some(q) => q,
        None => 0,
    }
}

/// Ceiling division of wide intermediates.
pub fn ceil_div_i128(a: i128, b: i128) -> (q: i128)
    requires
        1 <= b,
        -0x4000_0000_0000_0000_0000_0000_0000_0000 < a
            < 0x4000_0000_0000_0000_0000_0000_0000_0000,
    ensures
        q == div_ceil(a as int, b as int),
        a >= 0 ==> 0 <= q <= a,
        a < 0 ==> a <= q <= 0,
{
    proof {
        lemma_div_bounds(-(a as int), b as int);
    }
    let neg = floor_div_i128(-a, b);
    -neg
}

/// Fixed-point product of two scalars whose wide product stays below 2^78.
pub fn fx_mul(a: i64, b: i64) -> (r: i64)
    requires
        -0x4000_0000_0000_0000_0000 <= a as int * b as int <= 0x4000_0000_0000_0000_0000,
    ensures
        r == fx_mul_spec(a as int, b as int),
        -0x4000_0000_0000_0000 <= r <= 0x4000_0000_0000_0000,
{
    let wide: i128 = (a as i128) * (b as i128);
    proof {
        lemma_div_is_ordered(-0x4000_0000_0000_0000_0000, wide as int, SCALE as int);
        lemma_div_is_ordered(wide as int, 0x4000_0000_0000_0000_0000, SCALE as int);
        assert((-0x4000_0000_0000_0000_0000int) / 65536int == -0x4000_0000_0000_0000int
            && 0x4000_0000_0000_0000_0000int / 65536int == 0x4000_0000_0000_0000int)
            by (nonlinear_arith);
    }
    let q = floor_div_i128(wide, SCALE as i128);
    q as i64
}

/// Fixed-point quotient of two scalars; the divisor must be nonzero and
/// the result is clamped into the range a caller can hold.
pub fn fx_div(a: i64, b: i64) -> (r: i64)
    requires
        b != 0,
        -0x100_0000_0000 <= a <= 0x100_0000_0000,
        -0x100_0000_0000 <= b <= 0x100_0000_0000,
        -0x7fff_ffff_ffff_ffff <= fx_div_spec(a as int, b as int) <= 0x7fff_ffff_ffff_ffff,
    ensures
        r == fx_div_spec(a as int, b as int),
{
    let num: i128 = (a as i128) * (SCALE as i128);
    if b > 0 {
        let q = floor_div_i128(num, b as i128);
        q as i64
    } else {
        let q = floor_div_i128(-num, -(b as i128));
        q as i64
    }
}

/// Fixed-point quotient saturated into `[-m, m]`.
pub open spec fn fx_div_sat_spec(a: int, b: int, m: int) -> int {
    let q = (a * (SCALE as int)) / b;
    if q > m {
        m
    } else if q < -m {
        -m
    } else {
        q
    }
}

/// Fixed-point division by a positive divisor, saturated into `[-m, m]`.
pub fn fx_div_sat(a: i64, b: i64, m: i64) -> (r: i64)
    requires
        1 <= b,
        0 <= m,
    ensures
        r == fx_div_sat_spec(a as int, b as int, m as int),
        -m <= r <= m,
{
    proof {
        assert(-0x8000_0000_0000_0000_0000 <= a as int * (SCALE as int)
            <= 0x8000_0000_0000_0000_0000) by (nonlinear_arith)
            requires -0x8000_0000_0000_0000 <= a as int <= 0x8000_0000_0000_0000;
    }
    let q = floor_div_i128((a as i128) * (SCALE as i128), b as i128);
    if q > m as i128 {
        m
    } else if q < -(m as i128) {
        -m
    } else {
        q as i64
    }
}

/// Integer square root of a wide nonnegative value, rounded down.
pub fn isqrt_u128(n: u128) -> (r: u64)
    ensures
        is_sqrt_floor(n as int, r as int),
        r as int == sqrt_floor(n as int),
{
    let mut lo: u128 = 0;
    let mut hi: u128 = 0x1_0000_0000_0000_0000;
    proof {
        assert((0x1_0000_0000_0000_0000 as int) * (0x1_0000_0000_0000_0000 as int)
            > u128::MAX as int) by (nonlinear_arith);
    }
    while hi - lo > 1
        invariant
            lo < hi <= 0x1_0000_0000_0000_0000,
            lo * lo <= n as int,
            (n as int) < hi * hi,
        decreases hi - lo,
    {
        let mid: u128 = lo + (hi - lo) / 2;
        proof {
            assert(mid * mid < 0x1_0000_0000_0000_0000 * 0x1_0000_0000_0000_0000)
                by (nonlinear_arith)
                requires 0 <= mid < 0x1_0000_0000_0000_0000u128 as int;
            assert((0x1_0000_0000_0000_0000 as int) * (0x1_0000_0000_0000_0000 as int)
                - 1 <= u128::MAX as int) by (nonlinear_arith);
        }
        let sq: u128 = mid * mid;
        if sq <= n {
            lo = mid;
        } else {
            hi = mid;
        }
    }
    proof {
        lemma_sqrt_floor_unique(n as int, lo as int);
    }
    lo as u64
}

/// A quotient of a bounded dividend by a positive divisor is bounded.
pub proof fn lemma_div_range(n: int, p: int, d: int)
    requires
        d >= 1,
        0 <= p,
        -p <= n <= p,
    ensures
        -(p / d) - 1 <= n / d <= p / d,
{
    lemma_div_is_ordered(n, p, d);
    lemma_div_is_ordered(-p, n, d);
    lemma_fundamental_div_mod(-p, d);
    lemma_fundamental_div_mod(p, d);
    lemma_mod_division_less_than_divisor(-p, d);
    lemma_mod_division_less_than_divisor(p, d);
    let q = (-p) / d;
    let r = (-p) % d;
    let q2 = p / d;
    let r2 = p % d;
    if q <= -q2 - 2 {
        assert(d * q <= d * (-q2 - 2)) by (nonlinear_arith)
            requires d >= 1 && q <= -q2 - 2;
        assert(d * (-q2 - 2) == -(d * q2) - 2 * d) by (nonlinear_arith);
        assert(false);
    }
}

/// The floor square root of a value under a square bound is under the base.
pub proof fn lemma_sqrt_bound(n: int, r: int, b: int)
    requires
        is_sqrt_floor(n, r),
        0 <= b,
        n < (b + 1) * (b + 1),
    ensures
        r <= b,
{
    if r > b {
        assert(r * r >= (b + 1) * (b + 1)) by (nonlinear_arith)
            requires r >= b + 1 && b >= 0;
        assert(false);
    }
}

/// Fixed-point square root: the root of `a / SCALE` units, in the same
/// scale, rounded down.
pub fn sqrt_fx(a: i64) -> (r: i64)
    requires
        0 <= a,
    ensures
        is_sqrt_floor(a as int * SCALE as int, r as int),
        r as int == sqrt_floor(a as int * SCALE as int),
        0 <= r,
{
    proof {
        assert(0 <= a as int * 65536int <= 0x7fff_ffff_ffff_ffff * 65536int)
            by (nonlinear_arith)
            requires 0 <= a as int <= 0x7fff_ffff_ffff_ffff;
    }
    let wide: u128 = (a as u128) * (SCALE as u128);
    let r = isqrt_u128(wide);
    proof {
        assert((wide as int) < (0x7fff_ffff_ffff_fffe + 1) * (0x7fff_ffff_ffff_fffe + 1))
            by (nonlinear_arith)
            requires 0 <= wide as int <= 0x7fff_ffff_ffff_ffff * 65536int;
        lemma_sqrt_bound(wide as int, r as int, 0x7fff_ffff_ffff_fffe);
    }
    r as i64
}

/// Half a turn in fixed point.
pub const HALF_TURN: i64 = 32768;

/// A quarter turn in fixed point.
pub const QUARTER_TURN: i64 = 16384;

/// The sine of `t / SCALE` half-turns for `t` in `[0, HALF_TURN]`, by the
/// classical rational approximation `32 w / (5 - 8 w)` with `w = t (1 - 2 t)`.
pub open spec fn sin_half_turn_spec(t: int) -> int {
    let w = (t * (SCALE - 2 * t)) / (SCALE as int);
    (32 * w * SCALE) / (5 * SCALE - 8 * w)
}

/// The sine of a whole-circle angle `t / SCALE` turns, `t` in `[0, SCALE)`.
pub open spec fn sin_turns_spec(t: int) -> int {
    if t <= HALF_TURN {
        sin_half_turn_spec(t)
    } else {
        -sin_half_turn_spec(t - HALF_TURN)
    }
}

/// The cosine, as the sine shifted a quarter turn.
pub open spec fn cos_turns_spec(t: int) -> int {
    if t + QUARTER_TURN < SCALE {
        sin_turns_spec(t + QUARTER_TURN)
    } else {
        sin_turns_spec(t + QUARTER_TURN - SCALE)
    }
}

pub fn sin_half_turn(t: i64) -> (r: i64)
    requires
        0 <= t <= HALF_TURN,
    ensures
        r == sin_half_turn_spec(t as int),
        0 <= r <= SCALE,
{
    proof {
        assert(0 <= t * (SCALE - 2 * t) && 8 * (t * (SCALE - 2 * t)) <= SCALE * SCALE)
            by (nonlinear_arith)
            requires 0 <= t <= 32768;
    }
    let prod: i64 = t * (SCALE - 2 * t);
    let w: i64 = floor_div_i128(prod as i128, SCALE as i128) as i64;
    proof {
        lemma_div_bounds(prod as int, SCALE as int);
        lemma_div_is_ordered(prod as int, 0x2000_0000, SCALE as int);
        assert(0x2000_0000int / 65536int == 8192int) by (nonlinear_arith);
    }
    let num: i64 = 32 * w * SCALE;
    let den: i64 = 5 * SCALE - 8 * w;
    let r: i64 = floor_div_i128(num as i128, den as i128) as i64;
    proof {
        lemma_div_bounds(num as int, den as int);
        lemma_div_is_ordered_by_denominator(num as int, 4 * SCALE as int, den as int);
        lemma_div_is_ordered(num as int, 32 * 8192 * SCALE as int, 4 * SCALE as int);
        assert((32 * 8192 * 65536int) / (4 * 65536int) == 65536int) by (nonlinear_arith);
    }
    r
}

/// The sine of an angle given as a fraction of a full turn.
pub fn sin_turns(t: i64) -> (r: i64)
    requires
        0 <= t < SCALE,
    ensures
        r == sin_turns_spec(t as int),
        -SCALE <= r <= SCALE,
{
    if t <= HALF_TURN {
        sin_half_turn(t)
    } else {
        let s = sin_half_turn(t - HALF_TURN);
        -s
    }
}

/// The cosine of an angle given as a fraction of a full turn.
pub fn cos_turns(t: i64) -> (r: i64)
    requires
        0 <= t < SCALE,
    ensures
        r == cos_turns_spec(t as int),
        -SCALE <= r <= SCALE,
{
    let u = t + QUARTER_TURN;
    if u < SCALE {
        sin_turns(u)
    } else {
        sin_turns(u - SCALE)
    }
}

/// Reduce any scalar angle to `[0, SCALE)` turns.
pub fn wrap_turns(a: i64) -> (r: i64)
    ensures
        r == a as int % (SCALE as int),
        0 <= r < SCALE,
{
    proof {
        lemma_mod_division_less_than_divisor(a as int, SCALE as int);
    }
    match a.checked_rem_euclid(SCALE) {
        Some(r) => r,
        None => 0,
    }
}

/// The negated natural logarithm of `u / SCALE` for `u` in `[1, SCALE]`,
/// computed from a base-2 logarithm by repeated squaring. The contract
/// states its range and the zero of the logarithm; finer accuracy is a
/// sampling-quality concern, not a correctness one.
pub fn neg_ln_unit(u: i64) -> (r: i64)
    requires
        1 <= u <= SCALE,
    ensures
        0 <= r <= 17 * LN2_FX,
        u == SCALE ==> r == 0,
{
    let mut x: i64 = u;
    let mut d: i64 = 0;
    while x < SCALE
        invariant
            1 <= x <= 2 * SCALE,
            0 <= d <= 17,
            x >= if d <= 16 { u as int } else { SCALE as int },
            x < SCALE ==> d <= 16,
            d == 0 ==> x == u,
            u == SCALE ==> x == SCALE && d == 0,
        decreases 2 * SCALE - x + (17 - d),
    {
        if d >= 16 {
            // unreachable in fact: sixteen doublings of a positive scalar
            // already reach a whole unit; keep the counter bounded.
            x = SCALE;
            d = 17;
        } else {
            x = 2 * x;
            d = d + 1;
        }
    }
    if x >= 2 * SCALE {
        x = 2 * SCALE - 1;
    }
    let mut y: i64 = x;
    let mut frac: i64 = 0;
    let mut bitval: i64 = HALF_TURN;
    let mut j: i64 = 0;
    while j < 16
        invariant
            SCALE <= y < 2 * SCALE,
            0 <= frac,
            frac + 2 * bitval <= SCALE,
            0 <= bitval,
            0 <= j <= 16,
            u == SCALE ==> y == SCALE && frac == 0,
        decreases 16 - j,
    {
        proof {
            assert(y * y < 4 * (SCALE * SCALE) && y * y >= SCALE * SCALE)
                by (nonlinear_arith)
                requires 65536 <= y < 131072;
        }
        let sq: i64 = y * y;
        let y2: i64 = floor_div_i128(sq as i128, SCALE as i128) as i64;
        proof {
            lemma_div_bounds(sq as int, SCALE as int);
            lemma_div_is_ordered(SCALE as int * SCALE as int, sq as int, SCALE as int);
            lemma_div_is_ordered(sq as int, 4 * (SCALE as int) * (SCALE as int) - 1, SCALE as int);
            assert((65536int * 65536) / 65536int == 65536int) by (nonlinear_arith);
            assert((4 * 65536int * 65536 - 1) / 65536int < 4 * 65536) by (nonlinear_arith);
        }
        if y2 >= 2 * SCALE {
            y = floor_div_i128(y2 as i128, 2) as i64;
            proof {
                lemma_div_bounds(y2 as int, 2);
                lemma_div_is_ordered(2 * SCALE as int, y2 as int, 2);
                lemma_div_is_ordered(y2 as int, 4 * SCALE as int - 1, 2);
                assert((2 * 65536int) / 2 == 65536int && (4 * 65536int - 1) / 2 < 2 * 65536)
                    by (nonlinear_arith);
            }
            frac = frac + bitval;
        } else {
            y = y2;
        }
        bitval = floor_div_i128(bitval as i128, 2) as i64;
        proof {
            lemma_div_bounds(bitval as int, 2);
        }
        j = j + 1;
    }
    let log2_fx: i64 = d * SCALE - frac;
    proof {
        assert(0 <= log2_fx as int * LN2_FX as int <= 17 * (SCALE as int) * (LN2_FX as int))
            by (nonlinear_arith)
            requires 0 <= log2_fx as int <= 17 * 65536;
        lemma_div_bounds((log2_fx as int) * (LN2_FX as int), SCALE as int);
        lemma_div_is_ordered(
            (log2_fx as int) * (LN2_FX as int),
            17 * (SCALE as int) * (LN2_FX as int),
            SCALE as int,
        );
        assert((17 * 65536int * 45426) / 65536int == 17 * 45426int) by (nonlinear_arith);
        assert(0int / 65536int == 0int) by (nonlinear_arith);
    }
    let out = fx_mul(log2_fx, LN2_FX);
    out
}

/// The smaller of two scalars.
pub fn fmin(a: i64, b: i64) -> (r: i64)
    ensures
        r == if a < b { a as int } else { b as int },
{
    if a < b {
        a
    } else {
        b
    }
}

/// The larger of two scalars.
pub fn fmax(a: i64, b: i64) -> (r: i64)
    ensures
        r == if a > b { a as int } else { b as int },
{
    if a > b {
        a
    } else {
        b
    }
}

/// Clamp into a closed interval, in specs.
pub open spec fn clamp_spec(x: int, min: int, max: int) -> int {
    if x < min {
        min
    } else if x > max {
        max
    } else {
        x
    }
}

/// Clamp a scalar into a closed interval.
pub fn clamp(x: i64, min: i64, max: i64) -> (r: i64)
    ensures
        r == clamp_spec(x as int, min as int, max as int),
{
    if x < min {
        return min;
    }
    if x > max {
        return max;
    }
    x
}

} // verus!
