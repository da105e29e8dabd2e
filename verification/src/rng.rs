//! Random draws for Monte Carlo sampling. One trusted wrapper hands out
//! raw 32-bit draws; everything shaped from them is verified. Contracts
//! state what holds of every outcome — ranges, never distributions.

use vstd::prelude::*;
use crate::fx::{SCALE, cos_turns, lemma_div_range, lemma_sqrt_bound, sin_turns, sqrt_fx};
use crate::vec3::{Color, Vec3, dot_spec, in_range};
#[allow(unused_imports)]
use vstd::arithmetic::div_mod::{lemma_div_is_ordered, lemma_div_pos_is_pos};

verus! {

/// Relies on rand::random: one uniformly distributed 32-bit draw from the
/// thread-local generator. Nothing can be promised of a random value.
#[verifier::external_body]
fn rand_u32() -> u32 {
    rand::random::<u32>()
}

/// A fixed-point draw in `[0, 1)` units.
pub fn random_f() -> (r: i64)
    ensures
        0 <= r < SCALE,
{
    let raw = rand_u32();
    (raw % 65536) as i64
}

/// A draw from `[min, max)`.
pub fn random_u_m(min: u16, max: u16) -> (r: u16)
    requires
        min < max,
    ensures
        min <= r < max,
{
    let raw = rand_u32();
    let span: u32 = (max - min) as u32;
    min + (raw % span) as u16
}

/// A fixed-point draw from `[min, max)`, or `min` when the interval is
/// empty.
pub fn random_f_m(min: i64, max: i64) -> (r: i64)
    requires
        -0x1_0000_0000_0000 <= min <= 0x1_0000_0000_0000,
        -0x1_0000_0000_0000 <= max <= 0x1_0000_0000_0000,
    ensures
        min <= max ==> min <= r <= max,
        min > max ==> r == min,
{
    if min >= max {
        return min;
    }
    let t = random_f();
    let span: i64 = max - min;
    proof {
        assert(0 <= t as int * span <= 65536 * (max - min)) by (nonlinear_arith)
            requires 0 <= t && t < 65536 && span == max - min && span >= 0;
        lemma_div_range(t as int * span, 65536 * (max as int - min as int), SCALE as int);
        assert((65536 * (max as int - min as int)) / 65536int == max as int - min as int)
            by (nonlinear_arith);
        lemma_div_pos_is_pos(t as int * span, SCALE as int);
    }
    let step = crate::fx::fx_mul(t, span);
    min + step
}

/// A cosine-weighted direction in the upper hemisphere of the local
/// frame: unit-bounded components, nonnegative z.
pub fn random_cosine_direction() -> (r: Color)
    ensures
        in_range(r@, SCALE as int),
        r@.z >= 0,
{
    let r1 = random_f();
    let r2 = random_f();
    let z = sqrt_fx(SCALE - r2);
    proof {
        assert(((SCALE - r2) as int) * (SCALE as int) < (65536int + 1) * (65536int + 1))
            by (nonlinear_arith)
            requires 0 < (SCALE - r2) as int && (SCALE - r2) as int <= 65536;
        lemma_sqrt_bound(((SCALE - r2) as int) * (SCALE as int), z as int, SCALE as int);
    }
    let sq2 = sqrt_fx(r2);
    proof {
        assert((r2 as int) * (SCALE as int) < (65536int + 1) * (65536int + 1))
            by (nonlinear_arith)
            requires 0 <= r2 as int && (r2 as int) < 65536;
        lemma_sqrt_bound((r2 as int) * (SCALE as int), sq2 as int, SCALE as int);
    }
    let c = cos_turns(r1);
    let s = sin_turns(r1);
    proof {
        assert(-65536int * 65536 <= c as int * sq2 as int <= 65536int * 65536
            && -65536int * 65536 <= s as int * sq2 as int <= 65536int * 65536)
            by (nonlinear_arith)
            requires
                -65536 <= c as int <= 65536,
                -65536 <= s as int <= 65536,
                0 <= sq2 as int <= 65536;
        lemma_div_range(c as int * sq2 as int, 65536int * 65536, SCALE as int);
        lemma_div_range(s as int * sq2 as int, 65536int * 65536, SCALE as int);
        assert((65536int * 65536) / 65536int == 65536) by (nonlinear_arith);
    }
    let x = crate::fx::fx_mul(c, sq2);
    let y = crate::fx::fx_mul(s, sq2);
    // floor rounding can undershoot by one unit; pull it back
    let xc = if x < -SCALE {
        -SCALE
    } else {
        x
    };
    let yc = if y < -SCALE {
        -SCALE
    } else {
        y
    };
    Vec3::new(xc, yc, z)
}

/// A point inside the unit ball, by bounded rejection sampling; after the
/// draw budget it falls back to the center.
pub fn random_in_unit_sphere() -> (r: Vec3)
    ensures
        in_range(r@, SCALE as int),
        dot_spec(r@, r@) < SCALE as int,
{
    let mut tries: u32 = 0;
    let mut best = Vec3::zero();
    let mut found = false;
    proof {
        assert(0int / 65536int == 0) by (nonlinear_arith);
    }
    while tries < 64 && !found
        invariant
            tries <= 64,
            found ==> in_range(best@, SCALE as int) && dot_spec(best@, best@) < SCALE as int,
            !found ==> best@ == crate::vec3::v3_zero(),
        decreases 64 - tries,
    {
        tries = tries + 1;
        let x = 2 * random_f() - SCALE;
        let y = 2 * random_f() - SCALE;
        let z = 2 * random_f() - SCALE;
        let v = Vec3::new(x, y, z);
        if v.squared_length() < SCALE {
            best = v;
            found = true;
        }
    }
    proof {
        if !found {
            assert(crate::vec3::dot_wide_spec(best@, best@) == 0) by (nonlinear_arith)
                requires best@ == crate::vec3::v3_zero();
            assert(0int / 65536int == 0) by (nonlinear_arith);
        }
    }
    best
}

/// The cosine of the half-angle of the cone a sphere of radius
/// `radius` subtends at squared distance `sqd`: the lower bound every
/// drawn local z respects.
pub open spec fn cone_cos_spec(radius: int, sqd: int) -> int {
    let ratio = (radius * radius) / sqd;
    let inner = if ratio > SCALE as int {
        0
    } else {
        SCALE as int - ratio
    };
    crate::fx::sqrt_floor(inner * (SCALE as int))
}

/// A direction toward a sphere of the given radius seen from squared
/// distance `squared_distance`, in local frame coordinates: for every
/// draw, the direction stays within the subtended cone (its local z is
/// at least the cone cosine).
pub fn random_to_sphere(radius: i64, squared_distance: i64) -> (r: Vec3)
    requires
        0 <= radius <= 0x2000_0000,
        1 <= squared_distance <= 0x1_0000_0000_0000,
        radius * radius <= squared_distance * SCALE,
    ensures
        in_range(r@, SCALE as int),
        r@.z >= cone_cos_spec(radius as int, squared_distance as int),
        r@.z >= 0,
{
    let r1 = random_f();
    let r2 = random_f();
    // 1 - R^2/d^2 in fixed point, clamped into [0, 1]
    let rr_wide: i128 = (radius as i128) * (radius as i128);
    let ratio_wide = crate::fx::floor_div_i128(rr_wide, squared_distance as i128);
    proof {
        assert(0 <= rr_wide <= 0x2000_0000int * 0x2000_0000) by (nonlinear_arith)
            requires 0 <= radius as int <= 0x2000_0000 && rr_wide == radius as int
                * radius as int;
        lemma_div_is_ordered(rr_wide as int, 65536 * (squared_distance as int),
            squared_distance as int);
        assert((65536 * (squared_distance as int)) / (squared_distance as int) == 65536)
            by (nonlinear_arith)
            requires squared_distance as int >= 1;
    }
    let ratio: i64 = ratio_wide as i64;
    let inner: i64 = if ratio > SCALE {
        0
    } else {
        SCALE - ratio
    };
    let root = sqrt_fx(inner);
    proof {
        assert((inner as int) * (SCALE as int) < (65536int + 1) * (65536int + 1))
            by (nonlinear_arith)
            requires 0 <= inner as int <= 65536;
        lemma_sqrt_bound((inner as int) * (SCALE as int), root as int, SCALE as int);
    }
    // z = 1 + r2 * (root - 1), in [0, 1]
    proof {
        assert(-65536int * 65536 <= r2 as int * ((root - SCALE) as int) <= 0)
            by (nonlinear_arith)
            requires
                0 <= r2 as int && (r2 as int) < 65536,
                -65536 <= (root - SCALE) as int <= 0;
        lemma_div_range(r2 as int * ((root - SCALE) as int), 65536int * 65536, SCALE as int);
        assert((65536int * 65536) / 65536int == 65536) by (nonlinear_arith);
    }
    proof {
        // a fractional blend toward the cone edge never crosses it:
        // r2 < 1 keeps the step no larger than root - 1 in magnitude
        assert((r2 as int) * ((root - SCALE) as int) >= (SCALE as int) * ((root
            - SCALE) as int)) by (nonlinear_arith)
            requires
                0 <= r2 as int && (r2 as int) <= SCALE as int,
                (root - SCALE) as int <= 0;
        lemma_div_is_ordered((SCALE as int) * ((root - SCALE) as int),
            (r2 as int) * ((root - SCALE) as int), SCALE as int);
        vstd::arithmetic::div_mod::lemma_div_multiples_vanish((root - SCALE) as int,
            SCALE as int);
    }
    let dz = crate::fx::fx_mul(r2, root - SCALE);
    let z: i64 = if SCALE + dz < 0 {
        0
    } else {
        SCALE + dz
    };
    // x, y = cos/sin(2 pi r1) * sqrt(1 - z^2)
    proof {
        assert(0 <= z as int * z as int <= 65536int * 65536) by (nonlinear_arith)
            requires 0 <= z as int <= 65536;
        lemma_div_range(z as int * z as int, 65536int * 65536, SCALE as int);
        assert((65536int * 65536) / 65536int == 65536) by (nonlinear_arith);
        lemma_div_pos_is_pos(z as int * z as int, SCALE as int);
    }
    let zz = crate::fx::fx_mul(z, z);
    let flat: i64 = if zz > SCALE {
        0
    } else {
        SCALE - zz
    };
    let s = sqrt_fx(flat);
    proof {
        assert((flat as int) * (SCALE as int) < (65536int + 1) * (65536int + 1))
            by (nonlinear_arith)
            requires 0 <= flat as int <= 65536;
        lemma_sqrt_bound((flat as int) * (SCALE as int), s as int, SCALE as int);
    }
    let c = cos_turns(r1);
    let sn = sin_turns(r1);
    proof {
        assert(-65536int * 65536 <= c as int * s as int <= 65536int * 65536
            && -65536int * 65536 <= sn as int * s as int <= 65536int * 65536)
            by (nonlinear_arith)
            requires
                -65536 <= c as int <= 65536,
                -65536 <= sn as int <= 65536,
                0 <= s as int <= 65536;
        lemma_div_range(c as int * s as int, 65536int * 65536, SCALE as int);
        lemma_div_range(sn as int * s as int, 65536int * 65536, SCALE as int);
        assert((65536int * 65536) / 65536int == 65536) by (nonlinear_arith);
    }
    let x = crate::fx::fx_mul(c, s);
    let y = crate::fx::fx_mul(sn, s);
    let xc = if x < -SCALE {
        -SCALE
    } else {
        x
    };
    let yc = if y < -SCALE {
        -SCALE
    } else {
        y
    };
    Vec3::new(xc, yc, z)
}

} // verus!
