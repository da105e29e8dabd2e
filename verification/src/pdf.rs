//! Sampling densities for scattered directions: the cosine-weighted
//! hemisphere density, the density toward a target surface, and their
//! 50/50 mixture used for multiple importance sampling.

use vstd::prelude::*;
use crate::fx::{fx_div_sat_spec, fx_div_sat, RAY_BOUND, PI_FX, SCALE};
use crate::hittable::{set_wf, spec_pdf_value, SurfaceSet};
use crate::onb::{build_from_w_spec, onb_local_spec, onb_wf, Onb, OnbV};
use crate::rng::{random_cosine_direction, random_f};
use crate::vec3::{dot_spec, in_range, unit_spec, v3_zero, Color, Point3, V3, Vec3};
#[allow(unused_imports)]
use vstd::arithmetic::div_mod::{lemma_div_is_ordered, lemma_div_pos_is_pos};

verus! {

/// The cosine-weighted density around a frame's w axis: `cos(theta)/pi`
/// for directions above the horizon, zero below it or for a degenerate
/// direction.
pub open spec fn cosine_pdf_value_spec(o: OnbV, d: V3) -> int {
    if d == v3_zero() {
        0
    } else {
        let c = dot_spec(unit_spec(d), o.w);
        if c <= 0 {
            0
        } else {
            fx_div_sat_spec(c, PI_FX as int, SCALE as int)
        }
    }
}

#[derive(Clone, Copy, PartialEq, Eq, Structural, Debug)]
pub struct CosinePdf {
    pub uvw: Onb,
}

impl CosinePdf {
    /// A frame whose w axis is the given direction.
    pub fn new(w: &Color) -> (r: CosinePdf)
        requires
            in_range(w@, 0x8000_0000),
            w@ != v3_zero(),
        ensures
            r.uvw@ == build_from_w_spec(w@),
            onb_wf(r.uvw@),
    {
        CosinePdf { uvw: Onb::build_from_w(w) }
    }

    /// The density of a direction under this cosine lobe.
    pub fn value(&self, direction: &Vec3) -> (r: i64)
        requires
            onb_wf(self.uvw@),
            in_range(direction@, 0x8000_0000),
        ensures
            r == cosine_pdf_value_spec(self.uvw@, direction@),
            0 <= r <= SCALE,
    {
        if direction.x == 0 && direction.y == 0 && direction.z == 0 {
            return 0;
        }
        let unit = direction.unit();
        let cosine = Vec3::dot(unit, self.uvw.w_axis);
        if cosine <= 0 {
            return 0;
        }
        proof {
            assert(0 <= cosine as int * (SCALE as int)) by (nonlinear_arith)
                requires cosine as int > 0;
            lemma_div_pos_is_pos(cosine as int * (SCALE as int), PI_FX as int);
        }
        fx_div_sat(cosine, PI_FX, SCALE)
    }

    /// A direction drawn from the cosine lobe: for every draw, the
    /// result is the frame's image of some upper-hemisphere local
    /// sample.
    pub fn generate(&self) -> (r: Vec3)
        requires
            onb_wf(self.uvw@),
        ensures
            in_range(r@, 0x40_0000),
            exists|a: V3|
                in_range(a, SCALE as int) && a.z >= 0 && r@ == #[trigger] onb_local_spec(
                    self.uvw@,
                    a,
                ),
    {
        let sample = random_cosine_direction();
        proof {
            lemma_local_out_range(self.uvw@, sample@);
        }
        let out = self.uvw.local(&sample);
        proof {
            assert(in_range(sample@, SCALE as int) && sample@.z >= 0 && out@
                == onb_local_spec(self.uvw@, sample@));
        }
        out
    }
}

/// A frame-local vector with unit-bounded coordinates maps to a vector
/// of a few units.
pub proof fn lemma_local_sample_range(o: OnbV, a: V3)
    requires
        onb_wf(o),
        in_range(a, SCALE as int),
    ensures
        in_range(onb_local_spec(o, a), 0x4000_0000),
{
    lemma_local_out_range(o, a);
}

proof fn lemma_local_out_range(o: OnbV, a: V3)
    requires
        onb_wf(o),
        in_range(a, SCALE as int),
    ensures
        in_range(onb_local_spec(o, a), 0x40_0000),
{
    lemma_scale_unit(o.u, a.x);
    lemma_scale_unit(o.v, a.y);
    lemma_scale_unit(o.w, a.z);
}

proof fn lemma_scale_unit(v: V3, k: int)
    requires
        in_range(v, 2 * SCALE as int),
        -(SCALE as int) <= k <= SCALE as int,
    ensures
        in_range(crate::vec3::v3_scale(v, k), 3 * SCALE as int),
{
    assert(-(2 * 65536int * 65536) <= v.x * k <= 2 * 65536int * 65536
        && -(2 * 65536int * 65536) <= v.y * k <= 2 * 65536int * 65536
        && -(2 * 65536int * 65536) <= v.z * k <= 2 * 65536int * 65536) by (nonlinear_arith)
        requires
            in_range(v, 2 * 65536int),
            -65536 <= k <= 65536;
    crate::fx::lemma_div_range(v.x * k, 2 * 65536int * 65536, SCALE as int);
    crate::fx::lemma_div_range(v.y * k, 2 * 65536int * 65536, SCALE as int);
    crate::fx::lemma_div_range(v.z * k, 2 * 65536int * 65536, SCALE as int);
    assert((2 * 65536int * 65536) / 65536int == 2 * 65536int) by (nonlinear_arith);
}

/// The density toward a target surface from a fixed origin: delegation
/// to the surface's own density and sampler.
#[derive(Clone, Copy, PartialEq, Eq, Structural, Debug)]
pub struct HittablePdf {
    pub orig: Point3,
    pub ptr: usize,
}

impl HittablePdf {
    pub fn new(p: usize, origin: Point3) -> (r: HittablePdf)
        ensures
            r.ptr == p,
            r.orig == origin,
    {
        HittablePdf { orig: origin, ptr: p }
    }

    /// The target surface's density for this direction.
    pub fn value(&self, set: &SurfaceSet, direction: &Vec3) -> (r: i64)
        requires
            set_wf(set),
            self.ptr < set.surfaces@.len(),
            in_range(self.orig@, RAY_BOUND as int),
            in_range(direction@, RAY_BOUND as int),
        ensures
            r == spec_pdf_value(set.surfaces@, self.ptr as int, self.orig@, direction@),
            0 <= r <= 0x4000_0000_0000_0000,
    {
        set.pdf_value(self.ptr, &self.orig, direction)
    }

    /// A direction drawn toward the target surface.
    pub fn generate(&self, set: &SurfaceSet) -> (r: Vec3)
        requires
            set_wf(set),
            self.ptr < set.surfaces@.len(),
            in_range(self.orig@, RAY_BOUND as int),
        ensures
            in_range(r@, 0x4000_0000),
    {
        set.random(self.ptr, &self.orig)
    }
}

/// The even mixture of two direction densities: its density is the
/// arithmetic mean of the two component densities, and a draw picks one
/// component with equal probability.
pub struct MixturePdf {
    pub p0: HittablePdf,
    pub p1: CosinePdf,
}

impl MixturePdf {
    pub fn new(p0: HittablePdf, p1: CosinePdf) -> (r: MixturePdf)
        ensures
            r.p0 == p0,
            r.p1 == p1,
    {
        MixturePdf { p0, p1 }
    }

    /// The mixture density: exactly the mean of the two component
    /// densities, rounded down.
    pub fn value(&self, set: &SurfaceSet, direction: &Vec3) -> (r: i64)
        requires
            set_wf(set),
            self.p0.ptr < set.surfaces@.len(),
            in_range(self.p0.orig@, RAY_BOUND as int),
            in_range(direction@, RAY_BOUND as int),
            onb_wf(self.p1.uvw@),
        ensures
            r == (spec_pdf_value(set.surfaces@, self.p0.ptr as int, self.p0.orig@,
                direction@) + cosine_pdf_value_spec(self.p1.uvw@, direction@)) / 2,
            0 <= r <= 0x4000_0000_0000_0000,
    {
        let a = self.p0.value(set, direction);
        let b = self.p1.value(direction);
        let sum: i128 = (a as i128) + (b as i128);
        proof {
            crate::fx::lemma_div_bounds(sum as int, 2);
            vstd::arithmetic::div_mod::lemma_div_pos_is_pos(sum as int, 2);
            vstd::arithmetic::div_mod::lemma_div_is_ordered(sum as int,
                2 * 0x4000_0000_0000_0000int, 2);
            vstd::arithmetic::div_mod::lemma_div_multiples_vanish(0x4000_0000_0000_0000int,
                2int);
        }
        crate::fx::floor_div_i128(sum, 2) as i64
    }

    /// Draw from one of the two components, chosen with equal chance.
    pub fn generate(&self, set: &SurfaceSet) -> (r: Vec3)
        requires
            set_wf(set),
            self.p0.ptr < set.surfaces@.len(),
            in_range(self.p0.orig@, RAY_BOUND as int),
            onb_wf(self.p1.uvw@),
        ensures
            in_range(r@, 0x4000_0000),
    {
        if random_f() < SCALE / 2 {
            self.p0.generate(set)
        } else {
            self.p1.generate()
        }
    }
}

} // verus!
