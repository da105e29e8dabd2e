//! Orthonormal-basis frames built from a single direction, used to orient
//! sampled directions around a surface normal.

use vstd::prelude::*;
#[allow(unused_imports)]
use vstd::arithmetic::div_mod::lemma_div_is_ordered;
use crate::fx::{lemma_div_range, SCALE};
use crate::vec3::{Color, V3, Vec3, in_range, unit_spec, v3_add, v3_cross, v3_scale, v3_zero};

verus! {

/// Mathematical model of a frame: the three axis vectors.
pub ghost struct OnbV {
    pub u: V3,
    pub v: V3,
    pub w: V3,
}

#[derive(Clone, Copy, PartialEq, Eq, Structural, Debug)]
pub struct Onb {
    pub u_axis: Vec3,
    pub v_axis: Vec3,
    pub w_axis: Vec3,
}

impl View for Onb {
    type V = OnbV;

    open spec fn view(&self) -> OnbV {
        OnbV { u: self.u_axis@, v: self.v_axis@, w: self.w_axis@ }
    }
}

/// Axis components stay within twice a unit: what `build_from_w` grants
/// and `local` needs.
pub open spec fn onb_wf(o: OnbV) -> bool {
    in_range(o.u, 2 * SCALE as int) && in_range(o.v, 2 * SCALE as int) && in_range(
        o.w,
        2 * SCALE as int,
    )
}

/// The axis picked to cross against `w`: away from the dominant direction.
pub open spec fn pick_cross_axis(w: V3) -> V3 {
    if w.x > 58982 || w.x < -58982 {
        V3 { x: 0, y: SCALE as int, z: 0 }
    } else {
        V3 { x: SCALE as int, y: 0, z: 0 }
    }
}

/// The frame grown from a direction: `w` is the unit of `n`, `v` the unit
/// of a cross with a fixed axis, `u` their cross. A degenerate cross falls
/// back to a fixed frame.
pub open spec fn build_from_w_spec(n: V3) -> OnbV {
    let w = unit_spec(n);
    let a = pick_cross_axis(w);
    let cv = v3_cross(w, a);
    if cv == v3_zero() {
        OnbV {
            u: V3 { x: SCALE as int, y: 0, z: 0 },
            v: V3 { x: 0, y: SCALE as int, z: 0 },
            w: w,
        }
    } else {
        let v = unit_spec(cv);
        OnbV { u: v3_cross(w, v), v: v, w: w }
    }
}

/// A vector with frame coordinates `a` back in world coordinates.
pub open spec fn onb_local_spec(o: OnbV, a: V3) -> V3 {
    v3_add(v3_add(v3_scale(o.u, a.x), v3_scale(o.v, a.y)), v3_scale(o.w, a.z))
}

impl Onb {
    pub fn new() -> (r: Onb)
        ensures
            r@ == (OnbV { u: v3_zero(), v: v3_zero(), w: v3_zero() }),
            onb_wf(r@),
    {
        Onb { u_axis: Vec3::zero(), v_axis: Vec3::zero(), w_axis: Vec3::zero() }
    }

    pub fn u(&self) -> (r: Color)
        ensures
            r@ == self@.u,
    {
        self.u_axis
    }

    pub fn v(&self) -> (r: Color)
        ensures
            r@ == self@.v,
    {
        self.v_axis
    }

    pub fn w(&self) -> (r: Color)
        ensures
            r@ == self@.w,
    {
        self.w_axis
    }

    /// Map frame coordinates to world coordinates.
    pub fn local(&self, a: &Color) -> (r: Color)
        requires
            onb_wf(self@),
            in_range(a@, 0x8000_0000),
        ensures
            r@ == onb_local_spec(self@, a@),
    {
        proof {
            lemma_local_bounds(self@, a@);
        }
        let su = self.u_axis.scale(a.x);
        let sv = self.v_axis.scale(a.y);
        let sw = self.w_axis.scale(a.z);
        su.plus(&sv).plus(&sw)
    }

    /// Map frame coordinates, given as three scalars, to world
    /// coordinates.
    pub fn local_single(&self, a: i64, b: i64, c: i64) -> (r: Color)
        requires
            onb_wf(self@),
            -0x8000_0000 <= a <= 0x8000_0000,
            -0x8000_0000 <= b <= 0x8000_0000,
            -0x8000_0000 <= c <= 0x8000_0000,
        ensures
            r@ == onb_local_spec(self@, V3 { x: a as int, y: b as int, z: c as int }),
    {
        let coords = Vec3::new(a, b, c);
        self.local(&coords)
    }

    /// Build the frame around a nonzero direction.
    pub fn build_from_w(n: &Color) -> (r: Onb)
        requires
            in_range(n@, 0x8000_0000),
            n@ != v3_zero(),
        ensures
            r@ == build_from_w_spec(n@),
            onb_wf(r@),
    {
        let w = n.unit();
        let a = if w.x > 58982 || w.x < -58982 {
            Vec3::new(0, SCALE, 0)
        } else {
            Vec3::new(SCALE, 0, 0)
        };
        let cv = Vec3::cross(w, a);
        if cv.x == 0 && cv.y == 0 && cv.z == 0 {
            Onb { u_axis: Vec3::new(SCALE, 0, 0), v_axis: Vec3::new(0, SCALE, 0), w_axis: w }
        } else {
            let v = cv.unit();
            proof {
                lemma_cross_unit_range(w@, v@);
            }
            let u = Vec3::cross(w, v);
            Onb { u_axis: u, v_axis: v, w_axis: w }
        }
    }
}

/// Decide well-formedness of a frame at run time.
pub fn onb_wf_check(o: &Onb) -> (r: bool)
    ensures
        r == onb_wf(o@),
{
    o.u_axis.x <= 2 * SCALE && o.u_axis.x >= -2 * SCALE && o.u_axis.y <= 2 * SCALE
        && o.u_axis.y >= -2 * SCALE && o.u_axis.z <= 2 * SCALE && o.u_axis.z >= -2 * SCALE
        && o.v_axis.x <= 2 * SCALE && o.v_axis.x >= -2 * SCALE && o.v_axis.y <= 2 * SCALE
        && o.v_axis.y >= -2 * SCALE && o.v_axis.z <= 2 * SCALE && o.v_axis.z >= -2 * SCALE
        && o.w_axis.x <= 2 * SCALE && o.w_axis.x >= -2 * SCALE && o.w_axis.y <= 2 * SCALE
        && o.w_axis.y >= -2 * SCALE && o.w_axis.z <= 2 * SCALE && o.w_axis.z >= -2 * SCALE
}

/// The cross product of two unit-bounded vectors stays within two units.
proof fn lemma_cross_unit_range(a: V3, b: V3)
    requires
        in_range(a, SCALE as int),
        in_range(b, SCALE as int),
    ensures
        in_range(v3_cross(a, b), 2 * SCALE as int),
{
    assert(-0x1_0000_0000 <= a.y * b.z <= 0x1_0000_0000
        && -0x1_0000_0000 <= a.z * b.y <= 0x1_0000_0000
        && -0x1_0000_0000 <= a.z * b.x <= 0x1_0000_0000
        && -0x1_0000_0000 <= a.x * b.z <= 0x1_0000_0000
        && -0x1_0000_0000 <= a.x * b.y <= 0x1_0000_0000
        && -0x1_0000_0000 <= a.y * b.x <= 0x1_0000_0000) by (nonlinear_arith)
        requires
            in_range(a, 65536int),
            in_range(b, 65536int);
    lemma_div_is_ordered(-0x2_0000_0000, a.y * b.z - a.z * b.y, SCALE as int);
    lemma_div_is_ordered(a.y * b.z - a.z * b.y, 0x2_0000_0000, SCALE as int);
    lemma_div_is_ordered(-0x2_0000_0000, a.z * b.x - a.x * b.z, SCALE as int);
    lemma_div_is_ordered(a.z * b.x - a.x * b.z, 0x2_0000_0000, SCALE as int);
    lemma_div_is_ordered(-0x2_0000_0000, a.x * b.y - a.y * b.x, SCALE as int);
    lemma_div_is_ordered(a.x * b.y - a.y * b.x, 0x2_0000_0000, SCALE as int);
    assert((-0x2_0000_0000int) / 65536int == -2 * 65536 && 0x2_0000_0000int / 65536int == 2
        * 65536) by (nonlinear_arith);
}

proof fn lemma_local_bounds(o: OnbV, a: V3)
    requires
        onb_wf(o),
        in_range(a, 0x8000_0000),
    ensures
        -0x4000_0000_0000_0000_0000 <= o.u.x * a.x <= 0x4000_0000_0000_0000_0000,
        -0x4000_0000_0000_0000_0000 <= o.u.y * a.x <= 0x4000_0000_0000_0000_0000,
        -0x4000_0000_0000_0000_0000 <= o.u.z * a.x <= 0x4000_0000_0000_0000_0000,
        -0x4000_0000_0000_0000_0000 <= o.v.x * a.y <= 0x4000_0000_0000_0000_0000,
        -0x4000_0000_0000_0000_0000 <= o.v.y * a.y <= 0x4000_0000_0000_0000_0000,
        -0x4000_0000_0000_0000_0000 <= o.v.z * a.y <= 0x4000_0000_0000_0000_0000,
        -0x4000_0000_0000_0000_0000 <= o.w.x * a.z <= 0x4000_0000_0000_0000_0000,
        -0x4000_0000_0000_0000_0000 <= o.w.y * a.z <= 0x4000_0000_0000_0000_0000,
        -0x4000_0000_0000_0000_0000 <= o.w.z * a.z <= 0x4000_0000_0000_0000_0000,
        in_range(v3_scale(o.u, a.x), 0x8_0000_0000_0000),
        in_range(v3_scale(o.v, a.y), 0x8_0000_0000_0000),
        in_range(v3_scale(o.w, a.z), 0x8_0000_0000_0000),
        in_range(v3_add(v3_scale(o.u, a.x), v3_scale(o.v, a.y)), 0x10_0000_0000_0000),
{
    lemma_axis_scale(o.u, a.x);
    lemma_axis_scale(o.v, a.y);
    lemma_axis_scale(o.w, a.z);
}

proof fn lemma_axis_scale(v: V3, k: int)
    requires
        in_range(v, 2 * SCALE as int),
        -0x8000_0000 <= k <= 0x8000_0000,
    ensures
        -0x4000_0000_0000_0000_0000 <= v.x * k <= 0x4000_0000_0000_0000_0000,
        -0x4000_0000_0000_0000_0000 <= v.y * k <= 0x4000_0000_0000_0000_0000,
        -0x4000_0000_0000_0000_0000 <= v.z * k <= 0x4000_0000_0000_0000_0000,
        in_range(v3_scale(v, k), 0x8_0000_0000_0000),
{
    assert(-0x2_0000_0000_0000 <= v.x * k <= 0x2_0000_0000_0000
        && -0x2_0000_0000_0000 <= v.y * k <= 0x2_0000_0000_0000
        && -0x2_0000_0000_0000 <= v.z * k <= 0x2_0000_0000_0000) by (nonlinear_arith)
        requires
            in_range(v, 2 * 65536int),
            -0x8000_0000 <= k <= 0x8000_0000;
    lemma_div_range(v.x * k, 0x2_0000_0000_0000, SCALE as int);
    lemma_div_range(v.y * k, 0x2_0000_0000_0000, SCALE as int);
    lemma_div_range(v.z * k, 0x2_0000_0000_0000, SCALE as int);
    assert(0x2_0000_0000_0000int / 65536int == 0x2_0000_0000) by (nonlinear_arith);
}

} // verus!
