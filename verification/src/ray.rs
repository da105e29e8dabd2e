//! Rays: an origin, a direction and a time for motion blur.

use vstd::prelude::*;
use crate::fx::{lemma_div_range, RAY_BOUND, SCALE, T_MAX_FX};
use crate::vec3::{Color, Point3, V3, Vec3, in_range, v3_add, v3_scale};

verus! {

/// Mathematical model of a ray.
pub ghost struct RayV {
    pub orig: V3,
    pub dir: V3,
    pub tm: int,
}

#[derive(Clone, Copy, PartialEq, Eq, Structural, Debug)]
pub struct Ray {
    pub orig: Point3,
    pub dir: Vec3,
    pub tm: i64,
}

impl View for Ray {
    type V = RayV;

    open spec fn view(&self) -> RayV {
        RayV { orig: self.orig@, dir: self.dir@, tm: self.tm as int }
    }
}

/// The point a ray reaches at parameter `t`.
pub open spec fn ray_at_spec(r: RayV, t: int) -> V3 {
    v3_add(r.orig, v3_scale(r.dir, t))
}

/// A ray whose origin and direction the intersection routines accept.
pub open spec fn ray_in_range(r: RayV) -> bool {
    in_range(r.orig, RAY_BOUND as int) && in_range(r.dir, RAY_BOUND as int) && -T_MAX_FX
        <= r.tm <= T_MAX_FX
}

impl Ray {
    pub fn new(origin: &Point3, direction: &Color, time: i64) -> (r: Ray)
        ensures
            r@ == (RayV { orig: origin@, dir: direction@, tm: time as int }),
    {
        Ray { orig: *origin, dir: *direction, tm: time }
    }

    pub fn new_default(origin: &Point3, direction: &Color) -> (r: Ray)
        ensures
            r@ == (RayV { orig: origin@, dir: direction@, tm: 0 }),
    {
        Ray { orig: *origin, dir: *direction, tm: 0 }
    }

    pub fn origin(&self) -> (r: Point3)
        ensures
            r@ == self@.orig,
    {
        self.orig
    }

    pub fn direction(&self) -> (r: Color)
        ensures
            r@ == self@.dir,
    {
        self.dir
    }

    pub fn time(&self) -> (r: i64)
        ensures
            r == self@.tm,
    {
        self.tm
    }

    /// Walk the ray to parameter `t`.
    pub fn at(&self, t: i64) -> (p: Point3)
        requires
            ray_in_range(self@),
            -T_MAX_FX <= t <= T_MAX_FX,
        ensures
            p@ == ray_at_spec(self@, t as int),
            in_range(p@, 0x40_0000_0000_0000),
    {
        proof {
            lemma_at_bounds(self@, t as int);
        }
        let step = self.dir.scale(t);
        self.orig.plus(&step)
    }
}

/// The intermediates of `Ray::at` stay within vector limits.
pub proof fn lemma_at_bounds(r: RayV, t: int)
    requires
        ray_in_range(r),
        -T_MAX_FX <= t <= T_MAX_FX,
    ensures
        -0x4000_0000_0000_0000_0000 <= r.dir.x * t <= 0x4000_0000_0000_0000_0000,
        -0x4000_0000_0000_0000_0000 <= r.dir.y * t <= 0x4000_0000_0000_0000_0000,
        -0x4000_0000_0000_0000_0000 <= r.dir.z * t <= 0x4000_0000_0000_0000_0000,
        in_range(v3_scale(r.dir, t), 0x20_0000_0000_0001),
{
    assert(-0x20_0000_0000_0000_0000 <= r.dir.x * t <= 0x20_0000_0000_0000_0000
        && -0x20_0000_0000_0000_0000 <= r.dir.y * t <= 0x20_0000_0000_0000_0000
        && -0x20_0000_0000_0000_0000 <= r.dir.z * t <= 0x20_0000_0000_0000_0000)
        by (nonlinear_arith)
        requires
            in_range(r.dir, 0x2000_0000),
            -0x100_0000_0000 <= t <= 0x100_0000_0000;
    lemma_div_range(r.dir.x * t, 0x20_0000_0000_0000_0000, SCALE as int);
    lemma_div_range(r.dir.y * t, 0x20_0000_0000_0000_0000, SCALE as int);
    lemma_div_range(r.dir.z * t, 0x20_0000_0000_0000_0000, SCALE as int);
    assert(0x20_0000_0000_0000_0000int / 65536int == 0x20_0000_0000_0000)
        by (nonlinear_arith);
}

} // verus!
