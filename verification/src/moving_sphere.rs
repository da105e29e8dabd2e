//! Spheres whose center slides between two keyframe positions over a
//! shutter interval.

use vstd::prelude::*;
use crate::aabb::{AABB, merge_spec};
use crate::fx::{COORD_BOUND, SCALE, T_MAX_FX, floor_div_i128};
use crate::hittable::{HitRecord, HitV};
use crate::ray::{Ray, RayV, ray_in_range};
use crate::sphere::{sphere_box_spec, sphere_hit_spec, Sphere};
use crate::fx::clamp_spec;
use crate::vec3::{in_range, v3_add, v3_scale, v3_sub, Point3, V3, Vec3};
#[allow(unused_imports)]

verus! {

#[derive(Clone, Copy, PartialEq, Eq, Structural, Debug)]
pub struct MovingSphere {
    pub center0: Point3,
    pub center1: Point3,
    pub time0: i64,
    pub time1: i64,
    pub radius: i64,
    pub mat_ptr: usize,
}

pub open spec fn moving_sphere_wf(s: MovingSphere) -> bool {
    in_range(s.center0@, COORD_BOUND as int) && in_range(s.center1@, COORD_BOUND as int) && 1
        <= s.radius <= COORD_BOUND && 0 <= s.time0 < s.time1 <= SCALE
}

/// The interpolated center, with the blend factor and the result
/// saturated so that any query time yields usable scene coordinates.
pub open spec fn moving_center_spec(s: MovingSphere, tm: int) -> V3 {
    let frac0 = ((tm - s.time0) * (SCALE as int)) / (s.time1 - s.time0 as int);
    let frac = clamp_spec(frac0, -0x2_0000_0000, 0x2_0000_0000);
    let raw = v3_add(s.center0@, v3_scale(v3_sub(s.center1@, s.center0@), frac));
    V3 {
        x: clamp_spec(raw.x, -(COORD_BOUND as int), COORD_BOUND as int),
        y: clamp_spec(raw.y, -(COORD_BOUND as int), COORD_BOUND as int),
        z: clamp_spec(raw.z, -(COORD_BOUND as int), COORD_BOUND as int),
    }
}

impl MovingSphere {
    pub fn new(
        cen0: &Point3,
        cen1: &Point3,
        time0: i64,
        time1: i64,
        radius: i64,
        mat_ptr: usize,
    ) -> (s: MovingSphere)
        ensures
            s == (MovingSphere {
                center0: *cen0,
                center1: *cen1,
                time0,
                time1,
                radius,
                mat_ptr,
            }),
    {
        MovingSphere { center0: *cen0, center1: *cen1, time0, time1, radius, mat_ptr }
    }

    /// Where the center sits at the given time.
    pub fn center(&self, time: i64) -> (c: Point3)
        requires
            moving_sphere_wf(*self),
            -T_MAX_FX <= time <= T_MAX_FX,
        ensures
            c@ == moving_center_spec(*self, time as int),
            in_range(c@, COORD_BOUND as int),
    {
        let span: i64 = self.time1 - self.time0;
        proof {
            assert(-0x200_0000_0000_0000_0000 <= ((time - self.time0) as int) * (SCALE as int)
                <= 0x200_0000_0000_0000_0000) by (nonlinear_arith)
                requires -0x200_0000_0000 <= (time - self.time0) as int <= 0x200_0000_0000;
        }
        let num: i128 = ((time - self.time0) as i128) * (SCALE as i128);
        let frac0 = floor_div_i128(num, span as i128);
        let frac: i64 = if frac0 > 0x2_0000_0000 {
            0x2_0000_0000
        } else if frac0 < -0x2_0000_0000 {
            -0x2_0000_0000
        } else {
            frac0 as i64
        };
        let delta = self.center1.minus(&self.center0);
        proof {
            crate::vec3::lemma_v3_prod_bound(delta@, V3 { x: frac as int, y: frac as int,
                z: frac as int }, 0x2000_0000, 0x2_0000_0000);
        }
        proof {
            assert(-0x4000_0000_0000_0000 <= delta@.x * frac <= 0x4000_0000_0000_0000
                && -0x4000_0000_0000_0000 <= delta@.y * frac <= 0x4000_0000_0000_0000
                && -0x4000_0000_0000_0000 <= delta@.z * frac <= 0x4000_0000_0000_0000)
                by (nonlinear_arith)
                requires
                    in_range(delta@, 0x2000_0000),
                    -0x2_0000_0000 <= frac as int <= 0x2_0000_0000;
            crate::fx::lemma_div_range(delta@.x * frac, 0x4000_0000_0000_0000, SCALE as int);
            crate::fx::lemma_div_range(delta@.y * frac, 0x4000_0000_0000_0000, SCALE as int);
            crate::fx::lemma_div_range(delta@.z * frac, 0x4000_0000_0000_0000, SCALE as int);
            assert(0x4000_0000_0000_0000int / 65536int == 0x4000_0000_0000)
                by (nonlinear_arith);
        }
        let step = delta.scale(frac);
        let raw = self.center0.plus(&step);
        Vec3::new(
            crate::fx::clamp(raw.x, -COORD_BOUND, COORD_BOUND),
            crate::fx::clamp(raw.y, -COORD_BOUND, COORD_BOUND),
            crate::fx::clamp(raw.z, -COORD_BOUND, COORD_BOUND),
        )
    }

    /// The nearest intersection against the sphere positioned at the
    /// ray's time; texture coordinates are not produced here.
    pub fn hit(&self, ray: &Ray, t_min: i64, t_max: i64) -> (res: Option<HitRecord>)
        requires
            moving_sphere_wf(*self),
            ray_in_range(ray@),
            -T_MAX_FX <= t_min <= T_MAX_FX,
            -T_MAX_FX <= t_max <= T_MAX_FX,
        ensures
            crate::hittable::opt_hit_view(res) == moving_sphere_hit_spec(
                *self,
                ray@,
                t_min as int,
                t_max as int,
            ),
            match res {
                Some(rec) => t_min < rec.t < t_max && in_range(rec@.p, 0x40_0000_0000_0000)
                    && in_range(rec@.normal, 0x8000_0000) && rec.mat_ptr == self.mat_ptr,
                None => true,
            },
    {
        let cen = self.center(ray.tm);
        let probe = Sphere::new(&cen, self.radius, self.mat_ptr);
        let res0 = probe.hit(ray, t_min, t_max);
        match res0 {
            Some(rec0) => {
                let mut rec = rec0;
                rec.u = 0;
                rec.v = 0;
                Some(rec)
            },
            None => None,
        }
    }

    /// The merge of the boxes at the two query times.
    pub fn bounding_box(&self, time0: i64, time1: i64) -> (b: AABB)
        requires
            moving_sphere_wf(*self),
            -T_MAX_FX <= time0 <= T_MAX_FX,
            -T_MAX_FX <= time1 <= T_MAX_FX,
        ensures
            b@ == merge_spec(
                sphere_box_spec(moving_center_spec(*self, time0 as int), self.radius as int),
                sphere_box_spec(moving_center_spec(*self, time1 as int), self.radius as int),
            ),
            crate::aabb::aabb_wf(b@),
            crate::aabb::aabb_in_range(b@),
    {
        let c0 = self.center(time0);
        let c1 = self.center(time1);
        let s0 = Sphere::new(&c0, self.radius, self.mat_ptr);
        let s1 = Sphere::new(&c1, self.radius, self.mat_ptr);
        let b0 = s0.bounding_box();
        let b1 = s1.bounding_box();
        crate::aabb::surrounding_box(&b0, &b1)
    }
}

/// A moving sphere hits as the equivalent static sphere at the ray's
/// time, with texture coordinates cleared.
pub open spec fn moving_sphere_hit_spec(s: MovingSphere, r: RayV, tmin: int, tmax: int) -> Option<
    HitV,
> {
    let cen = moving_center_spec(s, r.tm);
    match sphere_hit_spec(cen, s.radius as int, s.mat_ptr as int, r, tmin, tmax) {
        Some(h) => Some(HitV { u: 0, v: 0, ..h }),
        None => None,
    }
}

} // verus!
