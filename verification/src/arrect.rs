//! Axis-aligned rectangles in the three coordinate planes, and the
//! sampling density of the horizontal rectangle used for lights.

use vstd::prelude::*;
use crate::aabb::{AabbV, AABB};
use crate::fx::{
    clamp_spec, div_floor, fx_div_sat_spec, fx_div_sat, fx_mul_spec, fx_mul, floor_div_i128,
    lemma_div_bounds, lemma_div_range, COORD_BOUND, SCALE, T_EPSILON, T_MAX_FX,
};
use crate::hittable::{opt_hit_view, set_face_normal_spec, HitRecord, HitV};
use crate::ray::{ray_at_spec, ray_in_range, Ray, RayV};
use crate::rng::random_f_m;
use crate::vec3::{Point3, V3, Vec3, dot_spec, in_range};
#[allow(unused_imports)]
use vstd::arithmetic::div_mod::{lemma_div_is_ordered, lemma_div_pos_is_pos};

verus! {

/// A rectangle in the plane `z = k`.
#[derive(Clone, Copy, PartialEq, Eq, Structural, Debug)]
pub struct XYRect {
    pub mp: usize,
    pub x0: i64,
    pub x1: i64,
    pub y0: i64,
    pub y1: i64,
    pub k: i64,
}

/// A rectangle in the plane `y = k`.
#[derive(Clone, Copy, PartialEq, Eq, Structural, Debug)]
pub struct XZRect {
    pub mp: usize,
    pub x0: i64,
    pub x1: i64,
    pub z0: i64,
    pub z1: i64,
    pub k: i64,
}

/// A rectangle in the plane `x = k`.
#[derive(Clone, Copy, PartialEq, Eq, Structural, Debug)]
pub struct YZRect {
    pub mp: usize,
    pub y0: i64,
    pub y1: i64,
    pub z0: i64,
    pub z1: i64,
    pub k: i64,
}

pub open spec fn rect_bounds_wf(a0: int, a1: int, b0: int, b1: int, k: int) -> bool {
    -(COORD_BOUND as int) <= a0 < a1 <= COORD_BOUND as int && -(COORD_BOUND as int) <= b0 < b1
        <= COORD_BOUND as int && -(COORD_BOUND as int) <= k <= COORD_BOUND as int
}

/// The generic plane-rectangle intersection: `o_k + t d_k == k`, with the
/// two in-plane coordinates tested against the rectangle's extent. The
/// axis of the plane is abstracted by handing in the right components.
pub open spec fn rect_hit_t(k: int, o_k: int, d_k: int, tmin: int, tmax: int) -> Option<int> {
    if d_k == 0 {
        None
    } else {
        let t = div_floor((k - o_k) * (SCALE as int), d_k);
        if t <= tmin || t >= tmax {
            None
        } else {
            Some(t)
        }
    }
}

/// In-plane coordinate at parameter `t`.
pub open spec fn rect_coord(o: int, d: int, t: int) -> int {
    o + fx_mul_spec(t, d)
}

/// Interpolation ratio within one extent.
pub open spec fn rect_ratio(a: int, a0: int, a1: int) -> int {
    fx_div_sat_spec(a - a0, a1 - a0, SCALE as int)
}

impl XYRect {
    pub fn new(x0: i64, x1: i64, y0: i64, y1: i64, k: i64, mp: usize) -> (r: XYRect)
        ensures
            r == (XYRect { mp, x0, x1, y0, y1, k }),
    {
        XYRect { mp, x0, x1, y0, y1, k }
    }

    pub open spec fn wf(&self) -> bool {
        rect_bounds_wf(self.x0 as int, self.x1 as int, self.y0 as int, self.y1 as int,
            self.k as int)
    }

    pub open spec fn hit_spec(&self, r: RayV, tmin: int, tmax: int) -> Option<HitV> {
        match rect_hit_t(self.k as int, r.orig.z, r.dir.z, tmin, tmax) {
            None => None,
            Some(t) => {
                let x = rect_coord(r.orig.x, r.dir.x, t);
                let y = rect_coord(r.orig.y, r.dir.y, t);
                if x < self.x0 || x > self.x1 || y < self.y0 || y > self.y1 {
                    None
                } else {
                    let outward = V3 { x: 0, y: 0, z: SCALE as int };
                    Some(
                        set_face_normal_spec(
                            HitV {
                                p: ray_at_spec(r, t),
                                normal: outward,
                                mat_ptr: self.mp as int,
                                t: t,
                                u: rect_ratio(x, self.x0 as int, self.x1 as int),
                                v: rect_ratio(y, self.y0 as int, self.y1 as int),
                                front_face: false,
                            },
                            r,
                            outward,
                        ),
                    )
                }
            },
        }
    }

    pub fn hit(&self, ray: &Ray, t_min: i64, t_max: i64) -> (res: Option<HitRecord>)
        requires
            self.wf(),
            ray_in_range(ray@),
            -T_MAX_FX <= t_min <= T_MAX_FX,
            -T_MAX_FX <= t_max <= T_MAX_FX,
        ensures
            opt_hit_view(res) == self.hit_spec(ray@, t_min as int, t_max as int),
            match res {
                Some(rec) => t_min < rec.t < t_max && in_range(rec@.p, 0x40_0000_0000_0000)
                    && in_range(rec@.normal, 0x8000_0000) && rec.mat_ptr == self.mp,
                None => true,
            },
    {
        let t = match rect_solve_t(self.k, ray.orig.z, ray.dir.z, t_min, t_max) {
            None => {
                return None;
            },
            Some(t) => t,
        };
        let x = rect_coord_at(ray.orig.x, ray.dir.x, t);
        let y = rect_coord_at(ray.orig.y, ray.dir.y, t);
        if x < self.x0 || x > self.x1 || y < self.y0 || y > self.y1 {
            return None;
        }
        let outward = Vec3::new(0, 0, SCALE);
        let mut rec = HitRecord {
            p: ray.at(t),
            normal: Vec3::zero(),
            mat_ptr: self.mp,
            t,
            u: fx_div_sat(x - self.x0, self.x1 - self.x0, SCALE),
            v: fx_div_sat(y - self.y0, self.y1 - self.y0, SCALE),
            front_face: false,
        };
        rec.set_face_normal(ray, &outward);
        Some(rec)
    }

    /// The flat box around the rectangle, padded along its axis.
    pub fn bounding_box(&self) -> (b: AABB)
        requires
            self.wf(),
        ensures
            b@ == (AabbV {
                minimum: V3 { x: self.x0 as int, y: self.y0 as int, z: self.k - 66 },
                maximum: V3 { x: self.x1 as int, y: self.y1 as int, z: self.k + 66 },
            }),
            crate::aabb::aabb_wf(b@),
            crate::aabb::aabb_in_range(b@),
    {
        AABB::new(
            &Vec3::new(self.x0, self.y0, self.k - 66),
            &Vec3::new(self.x1, self.y1, self.k + 66),
        )
    }
}

impl XZRect {
    pub fn new(x0: i64, x1: i64, z0: i64, z1: i64, k: i64, mp: usize) -> (r: XZRect)
        ensures
            r == (XZRect { mp, x0, x1, z0, z1, k }),
    {
        XZRect { mp, x0, x1, z0, z1, k }
    }

    pub open spec fn wf(&self) -> bool {
        rect_bounds_wf(self.x0 as int, self.x1 as int, self.z0 as int, self.z1 as int,
            self.k as int)
    }

    pub open spec fn hit_spec(&self, r: RayV, tmin: int, tmax: int) -> Option<HitV> {
        match rect_hit_t(self.k as int, r.orig.y, r.dir.y, tmin, tmax) {
            None => None,
            Some(t) => {
                let x = rect_coord(r.orig.x, r.dir.x, t);
                let z = rect_coord(r.orig.z, r.dir.z, t);
                if x < self.x0 || x > self.x1 || z < self.z0 || z > self.z1 {
                    None
                } else {
                    let outward = V3 { x: 0, y: SCALE as int, z: 0 };
                    Some(
                        set_face_normal_spec(
                            HitV {
                                p: ray_at_spec(r, t),
                                normal: outward,
                                mat_ptr: self.mp as int,
                                t: t,
                                u: rect_ratio(x, self.x0 as int, self.x1 as int),
                                v: rect_ratio(z, self.z0 as int, self.z1 as int),
                                front_face: false,
                            },
                            r,
                            outward,
                        ),
                    )
                }
            },
        }
    }

    pub fn hit(&self, ray: &Ray, t_min: i64, t_max: i64) -> (res: Option<HitRecord>)
        requires
            self.wf(),
            ray_in_range(ray@),
            -T_MAX_FX <= t_min <= T_MAX_FX,
            -T_MAX_FX <= t_max <= T_MAX_FX,
        ensures
            opt_hit_view(res) == self.hit_spec(ray@, t_min as int, t_max as int),
            match res {
                Some(rec) => t_min < rec.t < t_max && in_range(rec@.p, 0x40_0000_0000_0000)
                    && in_range(rec@.normal, 0x8000_0000) && rec.mat_ptr == self.mp,
                None => true,
            },
    {
        let t = match rect_solve_t(self.k, ray.orig.y, ray.dir.y, t_min, t_max) {
            None => {
                return None;
            },
            Some(t) => t,
        };
        let x = rect_coord_at(ray.orig.x, ray.dir.x, t);
        let z = rect_coord_at(ray.orig.z, ray.dir.z, t);
        if x < self.x0 || x > self.x1 || z < self.z0 || z > self.z1 {
            return None;
        }
        let outward = Vec3::new(0, SCALE, 0);
        let mut rec = HitRecord {
            p: ray.at(t),
            normal: Vec3::zero(),
            mat_ptr: self.mp,
            t,
            u: fx_div_sat(x - self.x0, self.x1 - self.x0, SCALE),
            v: fx_div_sat(z - self.z0, self.z1 - self.z0, SCALE),
            front_face: false,
        };
        rec.set_face_normal(ray, &outward);
        Some(rec)
    }

    pub fn bounding_box(&self) -> (b: AABB)
        requires
            self.wf(),
        ensures
            b@ == (AabbV {
                minimum: V3 { x: self.x0 as int, y: self.k - 66, z: self.z0 as int },
                maximum: V3 { x: self.x1 as int, y: self.k + 66, z: self.z1 as int },
            }),
            crate::aabb::aabb_wf(b@),
            crate::aabb::aabb_in_range(b@),
    {
        AABB::new(
            &Vec3::new(self.x0, self.k - 66, self.z0),
            &Vec3::new(self.x1, self.k + 66, self.z1),
        )
    }

    /// The sampling density toward this rectangle from `o` along `v`:
    /// squared distance over projected area, zero on a miss or a
    /// degenerate denominator; exact against `xz_pdf_spec`.
    pub fn pdf_value(&self, o: &Point3, v: &Vec3) -> (pdf: i64)
        requires
            self.wf(),
            in_range(o@, 0x2000_0000),
            in_range(v@, 0x2000_0000),
        ensures
            pdf == xz_pdf_spec(self, o@, v@),
            0 <= pdf <= 0x4000_0000_0000_0000,
            self.hit_spec(RayV { orig: o@, dir: v@, tm: 0 }, T_EPSILON as int, T_MAX_FX as int)
                is None ==> pdf == 0,
    {
        let probe = Ray::new_default(o, v);
        let res = self.hit(&probe, T_EPSILON, T_MAX_FX);
        match res {
            None => 0,
            Some(rec) => {
                proof {
                    assert(0 <= (self.x1 - self.x0) as int * ((self.z1 - self.z0) as int)
                        <= 0x2000_0000int * 0x2000_0000) by (nonlinear_arith)
                        requires
                            0 < (self.x1 - self.x0) as int <= 0x2000_0000,
                            0 < (self.z1 - self.z0) as int <= 0x2000_0000;
                    lemma_div_pos_is_pos((self.x1 - self.x0) as int * ((self.z1 - self.z0) as int),
                        SCALE as int);
                }
                let area = fx_mul(self.x1 - self.x0, self.z1 - self.z0);
                proof {
                    lemma_div_is_ordered((self.x1 - self.x0) as int * ((self.z1
                        - self.z0) as int), 0x2000_0000int * 0x2000_0000, SCALE as int);
                    assert((0x2000_0000int * 0x2000_0000) / 65536int == 0x400_0000_0000int)
                        by (nonlinear_arith);
                }
                let vlen2 = v.squared_length();
                let vl = v.length();
                if vl <= 0 {
                    return 0;
                }
                let t128: i128 = rec.t as i128;
                proof {
                    assert(0 <= (rec.t as int) * (rec.t as int)
                        <= 0x100_0000_0000int * 0x100_0000_0000) by (nonlinear_arith)
                        requires -0x100_0000_0000 <= rec.t as int <= 0x100_0000_0000;
                }
                let sq_t = floor_div_i128(t128 * t128, SCALE as i128);
                proof {
                    lemma_div_is_ordered((t128 * t128) as int,
                        0x10000_0000_0000_0000_0000int, SCALE as int);
                    assert(0x10000_0000_0000_0000_0000int / 65536int
                        == 0x1_0000_0000_0000_0000int) by (nonlinear_arith);
                    assert(0 <= (sq_t as int) * (vlen2 as int)
                        <= 0x1_0000_0000_0000_0000int * 0xc000_0000_0000)
                        by (nonlinear_arith)
                        requires
                            0 <= sq_t as int <= 0x1_0000_0000_0000_0000,
                            0 <= vlen2 as int <= 0xc000_0000_0000;
                }
                let sqd = floor_div_i128(sq_t * (vlen2 as i128), SCALE as i128);
                let sqd_sat: i64 = if sqd > 0x4000_0000_0000_0000i128 {
                    0x4000_0000_0000_0000
                } else if sqd < 0 {
                    0
                } else {
                    sqd as i64
                };
                let nd = Vec3::dot(*v, rec.normal);
                let ndp: i64 = if nd < 0 {
                    -nd
                } else {
                    nd
                };
                let cos_raw = fx_div_sat(ndp, vl, 2 * SCALE);
                proof {
                    crate::vec3::lemma_prod_bound(cos_raw as int, area as int, 2 * 65536int,
                        0x400_0000_0000);
                }
                let den = fx_mul(cos_raw, area);
                if den <= 0 {
                    return 0;
                }
                proof {
                    assert(0 <= (sqd_sat as int) * (SCALE as int)
                        <= 0x4000_0000_0000_0000int * 65536) by (nonlinear_arith)
                        requires 0 <= sqd_sat as int <= 0x4000_0000_0000_0000;
                    lemma_div_bounds((sqd_sat as int) * (SCALE as int), den as int);
                }
                let pdf_wide = floor_div_i128((sqd_sat as i128) * (SCALE as i128), den as i128);
                if pdf_wide > 0x4000_0000_0000_0000i128 {
                    0x4000_0000_0000_0000i64
                } else if pdf_wide < 0 {
                    0
                } else {
                    pdf_wide as i64
                }
            },
        }
    }

    /// A direction from `o` to a uniformly drawn point of the
    /// rectangle: the target always lies on the rectangle, for every
    /// draw.
    pub fn random(&self, o: &Point3) -> (dir: Vec3)
        requires
            self.wf(),
            in_range(o@, 0x2000_0000),
        ensures
            in_range(dir@, 0x4000_0000),
            dir@.y == self.k - o@.y,
            self.x0 <= o@.x + dir@.x <= self.x1,
            self.z0 <= o@.z + dir@.z <= self.z1,
    {
        let rx = random_f_m(self.x0, self.x1);
        let rz = random_f_m(self.z0, self.z1);
        let point = Vec3::new(rx, self.k, rz);
        point.minus(o)
    }
}

impl YZRect {
    pub fn new(y0: i64, y1: i64, z0: i64, z1: i64, k: i64, mp: usize) -> (r: YZRect)
        ensures
            r == (YZRect { mp, y0, y1, z0, z1, k }),
    {
        YZRect { mp, y0, y1, z0, z1, k }
    }

    pub open spec fn wf(&self) -> bool {
        rect_bounds_wf(self.y0 as int, self.y1 as int, self.z0 as int, self.z1 as int,
            self.k as int)
    }

    pub open spec fn hit_spec(&self, r: RayV, tmin: int, tmax: int) -> Option<HitV> {
        match rect_hit_t(self.k as int, r.orig.x, r.dir.x, tmin, tmax) {
            None => None,
            Some(t) => {
                let y = rect_coord(r.orig.y, r.dir.y, t);
                let z = rect_coord(r.orig.z, r.dir.z, t);
                if z < self.z0 || z > self.z1 || y < self.y0 || y > self.y1 {
                    None
                } else {
                    let outward = V3 { x: SCALE as int, y: 0, z: 0 };
                    Some(
                        set_face_normal_spec(
                            HitV {
                                p: ray_at_spec(r, t),
                                normal: outward,
                                mat_ptr: self.mp as int,
                                t: t,
                                u: rect_ratio(y, self.y0 as int, self.y1 as int),
                                v: rect_ratio(z, self.z0 as int, self.z1 as int),
                                front_face: false,
                            },
                            r,
                            outward,
                        ),
                    )
                }
            },
        }
    }

    pub fn hit(&self, ray: &Ray, t_min: i64, t_max: i64) -> (res: Option<HitRecord>)
        requires
            self.wf(),
            ray_in_range(ray@),
            -T_MAX_FX <= t_min <= T_MAX_FX,
            -T_MAX_FX <= t_max <= T_MAX_FX,
        ensures
            opt_hit_view(res) == self.hit_spec(ray@, t_min as int, t_max as int),
            match res {
                Some(rec) => t_min < rec.t < t_max && in_range(rec@.p, 0x40_0000_0000_0000)
                    && in_range(rec@.normal, 0x8000_0000) && rec.mat_ptr == self.mp,
                None => true,
            },
    {
        let t = match rect_solve_t(self.k, ray.orig.x, ray.dir.x, t_min, t_max) {
            None => {
                return None;
            },
            Some(t) => t,
        };
        let y = rect_coord_at(ray.orig.y, ray.dir.y, t);
        let z = rect_coord_at(ray.orig.z, ray.dir.z, t);
        if z < self.z0 || z > self.z1 || y < self.y0 || y > self.y1 {
            return None;
        }
        let outward = Vec3::new(SCALE, 0, 0);
        let mut rec = HitRecord {
            p: ray.at(t),
            normal: Vec3::zero(),
            mat_ptr: self.mp,
            t,
            u: fx_div_sat(y - self.y0, self.y1 - self.y0, SCALE),
            v: fx_div_sat(z - self.z0, self.z1 - self.z0, SCALE),
            front_face: false,
        };
        rec.set_face_normal(ray, &outward);
        Some(rec)
    }

    pub fn bounding_box(&self) -> (b: AABB)
        requires
            self.wf(),
        ensures
            b@ == (AabbV {
                minimum: V3 { x: self.k - 66, y: self.y0 as int, z: self.z0 as int },
                maximum: V3 { x: self.k + 66, y: self.y1 as int, z: self.z1 as int },
            }),
            crate::aabb::aabb_wf(b@),
            crate::aabb::aabb_in_range(b@),
    {
        AABB::new(
            &Vec3::new(self.k - 66, self.y0, self.z0),
            &Vec3::new(self.k + 66, self.y1, self.z1),
        )
    }
}

/// The density toward the horizontal rectangle: squared distance to the
/// hit over the cosine-weighted area, saturated into machine range.
pub open spec fn xz_pdf_spec(rc: &XZRect, o: V3, v: V3) -> int {
    let probe = RayV { orig: o, dir: v, tm: 0 };
    match rc.hit_spec(probe, T_EPSILON as int, T_MAX_FX as int) {
        None => 0,
        Some(h) => {
            let vlen2 = dot_spec(v, v);
            let vl = crate::vec3::length_spec(v);
            if vl <= 0 {
                0
            } else {
                let area = fx_mul_spec(rc.x1 - rc.x0 as int, rc.z1 - rc.z0 as int);
                let sq_t = (h.t * h.t) / (SCALE as int);
                let sqd = (sq_t * vlen2) / (SCALE as int);
                let sqd_sat = clamp_spec(sqd, 0, 0x4000_0000_0000_0000);
                let nd = dot_spec(v, h.normal);
                let ndp = if nd < 0 {
                    -nd
                } else {
                    nd
                };
                let cos_raw = fx_div_sat_spec(ndp, vl, 2 * SCALE as int);
                let den = fx_mul_spec(cos_raw, area);
                if den <= 0 {
                    0
                } else {
                    clamp_spec((sqd_sat * (SCALE as int)) / den, 0, 0x4000_0000_0000_0000)
                }
            }
        },
    }
}

/// Solve `o + t d == k` for the plane axis; exact against `rect_hit_t`.
fn rect_solve_t(k: i64, o: i64, d: i64, t_min: i64, t_max: i64) -> (res: Option<i64>)
    requires
        -(COORD_BOUND) <= k <= COORD_BOUND,
        -0x2000_0000 <= o <= 0x2000_0000,
        -0x2000_0000 <= d <= 0x2000_0000,
        -T_MAX_FX <= t_min <= T_MAX_FX,
        -T_MAX_FX <= t_max <= T_MAX_FX,
    ensures
        match res {
            Some(t) => rect_hit_t(k as int, o as int, d as int, t_min as int, t_max as int)
                == Some(t as int) && t_min < t < t_max,
            None => rect_hit_t(k as int, o as int, d as int, t_min as int, t_max as int)
                is None,
        },
{
    if d == 0 {
        return None;
    }
    proof {
        assert(-0x4000_0000_0000_0000 <= ((k - o) as int) * (SCALE as int)
            <= 0x4000_0000_0000_0000) by (nonlinear_arith)
            requires -0x3000_0000 <= (k - o) as int <= 0x3000_0000;
    }
    let num: i128 = ((k - o) as i128) * (SCALE as i128);
    let t_wide: i128 = if d > 0 {
        floor_div_i128(num, d as i128)
    } else {
        floor_div_i128(-num, -(d as i128))
    };
    if t_wide <= t_min as i128 || t_wide >= t_max as i128 {
        return None;
    }
    Some(t_wide as i64)
}

/// In-plane coordinate at parameter `t`; exact against `rect_coord`.
fn rect_coord_at(o: i64, d: i64, t: i64) -> (c: i64)
    requires
        -0x2000_0000 <= o <= 0x2000_0000,
        -0x2000_0000 <= d <= 0x2000_0000,
        -T_MAX_FX <= t <= T_MAX_FX,
    ensures
        c == rect_coord(o as int, d as int, t as int),
{
    proof {
        assert(-0x80_0000_0000_0000_0000 <= (t as int) * (d as int)
            <= 0x80_0000_0000_0000_0000) by (nonlinear_arith)
            requires
                -0x100_0000_0000 <= t as int <= 0x100_0000_0000,
                -0x2000_0000 <= d as int <= 0x2000_0000;
        lemma_div_range((t as int) * (d as int), 0x80_0000_0000_0000_0000, SCALE as int);
        assert(0x80_0000_0000_0000_0000int / 65536int == 0x80_0000_0000_0000)
            by (nonlinear_arith);
    }
    o + fx_mul(t, d)
}

/// A closed axis-aligned cuboid, assembled from six rectangles that live
/// in a list node; intersection delegates to that list.
#[derive(Clone, Copy, PartialEq, Eq, Structural, Debug)]
pub struct BoxObject {
    pub box_min: Point3,
    pub box_max: Point3,
    pub slides: usize,
}

impl BoxObject {
    pub fn new(p0: Point3, p1: Point3, slides: usize) -> (b: BoxObject)
        ensures
            b.box_min == p0,
            b.box_max == p1,
            b.slides == slides,
    {
        BoxObject { box_min: p0, box_max: p1, slides }
    }
}

} // verus!
