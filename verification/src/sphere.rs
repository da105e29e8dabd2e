//! Spheres: the quadratic intersection test, bounding box, and the
//! sampling density toward a sphere used for direct light sampling.

use vstd::prelude::*;
use crate::aabb::{AabbV, AABB};
use crate::fx::{
    fx_div_sat_spec, fx_div_sat, fx_mul_spec, fx_mul, is_sqrt_floor, isqrt_u128,
    lemma_div_bounds, lemma_div_range, lemma_sqrt_bound, lemma_sqrt_floor_unique, sqrt_fx,
    sqrt_floor, floor_div_i128, COORD_BOUND, PI_FX, SCALE, T_EPSILON, T_MAX_FX,
};
use crate::hittable::{set_face_normal_spec, HitRecord, HitV};
use crate::onb::{Onb};
use crate::ray::{ray_at_spec, ray_in_range, Ray, RayV};
use crate::rng::random_to_sphere;
use crate::vec3::{Point3, V3, Vec3, dot_spec, dot_wide_spec, in_range, v3_sub};
#[allow(unused_imports)]
use vstd::arithmetic::div_mod::{lemma_div_is_ordered, lemma_div_pos_is_pos};

verus! {

/// A sphere with a material handle into the scene's material table.
#[derive(Clone, Copy, PartialEq, Eq, Structural, Debug)]
pub struct Sphere {
    pub center: Point3,
    pub radius: i64,
    pub mat_ptr: usize,
}

/// Geometry the intersection routines accept.
pub open spec fn sphere_wf(center: V3, radius: int) -> bool {
    in_range(center, COORD_BOUND as int) && 1 <= radius <= COORD_BOUND as int
}

/// Texture coordinates from the outward unit normal: the longitude comes
/// from a piecewise-rational angle (exact to verify, within a few percent
/// of the trigonometric one), the latitude from a linear map of height.
pub open spec fn sphere_uv_spec(n: V3) -> (int, int) {
    let ax = n.x;
    let ay = -n.z;
    let d = if ax == 0 && ay == 0 {
        0
    } else if ay >= 0 && ax >= 0 {
        fx_div_sat_spec(ay, ax + ay, SCALE as int)
    } else if ay >= 0 {
        SCALE as int + fx_div_sat_spec(-ax, ay - ax, SCALE as int)
    } else if ax < 0 {
        2 * SCALE as int + fx_div_sat_spec(-ay, -ax - ay, SCALE as int)
    } else {
        3 * SCALE as int + fx_div_sat_spec(ax, ax - ay, SCALE as int)
    };
    let u0 = d / 4 + (SCALE as int) / 2;
    let u = if u0 >= SCALE as int {
        u0 - SCALE as int
    } else {
        u0
    };
    let v0 = (SCALE as int + n.y) / 2;
    let v = if v0 < 0 {
        0
    } else if v0 > SCALE as int {
        SCALE as int
    } else {
        v0
    };
    (u, v)
}

/// The record a sphere produces at parameter `t`.
pub open spec fn sphere_rec_spec(center: V3, radius: int, mat: int, r: RayV, t: int) -> HitV {
    let p = ray_at_spec(r, t);
    let outward = V3 {
        x: fx_div_sat_spec(p.x - center.x, radius, 0x8000_0000),
        y: fx_div_sat_spec(p.y - center.y, radius, 0x8000_0000),
        z: fx_div_sat_spec(p.z - center.z, radius, 0x8000_0000),
    };
    let uv = sphere_uv_spec(outward);
    set_face_normal_spec(
        HitV {
            p: p,
            normal: outward,
            mat_ptr: mat,
            t: t,
            u: uv.0,
            v: uv.1,
            front_face: false,
        },
        r,
        outward,
    )
}

/// The nearest sphere intersection strictly inside `(tmin, tmax)`: the
/// quadratic's smaller root if it lies inside, else the larger one.
pub open spec fn sphere_hit_spec(
    center: V3,
    radius: int,
    mat: int,
    r: RayV,
    tmin: int,
    tmax: int,
) -> Option<HitV> {
    let oc = v3_sub(r.orig, center);
    let a = dot_spec(r.dir, r.dir);
    let hb = dot_spec(oc, r.dir);
    let c = dot_spec(oc, oc) - fx_mul_spec(radius, radius);
    let disc = hb * hb - a * c;
    if disc > 0 && a > 0 {
        let sq = sqrt_floor(disc);
        let root1 = ((-hb - sq) * (SCALE as int)) / a;
        if tmin < root1 < tmax {
            Some(sphere_rec_spec(center, radius, mat, r, root1))
        } else {
            let root2 = ((-hb + sq) * (SCALE as int)) / a;
            if tmin < root2 < tmax {
                Some(sphere_rec_spec(center, radius, mat, r, root2))
            } else {
                None
            }
        }
    } else {
        None
    }
}

/// The box `center - r .. center + r`.
pub open spec fn sphere_box_spec(center: V3, radius: int) -> AabbV {
    AabbV {
        minimum: V3 { x: center.x - radius, y: center.y - radius, z: center.z - radius },
        maximum: V3 { x: center.x + radius, y: center.y + radius, z: center.z + radius },
    }
}

/// Exec texture coordinates; exact against `sphere_uv_spec`.
pub fn sphere_uv(n: &Vec3) -> (uv: (i64, i64))
    requires
        in_range(n@, 0x8000_0000),
    ensures
        (uv.0 as int, uv.1 as int) == sphere_uv_spec(n@),
        0 <= uv.0 <= SCALE,
        0 <= uv.1 <= SCALE,
{
    let ax = n.x;
    let ay = -n.z;
    let d: i64 = if ax == 0 && ay == 0 {
        0
    } else if ay >= 0 && ax >= 0 {
        proof {
            assert(0 <= (ay as int) * (SCALE as int)) by (nonlinear_arith)
                requires ay as int >= 0;
            lemma_div_pos_is_pos((ay as int) * (SCALE as int), (ax + ay) as int);
        }
        fx_div_sat(ay, ax + ay, SCALE)
    } else if ay >= 0 {
        proof {
            assert(0 <= ((-ax) as int) * (SCALE as int)) by (nonlinear_arith)
                requires (-ax) as int >= 0;
            lemma_div_pos_is_pos(((-ax) as int) * (SCALE as int), (ay - ax) as int);
        }
        SCALE + fx_div_sat(-ax, ay - ax, SCALE)
    } else if ax < 0 {
        proof {
            assert(0 <= ((-ay) as int) * (SCALE as int)) by (nonlinear_arith)
                requires (-ay) as int >= 0;
            lemma_div_pos_is_pos(((-ay) as int) * (SCALE as int), (-ax - ay) as int);
        }
        2 * SCALE + fx_div_sat(-ay, -ax - ay, SCALE)
    } else {
        proof {
            assert(0 <= (ax as int) * (SCALE as int)) by (nonlinear_arith)
                requires ax as int >= 0;
            lemma_div_pos_is_pos((ax as int) * (SCALE as int), (ax - ay) as int);
        }
        3 * SCALE + fx_div_sat(ax, ax - ay, SCALE)
    };
    let u0 = floor_div_i128(d as i128, 4) as i64 + SCALE / 2;
    let u = if u0 >= SCALE {
        u0 - SCALE
    } else {
        u0
    };
    let v0 = floor_div_i128((SCALE + n.y) as i128, 2) as i64;
    let v = if v0 < 0 {
        0
    } else if v0 > SCALE {
        SCALE
    } else {
        v0
    };
    proof {
        lemma_div_bounds(d as int, 4);
        lemma_div_bounds((SCALE + n@.y) as int, 2);
        lemma_div_is_ordered(d as int, 4 * 65536int, 4);
        assert((4 * 65536int) / 4int == 65536 && 65536int / 2int == 32768)
            by (nonlinear_arith);
    }
    (u, v)
}

impl Sphere {
    pub fn new(cen: &Point3, radius: i64, mat_ptr: usize) -> (s: Sphere)
        ensures
            s.center@ == cen@,
            s.radius == radius,
            s.mat_ptr == mat_ptr,
    {
        Sphere { center: Vec3::new(cen.x, cen.y, cen.z), radius, mat_ptr }
    }

    /// The nearest intersection strictly inside `(t_min, t_max)`.
    pub fn hit(&self, ray: &Ray, t_min: i64, t_max: i64) -> (res: Option<HitRecord>)
        requires
            sphere_wf(self.center@, self.radius as int),
            ray_in_range(ray@),
            -T_MAX_FX <= t_min <= T_MAX_FX,
            -T_MAX_FX <= t_max <= T_MAX_FX,
        ensures
            crate::hittable::opt_hit_view(res) == sphere_hit_spec(
                self.center@,
                self.radius as int,
                self.mat_ptr as int,
                ray@,
                t_min as int,
                t_max as int,
            ),
            match res {
                Some(rec) => t_min < rec.t < t_max && in_range(rec@.p, 0x40_0000_0000_0000)
                    && in_range(rec@.normal, 0x8000_0000) && rec.mat_ptr == self.mat_ptr,
                None => true,
            },
    {
        let oc = ray.orig.minus(&self.center);
        let a = Vec3::dot(ray.dir, ray.dir);
        let hb = Vec3::dot(oc, ray.dir);
        proof {
            assert(0 <= self.radius as int * self.radius as int
                <= 0x1000_0000int * 0x1000_0000) by (nonlinear_arith)
                requires 1 <= self.radius as int <= 0x1000_0000;
        }
        let rr = fx_mul(self.radius, self.radius);
        let c = Vec3::dot(oc, oc) - rr;
        proof {
            assert(-0x1_0000_0000_0000_0000_0000_0000_0000 <= (hb as int) * (hb as int)
                <= 0x1_0000_0000_0000_0000_0000_0000_0000
                && -0x1_0000_0000_0000_0000_0000_0000_0000 <= (a as int) * (c as int)
                <= 0x1_0000_0000_0000_0000_0000_0000_0000) by (nonlinear_arith)
                requires
                    -0xc000_0000_0000 <= hb as int <= 0xc000_0000_0000,
                    -0xc000_0000_0000 <= a as int <= 0xc000_0000_0000,
                    -0x1_0000_0000_0000 <= c as int <= 0x1_0000_0000_0000;
        }
        let disc: i128 = (hb as i128) * (hb as i128) - (a as i128) * (c as i128);
        if disc > 0 && a > 0 {
            let squ = isqrt_u128(disc as u128);
            proof {
                assert((disc as int) < (0x200_0000_0000_0000int + 1) * (
                0x200_0000_0000_0000int + 1)) by (nonlinear_arith)
                    requires (disc as int) <= 0x2_0000_0000_0000_0000_0000_0000_0000;
                lemma_sqrt_bound(disc as int, squ as int, 0x200_0000_0000_0000);
                lemma_sqrt_floor_unique(disc as int, squ as int);
            }
            let sq: i64 = squ as i64;
            let num1: i128 = ((-hb - sq) as i128) * (SCALE as i128);
            proof {
                assert(-0x8000_0000_0000_0000_0000_0000 <= ((-hb - sq) as int) * (
                SCALE as int) <= 0x8000_0000_0000_0000_0000_0000) by (nonlinear_arith)
                    requires -0x4_0000_0000_0000_0000 <= (-hb - sq) as int
                        <= 0x4_0000_0000_0000_0000;
                lemma_div_bounds(num1 as int, a as int);
            }
            let root1_wide = floor_div_i128(num1, a as i128);
            if (t_min as i128) < root1_wide && root1_wide < (t_max as i128) {
                let root = root1_wide as i64;
                return Some(self.make_rec(ray, root));
            }
            let num2: i128 = ((-hb + sq) as i128) * (SCALE as i128);
            proof {
                assert(-0x8000_0000_0000_0000_0000_0000 <= ((-hb + sq) as int) * (
                SCALE as int) <= 0x8000_0000_0000_0000_0000_0000) by (nonlinear_arith)
                    requires -0x4_0000_0000_0000_0000 <= (-hb + sq) as int
                        <= 0x4_0000_0000_0000_0000;
                lemma_div_bounds(num2 as int, a as int);
            }
            let root2_wide = floor_div_i128(num2, a as i128);
            if (t_min as i128) < root2_wide && root2_wide < (t_max as i128) {
                let root = root2_wide as i64;
                return Some(self.make_rec(ray, root));
            }
            None
        } else {
            None
        }
    }

    /// Build the record at a parameter already known to lie in range.
    fn make_rec(&self, ray: &Ray, t: i64) -> (rec: HitRecord)
        requires
            sphere_wf(self.center@, self.radius as int),
            ray_in_range(ray@),
            -T_MAX_FX <= t <= T_MAX_FX,
        ensures
            rec@ == sphere_rec_spec(
                self.center@,
                self.radius as int,
                self.mat_ptr as int,
                ray@,
                t as int,
            ),
            rec.t == t,
            in_range(rec@.p, 0x40_0000_0000_0000),
            in_range(rec@.normal, 0x8000_0000),
            rec.mat_ptr == self.mat_ptr,
    {
        let p = ray.at(t);
        let outward = Vec3::new(
            fx_div_sat(p.x - self.center.x, self.radius, 0x8000_0000),
            fx_div_sat(p.y - self.center.y, self.radius, 0x8000_0000),
            fx_div_sat(p.z - self.center.z, self.radius, 0x8000_0000),
        );
        let uv = sphere_uv(&outward);
        let mut rec = HitRecord {
            p,
            normal: Vec3::zero(),
            mat_ptr: self.mat_ptr,
            t,
            u: uv.0,
            v: uv.1,
            front_face: false,
        };
        rec.set_face_normal(ray, &outward);
        rec
    }

    /// The box enclosing the sphere, at any pair of times.
    pub fn bounding_box(&self) -> (b: AABB)
        requires
            sphere_wf(self.center@, self.radius as int),
        ensures
            b@ == sphere_box_spec(self.center@, self.radius as int),
            crate::aabb::aabb_wf(b@),
            crate::aabb::aabb_in_range(b@),
    {
        let rv = Vec3::new(self.radius, self.radius, self.radius);
        AABB::new(&self.center.minus(&rv), &self.center.plus(&rv))
    }
}

/// The density toward this sphere from `o` along `v`: the reciprocal
/// solid angle of the sphere's cap as seen from `o`, zero on a miss,
/// from inside the sphere, or when the cap degenerates.
pub open spec fn sphere_pdf_spec(center: V3, radius: int, mat: int, o: V3, v: V3) -> int {
    let probe = RayV { orig: o, dir: v, tm: 0 };
    if sphere_hit_spec(center, radius, mat, probe, T_EPSILON as int, T_MAX_FX as int)
        is Some {
        let dd = dot_spec(v3_sub(center, o), v3_sub(center, o));
        if dd < 1 {
            0
        } else {
            let rr = fx_mul_spec(radius, radius);
            let ratio = (rr * (SCALE as int)) / dd;
            if ratio >= SCALE as int {
                0
            } else {
                let cos_max = sqrt_floor((SCALE as int - ratio) * (SCALE as int));
                let solid = fx_mul_spec(2 * PI_FX as int, SCALE as int - cos_max);
                if solid <= 0 {
                    0
                } else {
                    fx_div_sat_spec(SCALE as int, solid, 0x4000_0000_0000_0000)
                }
            }
        }
    } else {
        0
    }
}

impl Sphere {
    /// The sampling density toward the sphere; exact against
    /// `sphere_pdf_spec` and never negative.
    pub fn pdf_value(&self, o: &Point3, v: &Vec3) -> (pdf: i64)
        requires
            sphere_wf(self.center@, self.radius as int),
            in_range(o@, 0x2000_0000),
            in_range(v@, 0x2000_0000),
        ensures
            pdf == sphere_pdf_spec(self.center@, self.radius as int, self.mat_ptr as int,
                o@, v@),
            0 <= pdf <= 0x4000_0000_0000_0000,
    {
        let probe = Ray::new_default(o, v);
        let res = self.hit(&probe, T_EPSILON, T_MAX_FX);
        if res.is_none() {
            return 0;
        }
        let delta = self.center.minus(o);
        let dd = delta.squared_length();
        if dd < 1 {
            return 0;
        }
        proof {
            assert(0 <= self.radius as int * self.radius as int
                <= 0x1000_0000int * 0x1000_0000) by (nonlinear_arith)
                requires 1 <= self.radius as int <= 0x1000_0000;
            lemma_div_pos_is_pos(self.radius as int * self.radius as int, SCALE as int);
            lemma_div_is_ordered(self.radius as int * self.radius as int,
                0x1000_0000int * 0x1000_0000, SCALE as int);
        }
        let rr = fx_mul(self.radius, self.radius);
        proof {
            assert(0 <= rr as int * (SCALE as int) <= 0x100_0000_0000_0000_0000)
                by (nonlinear_arith)
                requires 0 <= rr as int <= 0x1_0000_0000_0000;
            crate::fx::lemma_div_bounds(rr as int * (SCALE as int), dd as int);
        }
        let ratio_wide = floor_div_i128((rr as i128) * (SCALE as i128), dd as i128);
        if ratio_wide >= SCALE as i128 {
            return 0;
        }
        proof {
            lemma_div_pos_is_pos(rr as int * (SCALE as int), dd as int);
        }
        let ratio = ratio_wide as i64;
        let cos_max = sqrt_fx(SCALE - ratio);
        proof {
            assert(((SCALE - ratio) as int) * (SCALE as int) < (65536int + 1) * (65536int
                + 1)) by (nonlinear_arith)
                requires 0 <= (SCALE - ratio) as int <= 65536;
            lemma_sqrt_bound(((SCALE - ratio) as int) * (SCALE as int), cos_max as int,
                SCALE as int);
            assert(0 <= (2 * PI_FX as int) * ((SCALE - cos_max) as int)
                <= 411774int * 65536) by (nonlinear_arith)
                requires 0 <= (SCALE - cos_max) as int <= 65536;
            lemma_div_range((2 * PI_FX as int) * ((SCALE - cos_max) as int),
                411774int * 65536, SCALE as int);
            lemma_div_pos_is_pos((2 * PI_FX as int) * ((SCALE - cos_max) as int),
                SCALE as int);
        }
        let solid = fx_mul(2 * PI_FX, SCALE - cos_max);
        if solid <= 0 {
            return 0;
        }
        proof {
            assert(0 <= (SCALE as int) * (SCALE as int)) by (nonlinear_arith);
            lemma_div_pos_is_pos((SCALE as int) * (SCALE as int), solid as int);
        }
        fx_div_sat(SCALE, solid, 0x4000_0000_0000_0000)
    }

    /// A direction from `o` toward a uniformly sampled point of the
    /// sphere's visible cap; bounded components, for every draw.
    pub fn random(&self, o: &Point3) -> (dir: Vec3)
        requires
            sphere_wf(self.center@, self.radius as int),
            in_range(o@, 0x2000_0000),
        ensures
            in_range(dir@, 0x4000_0000),
    {
        let direction = self.center.minus(o);
        if direction.x == 0 && direction.y == 0 && direction.z == 0 {
            return Vec3::new(SCALE, 0, 0);
        }
        let dd = direction.squared_length();
        if dd < 1 {
            return direction;
        }
        proof {
            assert(0 <= self.radius as int * self.radius as int
                <= 0x1000_0000int * 0x1000_0000) by (nonlinear_arith)
                requires 1 <= self.radius as int <= 0x1000_0000;
            assert(0 <= dd as int * (SCALE as int)) by (nonlinear_arith)
                requires 0 <= dd as int;
        }
        let rr_wide: i128 = (self.radius as i128) * (self.radius as i128);
        let dds: i128 = (dd as i128) * (SCALE as i128);
        if rr_wide > dds {
            return direction;
        }
        let uvw = Onb::build_from_w(&direction);
        let sample = random_to_sphere(self.radius, dd);
        proof {
            crate::pdf::lemma_local_sample_range(uvw@, sample@);
        }
        uvw.local(&sample)
    }
}

/// Exactness of the quadratic on the canonical axis-aligned case: a unit
/// sphere at the origin, a ray from five units out aimed straight at it,
/// hits at parameter four exactly.
pub proof fn lemma_unit_sphere_axis_hit()
    ensures
        ({
            let center = V3 { x: 0, y: 0, z: 0 };
            let r = RayV {
                orig: V3 { x: 0, y: 0, z: 5 * SCALE as int },
                dir: V3 { x: 0, y: 0, z: -(SCALE as int) },
                tm: 0,
            };
            match sphere_hit_spec(center, SCALE as int, 0, r, T_EPSILON as int,
                T_MAX_FX as int) {
                Some(h) => h.t == 4 * SCALE as int,
                None => false,
            }
        }),
{
    let center = V3 { x: 0, y: 0, z: 0 };
    let r = RayV {
        orig: V3 { x: 0, y: 0, z: 5 * SCALE as int },
        dir: V3 { x: 0, y: 0, z: -(SCALE as int) },
        tm: 0,
    };
    let oc = v3_sub(r.orig, center);
    assert(oc.x == 0 && oc.y == 0 && oc.z == 5 * 65536);
    assert((0int) * 0 == 0 && (-(65536int)) * (-(65536int)) == 4294967296int && (5
        * 65536int) * (-(65536int)) == -21474836480int && (5 * 65536int) * (5 * 65536int)
        == 107374182400int && 65536int * 65536int == 4294967296int) by (nonlinear_arith);
    assert(crate::vec3::dot_wide_spec(r.dir, r.dir) == 4294967296int);
    assert(crate::vec3::dot_wide_spec(oc, r.dir) == -21474836480int);
    assert(crate::vec3::dot_wide_spec(oc, oc) == 107374182400int);
    assert(4294967296int / 65536int == 65536int) by (nonlinear_arith);
    assert((-21474836480int) / 65536int == -327680int) by (nonlinear_arith);
    assert(107374182400int / 65536int == 1638400int) by (nonlinear_arith);
    let a = dot_spec(r.dir, r.dir);
    let hb = dot_spec(oc, r.dir);
    let c = dot_spec(oc, oc) - fx_mul_spec(SCALE as int, SCALE as int);
    assert(a == 65536 && hb == -327680 && c == 1572864);
    let disc = hb * hb - a * c;
    assert(disc == 4294967296int) by (nonlinear_arith)
        requires
            hb == -327680int,
            a == 65536int,
            c == 1572864int,
            disc == hb * hb - a * c;
    assert(crate::fx::is_sqrt_floor(4294967296int, 65536int)) by (nonlinear_arith);
    lemma_sqrt_floor_unique(4294967296int, 65536int);
    let sq = sqrt_floor(disc);
    assert(sq == 65536);
    let root1 = ((-hb - sq) * (SCALE as int)) / a;
    assert((262144int * 65536int) / 65536int == 262144int) by (nonlinear_arith);
    assert(root1 == 262144);
}

} // verus!
