//! Materials: the scattering contract. A scatter either produces a
//! specular continuation ray or a cosine-density lobe with an
//! attenuation; emissive materials produce nothing and glow instead.

use vstd::prelude::*;
use crate::fx::{PI_FX, SCALE, fx_div, fx_div_sat, fx_div_sat_spec, fx_div_spec, fx_mul, fx_mul_spec, lemma_div_range, sqrt_floor, sqrt_fx};
use crate::hittable::{HitRecord, HitV};
use crate::onb::build_from_w_spec;
use crate::pdf::CosinePdf;
use crate::ray::{ray_in_range, Ray, RayV};
use crate::rng::{random_f, random_in_unit_sphere};
use crate::texture::{TEX_P_BOUND, Texture, color_wf, texture_value_spec, texture_wf};
use crate::vec3::{
    dot_spec, in_range, unit_spec, v3_add, v3_neg, v3_scale, v3_sub, v3_zero, Color, Point3, V3,
    Vec3,
};
#[allow(unused_imports)]
use vstd::arithmetic::div_mod::{lemma_div_pos_is_pos};

verus! {

/// The placeholder material: neither scatters nor glows.
#[derive(Clone, Copy, PartialEq, Eq, Structural, Debug)]
pub struct Empty {}

impl Empty {
    pub fn new() -> (e: Empty) {
        Empty {  }
    }
}

/// Diffuse: always scatters through a cosine lobe around the normal.
pub struct Lambertian {
    pub albedo: Texture,
}

impl Lambertian {
    pub fn new(a: Texture) -> (m: Lambertian)
        ensures
            m.albedo == a,
    {
        Lambertian { albedo: a }
    }
}

/// Mirror-like: reflects, perturbed by a fuzz radius clamped to one unit.
#[derive(Clone, Copy, PartialEq, Eq, Structural, Debug)]
pub struct Metal {
    pub albedo: Color,
    pub fuzz: i64,
}

impl Metal {
    pub fn new(a: Color, f: i64) -> (m: Metal)
        ensures
            m.albedo == a,
            m.fuzz == if f < SCALE {
                f as int
            } else {
                SCALE as int
            },
    {
        Metal { albedo: a, fuzz: if f < SCALE { f } else { SCALE } }
    }
}

/// Clear glass: refracts or reflects by Snell's law and Schlick's
/// approximation.
#[derive(Clone, Copy, PartialEq, Eq, Structural, Debug)]
pub struct Dielectric {
    pub ir: i64,
}

/// Schlick's reflectance approximation, in fixed point.
pub open spec fn reflectance_spec(cosine: int, ref_idx: int) -> int {
    let r0 = fx_div_spec(SCALE as int - ref_idx, SCALE as int + ref_idx);
    let r2 = fx_mul_spec(r0, r0);
    let p1 = SCALE as int - cosine;
    let p2 = fx_mul_spec(p1, p1);
    let p4 = fx_mul_spec(p2, p2);
    let p5 = fx_mul_spec(p4, p1);
    r2 + fx_mul_spec(SCALE as int - r2, p5)
}

impl Dielectric {
    pub fn new(index_of_refraction: i64) -> (m: Dielectric)
        ensures
            m.ir == index_of_refraction,
    {
        Dielectric { ir: index_of_refraction }
    }

    /// Probability of reflecting rather than refracting.
    pub fn reflectance(cosine: i64, ref_idx: i64) -> (r: i64)
        requires
            -0x8_0000 <= cosine <= SCALE,
            0x4000 <= ref_idx <= 0x4_0000,
        ensures
            r == reflectance_spec(cosine as int, ref_idx as int),
    {
        proof {
            lemma_reflectance_bounds(cosine as int, ref_idx as int);
        }
        let r0 = fx_div(SCALE - ref_idx, SCALE + ref_idx);
        proof {
            assert(-(0x4_0000int * 0x4_0000) <= r0 as int * r0 as int
                <= 0x4_0000int * 0x4_0000) by (nonlinear_arith)
                requires -0x4_0000 <= r0 as int <= 0x4_0000;
            lemma_div_range(r0 as int * r0 as int, 0x4_0000int * 0x4_0000, SCALE as int);
            assert((0x4_0000int * 0x4_0000) / 65536int == 0x10_0000int) by (nonlinear_arith);
        }
        let r2 = fx_mul(r0, r0);
        let p1 = SCALE - cosine;
        proof {
            assert(0 <= p1 as int * p1 as int <= 0x9_0000int * 0x9_0000) by (nonlinear_arith)
                requires 0 <= p1 as int <= 0x9_0000;
            lemma_div_range(p1 as int * p1 as int, 0x9_0000int * 0x9_0000, SCALE as int);
            lemma_div_pos_is_pos(p1 as int * p1 as int, SCALE as int);
            assert((0x9_0000int * 0x9_0000) / 65536int == 0x51_0000int) by (nonlinear_arith);
        }
        let p2 = fx_mul(p1, p1);
        proof {
            assert(0 <= p2 as int * p2 as int <= 0x51_0000int * 0x51_0000) by (nonlinear_arith)
                requires 0 <= p2 as int <= 0x51_0000;
            lemma_div_range(p2 as int * p2 as int, 0x51_0000int * 0x51_0000, SCALE as int);
            lemma_div_pos_is_pos(p2 as int * p2 as int, SCALE as int);
            assert((0x51_0000int * 0x51_0000) / 65536int == 0x19a1_0000int) by (nonlinear_arith);
        }
        let p4 = fx_mul(p2, p2);
        proof {
            assert(0 <= p4 as int * p1 as int <= 0x19a1_0000int * 0x9_0000) by (nonlinear_arith)
                requires 0 <= p4 as int <= 0x19a1_0000 && 0 <= p1 as int <= 0x9_0000;
            lemma_div_range(p4 as int * p1 as int, 0x19a1_0000int * 0x9_0000, SCALE as int);
            lemma_div_pos_is_pos(p4 as int * p1 as int, SCALE as int);
            assert((0x19a1_0000int * 0x9_0000) / 65536int == 0xe6a9_0000int)
                by (nonlinear_arith);
        }
        let p5 = fx_mul(p4, p1);
        proof {
            assert(-(0x11_0000int * 0xe6a9_0000) <= (SCALE as int - r2 as int) * (p5 as int)
                <= 0x11_0000int * 0xe6a9_0000) by (nonlinear_arith)
                requires
                    -0x10_0000 <= (SCALE as int - r2 as int) <= 0x11_0000,
                    0 <= p5 as int <= 0xe6a9_0000;
            lemma_div_range((SCALE as int - r2 as int) * (p5 as int),
                0x11_0000int * 0xe6a9_0000, SCALE as int);
        }
        r2 + fx_mul(SCALE - r2, p5)
    }
}

/// Pure emitter: never scatters; glows from its front face.
pub struct DiffuseLight {
    pub emit: Texture,
}

impl DiffuseLight {
    pub fn new(a: Texture) -> (m: DiffuseLight)
        ensures
            m.emit == a,
    {
        DiffuseLight { emit: a }
    }
}

/// The phase function of a participating medium: scatters uniformly.
pub struct Isotropic {
    pub albedo: Texture,
}

impl Isotropic {
    pub fn new(a: Texture) -> (m: Isotropic)
        ensures
            m.albedo == a,
    {
        Isotropic { albedo: a }
    }
}

pub enum Material {
    Empty(Empty),
    Lambertian(Lambertian),
    Metal(Metal),
    Dielectric(Dielectric),
    DiffuseLight(DiffuseLight),
    Isotropic(Isotropic),
}

pub open spec fn material_wf(m: &Material) -> bool {
    match m {
        Material::Empty(_) => true,
        Material::Lambertian(l) => texture_wf(&l.albedo),
        Material::Metal(mt) => color_wf(mt.albedo@) && -SCALE <= mt.fuzz <= SCALE,
        Material::Dielectric(d) => 0x4000 <= d.ir <= 0x4_0000,
        Material::DiffuseLight(dl) => texture_wf(&dl.emit),
        Material::Isotropic(i) => texture_wf(&i.albedo),
    }
}

/// What a scatter returns: possible specular ray, specular flag,
/// attenuation, and the cosine lobe for diffuse continuations.
pub struct ScatterRecord {
    pub specular_ray: Ray,
    pub is_specular: bool,
    pub attenuation: Color,
    pub pdf_ptr: CosinePdf,
}

impl ScatterRecord {
    pub fn new() -> (s: ScatterRecord)
        ensures
            !s.is_specular,
            s.attenuation@ == v3_zero(),
    {
        let up = Vec3::ones();
        ScatterRecord {
            attenuation: Vec3::zero(),
            specular_ray: Ray::new_default(&Vec3::zero(), &Vec3::zero()),
            pdf_ptr: CosinePdf::new(&up),
            is_specular: false,
        }
    }
}

/// Mirror reflection about a normal.
pub open spec fn reflect_spec(v: V3, n: V3) -> V3 {
    v3_sub(v, v3_scale(n, 2 * dot_spec(v, n)))
}

/// Snell refraction of a unit direction, with the cosine clamped from
/// above and the parallel radicand clamped to nonnegative, so that the
/// square root is always defined.
pub open spec fn refract_spec(uv: V3, n: V3, etai_over_etat: int) -> V3 {
    let c0 = dot_spec(v3_neg(uv), n);
    let cos_theta = if c0 > SCALE as int {
        SCALE as int
    } else {
        c0
    };
    let perp = v3_scale(v3_add(uv, v3_scale(n, cos_theta)), etai_over_etat);
    let len2 = dot_spec(perp, perp);
    let inner = if SCALE as int - len2 < 0 {
        0
    } else {
        SCALE as int - len2
    };
    let par_len = sqrt_floor(inner * (SCALE as int));
    v3_add(perp, v3_scale(n, -par_len))
}

/// Componentwise closeness.
pub open spec fn v3_near(a: V3, b: V3, e: int) -> bool {
    -e <= a.x - b.x <= e && -e <= a.y - b.y <= e && -e <= a.z - b.z <= e
}

/// What `Material::scatter` promises of its result, variant by variant.
/// Randomness enters only where a draw decides (metal fuzz, the glass
/// reflect-or-refract choice, the isotropic direction); there the
/// contract states what holds of every outcome.
pub open spec fn scatter_post(m: &Material, r_in: RayV, rec: HitV, res: Option<ScatterRecord>)
    -> bool {
    match m {
        Material::Empty(_) => res is None,
        Material::DiffuseLight(_) => res is None,
        Material::Lambertian(l) => if rec.normal == v3_zero() {
            res is None
        } else {
            match res {
                None => false,
                Some(s) => {
                    &&& !s.is_specular
                    &&& color_wf(s.attenuation@)
                    &&& s.attenuation@ == texture_value_spec(&l.albedo, rec.u, rec.v,
                        rec.p)
                    &&& s.pdf_ptr.uvw@ == build_from_w_spec(rec.normal)
                },
            }
        },
        Material::Metal(mt) => if r_in.dir == v3_zero() {
            res is None
        } else {
            match res {
                None => false,
                Some(s) => {
                    &&& s.is_specular
                    &&& s.attenuation@ == mt.albedo@
                    &&& s.specular_ray@.orig == rec.p
                    &&& s.specular_ray@.tm == 0
                    &&& v3_near(
                        s.specular_ray@.dir,
                        reflect_spec(unit_spec(r_in.dir), rec.normal),
                        if mt.fuzz < 0 {
                            -mt.fuzz + 1
                        } else {
                            mt.fuzz + 1
                        },
                    )
                },
            }
        },
        Material::Dielectric(d) => if r_in.dir == v3_zero() {
            res is None
        } else {
            match res {
                None => false,
                Some(s) => {
                    let u = unit_spec(r_in.dir);
                    let ratio = if rec.front_face {
                        fx_div_spec(SCALE as int, d.ir as int)
                    } else {
                        d.ir as int
                    };
                    let c0 = dot_spec(v3_neg(u), rec.normal);
                    let cos_theta = if c0 > SCALE as int {
                        SCALE as int
                    } else {
                        c0
                    };
                    let cc = fx_mul_spec(cos_theta, cos_theta);
                    let inner = if SCALE as int - cc < 0 {
                        0
                    } else {
                        SCALE as int - cc
                    };
                    let sin_theta = sqrt_floor(inner * (SCALE as int));
                    &&& s.is_specular
                    &&& s.attenuation@ == (V3 {
                        x: SCALE as int,
                        y: SCALE as int,
                        z: SCALE as int,
                    })
                    &&& s.specular_ray@.orig == rec.p
                    &&& s.specular_ray@.tm == r_in.tm
                    &&& (s.specular_ray@.dir == reflect_spec(u, rec.normal)
                        || s.specular_ray@.dir == refract_spec(u, rec.normal, ratio))
                    &&& fx_mul_spec(ratio, sin_theta) > SCALE as int ==> s.specular_ray@.dir
                        == reflect_spec(u, rec.normal)
                },
            }
        },
        Material::Isotropic(i) => match res {
            None => false,
            Some(s) => {
                &&& s.is_specular
                &&& color_wf(s.attenuation@)
                &&& s.attenuation@ == texture_value_spec(&i.albedo, rec.u, rec.v, rec.p)
                &&& s.specular_ray@.orig == rec.p
                &&& s.specular_ray@.tm == r_in.tm
                &&& dot_spec(s.specular_ray@.dir, s.specular_ray@.dir) < SCALE as int
            },
        },
    }
}

/// The density the material itself assigns to a scattered direction;
/// nonzero only for the diffuse material.
pub open spec fn scattering_pdf_spec(m: &Material, rec: HitV, scattered: RayV) -> int {
    match m {
        Material::Lambertian(_) => if scattered.dir == v3_zero() {
            0
        } else {
            let c = dot_spec(rec.normal, unit_spec(scattered.dir));
            if c < 0 {
                0
            } else {
                fx_div_sat_spec(c, PI_FX as int, 2 * SCALE as int)
            }
        },
        _ => 0,
    }
}

/// What glows: the light's texture on its front face, black otherwise
/// and for every other material.
pub open spec fn emitted_spec(m: &Material, rec: HitV, u: int, v: int, p: V3) -> V3 {
    match m {
        Material::DiffuseLight(dl) => if rec.front_face {
            texture_value_spec(&dl.emit, u, v, p)
        } else {
            v3_zero()
        },
        _ => v3_zero(),
    }
}

impl Material {
    /// Scatter an incoming ray at a hit.
    pub fn scatter(&self, r_in: &Ray, rec: &HitRecord) -> (res: Option<ScatterRecord>)
        requires
            material_wf(self),
            ray_in_range(r_in@),
            in_range(rec@.normal, 2 * SCALE as int),
            in_range(rec@.p, TEX_P_BOUND as int),
        ensures
            scatter_post(self, r_in@, rec@, res),
    {
        match self {
            Material::Empty(_) => None,
            Material::DiffuseLight(_) => None,
            Material::Lambertian(l) => {
                if rec.normal.x == 0 && rec.normal.y == 0 && rec.normal.z == 0 {
                    return None;
                }
                let attenuation = l.albedo.value(rec.u, rec.v, &rec.p);
                Some(
                    ScatterRecord {
                        attenuation,
                        specular_ray: Ray::new_default(&Vec3::zero(), &Vec3::zero()),
                        pdf_ptr: CosinePdf::new(&rec.normal),
                        is_specular: false,
                    },
                )
            },
            Material::Metal(mt) => {
                if r_in.dir.x == 0 && r_in.dir.y == 0 && r_in.dir.z == 0 {
                    return None;
                }
                let unit = r_in.dir.unit();
                let reflected = reflect(&unit, &rec.normal);
                let sphere = random_in_unit_sphere();
                proof {
                    lemma_fuzz_bounds(sphere@, mt.fuzz as int);
                }
                let pert = sphere.scale(mt.fuzz);
                let dir = reflected.plus(&pert);
                // metal reflections deliberately restart the ray time at
                // zero rather than carrying the incoming ray's time
                let scattered = Ray { orig: rec.p, dir, tm: 0 };
                Some(
                    ScatterRecord {
                        attenuation: mt.albedo,
                        specular_ray: scattered,
                        is_specular: true,
                        pdf_ptr: unit_lobe(),
                    },
                )
            },
            Material::Dielectric(d) => {
                if r_in.dir.x == 0 && r_in.dir.y == 0 && r_in.dir.z == 0 {
                    return None;
                }
                let refraction_ratio: i64 = if rec.front_face {
                    proof {
                        lemma_ratio_bounds(d.ir as int);
                    }
                    fx_div(SCALE, d.ir)
                } else {
                    d.ir
                };
                let unit = r_in.dir.unit();
                proof {
                    lemma_dot_small(crate::vec3::v3_neg(unit_spec(r_in@.dir)), rec@.normal);
                }
                let c0 = Vec3::dot(unit.neg(), rec.normal);
                let cos_theta: i64 = if c0 > SCALE {
                    SCALE
                } else {
                    c0
                };
                proof {
                    assert(-(0x7_0000int * 0x7_0000) <= cos_theta as int * (cos_theta as int)
                        <= 0x7_0000int * 0x7_0000) by (nonlinear_arith)
                        requires -0x7_0000 <= cos_theta as int <= 0x7_0000;
                    lemma_div_range(cos_theta as int * (cos_theta as int),
                        0x7_0000int * 0x7_0000, SCALE as int);
                    assert(cos_theta as int * (cos_theta as int) >= 0) by (nonlinear_arith);
                    lemma_div_pos_is_pos(cos_theta as int * (cos_theta as int), SCALE as int);
                }
                let cc = fx_mul(cos_theta, cos_theta);
                let inner: i64 = if SCALE - cc < 0 {
                    0
                } else {
                    SCALE - cc
                };
                let sin_theta = sqrt_fx(inner);
                proof {
                    assert((inner as int) * (SCALE as int) < (65536int + 1) * (65536int + 1))
                        by (nonlinear_arith)
                        requires 0 <= inner as int <= 65536;
                    crate::fx::lemma_sqrt_bound((inner as int) * (SCALE as int),
                        sin_theta as int, SCALE as int);
                    assert(0 <= refraction_ratio as int * (sin_theta as int)
                        <= 0x4_0000int * 65536) by (nonlinear_arith)
                        requires
                            0x4000 <= refraction_ratio as int <= 0x4_0000,
                            0 <= sin_theta as int <= 65536;
                    lemma_div_range(refraction_ratio as int * (sin_theta as int),
                        0x4_0000int * 65536, SCALE as int);
                }
                let rs = fx_mul(refraction_ratio, sin_theta);
                let draw = random_f();
                let cannot_refract = rs > SCALE || Dielectric::reflectance(
                    cos_theta,
                    refraction_ratio,
                ) > draw;
                let direction = if cannot_refract {
                    reflect(&unit, &rec.normal)
                } else {
                    refract(&unit, &rec.normal, refraction_ratio)
                };
                let scattered = Ray { orig: rec.p, dir: direction, tm: r_in.tm };
                Some(
                    ScatterRecord {
                        attenuation: Vec3::ones(),
                        specular_ray: scattered,
                        is_specular: true,
                        pdf_ptr: unit_lobe(),
                    },
                )
            },
            Material::Isotropic(i) => {
                let dir = random_in_unit_sphere();
                let scattered = Ray::new(&rec.p, &dir, r_in.tm);
                let attenuation = i.albedo.value(rec.u, rec.v, &rec.p);
                Some(
                    ScatterRecord {
                        attenuation,
                        specular_ray: scattered,
                        is_specular: true,
                        pdf_ptr: unit_lobe(),
                    },
                )
            },
        }
    }

    /// The diffuse density used to reweight the estimator.
    pub fn scattering_pdf(&self, r_in: &Ray, rec: &HitRecord, scattered: &Ray) -> (r: i64)
        requires
            in_range(rec@.normal, 2 * SCALE as int),
            in_range(scattered@.dir, 0x8000_0000),
        ensures
            r == scattering_pdf_spec(self, rec@, scattered@),
            0 <= r <= 2 * SCALE,
    {
        match self {
            Material::Lambertian(_) => {
                if scattered.dir.x == 0 && scattered.dir.y == 0 && scattered.dir.z == 0 {
                    return 0;
                }
                let unit = scattered.dir.unit();
                let cosine = Vec3::dot(rec.normal, unit);
                if cosine < 0 {
                    return 0;
                }
                proof {
                    assert(0 <= cosine as int * (SCALE as int)) by (nonlinear_arith)
                        requires cosine as int >= 0;
                    lemma_div_pos_is_pos(cosine as int * (SCALE as int), PI_FX as int);
                }
                fx_div_sat(cosine, PI_FX, 2 * SCALE)
            },
            _ => 0,
        }
    }

    /// The glow at a hit.
    pub fn emitted(&self, r_in: &Ray, rec: &HitRecord, u: i64, v: i64, p: &Point3) -> (r: Color)
        requires
            material_wf(self),
            in_range(p@, TEX_P_BOUND as int),
        ensures
            color_wf(r@),
            r@ == emitted_spec(self, rec@, u as int, v as int, p@),
    {
        match self {
            Material::DiffuseLight(dl) => {
                if rec.front_face {
                    dl.emit.value(u, v, p)
                } else {
                    Vec3::zero()
                }
            },
            _ => Vec3::zero(),
        }
    }
}

/// A throwaway cosine lobe for specular records, which never use it.
fn unit_lobe() -> (r: CosinePdf)
    ensures
        crate::onb::onb_wf(r.uvw@),
{
    let up = Vec3::ones();
    CosinePdf::new(&up)
}

/// Mirror reflection; exact against `reflect_spec`.
fn reflect(v: &Vec3, n: &Vec3) -> (r: Vec3)
    requires
        in_range(v@, SCALE as int),
        in_range(n@, 2 * SCALE as int),
    ensures
        r@ == reflect_spec(v@, n@),
        in_range(r@, 32 * SCALE as int),
{
    let d = Vec3::dot(*v, *n);
    proof {
        lemma_reflect_bounds(v@, n@, d as int);
    }
    let step = n.scale(2 * d);
    v.minus(&step)
}

/// Snell refraction; exact against `refract_spec`.
fn refract(uv: &Vec3, n: &Vec3, etai_over_etat: i64) -> (r: Vec3)
    requires
        in_range(uv@, SCALE as int),
        in_range(n@, 2 * SCALE as int),
        0x4000 <= etai_over_etat <= 0x4_0000,
    ensures
        r@ == refract_spec(uv@, n@, etai_over_etat as int),
        in_range(r@, 0x400_0000),
{
    proof {
        lemma_dot_small(crate::vec3::v3_neg(uv@), n@);
    }
    let c0 = Vec3::dot(uv.neg(), *n);
    let cos_theta: i64 = if c0 > SCALE {
        SCALE
    } else {
        c0
    };
    proof {
        lemma_refract_bounds_a(n@, cos_theta as int);
    }
    let scaled_n = n.scale(cos_theta);
    let base = uv.plus(&scaled_n);
    proof {
        lemma_refract_bounds_b(base@, etai_over_etat as int);
    }
    let perp = base.scale(etai_over_etat);
    let len2 = perp.squared_length();
    let inner: i64 = if SCALE - len2 < 0 {
        0
    } else {
        SCALE - len2
    };
    let par_len = sqrt_fx(inner);
    proof {
        assert((inner as int) * (SCALE as int) < (65536int + 1) * (65536int + 1))
            by (nonlinear_arith)
            requires 0 <= inner as int <= 65536;
        crate::fx::lemma_sqrt_bound((inner as int) * (SCALE as int), par_len as int,
            SCALE as int);
        lemma_refract_bounds_a(n@, -(par_len as int));
    }
    let step = n.scale(-par_len);
    perp.plus(&step)
}

proof fn lemma_ratio_bounds(ir: int)
    requires
        0x4000 <= ir <= 0x4_0000,
    ensures
        0x4000 <= fx_div_spec(SCALE as int, ir) <= 0x4_0000,
        -0x7fff_ffff_ffff_ffff <= fx_div_spec(SCALE as int, ir) <= 0x7fff_ffff_ffff_ffff,
{
    lemma_div_is_ordered_by_den(65536int * 65536, 0x4000, ir);
    lemma_div_is_ordered_by_den(65536int * 65536, ir, 0x4_0000);
    assert((65536int * 65536) / 0x4000int == 0x4_0000int && (65536int * 65536) / 0x4_0000int
        == 0x4000int) by (nonlinear_arith);
}

proof fn lemma_div_is_ordered_by_den(x: int, a: int, b: int)
    requires
        0 <= x,
        1 <= a <= b,
    ensures
        x / b <= x / a,
{
    vstd::arithmetic::div_mod::lemma_div_is_ordered_by_denominator(x, a, b);
}

proof fn lemma_reflectance_bounds(cosine: int, ref_idx: int)
    requires
        -0x8_0000 <= cosine <= SCALE as int,
        0x4000 <= ref_idx <= 0x4_0000,
    ensures
        -0x4_0000 <= fx_div_spec(SCALE as int - ref_idx, SCALE as int + ref_idx) <= 0x3_0000,
        -0x7fff_ffff_ffff_ffff <= fx_div_spec(SCALE as int - ref_idx, SCALE as int + ref_idx)
            <= 0x7fff_ffff_ffff_ffff,
{
    let num = (SCALE as int - ref_idx) * (SCALE as int);
    let den = SCALE as int + ref_idx;
    assert(-(0x3_0000int * 65536) <= num <= 0x3_0000int * 65536) by (nonlinear_arith)
        requires
            num == (SCALE as int - ref_idx) * (SCALE as int),
            SCALE as int == 65536,
            -0x3_0000 <= SCALE as int - ref_idx <= 0x3_0000;
    crate::fx::lemma_div_range(num, 0x3_0000int * 65536, den);
    lemma_div_is_ordered_by_den(0x3_0000int * 65536, 65536, den);
    assert((0x3_0000int * 65536) / 65536int == 0x3_0000int) by (nonlinear_arith);
}

proof fn lemma_reflect_bounds(v: V3, n: V3, d: int)
    requires
        in_range(v, SCALE as int),
        in_range(n, 2 * SCALE as int),
        d == dot_spec(v, n),
    ensures
        -0x4000_0000_0000_0000_0000 <= n.x * (2 * d) <= 0x4000_0000_0000_0000_0000,
        -0x4000_0000_0000_0000_0000 <= n.y * (2 * d) <= 0x4000_0000_0000_0000_0000,
        -0x4000_0000_0000_0000_0000 <= n.z * (2 * d) <= 0x4000_0000_0000_0000_0000,
        in_range(v3_sub(v, v3_scale(n, 2 * d)), 32 * SCALE as int),
{
    lemma_dot_small(v, n);
    assert(-(2 * 65536int * (2 * (7 * 65536))) <= n.x * (2 * d) <= 2 * 65536int * (2 * (7
        * 65536)) && -(2 * 65536int * (2 * (7 * 65536))) <= n.y * (2 * d) <= 2 * 65536int * (2
        * (7 * 65536)) && -(2 * 65536int * (2 * (7 * 65536))) <= n.z * (2 * d) <= 2 * 65536int
        * (2 * (7 * 65536))) by (nonlinear_arith)
        requires
            in_range(n, 2 * 65536int),
            -7 * 65536 <= d <= 7 * 65536;
    crate::fx::lemma_div_range(n.x * (2 * d), 2 * 65536int * (2 * (7 * 65536)), SCALE as int);
    crate::fx::lemma_div_range(n.y * (2 * d), 2 * 65536int * (2 * (7 * 65536)), SCALE as int);
    crate::fx::lemma_div_range(n.z * (2 * d), 2 * 65536int * (2 * (7 * 65536)), SCALE as int);
    assert((2 * 65536int * (2 * (7 * 65536))) / 65536int == 28 * 65536int) by (nonlinear_arith);
}

/// The fixed-point dot of a unit-bounded and a two-unit-bounded vector
/// is within about six units.
proof fn lemma_dot_small(v: V3, n: V3)
    requires
        in_range(v, SCALE as int),
        in_range(n, 2 * SCALE as int),
    ensures
        -6 * (SCALE as int) - 1 <= dot_spec(v, n) <= 6 * SCALE as int,
{
    assert(-(3 * (2 * 65536int * 65536)) <= crate::vec3::dot_wide_spec(v, n) <= 3 * (2
        * 65536int * 65536)) by (nonlinear_arith)
        requires
            in_range(v, 65536int),
            in_range(n, 2 * 65536int);
    crate::fx::lemma_div_range(crate::vec3::dot_wide_spec(v, n), 3 * (2 * 65536int * 65536),
        SCALE as int);
    assert((3 * (2 * 65536int * 65536)) / 65536int == 6 * 65536int) by (nonlinear_arith);
}

proof fn lemma_fuzz_bounds(s: V3, fuzz: int)
    requires
        in_range(s, SCALE as int),
        -(SCALE as int) <= fuzz <= SCALE as int,
    ensures
        -0x4000_0000_0000_0000_0000 <= s.x * fuzz <= 0x4000_0000_0000_0000_0000,
        -0x4000_0000_0000_0000_0000 <= s.y * fuzz <= 0x4000_0000_0000_0000_0000,
        -0x4000_0000_0000_0000_0000 <= s.z * fuzz <= 0x4000_0000_0000_0000_0000,
        v3_near(v3_scale(s, fuzz), v3_zero(), if fuzz < 0 {
            -fuzz + 1
        } else {
            fuzz + 1
        }),
        in_range(v3_scale(s, fuzz), SCALE as int + 1),
{
    let bound = if fuzz < 0 {
        -fuzz
    } else {
        fuzz
    };
    assert(-(65536int * bound) <= s.x * fuzz <= 65536int * bound && -(65536int * bound) <= s.y
        * fuzz <= 65536int * bound && -(65536int * bound) <= s.z * fuzz <= 65536int * bound)
        by (nonlinear_arith)
        requires
            in_range(s, 65536int),
            -bound <= fuzz <= bound,
            0 <= bound <= 65536;
    crate::fx::lemma_div_range(s.x * fuzz, 65536int * bound, SCALE as int);
    crate::fx::lemma_div_range(s.y * fuzz, 65536int * bound, SCALE as int);
    crate::fx::lemma_div_range(s.z * fuzz, 65536int * bound, SCALE as int);
    assert((65536int * bound) / 65536int == bound) by (nonlinear_arith)
        requires 0 <= bound;
}

proof fn lemma_refract_bounds_a(n: V3, k: int)
    requires
        in_range(n, 2 * SCALE as int),
        -0x8_0000 <= k <= 0x8_0000,
    ensures
        -0x4000_0000_0000_0000_0000 <= n.x * k <= 0x4000_0000_0000_0000_0000,
        -0x4000_0000_0000_0000_0000 <= n.y * k <= 0x4000_0000_0000_0000_0000,
        -0x4000_0000_0000_0000_0000 <= n.z * k <= 0x4000_0000_0000_0000_0000,
        in_range(v3_scale(n, k), 0x10_0001),
{
    assert(-(2 * 65536int * 0x8_0000) <= n.x * k <= 2 * 65536int * 0x8_0000
        && -(2 * 65536int * 0x8_0000) <= n.y * k <= 2 * 65536int * 0x8_0000
        && -(2 * 65536int * 0x8_0000) <= n.z * k <= 2 * 65536int * 0x8_0000)
        by (nonlinear_arith)
        requires
            in_range(n, 2 * 65536int),
            -0x8_0000 <= k <= 0x8_0000,
    ;
    crate::fx::lemma_div_range(n.x * k, 2 * 65536int * 0x8_0000, SCALE as int);
    crate::fx::lemma_div_range(n.y * k, 2 * 65536int * 0x8_0000, SCALE as int);
    crate::fx::lemma_div_range(n.z * k, 2 * 65536int * 0x8_0000, SCALE as int);
    assert((2 * 65536int * 0x8_0000) / 65536int == 0x10_0000int) by (nonlinear_arith);
}

proof fn lemma_refract_bounds_b(base: V3, e: int)
    requires
        in_range(base, 0x20_0000),
        0x4000 <= e <= 0x4_0000,
    ensures
        -0x4000_0000_0000_0000_0000 <= base.x * e <= 0x4000_0000_0000_0000_0000,
        -0x4000_0000_0000_0000_0000 <= base.y * e <= 0x4000_0000_0000_0000_0000,
        -0x4000_0000_0000_0000_0000 <= base.z * e <= 0x4000_0000_0000_0000_0000,
        in_range(v3_scale(base, e), 0x80_0001),
{
    assert(-(0x20_0000int * 0x4_0000) <= base.x * e <= 0x20_0000int * 0x4_0000
        && -(0x20_0000int * 0x4_0000) <= base.y * e <= 0x20_0000int * 0x4_0000
        && -(0x20_0000int * 0x4_0000) <= base.z * e <= 0x20_0000int * 0x4_0000)
        by (nonlinear_arith)
        requires
            in_range(base, 0x20_0000),
            0 <= e <= 0x4_0000,
    ;
    crate::fx::lemma_div_range(base.x * e, 0x20_0000int * 0x4_0000, SCALE as int);
    crate::fx::lemma_div_range(base.y * e, 0x20_0000int * 0x4_0000, SCALE as int);
    crate::fx::lemma_div_range(base.z * e, 0x20_0000int * 0x4_0000, SCALE as int);
    assert((0x20_0000int * 0x4_0000) / 65536int == 0x80_0000int) by (nonlinear_arith);
}

} // verus!
