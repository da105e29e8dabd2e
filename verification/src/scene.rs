//! The path-tracing integrator: recursive radiance estimation with
//! multiple importance sampling over a light set.

use vstd::prelude::*;
use crate::fx::{clamp_spec, floor_div_i128, fx_mul, fx_mul_spec, lemma_div_range, RAY_BOUND,
    SCALE, T_EPSILON, T_MAX_FX};
use crate::hittable::{medium_free, spec_hit, spec_pdf_value, set_wf, HitRecord, HitV, Surface,
    SurfaceSet};
use crate::material::{
    emitted_spec, scatter_post, scattering_pdf_spec, Material, ScatterRecord,
};
use crate::onb::build_from_w_spec;
use crate::pdf::{cosine_pdf_value_spec, HittablePdf, MixturePdf};
use crate::ray::{ray_in_range, Ray, RayV};
use crate::texture::{texture_value_spec, TEX_P_BOUND};
use crate::vec3::{in_range, v3_zero, Color, V3, Vec3};
#[allow(unused_imports)]
use vstd::arithmetic::div_mod::lemma_div_pos_is_pos;

verus! {

/// Ceiling on any radiance component the integrator reports; terms are
/// saturated into `[0, RADIANCE_MAX]`, mirroring the clamping the tone
/// mapper applies afterwards.
pub const RADIANCE_MAX: i64 = 0x1000_0000_0000;

/// Componentwise nonnegative and bounded radiance.
pub open spec fn radiance_wf(c: V3) -> bool {
    0 <= c.x <= RADIANCE_MAX as int && 0 <= c.y <= RADIANCE_MAX as int && 0 <= c.z
        <= RADIANCE_MAX as int
}

/// One channel of `attenuation * radiance * scattering density /
/// mixture density`: floored at each fixed-point step, then saturated
/// into the radiance range.
pub open spec fn weighted_term_spec(radiance: int, spdf: int, atten: int, pdf_val: int)
    -> int {
    let m = (radiance * spdf) / (SCALE as int);
    let am = (atten * m) / (SCALE as int);
    clamp_spec((am * (SCALE as int)) / pdf_val, 0, RADIANCE_MAX as int)
}

/// Componentwise attenuated radiance, saturated into the radiance range.
pub open spec fn attenuate_spec(a: V3, rc: V3) -> V3 {
    V3 {
        x: clamp_spec(fx_mul_spec(a.x, rc.x), 0, RADIANCE_MAX as int),
        y: clamp_spec(fx_mul_spec(a.y, rc.y), 0, RADIANCE_MAX as int),
        z: clamp_spec(fx_mul_spec(a.z, rc.z), 0, RADIANCE_MAX as int),
    }
}

/// A specular bounce's outcome: a scatter record consistent with the
/// material's scattering contract whose attenuation multiplies some
/// radiance estimate of the continuation ray. The drawn perturbations
/// and the recursive estimate are random, so they stand existentially
/// in the integrator's contract.
#[verifier::opaque]
pub open spec fn specular_outcome(
    m: &Material,
    r: RayV,
    h: HitV,
    srec: ScatterRecord,
    rc: V3,
    c: V3,
) -> bool {
    &&& scatter_post(m, r, h, Some(srec))
    &&& srec.is_specular
    &&& radiance_wf(rc)
    &&& c == attenuate_spec(srec.attenuation@, rc)
}

/// A diffuse bounce's outcome for an attenuation `att`, a drawn
/// direction `d` and a radiance estimate `rc` of the scattered ray:
/// either the sample was rejected (an out-of-range draw or a
/// nonpositive mixture density) and contributes black, or the result is
/// the importance-weighted product with the mixture density of `d` and
/// the material's own scattering density.
#[verifier::opaque]
pub open spec fn diffuse_core(
    ns: Seq<Surface>,
    lights: int,
    m: &Material,
    r: RayV,
    h: HitV,
    att: V3,
    d: V3,
    rc: V3,
    c: V3,
) -> bool {
    let scattered = RayV { orig: h.p, dir: d, tm: r.tm };
    let pv = (spec_pdf_value(ns, lights, h.p, d) + cosine_pdf_value_spec(
        build_from_w_spec(h.normal),
        d,
    )) / 2;
    let sp = scattering_pdf_spec(m, h, scattered);
    &&& radiance_wf(rc)
    &&& (c == v3_zero() || (pv >= 1 && c == (V3 {
        x: weighted_term_spec(rc.x, sp, att.x, pv),
        y: weighted_term_spec(rc.y, sp, att.y, pv),
        z: weighted_term_spec(rc.z, sp, att.z, pv),
    })))
}

/// The diffuse outcome with the attenuation pinned to the material's
/// texture, as the diffuse material's scattering contract fixes it.
#[verifier::opaque]
pub open spec fn diffuse_outcome(
    ns: Seq<Surface>,
    lights: int,
    m: &Material,
    r: RayV,
    h: HitV,
    d: V3,
    rc: V3,
    c: V3,
) -> bool {
    match m {
        Material::Lambertian(l) => diffuse_core(
            ns,
            lights,
            m,
            r,
            h,
            texture_value_spec(&l.albedo, h.u, h.v, h.p),
            d,
            rc,
            c,
        ),
        _ => false,
    }
}

/// The estimated radiance along a ray.
///
/// Termination is by the explicit depth counter alone: depth zero is
/// exactly black. A miss returns the background unconditionally. On a
/// hit, emission is added to the importance-weighted scattered
/// contribution; specular scatters bypass the light mixture. A zero
/// mixture density would make the importance weight divide by zero, a
/// known hazard of this estimator; such a sample contributes its
/// emission alone here, as if the indirect term had been zeroed.
#[verifier::rlimit(100)]
pub fn ray_color(
    ray: &Ray,
    background: &Color,
    set: &SurfaceSet,
    world: usize,
    lights: usize,
    depth: u16,
) -> (c: Color)
    requires
        set_wf(set),
        world < set.surfaces@.len(),
        lights < set.surfaces@.len(),
        ray_in_range(ray@),
        radiance_wf(background@),
    ensures
        radiance_wf(c@),
        depth == 0 ==> c@ == v3_zero(),
        depth > 0 && medium_free(set.surfaces@, world as int) && spec_hit(
            set.surfaces@,
            world as int,
            ray@,
            T_EPSILON as int,
            T_MAX_FX as int,
        ) is None ==> c@ == background@,
        ({
            // a pure emitter contributes its emission alone
            let res = spec_hit(set.surfaces@, world as int, ray@, T_EPSILON as int,
                T_MAX_FX as int);
            let emitter_case = (match res {
                Some(h) => in_range(h.p, TEX_P_BOUND as int) && (set.materials@[h.mat_ptr]
                    is DiffuseLight || set.materials@[h.mat_ptr] is Empty),
                None => false,
            });
            (depth > 0 && medium_free(set.surfaces@, world as int) && emitter_case) ==> c@
                == (match res {
                Some(h) => emitted_spec(&set.materials@[h.mat_ptr], h, h.u, h.v, h.p),
                None => v3_zero(),
            })
        }),
        ({
            // a specular material's result composes attenuation with a
            // radiance estimate of the continuation ray
            let ns = set.surfaces@;
            let res = spec_hit(ns, world as int, ray@, T_EPSILON as int, T_MAX_FX as int);
            match res {
                Some(h) => (depth > 0 && medium_free(ns, world as int) && in_range(
                    h.p,
                    TEX_P_BOUND as int,
                ) && in_range(h.normal, 2 * SCALE as int) && ray@.dir != v3_zero() && (
                set.materials@[h.mat_ptr] is Metal || set.materials@[h.mat_ptr]
                    is Dielectric || set.materials@[h.mat_ptr] is Isotropic))
                    ==> exists|srec: ScatterRecord, rc: V3|
                    #[trigger] specular_outcome(&set.materials@[h.mat_ptr], ray@, h, srec,
                        rc, c@),
                None => true,
            }
        }),
        ({
            // a diffuse material's result is the importance-weighted
            // term of some drawn direction, or a rejected sample
            let ns = set.surfaces@;
            let res = spec_hit(ns, world as int, ray@, T_EPSILON as int, T_MAX_FX as int);
            match res {
                Some(h) => (depth > 0 && medium_free(ns, world as int) && in_range(
                    h.p,
                    TEX_P_BOUND as int,
                ) && in_range(h.normal, 2 * SCALE as int) && (match set.materials@[
                    h.mat_ptr
                ] {
                    Material::Lambertian(_) => h.normal != v3_zero(),
                    _ => false,
                })) ==> exists|d: V3, rc: V3|
                    #[trigger] diffuse_outcome(ns, lights as int,
                        &set.materials@[h.mat_ptr], ray@, h, d, rc, c@),
                None => true,
            }
        }),
    decreases depth,
{
    if depth == 0 {
        return Vec3::zero();
    }
    let res = set.hit(world, ray, T_EPSILON, T_MAX_FX);
    let rec = match res {
        None => {
            return *background;
        },
        Some(r) => r,
    };
    if rec.p.x > TEX_P_BOUND || rec.p.x < -TEX_P_BOUND || rec.p.y > TEX_P_BOUND || rec.p.y
        < -TEX_P_BOUND || rec.p.z > TEX_P_BOUND || rec.p.z < -TEX_P_BOUND {
        // a hit point outside the representable texture domain cannot be
        // shaded; report the background as for a miss
        return *background;
    }
    let mat = &set.materials[rec.mat_ptr];
    let emitted = mat.emitted(ray, &rec, rec.u, rec.v, &rec.p);
    if rec.normal.x > 2 * SCALE || rec.normal.x < -2 * SCALE || rec.normal.y > 2 * SCALE
        || rec.normal.y < -2 * SCALE || rec.normal.z > 2 * SCALE || rec.normal.z < -2
        * SCALE {
        // a degenerate normal admits no scattering; the emission stands
        return clamp_radiance(&emitted);
    }
    proof {
        assert(crate::material::material_wf(&set.materials@[rec.mat_ptr as int]));
    }
    let srec = match mat.scatter(ray, &rec) {
        None => {
            return clamp_radiance(&emitted);
        },
        Some(s) => s,
    };
    proof {
        // a material that scattered is neither of the pure emitters, so
        // its emission is exactly black
        assert(!(set.materials@[rec.mat_ptr as int] is DiffuseLight));
        assert(!(set.materials@[rec.mat_ptr as int] is Empty));
        assert(emitted@ == v3_zero());
    }
    if srec.is_specular {
        let out = specular_bounce(ray, background, set, world, lights, depth, &srec);
        proof {
            reveal(specular_outcome);
            let rcw = choose|rc: V3|
                radiance_wf(rc) && out@ == attenuate_spec(srec.attenuation@, rc);
            assert(specular_outcome(&set.materials@[rec.mat_ptr as int], ray@, rec@, srec,
                rcw, out@));
        }
        out
    } else {
        let out = diffuse_bounce(ray, background, set, world, lights, depth, mat, &rec,
            &srec);
        proof {
            reveal(diffuse_outcome);
            let m = &set.materials@[rec.mat_ptr as int];
            let pinned = (m is Lambertian);
            if pinned {
                let (dw, rcw) = choose|d: V3, rc: V3|
                    #[trigger] diffuse_core(set.surfaces@, lights as int, m, ray@, rec@,
                        srec.attenuation@, d, rc, out@);
                assert(diffuse_outcome(set.surfaces@, lights as int, m, ray@, rec@, dw,
                    rcw, out@));
            }
        }
        out
    }
}

/// Follow a specular continuation: attenuate the recursive estimate, or
/// contribute black when the continuation ray leaves the usable range.
fn specular_bounce(
    ray: &Ray,
    background: &Color,
    set: &SurfaceSet,
    world: usize,
    lights: usize,
    depth: u16,
    srec: &ScatterRecord,
) -> (c: Color)
    requires
        set_wf(set),
        world < set.surfaces@.len(),
        lights < set.surfaces@.len(),
        radiance_wf(background@),
        depth >= 1,
        -0x1000_0000 <= srec.attenuation@.x <= 0x1000_0000,
        -0x1000_0000 <= srec.attenuation@.y <= 0x1000_0000,
        -0x1000_0000 <= srec.attenuation@.z <= 0x1000_0000,
    ensures
        radiance_wf(c@),
        exists|rc: V3| radiance_wf(rc) && c@ == attenuate_spec(srec.attenuation@, rc),
    decreases depth, 0int,
{
    let sray = srec.specular_ray;
    if !ray_bounds_ok(&sray) {
        proof {
            lemma_attenuate_zero(srec.attenuation@);
            assert(radiance_wf(v3_zero()) && v3_zero() == attenuate_spec(
                srec.attenuation@,
                v3_zero(),
            ));
        }
        return Vec3::zero();
    }
    let rc = ray_color(&sray, background, set, world, lights, depth - 1);
    let out = attenuate(&srec.attenuation, &rc);
    proof {
        assert(radiance_wf(rc@) && out@ == attenuate_spec(srec.attenuation@, rc@));
    }
    out
}

/// Follow a diffuse continuation: mix the light-directed and the
/// cosine-lobe samplers evenly, draw a direction, weight the recursive
/// estimate by the scattering density over the mixture density. A
/// rejected draw (out of range, or zero density — the division hazard)
/// contributes black.
fn diffuse_bounce(
    ray: &Ray,
    background: &Color,
    set: &SurfaceSet,
    world: usize,
    lights: usize,
    depth: u16,
    mat: &Material,
    rec: &HitRecord,
    srec: &ScatterRecord,
) -> (c: Color)
    requires
        set_wf(set),
        world < set.surfaces@.len(),
        lights < set.surfaces@.len(),
        ray_in_range(ray@),
        radiance_wf(background@),
        depth >= 1,
        in_range(rec@.normal, 2 * SCALE as int),
        srec.pdf_ptr.uvw@ == build_from_w_spec(rec@.normal),
        0 <= srec.attenuation@.x <= 0x1000_0000,
        0 <= srec.attenuation@.y <= 0x1000_0000,
        0 <= srec.attenuation@.z <= 0x1000_0000,
    ensures
        radiance_wf(c@),
        exists|d: V3, rc: V3|
            #[trigger] diffuse_core(set.surfaces@, lights as int, mat, ray@, rec@,
                srec.attenuation@, d, rc, c@),
    decreases depth, 0int,
{
    let ghost ns = set.surfaces@;
    if !crate::onb::onb_wf_check(&srec.pdf_ptr.uvw) {
        proof {
            lemma_diffuse_zero(ns, lights as int, mat, ray@, rec@, srec.attenuation@);
        }
        return Vec3::zero();
    }
    let light_ptr = HittablePdf::new(lights, rec.p);
    let p = MixturePdf::new(light_ptr, srec.pdf_ptr);
    if rec.p.x > RAY_BOUND || rec.p.x < -RAY_BOUND || rec.p.y > RAY_BOUND || rec.p.y
        < -RAY_BOUND || rec.p.z > RAY_BOUND || rec.p.z < -RAY_BOUND {
        proof {
            lemma_diffuse_zero(ns, lights as int, mat, ray@, rec@, srec.attenuation@);
        }
        return Vec3::zero();
    }
    let dir = p.generate(set);
    let scattered = Ray::new(&rec.p, &dir, ray.tm);
    if !ray_bounds_ok(&scattered) {
        proof {
            lemma_diffuse_zero(ns, lights as int, mat, ray@, rec@, srec.attenuation@);
        }
        return Vec3::zero();
    }
    let pdf_val = p.value(set, &scattered.dir);
    if pdf_val <= 0 {
        proof {
            lemma_diffuse_zero(ns, lights as int, mat, ray@, rec@, srec.attenuation@);
        }
        return Vec3::zero();
    }
    let spdf = mat.scattering_pdf(ray, rec, &scattered);
    let rc = ray_color(&scattered, background, set, world, lights, depth - 1);
    let mx = weighted_term(rc.x, spdf, srec.attenuation.x, pdf_val);
    let my = weighted_term(rc.y, spdf, srec.attenuation.y, pdf_val);
    let mz = weighted_term(rc.z, spdf, srec.attenuation.z, pdf_val);
    let out = Vec3::new(mx, my, mz);
    proof {
        reveal(diffuse_core);
        assert(diffuse_core(ns, lights as int, mat, ray@, rec@, srec.attenuation@, dir@,
            rc@, out@));
    }
    out
}

/// Attenuating black yields black.
proof fn lemma_attenuate_zero(a: V3)
    ensures
        attenuate_spec(a, v3_zero()) == v3_zero(),
{
    assert(a.x * 0 == 0 && a.y * 0 == 0 && a.z * 0 == 0) by (nonlinear_arith);
    assert(0int / 65536int == 0) by (nonlinear_arith);
}

/// A rejected diffuse sample — black — is a legitimate outcome for any
/// drawn direction.
proof fn lemma_diffuse_zero(ns: Seq<Surface>, lights: int, m: &Material, r: RayV, h: HitV,
    att: V3)
    ensures
        diffuse_core(ns, lights, m, r, h, att, v3_zero(), v3_zero(), v3_zero()),
{
    reveal(diffuse_core);
}

/// Decide at run time whether a ray is within the bounds the
/// intersection routines accept.
fn ray_bounds_ok(r: &Ray) -> (ok: bool)
    ensures
        ok == ray_in_range(r@),
{
    r.orig.x <= RAY_BOUND && r.orig.x >= -RAY_BOUND && r.orig.y <= RAY_BOUND && r.orig.y
        >= -RAY_BOUND && r.orig.z <= RAY_BOUND && r.orig.z >= -RAY_BOUND && r.dir.x
        <= RAY_BOUND && r.dir.x >= -RAY_BOUND && r.dir.y <= RAY_BOUND && r.dir.y
        >= -RAY_BOUND && r.dir.z <= RAY_BOUND && r.dir.z >= -RAY_BOUND && r.tm <= T_MAX_FX
        && r.tm >= -T_MAX_FX
}

/// One channel of the importance-weighted indirect contribution; exact
/// against `weighted_term_spec`.
fn weighted_term(radiance: i64, spdf: i64, atten: i64, pdf_val: i64) -> (r: i64)
    requires
        0 <= radiance <= RADIANCE_MAX,
        0 <= spdf <= 2 * SCALE,
        0 <= atten <= crate::texture::CLR_MAX,
        1 <= pdf_val,
    ensures
        r == weighted_term_spec(radiance as int, spdf as int, atten as int, pdf_val as int),
        0 <= r <= RADIANCE_MAX,
{
    proof {
        assert(0 <= radiance as int * (spdf as int)
            <= 0x1000_0000_0000int * (2 * 65536)) by (nonlinear_arith)
            requires
                0 <= radiance as int <= 0x1000_0000_0000,
                0 <= spdf as int <= 2 * 65536;
        lemma_div_range(radiance as int * (spdf as int), 0x1000_0000_0000int * (2 * 65536),
            SCALE as int);
        lemma_div_pos_is_pos(radiance as int * (spdf as int), SCALE as int);
        assert((0x1000_0000_0000int * (2 * 65536)) / 65536int == 0x2000_0000_0000int)
            by (nonlinear_arith);
    }
    let m = fx_mul(radiance, spdf);
    proof {
        assert(0 <= atten as int * (m as int)
            <= 0x1000_0000int * 0x2000_0000_0000) by (nonlinear_arith)
            requires
                0 <= atten as int <= 0x1000_0000,
                0 <= m as int <= 0x2000_0000_0000;
        lemma_div_range(atten as int * (m as int), 0x1000_0000int * 0x2000_0000_0000,
            SCALE as int);
        lemma_div_pos_is_pos(atten as int * (m as int), SCALE as int);
    }
    let am = fx_mul(atten, m);
    proof {
        assert(0 <= (am as int) * (SCALE as int)) by (nonlinear_arith)
            requires 0 <= am as int;
        crate::fx::lemma_div_bounds((am as int) * (SCALE as int), pdf_val as int);
        lemma_div_pos_is_pos((am as int) * (SCALE as int), pdf_val as int);
        assert((am as int) * (SCALE as int) <= 0x4000_0000_0000_0000_0000_0000)
            by (nonlinear_arith)
            requires 0 <= am as int <= 0x7fff_ffff_ffff_ffff;
    }
    let q = floor_div_i128((am as i128) * (SCALE as i128), pdf_val as i128);
    if q > RADIANCE_MAX as i128 {
        RADIANCE_MAX
    } else if q < 0 {
        0
    } else {
        q as i64
    }
}

/// Clamp a color into the radiance range.
fn clamp_radiance(c: &Color) -> (r: Color)
    ensures
        radiance_wf(r@),
        0 <= c@.x <= RADIANCE_MAX && 0 <= c@.y <= RADIANCE_MAX && 0 <= c@.z <= RADIANCE_MAX
            ==> r@ == c@,
{
    Vec3::new(
        crate::fx::clamp(c.x, 0, RADIANCE_MAX),
        crate::fx::clamp(c.y, 0, RADIANCE_MAX),
        crate::fx::clamp(c.z, 0, RADIANCE_MAX),
    )
}

/// Componentwise attenuation of a radiance value; exact against
/// `attenuate_spec`.
fn attenuate(atten: &Color, rc: &Color) -> (r: Color)
    requires
        radiance_wf(rc@),
        -0x1000_0000 <= atten@.x <= 0x1000_0000,
        -0x1000_0000 <= atten@.y <= 0x1000_0000,
        -0x1000_0000 <= atten@.z <= 0x1000_0000,
    ensures
        r@ == attenuate_spec(atten@, rc@),
        radiance_wf(r@),
{
    proof {
        lemma_attenuate_bounds(atten@.x, rc@.x);
        lemma_attenuate_bounds(atten@.y, rc@.y);
        lemma_attenuate_bounds(atten@.z, rc@.z);
    }
    Vec3::new(
        crate::fx::clamp(fx_mul(atten.x, rc.x), 0, RADIANCE_MAX),
        crate::fx::clamp(fx_mul(atten.y, rc.y), 0, RADIANCE_MAX),
        crate::fx::clamp(fx_mul(atten.z, rc.z), 0, RADIANCE_MAX),
    )
}

proof fn lemma_attenuate_bounds(a: int, r: int)
    requires
        -0x1000_0000 <= a <= 0x1000_0000,
        0 <= r <= RADIANCE_MAX as int,
    ensures
        -0x1000_0000_0000_0000_0000 <= a * r <= 0x1000_0000_0000_0000_0000,
{
    assert(-(0x1000_0000int * 0x1000_0000_0000) <= a * r <= 0x1000_0000int
        * 0x1000_0000_0000) by (nonlinear_arith)
        requires
            -0x1000_0000 <= a <= 0x1000_0000,
            0 <= r <= 0x1000_0000_0000;
}

} // verus!
