//! Concrete checks of the fixed-point kernel: arithmetic, geometry,
//! intersection exactness, sampling densities and the integrator.

use raytracer::aabb::{surrounding_box, AABB};
use raytracer::fx;
use raytracer::hittable::{Surface, SurfaceSet, Translate};
use raytracer::hittable_list::HittableList;
use raytracer::material::{Dielectric, DiffuseLight, Empty, Lambertian, Material, Metal};
use raytracer::onb::Onb;
use raytracer::pdf::{CosinePdf, HittablePdf, MixturePdf};
use raytracer::perlin::Perlin;
use raytracer::ray::Ray;
use raytracer::rng;
use raytracer::sphere::Sphere;
use raytracer::texture::{SolidColor, Texture};
use raytracer::vec3::Vec3;

const S: i64 = 65536;

fn solid(r: i64, g: i64, b: i64) -> Texture {
    Texture::Solid(SolidColor::new(r, g, b))
}

#[test]
fn fx_mul_is_scaled_product() {
    assert_eq!(fx::fx_mul(S, S), S);
    assert_eq!(fx::fx_mul(2 * S, 3 * S), 6 * S);
    assert_eq!(fx::fx_mul(-S / 2, S), -S / 2);
    // floor rounding: 1/65536 * 1/65536 rounds to zero
    assert_eq!(fx::fx_mul(1, 1), 0);
    assert_eq!(fx::fx_mul(-1, 1), -1);
}

#[test]
fn fx_div_is_scaled_quotient() {
    assert_eq!(fx::fx_div(S, 2 * S), S / 2);
    assert_eq!(fx::fx_div(6 * S, 3 * S), 2 * S);
    assert_eq!(fx::fx_div(S, -2 * S), -S / 2);
}

#[test]
fn sqrt_fx_matches_squares() {
    assert_eq!(fx::sqrt_fx(4 * S), 2 * S);
    assert_eq!(fx::sqrt_fx(9 * S), 3 * S);
    assert_eq!(fx::sqrt_fx(0), 0);
    let r = fx::sqrt_fx(2 * S);
    // sqrt(2) = 1.41421...; fixed point floor
    assert!(r >= 92681 - 1 && r <= 92682);
}

#[test]
fn sin_cos_quarter_points() {
    assert_eq!(fx::sin_turns(0), 0);
    assert_eq!(fx::sin_turns(fx::QUARTER_TURN), S);
    assert_eq!(fx::sin_turns(fx::HALF_TURN), 0);
    assert_eq!(fx::cos_turns(0), S);
    assert_eq!(fx::cos_turns(fx::HALF_TURN), -S);
    for t in [1000, 5000, 20000, 40000, 60000] {
        assert!(fx::sin_turns(t).abs() <= S);
        assert!(fx::cos_turns(t).abs() <= S);
    }
}

#[test]
fn neg_ln_unit_of_one_is_zero() {
    assert_eq!(fx::neg_ln_unit(S), 0);
    let half = fx::neg_ln_unit(S / 2);
    // -ln(1/2) = 0.6931; the base-2 stage is exact here
    assert!(half > 40000 && half < 50000);
    assert!(fx::neg_ln_unit(1) <= 17 * 45426);
}

#[test]
fn vector_algebra_concrete() {
    let a = Vec3::new(S, 2 * S, 3 * S);
    let b = Vec3::new(-S, S, S);
    assert_eq!(a.plus(&b), Vec3::new(0, 3 * S, 4 * S));
    assert_eq!(a.minus(&b), Vec3::new(2 * S, S, 2 * S));
    assert_eq!(Vec3::dot(a, b), -S + 2 * S + 3 * S);
    let c = Vec3::cross(Vec3::new(S, 0, 0), Vec3::new(0, S, 0));
    assert_eq!(c, Vec3::new(0, 0, S));
    let u = Vec3::new(3 * S, 0, 0).unit();
    assert_eq!(u, Vec3::new(S, 0, 0));
}

#[test]
fn merge_contains_both_boxes() {
    let a = AABB::new(&Vec3::new(-S, 0, 0), &Vec3::new(S, S, S));
    let b = AABB::new(&Vec3::new(0, -S, 0), &Vec3::new(2 * S, 0, 2 * S));
    let m = surrounding_box(&a, &b);
    assert_eq!(m.minimum, Vec3::new(-S, -S, 0));
    assert_eq!(m.maximum, Vec3::new(2 * S, S, 2 * S));
    // containment of both operands, on every axis
    assert!(m.minimum.x <= a.minimum.x && a.maximum.x <= m.maximum.x);
    assert!(m.minimum.y <= b.minimum.y && b.maximum.y <= m.maximum.y);
}

#[test]
fn slab_test_accepts_and_rejects() {
    let bx = AABB::new(&Vec3::new(-S, -S, -S), &Vec3::new(S, S, S));
    let toward = Ray::new(&Vec3::new(0, 0, 5 * S), &Vec3::new(0, 0, -S), 0);
    let away = Ray::new(&Vec3::new(0, 0, 5 * S), &Vec3::new(0, 0, S), 0);
    let aside = Ray::new(&Vec3::new(4 * S, 0, 5 * S), &Vec3::new(0, 0, -S), 0);
    assert!(bx.hit(&toward, 66, fx::T_MAX_FX));
    assert!(!bx.hit(&away, 66, fx::T_MAX_FX));
    assert!(!bx.hit(&aside, 66, fx::T_MAX_FX));
}

#[test]
fn unit_sphere_axis_ray_hits_at_four() {
    let s = Sphere::new(&Vec3::new(0, 0, 0), S, 0);
    let r = Ray::new(&Vec3::new(0, 0, 5 * S), &Vec3::new(0, 0, -S), 0);
    let rec = s.hit(&r, 66, fx::T_MAX_FX).expect("must hit");
    assert_eq!(rec.t, 4 * S);
    assert_eq!(rec.p.z, S);
    // the stored normal opposes the ray
    assert!(Vec3::dot(r.dir, rec.normal) <= 0);
    assert!(rec.front_face);
}

#[test]
fn sphere_miss_is_none() {
    let s = Sphere::new(&Vec3::new(0, 0, 0), S, 0);
    let r = Ray::new(&Vec3::new(0, 0, 5 * S), &Vec3::new(0, 0, S), 0);
    assert!(s.hit(&r, 66, fx::T_MAX_FX).is_none());
}

#[test]
fn normal_convention_from_inside() {
    // a ray starting inside the sphere strikes the back face
    let s = Sphere::new(&Vec3::new(0, 0, 0), 2 * S, 0);
    let r = Ray::new(&Vec3::new(0, 0, 0), &Vec3::new(0, 0, -S), 0);
    let rec = s.hit(&r, 66, fx::T_MAX_FX).expect("must hit");
    assert!(Vec3::dot(r.dir, rec.normal) <= 0);
    assert!(!rec.front_face);
}

#[test]
fn rect_hit_and_uv() {
    let rc = raytracer::arrect::XZRect::new(-S, S, -S, S, 0, 0);
    let r = Ray::new(&Vec3::new(0, 3 * S, 0), &Vec3::new(0, -S, 0), 0);
    let rec = rc.hit(&r, 66, fx::T_MAX_FX).expect("must hit");
    assert_eq!(rec.t, 3 * S);
    assert_eq!(rec.p, Vec3::new(0, 0, 0));
    // the hit is at the middle of both extents
    assert_eq!(rec.u, S / 2);
    assert_eq!(rec.v, S / 2);
    assert!(Vec3::dot(r.dir, rec.normal) <= 0);
}

#[test]
fn reflectance_schlick_concrete() {
    // glass with index 1.5, head-on: Schlick gives (1-1.5)^2/(2.5)^2 = 0.04
    let r = Dielectric::reflectance(S, 98304);
    assert_eq!(r, 2621);
}

#[test]
fn metal_scatter_is_specular() {
    let mut set = SurfaceSet::new();
    let m = set.add_material(Material::Metal(Metal::new(Vec3::new(S / 2, S / 2, S / 2), 0)));
    let sp = set.push_surface(Surface::Sphere(Sphere::new(&Vec3::new(0, 0, 0), S, m)));
    let r = Ray::new(&Vec3::new(0, 0, 5 * S), &Vec3::new(0, 0, -S), 0);
    let rec = set.hit(sp, &r, 66, fx::T_MAX_FX).expect("must hit");
    let srec = set.materials[rec.mat_ptr].scatter(&r, &rec).expect("metal scatters");
    assert!(srec.is_specular);
    assert_eq!(srec.attenuation, Vec3::new(S / 2, S / 2, S / 2));
    // zero fuzz: the reflection of (0,0,-1) about +z is (0,0,+1), within a unit
    assert!(srec.specular_ray.dir.z > 0);
}

#[test]
fn diffuse_light_emits_from_front_only() {
    let light = Material::DiffuseLight(DiffuseLight::new(solid(7 * S, 7 * S, 7 * S)));
    let mut set = SurfaceSet::new();
    let m = set.add_material(light);
    let sp = set.push_surface(Surface::XZRect(raytracer::arrect::XZRect::new(
        -S, S, -S, S, 0, m,
    )));
    let from_above = Ray::new(&Vec3::new(0, 3 * S, 0), &Vec3::new(0, -S, 0), 0);
    let rec = set.hit(sp, &from_above, 66, fx::T_MAX_FX).expect("must hit");
    let mat = &set.materials[rec.mat_ptr];
    assert!(mat.scatter(&from_above, &rec).is_none());
    let e = mat.emitted(&from_above, &rec, rec.u, rec.v, &rec.p);
    assert_eq!(e, Vec3::new(7 * S, 7 * S, 7 * S));
    let mut back = rec;
    back.front_face = false;
    let eb = mat.emitted(&from_above, &back, back.u, back.v, &back.p);
    assert_eq!(eb, Vec3::new(0, 0, 0));
}

#[test]
fn empty_material_neither_scatters_nor_glows() {
    let e = Material::Empty(Empty::new());
    let mut set = SurfaceSet::new();
    let m = set.add_material(e);
    let sp = set.push_surface(Surface::Sphere(Sphere::new(&Vec3::new(0, 0, 0), S, m)));
    let r = Ray::new(&Vec3::new(0, 0, 5 * S), &Vec3::new(0, 0, -S), 0);
    let rec = set.hit(sp, &r, 66, fx::T_MAX_FX).unwrap();
    assert!(set.materials[rec.mat_ptr].scatter(&r, &rec).is_none());
    assert_eq!(
        set.materials[rec.mat_ptr].emitted(&r, &rec, rec.u, rec.v, &rec.p),
        Vec3::new(0, 0, 0)
    );
}

#[test]
fn translate_round_trip_matches_plain_surface() {
    let mut set = SurfaceSet::new();
    let m = set.add_material(Material::Lambertian(Lambertian::new(solid(S / 2, S / 2, S / 2))));
    let sp = set.push_surface(Surface::Sphere(Sphere::new(&Vec3::new(0, 0, 0), S, m)));
    let off = Vec3::new(3 * S, -2 * S, S);
    let inner = set.push_surface(Surface::Translate(Translate::new(sp, off)));
    let outer = set.push_surface(Surface::Translate(Translate::new(inner, off.neg())));
    for (ox, oy) in [(0, 0), (S / 2, -S / 3), (-S / 4, S / 5)] {
        let r = Ray::new(&Vec3::new(ox, oy, 5 * S), &Vec3::new(0, 0, -S), 0);
        let direct = set.hit(sp, &r, 66, fx::T_MAX_FX);
        let round = set.hit(outer, &r, 66, fx::T_MAX_FX);
        match (direct, round) {
            (None, None) => {}
            (Some(a), Some(b)) => {
                assert_eq!(a.t, b.t);
                assert_eq!(a.p, b.p);
                assert_eq!(a.normal, b.normal);
                assert_eq!(a.front_face, b.front_face);
            }
            _ => panic!("round trip changed hit/miss"),
        }
    }
}

#[test]
fn bvh_matches_linear_scan() {
    let mut set = SurfaceSet::new();
    let m = set.add_material(Material::Lambertian(Lambertian::new(solid(S / 2, S / 2, S / 2))));
    let mut list = HittableList::new();
    let centers = [
        (0i64, 0i64, 0i64),
        (3, 0, -2),
        (-3, 1, -4),
        (1, -2, -6),
        (-1, 2, -8),
        (2, 2, -3),
        (0, -3, -5),
    ];
    for (cx, cy, cz) in centers {
        let sp = set.push_surface(Surface::Sphere(Sphere::new(
            &Vec3::new(cx * S, cy * S, cz * S),
            S / 2,
            m,
        )));
        list.add(sp);
    }
    let list_node = {
        let mut l = HittableList::new();
        for &h in &list.objects {
            l.add(h);
        }
        set.push_surface(Surface::List(l))
    };
    let root = raytracer::hittable::BvhNode::new_with_list(&mut set, &list, 0, S)
        .expect("all spheres have boxes");
    for gx in -6..7 {
        for gy in -6..7 {
            let dir = Vec3::new(gx * S / 4, gy * S / 4, -S);
            let r = Ray::new(&Vec3::new(0, 0, 8 * S), &dir, 0);
            let brute = set.hit(list_node, &r, 66, fx::T_MAX_FX);
            let fast = set.hit(root, &r, 66, fx::T_MAX_FX);
            match (brute, fast) {
                (None, None) => {}
                (Some(a), Some(b)) => assert_eq!(a.t, b.t, "nearest distance must agree"),
                (a, b) => panic!("bvh {:?} vs scan {:?}", b.map(|h| h.t), a.map(|h| h.t)),
            }
        }
    }
}

#[test]
fn mixture_value_is_mean_of_components() {
    let mut set = SurfaceSet::new();
    let m = set.add_material(Material::DiffuseLight(DiffuseLight::new(solid(S, S, S))));
    let light = set.push_surface(Surface::XZRect(raytracer::arrect::XZRect::new(
        -S, S, -S, S, 5 * S, m,
    )));
    let origin = Vec3::new(0, 0, 0);
    let hp = HittablePdf::new(light, origin);
    let cp = CosinePdf::new(&Vec3::new(0, S, 0));
    let dir = Vec3::new(0, S, 0);
    let a = hp.value(&set, &dir);
    let b = cp.value(&dir);
    let mix = MixturePdf::new(hp, cp);
    assert_eq!(mix.value(&set, &dir), (a + b) / 2);
    assert!(a > 0, "upward ray strikes the light");
    assert!(b > 0, "upward direction is in the cosine lobe");
}

#[test]
fn cosine_pdf_peak_value() {
    let cp = CosinePdf::new(&Vec3::new(0, 0, S));
    // along the axis the density is 1/pi
    assert_eq!(cp.value(&Vec3::new(0, 0, S)), 20860);
    // below the horizon it vanishes
    assert_eq!(cp.value(&Vec3::new(0, 0, -S)), 0);
}

#[test]
fn onb_frame_from_axis() {
    let o = Onb::build_from_w(&Vec3::new(0, 0, 3 * S));
    assert_eq!(o.w(), Vec3::new(0, 0, S));
    // the frame's axes are mutually orthogonal unit-ish vectors
    assert_eq!(Vec3::dot(o.u(), o.v()), 0);
    assert_eq!(Vec3::dot(o.v(), o.w()), 0);
    let local = o.local(&Vec3::new(0, 0, S));
    assert_eq!(local, Vec3::new(0, 0, S));
}

#[test]
fn perlin_tables_are_permutations() {
    let p = Perlin::perlin_generate_perm();
    assert_eq!(p.len(), 256);
    let mut seen = [false; 256];
    for &v in &p {
        assert!((0..256).contains(&v));
        assert!(!seen[v as usize], "duplicate entry");
        seen[v as usize] = true;
    }
}

#[test]
fn perlin_noise_is_bounded() {
    let p = Perlin::new();
    for k in 0..20 {
        let pt = Vec3::new(k * 1000 + 37, -k * 700, k * k * 13);
        let n = p.noise(&pt);
        assert!(n.abs() <= 24 * S);
        let t = p.turb(&pt, 7);
        assert!((0..=48 * S).contains(&t));
    }
}

#[test]
fn random_draws_stay_in_range() {
    for _ in 0..200 {
        let f = rng::random_f();
        assert!((0..S).contains(&f));
        let v = rng::random_in_unit_sphere();
        assert!(v.squared_length() < S);
        let c = rng::random_cosine_direction();
        assert!(c.z >= 0 && c.x.abs() <= S && c.y.abs() <= S && c.z <= S);
        let u = rng::random_u_m(3, 9);
        assert!((3..9).contains(&u));
    }
}

#[test]
fn moving_sphere_interpolates_center() {
    let ms = raytracer::moving_sphere::MovingSphere::new(
        &Vec3::new(0, 0, 0),
        &Vec3::new(2 * S, 0, 0),
        0,
        S,
        S / 2,
        0,
    );
    assert_eq!(ms.center(0), Vec3::new(0, 0, 0));
    assert_eq!(ms.center(S), Vec3::new(2 * S, 0, 0));
    assert_eq!(ms.center(S / 2), Vec3::new(S, 0, 0));
    // a ray at shutter-open hits the start position, not the end one
    let r0 = Ray::new(&Vec3::new(0, 0, 5 * S), &Vec3::new(0, 0, -S), 0);
    assert!(ms.hit(&r0, 66, fx::T_MAX_FX).is_some());
    let r1 = Ray::new(&Vec3::new(0, 0, 5 * S), &Vec3::new(0, 0, -S), S);
    assert!(ms.hit(&r1, 66, fx::T_MAX_FX).is_none());
}

#[test]
fn rotate_y_quarter_turn_moves_sphere() {
    let mut set = SurfaceSet::new();
    let m = set.add_material(Material::Lambertian(Lambertian::new(solid(S / 2, S / 2, S / 2))));
    let sp = set.push_surface(Surface::Sphere(Sphere::new(&Vec3::new(2 * S, 0, 0), S, m)));
    // a quarter turn: the sphere now sits on the z axis for world rays
    let rot = set.add_rotate_y(sp, 16384);
    let along_x = Ray::new(&Vec3::new(10 * S, 0, 0), &Vec3::new(-S, 0, 0), 0);
    assert!(set.hit(rot, &along_x, 66, fx::T_MAX_FX).is_none());
    let along_z = Ray::new(&Vec3::new(0, 0, 10 * S), &Vec3::new(0, 0, -S), 0);
    let rec = set.hit(rot, &along_z, 66, fx::T_MAX_FX).expect("rotated sphere on z axis");
    assert_eq!(rec.t, 11 * S);
}

#[test]
fn constant_medium_scatters_inside_dense_fog() {
    let mut set = SurfaceSet::new();
    let phase = set.add_material(Material::Isotropic(raytracer::material::Isotropic::new(
        solid(S / 2, S / 2, S / 2),
    )));
    let boundary = set.push_surface(Surface::Sphere(Sphere::new(&Vec3::new(0, 0, 0), 2 * S, 0)));
    let fog = set.push_surface(Surface::ConstantMedium(
        raytracer::constant_medium::ConstantMedium::new(boundary, fx::COORD_BOUND, phase),
    ));
    let r = Ray::new(&Vec3::new(0, 0, 10 * S), &Vec3::new(0, 0, -S), 0);
    // density so high that the free flight is negligible: always scatters
    let rec = set.hit(fog, &r, 66, fx::T_MAX_FX).expect("dense fog scatters");
    assert!(rec.t >= 66 && rec.t <= fx::T_MAX_FX);
    assert_eq!(rec.mat_ptr, phase);
    assert!(rec.front_face);
}

#[test]
fn box_object_is_closed() {
    let mut set = SurfaceSet::new();
    let m = set.add_material(Material::Lambertian(Lambertian::new(solid(S / 2, S / 2, S / 2))));
    let bx = set.add_box(&Vec3::new(-S, -S, -S), &Vec3::new(S, S, S), m);
    for (dx, dy, dz) in [(0, 0, -S), (0, 0, S), (0, -S, 0), (0, S, 0), (-S, 0, 0), (S, 0, 0)] {
        let r = Ray::new(&Vec3::new(-4 * dx, -4 * dy, -4 * dz), &Vec3::new(dx, dy, dz), 0);
        let rec = set.hit(bx, &r, 66, fx::T_MAX_FX).expect("every side is present");
        assert_eq!(rec.t, 3 * S);
    }
}

#[test]
fn checker_texture_alternates() {
    let odd = solid(S, 0, 0);
    let even = solid(0, S, 0);
    let t = Texture::Checker(raytracer::texture::CheckerTexture::new(odd, even));
    // at the origin all sines vanish: the even color
    assert_eq!(t.value(0, 0, &Vec3::new(0, 0, 0)), Vec3::new(0, S, 0));
    // a third of a unit along x: sin(10*x) positive, others zero: still even
    assert_eq!(t.value(0, 0, &Vec3::new(S / 3, 0, 0)), Vec3::new(0, S, 0));
}

#[test]
fn image_texture_looks_up_pixels() {
    let data = vec![
        Vec3::new(S, 0, 0),
        Vec3::new(0, S, 0),
        Vec3::new(0, 0, S),
        Vec3::new(S, S, 0),
    ];
    let t = Texture::Image(raytracer::texture::ImageTexture::new(data, 2, 2));
    // u=0, v=1 is the top-left texel, which is row 0 after the flip
    assert_eq!(t.value(0, S, &Vec3::new(0, 0, 0)), Vec3::new(S, 0, 0));
    assert_eq!(t.value(S, S, &Vec3::new(0, 0, 0)), Vec3::new(0, S, 0));
    assert_eq!(t.value(0, 0, &Vec3::new(0, 0, 0)), Vec3::new(0, 0, S));
    assert_eq!(t.value(S, 0, &Vec3::new(0, 0, 0)), Vec3::new(S, S, 0));
}

#[test]
fn scatter_record_defaults() {
    let s = raytracer::material::ScatterRecord::new();
    assert!(!s.is_specular);
    assert_eq!(s.attenuation, Vec3::new(0, 0, 0));
}

#[test]
fn onb_local_single_matches_local() {
    let o = Onb::build_from_w(&Vec3::new(S, 2 * S, 3 * S));
    let a = o.local(&Vec3::new(S / 2, -S / 3, S));
    let b = o.local_single(S / 2, -S / 3, S);
    assert_eq!(a, b);
}

#[test]
fn total_internal_reflection_is_deterministic() {
    // from just inside the glass surface, a grazing ray exceeds the
    // critical angle: refraction is impossible and every draw reflects
    let mut set = SurfaceSet::new();
    let glass = set.add_material(Material::Dielectric(Dielectric::new(98304)));
    let sp = set.push_surface(Surface::Sphere(Sphere::new(&Vec3::new(0, 0, 0), S, glass)));
    let r = Ray::new(&Vec3::new(9 * S / 10, 0, 0), &Vec3::new(0, S, 0), 0);
    let rec = set.hit(sp, &r, 66, fx::T_MAX_FX).expect("must hit from inside");
    assert!(!rec.front_face);
    let first = set.materials[rec.mat_ptr]
        .scatter(&r, &rec)
        .expect("glass always scatters");
    assert!(first.is_specular);
    assert_eq!(first.attenuation, Vec3::new(S, S, S));
    for _ in 0..20 {
        let again = set.materials[rec.mat_ptr].scatter(&r, &rec).unwrap();
        assert_eq!(
            again.specular_ray.dir, first.specular_ray.dir,
            "total internal reflection leaves no random choice"
        );
    }
}

#[test]
fn lambertian_density_peaks_along_normal() {
    let mut set = SurfaceSet::new();
    let m = set.add_material(Material::Lambertian(Lambertian::new(solid(S / 2, S / 2, S / 2))));
    let sp = set.push_surface(Surface::Sphere(Sphere::new(&Vec3::new(0, 0, 0), S, m)));
    let r = Ray::new(&Vec3::new(0, 0, 5 * S), &Vec3::new(0, 0, -S), 0);
    let rec = set.hit(sp, &r, 66, fx::T_MAX_FX).unwrap();
    let mat = &set.materials[rec.mat_ptr];
    // along the normal the diffuse density is 1/pi
    let along = Ray::new(&rec.p, &rec.normal, 0);
    assert_eq!(mat.scattering_pdf(&r, &rec, &along), 20860);
    // behind the surface it vanishes
    let behind = Ray::new(&rec.p, &rec.normal.neg(), 0);
    assert_eq!(mat.scattering_pdf(&r, &rec, &behind), 0);
}

#[test]
fn bvh_construction_fails_without_boxes() {
    let mut set = SurfaceSet::new();
    let m = set.add_material(Material::Lambertian(Lambertian::new(solid(S / 2, S / 2, S / 2))));
    // an empty list is unboundable; a tree over it cannot be built
    let empty = HittableList::new();
    assert!(raytracer::hittable::BvhNode::new_with_list(&mut set, &empty, 0, S).is_none());
    // a list containing an unboundable member is rejected too
    let unboundable = set.push_surface(Surface::List(HittableList::new()));
    let sp = set.push_surface(Surface::Sphere(Sphere::new(&Vec3::new(0, 0, 0), S, m)));
    let mut mixed = HittableList::new();
    mixed.add(sp);
    mixed.add(unboundable);
    assert!(raytracer::hittable::BvhNode::new_with_list(&mut set, &mixed, 0, S).is_none());
    // while the boundable list alone builds fine
    let mut fine = HittableList::new();
    fine.add(sp);
    assert!(raytracer::hittable::BvhNode::new_with_list(&mut set, &fine, 0, S).is_some());
}

#[test]
fn list_clear_empties_it() {
    let mut l = HittableList::new();
    l.add(3);
    l.add(5);
    assert_eq!(l.objects.len(), 2);
    l.clear();
    assert_eq!(l.objects.len(), 0);
}

#[test]
fn mixture_generate_draws_both_components_evenly() {
    let mut set = SurfaceSet::new();
    let m = set.add_material(Material::DiffuseLight(DiffuseLight::new(solid(S, S, S))));
    let light = set.push_surface(Surface::XZRect(raytracer::arrect::XZRect::new(
        -S, S, -S, S, 5 * S, m,
    )));
    let hp = HittablePdf::new(light, Vec3::new(0, 0, 0));
    let cp = CosinePdf::new(&Vec3::new(0, S, 0));
    let mix = MixturePdf::new(hp, cp);
    // a draw from the rectangle sampler has exactly the plane height as
    // its y component; a cosine draw never reaches that far
    let mut toward_light = 0;
    let trials = 400;
    for _ in 0..trials {
        let d = mix.generate(&set);
        if d.y == 5 * S {
            toward_light += 1;
        }
    }
    // statistically an even split; allow a wide margin
    assert!(
        toward_light > trials / 4 && toward_light < 3 * trials / 4,
        "component choice should be near even, got {toward_light}/{trials}"
    );
}

#[test]
fn noise_is_a_pure_function_of_its_tables() {
    let p = Perlin::new();
    for k in 0..10 {
        let pt = Vec3::new(k * 7777 + 13, -k * 3333, k * k * 271);
        // the noise value is pinned by the tables and the point alone
        assert_eq!(p.noise(&pt), p.noise(&pt));
        assert_eq!(p.turb(&pt, 7), p.turb(&pt, 7));
    }
}

#[test]
fn cone_sampler_stays_inside_the_cone() {
    // a unit sphere seen from two units away subtends a 30-degree
    // half-angle: every drawn local z is at least cos(30) = 0.866
    for _ in 0..100 {
        let d = rng::random_to_sphere(S, 4 * S);
        assert!(d.z >= 56755, "z = {} fell outside the cone", d.z);
        assert!(d.x.abs() <= S && d.y.abs() <= S && d.z <= S);
    }
}

#[test]
fn rect_sampler_lands_on_the_rectangle() {
    let mut set = SurfaceSet::new();
    let m = set.add_material(Material::DiffuseLight(DiffuseLight::new(solid(S, S, S))));
    let light = set.push_surface(Surface::XZRect(raytracer::arrect::XZRect::new(
        -S, S, -S, S, 5 * S, m,
    )));
    let o = Vec3::new(S / 3, 0, -S / 2);
    for _ in 0..50 {
        let dir = set.random(light, &o);
        assert_eq!(o.y + dir.y, 5 * S, "the sample reaches the plane exactly");
        assert!((-S..=S).contains(&(o.x + dir.x)));
        assert!((-S..=S).contains(&(o.z + dir.z)));
    }
}

#[test]
fn built_box_exposes_its_six_faces() {
    let mut set = SurfaceSet::new();
    let m = set.add_material(Material::Lambertian(Lambertian::new(solid(S / 2, S / 2, S / 2))));
    let before = set.surfaces.len();
    let bx = set.add_box(&Vec3::new(0, 0, 0), &Vec3::new(S, 2 * S, 3 * S), m);
    assert_eq!(set.surfaces.len(), before + 8);
    assert_eq!(bx, before + 7);
    match &set.surfaces[bx] {
        Surface::BoxObject(b) => {
            assert_eq!(b.box_min, Vec3::new(0, 0, 0));
            assert_eq!(b.box_max, Vec3::new(S, 2 * S, 3 * S));
            assert_eq!(b.slides, before + 6);
        }
        _ => panic!("a box node must be a box"),
    }
    match &set.surfaces[bx - 1] {
        Surface::List(l) => assert_eq!(l.objects.len(), 6),
        _ => panic!("the slides must be a list"),
    }
}
