//! End-to-end checks of the recursive integrator on small scenes.

use raytracer::fx;
use raytracer::hittable::{Surface, SurfaceSet};
use raytracer::hittable_list::HittableList;
use raytracer::material::{DiffuseLight, Lambertian, Material};
use raytracer::ray::Ray;
use raytracer::scene::ray_color;
use raytracer::sphere::Sphere;
use raytracer::texture::{SolidColor, Texture};
use raytracer::vec3::Vec3;

const S: i64 = 65536;

/// A ground sphere of a thousand units and one small diffuse sphere
/// above it, under a sky-colored background.
fn ground_scene() -> (SurfaceSet, usize, usize) {
    let mut set = SurfaceSet::new();
    let ground_mat = set.add_material(Material::Lambertian(Lambertian::new(Texture::Solid(
        SolidColor::new(S / 2, S / 2, S / 2),
    ))));
    let ball_mat = set.add_material(Material::Lambertian(Lambertian::new(Texture::Solid(
        SolidColor::new(26214, 13107, 6553),
    ))));
    let ground = set.push_surface(Surface::Sphere(Sphere::new(
        &Vec3::new(0, -1000 * S, 0),
        1000 * S,
        ground_mat,
    )));
    let ball = set.push_surface(Surface::Sphere(Sphere::new(&Vec3::new(0, S, 0), S, ball_mat)));
    let mut world_list = HittableList::new();
    world_list.add(ground);
    world_list.add(ball);
    let world = set.push_surface(Surface::List(world_list));
    (set, world, ball)
}

#[test]
fn depth_zero_is_black() {
    let (set, world, ball) = ground_scene();
    let bg = Vec3::new(45875, 52428, S);
    let r = Ray::new(&Vec3::new(0, 2 * S, 12 * S), &Vec3::new(0, 0, -S), 0);
    let c = ray_color(&r, &bg, &set, world, ball, 0);
    assert_eq!(c, Vec3::new(0, 0, 0));
}

#[test]
fn miss_returns_background_exactly() {
    let (set, world, ball) = ground_scene();
    let bg = Vec3::new(45875, 52428, S);
    // a corner-of-image ray, up and to the side: hits nothing
    let r = Ray::new(&Vec3::new(0, 2 * S, 12 * S), &Vec3::new(S, S / 2, -S), 0);
    let c = ray_color(&r, &bg, &set, world, ball, 8);
    assert_eq!(c, bg);
}

#[test]
fn center_ray_gathers_light() {
    let (set, world, ball) = ground_scene();
    let bg = Vec3::new(45875, 52428, S);
    // aimed at the small sphere from slightly above
    let r = Ray::new(&Vec3::new(0, 2 * S, 12 * S), &Vec3::new(0, -5461, -S), 0);
    let mut any_nonzero = false;
    for _ in 0..40 {
        let c = ray_color(&r, &bg, &set, world, ball, 8);
        assert!(c.x >= 0 && c.y >= 0 && c.z >= 0, "radiance must be nonnegative");
        if c.x > 0 || c.y > 0 || c.z > 0 {
            any_nonzero = true;
        }
    }
    assert!(any_nonzero, "a lit diffuse sphere must reflect some light");
}

#[test]
fn radiance_never_negative_across_rays() {
    let (set, world, ball) = ground_scene();
    let bg = Vec3::new(45875, 52428, S);
    for gx in -3..4 {
        for gy in -3..4 {
            let r = Ray::new(
                &Vec3::new(0, 2 * S, 12 * S),
                &Vec3::new(gx * S / 3, gy * S / 3 - 5461, -S),
                0,
            );
            let c = ray_color(&r, &bg, &set, world, ball, 5);
            assert!(c.x >= 0 && c.y >= 0 && c.z >= 0);
            assert!(c.x <= raytracer::scene::RADIANCE_MAX);
        }
    }
}

#[test]
fn emitter_hit_returns_its_emission_exactly() {
    let mut set = SurfaceSet::new();
    let m = set.add_material(Material::DiffuseLight(DiffuseLight::new(Texture::Solid(
        SolidColor::new(7 * S, 7 * S, 7 * S),
    ))));
    let light = set.push_surface(Surface::XZRect(raytracer::arrect::XZRect::new(
        -S, S, -S, S, 0, m,
    )));
    let bg = Vec3::new(0, 0, 0);
    let down = Ray::new(&Vec3::new(0, 3 * S, 0), &Vec3::new(0, -S, 0), 0);
    let c = ray_color(&down, &bg, &set, light, light, 6);
    assert_eq!(c, Vec3::new(7 * S, 7 * S, 7 * S));
    // from below the back face glows nothing; with a black background the
    // result is exactly black
    let up = Ray::new(&Vec3::new(0, -3 * S, 0), &Vec3::new(0, S, 0), 0);
    let cb = ray_color(&up, &bg, &set, light, light, 6);
    assert_eq!(cb, Vec3::new(0, 0, 0));
}
