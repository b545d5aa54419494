use ray_tracing_in_one_weekend::camera::Camera;
use ray_tracing_in_one_weekend::hittable::{HitRecord, HittableList};
use ray_tracing_in_one_weekend::image::Image;
use ray_tracing_in_one_weekend::material::{Dielectric, Lambertian, Material, Metal};
use ray_tracing_in_one_weekend::ray::Ray;
use ray_tracing_in_one_weekend::sphere::Sphere;
use ray_tracing_in_one_weekend::vec3::Vec3;
use ray_tracing_in_one_weekend::{
    antialiasing, clamp, convert_rgb, near_zero, ray_color, reflect, render, Color, FP_ONE,
};

const ONE: i64 = 65536;

fn gray() -> Material {
    Material::Lambertian(Lambertian::new(Vec3::new(ONE / 2, ONE / 2, ONE / 2)))
}

#[test]
fn ray_at_walks_the_line() {
    let r = Ray::new(Vec3::new(ONE, 0, 0), Vec3::new(0, 0, -ONE));
    let p = r.at(2 * ONE);
    assert_eq!(p, Vec3::new(ONE, 0, -2 * ONE));
}

#[test]
fn aimed_at_center_hits_front_face() {
    // a sphere two units down the -z axis, radius one; ray aimed at its center
    let s = Sphere::new(Vec3::new(0, 0, -2 * ONE), ONE, gray());
    let ray = Ray::new(Vec3::new(0, 0, 0), Vec3::new(0, 0, -2 * ONE));
    let rec = s.hit(&ray, 0, ray_tracing_in_one_weekend::T_FAR).expect("must hit");
    assert!(rec.front_face);
    // entry point one unit short of the center
    assert_eq!(rec.point, Vec3::new(0, 0, -ONE));
    // the normal points from the center back toward the origin
    assert_eq!(rec.normal, Vec3::new(0, 0, ONE));
}

#[test]
fn tangent_ray_reports_single_touch() {
    // the discriminant is exactly zero for this grazing geometry
    let s = Sphere::new(Vec3::new(0, 0, 0), ONE, gray());
    let ray = Ray::new(Vec3::new(-2 * ONE, ONE, 0), Vec3::new(ONE, 0, 0));
    let rec = s.hit(&ray, 0, ray_tracing_in_one_weekend::T_FAR).expect("tangent must touch");
    assert_eq!(rec.t, 2 * ONE);
    assert_eq!(rec.point, Vec3::new(0, ONE, 0));
}

#[test]
fn tangent_ray_outside_interval_misses() {
    let s = Sphere::new(Vec3::new(0, 0, 0), ONE, gray());
    let ray = Ray::new(Vec3::new(-2 * ONE, ONE, 0), Vec3::new(ONE, 0, 0));
    assert!(s.hit(&ray, 0, ONE).is_none());
}

#[test]
fn miss_reports_none() {
    let s = Sphere::new(Vec3::new(0, 4 * ONE, 0), ONE, gray());
    let ray = Ray::new(Vec3::new(0, 0, 0), Vec3::new(0, 0, -ONE));
    assert!(s.hit(&ray, 0, ray_tracing_in_one_weekend::T_FAR).is_none());
}

#[test]
fn list_hit_returns_closest_of_scan() {
    let near = Sphere::new(Vec3::new(0, 0, -2 * ONE), ONE / 2, gray());
    let far = Sphere::new(Vec3::new(0, 0, -6 * ONE), ONE / 2, gray());
    let ray = Ray::new(Vec3::new(0, 0, 0), Vec3::new(0, 0, -ONE));
    let t_max = ray_tracing_in_one_weekend::T_FAR;

    // scan order must not matter for the winning parameter
    let mut world_a = HittableList::new();
    world_a.add(far);
    world_a.add(near);
    let mut world_b = HittableList::new();
    world_b.add(near);
    world_b.add(far);

    let ra = world_a.hit(&ray, 0, t_max).expect("hit");
    let rb = world_b.hit(&ray, 0, t_max).expect("hit");
    let tn = near.hit(&ray, 0, t_max).expect("hit").t;
    let tf = far.hit(&ray, 0, t_max).expect("hit").t;
    let tmin = tn.min(tf);
    assert_eq!(ra.t, tmin);
    assert_eq!(rb.t, tmin);
    assert_eq!(ra.point, rb.point);
}

#[test]
fn empty_list_never_hits() {
    let world = HittableList::new();
    let ray = Ray::new(Vec3::new(0, 0, 0), Vec3::new(0, 0, -ONE));
    assert!(world.hit(&ray, 0, ray_tracing_in_one_weekend::T_FAR).is_none());
}

#[test]
fn clear_empties_the_scene() {
    let mut world = HittableList::new();
    world.add(Sphere::new(Vec3::new(0, 0, -2 * ONE), ONE, gray()));
    assert_eq!(world.len(), 1);
    world.clear();
    assert_eq!(world.len(), 0);
}

#[test]
fn lambertian_always_scatters() {
    let s = Sphere::new(Vec3::new(0, 0, -2 * ONE), ONE, gray());
    let ray = Ray::new(Vec3::new(0, 0, 0), Vec3::new(0, 0, -2 * ONE));
    let rec = s.hit(&ray, 0, ray_tracing_in_one_weekend::T_FAR).expect("hit");
    let albedo = Vec3::new(ONE / 2, ONE / 2, ONE / 2);
    let lam = Lambertian::new(albedo);
    for _ in 0..32 {
        let (scattered, attenuation) = lam.scatter(&ray, &rec).expect("diffuse always scatters");
        assert_eq!(attenuation, albedo);
        assert_eq!(scattered.origin, rec.point);
    }
}

#[test]
fn lambertian_degenerate_sample_falls_back_to_normal() {
    let s = Sphere::new(Vec3::new(0, 0, -2 * ONE), ONE, gray());
    let ray = Ray::new(Vec3::new(0, 0, 0), Vec3::new(0, 0, -2 * ONE));
    let rec = s.hit(&ray, 0, ray_tracing_in_one_weekend::T_FAR).expect("hit");
    let lam = Lambertian::new(Vec3::new(ONE / 2, ONE / 2, ONE / 2));
    // a unit sample exactly opposite the normal sums to zero: fall back
    let opposite = Vec3::new(-rec.normal.x, -rec.normal.y, -rec.normal.z);
    let (scattered, _) = lam.scatter_with(&rec, &opposite).expect("always scatters");
    assert_eq!(scattered.dir, rec.normal);
}

#[test]
fn metal_absorbs_back_hemisphere_scatter() {
    // a grazing reflection off a floor, fuzzed down through the surface
    let ray = Ray::new(Vec3::new(-ONE, ONE, 0), Vec3::new(ONE, -ONE, 0));
    let rec = HitRecord::new(
        Vec3::new(0, 0, 0),
        Vec3::new(0, ONE, 0),
        ONE,
        true,
        Material::Metal(Metal::new(Vec3::new(ONE, ONE, ONE), ONE)),
    );
    let metal = Metal::new(Vec3::new(ONE, ONE, ONE), ONE);
    let inward = Vec3::new(0, -ONE + 1, 0);
    assert!(metal.scatter_with(&ray, &rec, &inward).is_none());
    // while a clean mirror sample scatters outward
    let mirror = Metal::new(Vec3::new(ONE, ONE, ONE), 0);
    let (scattered, attenuation) =
        mirror.scatter_with(&ray, &rec, &Vec3::new(0, 0, 0)).expect("mirror reflects");
    assert_eq!(attenuation, Vec3::new(ONE, ONE, ONE));
    // the mirrored direction leaves upward
    assert!(scattered.dir.y > 0);
}

#[test]
fn fuzz_zero_metal_always_reflects() {
    // a polished metal's scatter does not depend on the draw: the head-on
    // reflection leaves along the normal, so every call must scatter
    let s = Sphere::new(Vec3::new(0, 0, -2 * ONE), ONE, gray());
    let ray = Ray::new(Vec3::new(0, 0, 0), Vec3::new(0, 0, -2 * ONE));
    let rec = s.hit(&ray, 0, ray_tracing_in_one_weekend::T_FAR).expect("hit");
    let mirror = Metal::new(Vec3::new(ONE, ONE, ONE), 0);
    let expected = mirror
        .scatter_with(&ray, &rec, &Vec3::new(0, 0, 0))
        .expect("head-on mirror reflects")
        .0
        .dir;
    for _ in 0..32 {
        let (scattered, _) = mirror.scatter(&ray, &rec).expect("polished metal must scatter");
        assert_eq!(scattered.dir, expected);
    }
}

#[test]
fn metal_new_clamps_fuzz() {
    let m = Metal::new(Vec3::new(ONE, ONE, ONE), 3 * ONE);
    assert_eq!(m.fuzz, ONE);
    let m2 = Metal::new(Vec3::new(ONE, ONE, ONE), ONE / 4);
    assert_eq!(m2.fuzz, ONE / 4);
}

#[test]
fn dielectric_always_scatters_white() {
    let s = Sphere::new(Vec3::new(0, 0, -2 * ONE), ONE, gray());
    let ray = Ray::new(Vec3::new(0, 0, 0), Vec3::new(0, 0, -2 * ONE));
    let rec = s.hit(&ray, 0, ray_tracing_in_one_weekend::T_FAR).expect("hit");
    let glass = Dielectric::new(98304);  // index 1.5
    for draw in [0i64, 1000, 65535] {
        let (scattered, attenuation) =
            glass.scatter_with(&ray, &rec, draw).expect("glass always scatters");
        assert_eq!(attenuation, Vec3::new(ONE, ONE, ONE));
        assert_eq!(scattered.origin, rec.point);
    }
}

#[test]
fn depth_zero_is_black() {
    let mut world = HittableList::new();
    world.add(Sphere::new(Vec3::new(0, 0, -2 * ONE), ONE, gray()));
    let ray = Ray::new(Vec3::new(0, 0, 0), Vec3::new(0, 0, -ONE));
    assert_eq!(ray_color(&ray, &world, 0), Vec3::new(0, 0, 0));
    assert_eq!(ray.color(&world, 0), Vec3::new(0, 0, 0));
}

#[test]
fn empty_scene_is_exactly_the_sky_gradient() {
    let world = HittableList::new();
    // straight ahead: the normalized direction has height zero, so the
    // blend parameter is one half
    let ahead = Ray::new(Vec3::new(0, 0, 0), Vec3::new(0, 0, -ONE));
    assert_eq!(ray_color(&ahead, &world, 8), Vec3::new(49152, 55705, ONE));
    // straight up: full sky blue
    let up = Ray::new(Vec3::new(0, 0, 0), Vec3::new(0, ONE, 0));
    assert_eq!(ray_color(&up, &world, 8), Vec3::new(32768, 45875, ONE));
    // straight down: pure white
    let down = Ray::new(Vec3::new(0, 0, 0), Vec3::new(0, -ONE, 0));
    assert_eq!(ray_color(&down, &world, 8), Vec3::new(ONE, ONE, ONE));
}

#[test]
fn absorbed_rays_are_black() {
    // depth one: the diffuse bounce is attenuated into the depth-zero black
    let mut world = HittableList::new();
    world.add(Sphere::new(Vec3::new(0, 0, -2 * ONE), ONE, gray()));
    let ray = Ray::new(Vec3::new(0, 0, 0), Vec3::new(0, 0, -ONE));
    assert_eq!(ray_color(&ray, &world, 1), Vec3::new(0, 0, 0));
}

#[test]
fn clamp_bounds_its_argument() {
    assert_eq!(clamp(-5, 0, ONE), 0);
    assert_eq!(clamp(ONE + 7, 0, ONE), ONE);
    assert_eq!(clamp(1234, 0, ONE), 1234);
}

#[test]
fn convert_rgb_quantizes_by_truncation() {
    assert_eq!(convert_rgb(&Vec3::new(0, ONE, ONE / 2)), (0, 255, 127));
    // out-of-range channels clamp before scaling
    assert_eq!(convert_rgb(&Vec3::new(-ONE, 2 * ONE, ONE)), (0, 255, 255));
}

#[test]
fn identical_samples_round_trip_through_gamma() {
    // every sample returned a quarter: the byte is 255 * sqrt(1/4) = 127
    let n: u32 = 4;
    let c: i64 = ONE / 4;
    let summed = Color::new(Vec3::new(n as i64 * c, n as i64 * c, n as i64 * c));
    assert_eq!(antialiasing(summed, n), (127, 127, 127));
}

#[test]
fn antialiasing_of_black_is_black() {
    assert_eq!(antialiasing(Color::new(Vec3::new(0, 0, 0)), 16), (0, 0, 0));
}

#[test]
fn color_sum_adds_channelwise() {
    let colors = vec![
        Color::new(Vec3::new(100, 200, 300)),
        Color::new(Vec3::new(1, 2, 3)),
        Color::new(Vec3::new(10, 20, 30)),
    ];
    let s = Color::sum(&colors);
    assert_eq!((s.0.x, s.0.y, s.0.z), (111, 222, 333));
}

#[test]
fn near_zero_detects_degenerate_directions() {
    assert!(near_zero(&Vec3::new(0, 0, 0)));
    assert!(near_zero(&Vec3::new(255, -255, 1)));
    assert!(!near_zero(&Vec3::new(256, 0, 0)));
}

#[test]
fn reflect_mirrors_about_the_normal() {
    // a 45-degree incoming direction bounces off the floor
    let v = Vec3::new(ONE, -ONE, 0);
    let n = Vec3::new(0, ONE, 0);
    assert_eq!(reflect(&v, &n), Vec3::new(ONE, ONE, 0));
}

#[test]
fn pinhole_camera_center_ray_hits_the_demo_sphere() {
    // the scene of one half-unit sphere at (0,0,-1), seen from the origin
    // with a 90-degree vertical field of view (tangent one)
    let camera = Camera::new(
        Vec3::new(0, 0, 0),
        Vec3::new(0, 0, -ONE),
        ONE,
        ONE,
        0,
        ONE,
    );
    let mut world = HittableList::new();
    world.add(Sphere::new(Vec3::new(0, 0, -ONE), ONE / 2, gray()));
    // the exact center of the image plane
    let ray = camera.shoot_ray(ONE / 2, ONE / 2);
    assert_eq!(ray.origin, Vec3::new(0, 0, 0));
    let rec = world.hit(&ray, 66, ray_tracing_in_one_weekend::T_FAR).expect("center ray hits the sphere");
    assert!(rec.front_face);
    // the sphere's front face sits half a unit away
    assert!((rec.point.z + ONE / 2).abs() <= 8);
    // while a corner ray misses and sees the exact sky gradient
    let corner = camera.shoot_ray(0, 0);
    assert!(world.hit(&corner, 66, ray_tracing_in_one_weekend::T_FAR).is_none());
    let c = ray_color(&corner, &world, 4);
    let unit = corner.dir.normalize();
    let t = (unit.y + ONE) / 2;
    let expected_x = (ONE - t) + (32768 * t) / ONE;
    let expected_y = (ONE - t) + (45875 * t) / ONE;
    assert_eq!(c, Vec3::new(expected_x, expected_y, ONE));
    // after one diffuse bounce the center pixel is at most mid-gray:
    // the half-reflectance albedo caps every channel at one half
    for _ in 0..16 {
        let center = ray_color(&ray, &world, 2);
        assert!(center.x <= ONE / 2 && center.y <= ONE / 2 && center.z <= ONE / 2);
        assert!(center.x >= 0 && center.y >= 0 && center.z >= 0);
    }
}

#[test]
fn depth_zero_render_is_all_black() {
    let camera = Camera::new(
        Vec3::new(0, 0, 0),
        Vec3::new(0, 0, -ONE),
        ONE,
        ONE,
        0,
        ONE,
    );
    let mut world = HittableList::new();
    world.add(Sphere::new(Vec3::new(0, 0, -ONE), ONE / 2, gray()));
    let mut image = Image::new(4, 4, 2, 0);
    render(&mut image, &camera, &world);
    assert!(image.pixels.iter().all(|&b| b == 0));
}

#[test]
fn empty_scene_render_is_sky_only() {
    // with no primitives every byte comes from the sky gradient: the blue
    // channel blends between two full-intensity endpoints, so it stays 255
    let camera = Camera::new(
        Vec3::new(0, 0, 0),
        Vec3::new(0, 0, -ONE),
        ONE,
        ONE,
        0,
        ONE,
    );
    let world = HittableList::new();
    let mut image = Image::new(4, 4, 1, 4);
    render(&mut image, &camera, &world);
    for px in image.pixels.chunks(3) {
        assert_eq!(px[2], 255);
        assert!(px[0] >= 180);
        assert!(px[1] >= 200);
    }
}

#[test]
fn ppm_bytes_carry_header_and_pixels() {
    let image = Image::new(12, 34, 1, 1);
    let bytes = image.ppm_bytes();
    assert_eq!(&bytes[..13], b"P6\n12 34\n255\n".as_slice());
    assert_eq!(bytes.len(), 13 + 3 * 12 * 34);
}

#[test]
fn random_fraction_stays_in_the_unit_interval() {
    for _ in 0..256 {
        let r = ray_tracing_in_one_weekend::sampling::random_fraction();
        assert!(0 <= r && r < FP_ONE);
    }
}

#[test]
fn random_samples_stay_in_their_supports() {
    for _ in 0..64 {
        let p = ray_tracing_in_one_weekend::sampling::random_in_unit_sphere();
        assert!(p.x * p.x + p.y * p.y + p.z * p.z < FP_ONE * FP_ONE);
        let d = ray_tracing_in_one_weekend::sampling::random_in_unit_disc();
        assert_eq!(d.z, 0);
        assert!(d.x * d.x + d.y * d.y < FP_ONE * FP_ONE);
        let u = ray_tracing_in_one_weekend::sampling::random_unit_vector();
        assert!(u.x.abs() <= FP_ONE && u.y.abs() <= FP_ONE && u.z.abs() <= FP_ONE);
        // near-unit length: between half a unit and root three
        let ls = u.x * u.x + u.y * u.y + u.z * u.z;
        assert!(0x4000_0000 <= ls && ls <= 0x3_0000_0000);
        let n = Vec3::new(0, FP_ONE, 0);
        let h = ray_tracing_in_one_weekend::sampling::random_in_hemisphere(&n);
        assert!(h.dot(&n) >= 0);
    }
}
