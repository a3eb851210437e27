use raytracer::camera::{Camera, HALF_ONE, SKY_G};
use raytracer::color::{clamp, linear_to_gamma, write_color, INTENSITY_MAX};
use raytracer::fx::{fxmul, FX_ONE};
use raytracer::hittable::HittableList;
use raytracer::image::Image;
use raytracer::material::Material;
use raytracer::vec3::{unit_vector, Vec3};
use raytracer::world::{
    create_world_from_lines, parse_scene_line, random_scene, C02, C05, C09, C15,
};

#[test]
fn gamma_and_clamp() {
    assert_eq!(linear_to_gamma(FX_ONE), FX_ONE);
    assert_eq!(linear_to_gamma(0), 0);
    assert_eq!(linear_to_gamma(-5), 0);
    assert_eq!(linear_to_gamma(FX_ONE / 4), FX_ONE / 2);
    assert_eq!(clamp(5, 0, 10), 5);
    assert_eq!(clamp(-5, 0, 10), 0);
    assert_eq!(clamp(15, 0, 10), 10);
    assert_eq!(INTENSITY_MAX, 1072668082);
}

#[test]
fn color_line_quantizes() {
    let mut out: Vec<u8> = Vec::new();
    write_color(&mut out, &Vec3::new(FX_ONE, 0, FX_ONE / 4));
    // sqrt(1) clamps to 0.999 -> 255; sqrt(0) -> 0; sqrt(0.25) = 0.5 -> 128.
    assert_eq!(String::from_utf8(out).unwrap(), "255 0 128\n");
}

// Serializing a 2x1 image of two distinct colors produces the P3
// header and exactly two quantized "R G B" lines.
#[test]
fn serialize_two_pixel_image() {
    let mut img = Image::new(2, 1);
    img.set_pixel(0, 0, Vec3::new(FX_ONE, 0, 0));
    img.set_pixel(1, 0, Vec3::new(0, FX_ONE / 4, FX_ONE));
    let text = String::from_utf8(img.to_bytes()).unwrap();
    assert_eq!(text, "P3\n2 1\n255\n255 0 0\n0 128 255\n");
}

// Rendering over an empty scene gives, for each primary ray, exactly
// the background gradient of that ray's direction.
#[test]
fn empty_scene_is_background_gradient() {
    let mut cam = Camera::new();
    cam.image_width = 8;
    cam.samples_per_pixel = 1;
    cam.initialize();
    let empty = HittableList::new();
    for j in [0usize, 3, 7] {
        for i in [0usize, 4, 7] {
            let ray = cam.primary_ray(i, j);
            let c = cam.ray_color(&ray, 10, &empty);
            // The gradient formula, evaluated on the ray's direction.
            let ud = unit_vector(&ray.direction());
            let a = fxmul(HALF_ONE, ud.y() + FX_ONE);
            let white = Vec3::new(FX_ONE, FX_ONE, FX_ONE).mul_scalar(FX_ONE - a);
            let blue = Vec3::new(HALF_ONE, SKY_G, FX_ONE).mul_scalar(a);
            let expected = white.add(&blue);
            assert_eq!((c.x, c.y, c.z), (expected.x, expected.y, expected.z));
        }
    }
}

#[test]
fn render_produces_full_image() {
    let mut cam = Camera::new();
    cam.image_width = 4;
    cam.samples_per_pixel = 2;
    cam.max_depth = 4;
    let mut world = HittableList::new();
    world.add(raytracer::hittable::Sphere::new(
        Vec3::new(0, 0, -2 * FX_ONE),
        FX_ONE,
        Material::Lambertian(raytracer::material::Lambertian::new(Vec3::new(
            C05, C05, C05,
        ))),
    ));
    let img = cam.render(&world);
    assert_eq!((img.width, img.height), (4, 4));
    let text = String::from_utf8(img.to_bytes()).unwrap();
    assert!(text.starts_with("P3\n4 4\n255\n"));
    assert_eq!(text.lines().count(), 3 + 16);
}

#[test]
fn render_row_matches_width() {
    let mut cam = Camera::new();
    cam.image_width = 5;
    cam.samples_per_pixel = 1;
    cam.initialize();
    let empty = HittableList::new();
    let row = cam.render_row(&empty, 0);
    assert_eq!(row.len(), 5);
    for px in row.iter() {
        assert!((0..=FX_ONE).contains(&px.x));
        assert!((0..=FX_ONE).contains(&px.y));
        assert!((0..=FX_ONE).contains(&px.z));
    }
}

#[test]
fn random_scene_has_ground_and_features() {
    let world = random_scene();
    let n = world.objects.len();
    assert!((4..=489).contains(&n));
    let ground = &world.objects[0];
    assert_eq!((ground.center.x, ground.center.y, ground.center.z), (0, -1000 * FX_ONE, 0));
    assert_eq!(ground.radius, 1000 * FX_ONE);
    match world.objects[n - 3].mat {
        Material::Dielectric(d) => assert_eq!(d.ir, C15),
        _ => panic!("third-from-last sphere must be glass"),
    }
    match world.objects[n - 1].mat {
        Material::Metal(m) => assert_eq!(m.fuzz, 0),
        _ => panic!("last sphere must be polished metal"),
    }
}

#[test]
fn random_scene_small_spheres_fill_grid_cells() {
    let world = random_scene();
    let n = world.objects.len();
    for sp in &world.objects[1..n - 3] {
        assert_eq!(sp.radius, C02);
        assert_eq!(sp.center.y, C02);
        let a = sp.center.x.div_euclid(FX_ONE);
        let b = sp.center.z.div_euclid(FX_ONE);
        assert!((-11..11).contains(&a) && (-11..11).contains(&b));
        assert!(sp.center.x - a * FX_ONE < C09);
        assert!(sp.center.z - b * FX_ONE < C09);
    }
    for a in -11i64..11 {
        for b in -11i64..11 {
            if 3 <= a && a <= 4 && -1 <= b && b <= 0 {
                continue;
            }
            let populated = world.objects[1..n - 3].iter().any(|sp| {
                a * FX_ONE <= sp.center.x
                    && sp.center.x < a * FX_ONE + C09
                    && b * FX_ONE <= sp.center.z
                    && sp.center.z < b * FX_ONE + C09
            });
            assert!(populated, "clear cell left empty");
        }
    }
}

#[test]
fn config_ok_accepts_good_and_rejects_bad_configurations() {
    let cam = Camera::new();
    assert!(cam.config_ok());

    let mut cam = Camera::new();
    cam.aspect_ratio = (16 * FX_ONE) / 9;
    cam.image_width = 800;
    cam.samples_per_pixel = 50;
    cam.max_depth = 50;
    cam.vfov = 20 * FX_ONE;
    cam.look_from = Vec3::new(13 * FX_ONE, 2 * FX_ONE, 3 * FX_ONE);
    cam.look_at = Vec3::new(0, 0, 0);
    cam.vup = Vec3::new(0, FX_ONE, 0);
    cam.defocus_angle = (6 * FX_ONE) / 10;
    cam.focus_dist = 10 * FX_ONE;
    assert!(cam.config_ok());

    let mut degenerate = Camera::new();
    degenerate.look_at = degenerate.look_from;
    assert!(!degenerate.config_ok());

    let mut parallel = Camera::new();
    parallel.vup = Vec3::new(0, 0, FX_ONE);
    assert!(!parallel.config_ok());

    let mut flat = Camera::new();
    flat.focus_dist = 0;
    assert!(!flat.config_ok());
}

#[test]
fn scene_lines_parse_or_skip() {
    let good = b"0 1 0 1 dielectric 1.5".to_vec();
    let sp = parse_scene_line(&good).expect("well-formed line");
    assert_eq!((sp.center.x, sp.center.y, sp.center.z), (0, FX_ONE, 0));
    assert_eq!(sp.radius, FX_ONE);
    match sp.mat {
        Material::Dielectric(d) => assert_eq!(d.ir, FX_ONE + FX_ONE / 2),
        _ => panic!("expected glass"),
    }

    let metal = b"-4.0 1.0 0.5 0.25 metal 0.7 0.6 0.5 0.1".to_vec();
    let sp = parse_scene_line(&metal).expect("well-formed line");
    assert_eq!(sp.center.x, -4 * FX_ONE);
    assert_eq!(sp.center.z, C05);
    assert_eq!(sp.radius, FX_ONE / 4);

    // Malformed numbers fall back to their defaults.
    let dflt = b"zz 1 0 q lambertian 0.5 0.5 0.5".to_vec();
    let sp = parse_scene_line(&dflt).expect("defaults apply");
    assert_eq!((sp.center.x, sp.radius), (0, C02));

    // Comments, blanks, short and unknown lines are skipped.
    assert!(parse_scene_line(&b"# a comment".to_vec()).is_none());
    assert!(parse_scene_line(&b"   ".to_vec()).is_none());
    assert!(parse_scene_line(&b"".to_vec()).is_none());
    assert!(parse_scene_line(&b"1 2 3 4".to_vec()).is_none());
    assert!(parse_scene_line(&b"1 2 3 4 plastic 1 1 1".to_vec()).is_none());
    // A radius of zero violates the sphere invariant.
    assert!(parse_scene_line(&b"0 0 0 0 dielectric 1.5".to_vec()).is_none());
}

#[test]
fn world_from_lines_always_has_ground() {
    let lines: Vec<Vec<u8>> = vec![
        b"# scene".to_vec(),
        b"0 1 0 1 dielectric 1.5".to_vec(),
        b"bad line".to_vec(),
        b"4 1 0 1 metal 0.7 0.6 0.5 0.0".to_vec(),
    ];
    let world = create_world_from_lines(&lines);
    assert_eq!(world.objects.len(), 3);
    assert_eq!(world.objects[0].radius, 1000 * FX_ONE);
    assert_eq!(world.objects[1].center.y, FX_ONE);
    assert_eq!(world.objects[2].center.x, 4 * FX_ONE);
}

#[test]
fn camera_defaults_match() {
    let cam = Camera::new();
    assert_eq!(cam.aspect_ratio, FX_ONE);
    assert_eq!(cam.image_width, 100);
    assert_eq!(cam.samples_per_pixel, 10);
    assert_eq!(cam.max_depth, 10);
    assert_eq!(cam.vfov, 90 * FX_ONE);
    assert_eq!(cam.defocus_angle, 0);
    assert_eq!(cam.focus_dist, 10 * FX_ONE);
}

#[test]
fn initialize_derives_height_from_aspect() {
    let mut cam = Camera::new();
    cam.image_width = 400;
    cam.aspect_ratio = 2 * FX_ONE;
    cam.initialize();
    assert_eq!(cam.image_height, 200);
    // Height never drops below one.
    let mut thin = Camera::new();
    thin.image_width = 1;
    thin.aspect_ratio = 8 * FX_ONE;
    thin.initialize();
    assert_eq!(thin.image_height, 1);
}
