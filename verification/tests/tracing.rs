//! Fixed-point math, sphere intersection, tracing and encoding.

use raytracer::camera::Camera;
use raytracer::encode::make_frame;
use raytracer::encode::render_gif;
use raytracer::delivery::RenderFrame;
use raytracer::delivery::RenderJob;
use raytracer::delivery::RenderStatus;
use raytracer::delivery::ParallelType;
use raytracer::material::Lambertian;
use raytracer::material::Material;
use raytracer::object::Sphere;
use raytracer::render::ray_color;
use raytracer::render::render_block;
use raytracer::render::sky_color;
use raytracer::render::Ctx;
use raytracer::render::RenderBlock;
use raytracer::scene::Scene;
use raytracer::shared::color_display_from_rgb;
use raytracer::shared::fp_div;
use raytracer::shared::fp_mul;
use raytracer::shared::isqrt;
use raytracer::shared::reflectance;
use raytracer::shared::sqrt_fp;
use raytracer::shared::u8_vec_from_buffer_display;
use raytracer::shared::vec_reflect;
use raytracer::shared::Ray;
use raytracer::shared::RayQuery;
use raytracer::shared::Vec3;
use raytracer::shared::FP_ONE;

const F: i64 = FP_ONE;

fn v(x: i64, y: i64, z: i64) -> Vec3 {
    Vec3 { x, y, z }
}

#[test]
fn fixed_point_mul_and_div() {
    assert_eq!(fp_mul(F, F), F);
    assert_eq!(fp_mul(2 * F, 3 * F), 6 * F);
    assert_eq!(fp_mul(-2 * F, 3 * F), -6 * F);
    assert_eq!(fp_div(6 * F, 3 * F), 2 * F);
    assert_eq!(fp_div(-6 * F, 3 * F), -2 * F);
    // 1/2 in fixed point.
    assert_eq!(fp_div(F, 2 * F), F / 2);
}

#[test]
fn integer_square_roots() {
    assert_eq!(isqrt(0), 0);
    assert_eq!(isqrt(1), 1);
    assert_eq!(isqrt(8), 2);
    assert_eq!(isqrt(9), 3);
    assert_eq!(sqrt_fp(4 * F), 2 * F);
    assert_eq!(sqrt_fp(F), F);
}

#[test]
fn reflect_formula_exact() {
    // Reflecting straight down off an upward-facing surface points up.
    let r = vec_reflect(v(0, -F, 0), v(0, F, 0));
    assert_eq!(r, v(0, F, 0));
}

#[test]
fn reflectance_is_total_at_grazing() {
    // Schlick's approximation reaches 1 at cosine 0.
    assert_eq!(reflectance(0, 98304), F);
}

#[test]
fn gamma_corrected_bytes() {
    // Full, quarter and zero intensity under gamma 1/2.2:
    // floor(255 * 0.25^(5/11)) == 135.
    let c = raytracer::shared::rgb_from_render(v(F, F / 4, 0));
    assert_eq!(c, (255, 135, 0));
}

#[test]
fn display_packing() {
    assert_eq!(color_display_from_rgb(1, 2, 3), 0x010203);
    let bytes = u8_vec_from_buffer_display(&vec![0x010203, 0xa0b0c0]);
    assert_eq!(bytes, vec![1, 2, 3, 0xa0, 0xb0, 0xc0]);
}

fn diffuse(albedo: Vec3) -> Material {
    Material::Lambertian(Lambertian { albedo })
}

fn built_scene(objects: Vec<Sphere>) -> Scene {
    let mut scene = Scene::new();
    for o in objects {
        scene.objects.push(o);
    }
    scene.build_bvh();
    scene
}

#[test]
fn sphere_intersection_straight_on() {
    let s = Sphere::new(v(0, 0, -3 * F), F, diffuse(v(F / 2, F / 2, F / 2)));
    let q = RayQuery {
        ray: Ray::new(v(0, 0, 0), v(0, 0, -F)),
        t_min: 66,
        t_max: raytracer::render::TRACE_INFINITY,
    };
    let hit = s.intersect(q).unwrap();
    assert_eq!(hit.t, 2 * F);
    assert!(hit.front_face);
    assert_eq!(hit.normal, v(0, 0, F));
    assert_eq!(hit.point, v(0, 0, -2 * F));
}

#[test]
fn scene_returns_nearest_hit_whatever_the_order() {
    let near = Sphere::new(v(0, 0, -3 * F), F, diffuse(v(F, F, F)));
    let far = Sphere::new(v(0, 0, -9 * F), F, diffuse(v(F, F, F)));
    let q = RayQuery {
        ray: Ray::new(v(0, 0, 0), v(0, 0, -F)),
        t_min: 66,
        t_max: raytracer::render::TRACE_INFINITY,
    };
    let a = built_scene(vec![near, far]).intersect(q).unwrap();
    let b = built_scene(vec![far, near]).intersect(q).unwrap();
    assert_eq!(a.t, 2 * F);
    assert_eq!(b.t, 2 * F);
    assert_eq!(a.point, b.point);
}

#[test]
fn trace_depth_zero_is_black() {
    let scene = built_scene(vec![Sphere::new(v(0, 0, -3 * F), F, diffuse(v(F, F, F)))]);
    let c = ray_color(Ray::new(v(0, 0, 0), v(0, 0, -F)), &scene, 0);
    assert_eq!(c, v(0, 0, 0));
}

#[test]
fn trace_empty_scene_is_background_gradient() {
    let scene = built_scene(vec![]);
    let dir = v(0, 0, -F);
    let c = ray_color(Ray::new(v(0, 0, 0), dir), &scene, 5);
    // Horizontal ray: halfway blend between white and the sky blue.
    assert_eq!(c, v(49152, 55705, 65536));
    assert_eq!(c, sky_color(dir));
    // Straight up: the pure sky blue.
    let up = ray_color(Ray::new(v(0, 0, 0), v(0, F, 0)), &scene, 5);
    assert_eq!(up, v(F / 2, 45875, F));
}

#[test]
fn material_scatter_keeps_albedo_and_origin() {
    let albedo = v(F / 2, F / 4, F / 8);
    let s = Sphere::new(v(0, 0, -3 * F), F, diffuse(albedo));
    let q = RayQuery {
        ray: Ray::new(v(0, 0, 0), v(0, 0, -F)),
        t_min: 66,
        t_max: raytracer::render::TRACE_INFINITY,
    };
    let hit = s.intersect(q).unwrap();
    let scatter = hit.material.scatter(&q.ray, &hit).unwrap();
    assert_eq!(scatter.attenuation, albedo);
    assert_eq!(scatter.scattered_ray.origin, hit.point);
}

fn camera_toward_negative_z() -> Camera {
    Camera::new(v(0, 0, 0), v(0, 0, -F), v(0, F, 0), F, F, 0, F)
}

#[test]
fn pinhole_camera_is_deterministic() {
    let cam = camera_toward_negative_z();
    assert_eq!(cam.lens_radius, 0);
    let r1 = cam.get_ray(F / 2, F / 2);
    let r2 = cam.get_ray(F / 2, F / 2);
    assert_eq!(r1.origin, v(0, 0, 0));
    assert_eq!(r1, r2);
}

#[test]
fn two_by_two_diffuse_sphere_frame() {
    // A 2x2-pixel frame of one diffuse sphere filling the view, one sample
    // per pixel, depth bound 1: every pixel is deterministically either
    // the sphere's albedo-tinted bounce (of black) or the background.
    let scene = built_scene(vec![
        Sphere::new(v(0, 0, -2 * F), (19 * F) / 10, diffuse(v(F / 2, F / 2, F / 2))),
    ]);
    let ctx = Ctx {
        renderblock: RenderBlock { x: 0, y: 0, width: 2, height: 2 },
        image_width: 2,
        image_height: 2,
        scene,
        camera: camera_toward_negative_z(),
        samples_per_pixel: 1,
        max_depth: 1,
    };
    let pixels = render_block(&ctx);
    assert_eq!(pixels.len(), 4);
    for p in pixels {
        // The sphere fills the frame: each bounce attenuates black.
        assert_eq!(p, 0);
    }
}

fn tiny_frame(shade: u8) -> Vec<u8> {
    vec![shade; 3 * 4 * 4]
}

#[test]
fn frame_payload_is_really_encoded() {
    let frame = make_frame(tiny_frame(200), 4, 4);
    assert_eq!(frame.img, tiny_frame(200));
    // A PNG payload, not the raw bytes handed in.
    assert_ne!(frame.png, frame.img);
    assert_eq!(&frame.png[1..4], b"PNG");
}

#[test]
fn gif_collects_frames_in_index_order() {
    let job = RenderJob {
        total_frames: 2,
        samples_per_pixel: 1,
        width: 4,
        height: 4,
        parallel: ParallelType::PerFrame,
    };
    // Completion order 1, 0; the artifact still encodes frame 0 first.
    let status = RenderStatus {
        job,
        frames: vec![
            (1, RenderFrame { img: tiny_frame(10), png: vec![] }),
            (0, RenderFrame { img: tiny_frame(250), png: vec![] }),
        ],
        gif: None,
    };
    let gif = render_gif(&status);
    assert_eq!(&gif[0..4], b"GIF8");
    let reordered = RenderStatus {
        job,
        frames: vec![
            (0, RenderFrame { img: tiny_frame(250), png: vec![] }),
            (1, RenderFrame { img: tiny_frame(10), png: vec![] }),
        ],
        gif: None,
    };
    assert_eq!(gif, render_gif(&reordered));
}
