use oakland_raders::Capture;
use oakland_raders::Color;
use oakland_raders::Pt;
use oakland_raders::Renderable;
use oakland_raders::Scene;
use oakland_raders::Sphere;

#[test]
fn it_renders_luminous_sphere() {
    let mut scene = Scene::new();
    let mut sphere = Sphere::new(Pt::new(0, 0, 1000), 100);
    sphere.set_lum(255);
    scene.add_obj(Renderable::Sphere(sphere));

    let capture = scene.capture(500, 300, 500);
    // Center of sphere is white.
    assert_eq!(capture.get_pixel((250, 150)), Some(Color::new(255, 255, 255)));
    // Edge of capture is black.
    assert_eq!(capture.get_pixel((450, 250)), Some(Color::new(0, 0, 0)));
}

#[test]
fn it_renders_nonluminous_sphere() {
    let mut scene = Scene::new();
    scene.add_obj(Renderable::Sphere(Sphere::new(Pt::new(0, 0, 1000), 100)));

    let capture = scene.capture(500, 300, 500);
    // Center of sphere is gray.
    assert_eq!(capture.get_pixel((250, 150)), Some(Color::new(10, 10, 10)));
    // Edge of capture is black.
    assert_eq!(capture.get_pixel((450, 250)), Some(Color::new(0, 0, 0)));
}

#[test]
fn nonluminous_occludes_luminous_sphere() {
    let mut scene = Scene::new();
    let mut far = Sphere::new(Pt::new(0, 0, 2000), 100);
    far.set_lum(255);
    scene.add_obj(Renderable::Sphere(far));
    scene.add_obj(Renderable::Sphere(Sphere::new(Pt::new(0, 0, 1000), 100)));

    let capture = scene.capture(500, 300, 500);
    // The nearer, dim sphere wins: center of sphere is gray.
    assert_eq!(capture.get_pixel((250, 150)), Some(Color::new(10, 10, 10)));
    // Edge of capture is black.
    assert_eq!(capture.get_pixel((450, 250)), Some(Color::new(0, 0, 0)));
}

#[test]
fn occlusion_ignores_insertion_order() {
    // The same two spheres in both insertion orders give identical captures.
    let mut near_first = Scene::new();
    near_first.add_obj(Renderable::Sphere(Sphere::new(Pt::new(0, 0, 1000), 100)));
    let mut bright = Sphere::new(Pt::new(0, 0, 2000), 100);
    bright.set_lum(255);
    near_first.add_obj(Renderable::Sphere(bright));

    let mut far_first = Scene::new();
    let mut bright2 = Sphere::new(Pt::new(0, 0, 2000), 100);
    bright2.set_lum(255);
    far_first.add_obj(Renderable::Sphere(bright2));
    far_first.add_obj(Renderable::Sphere(Sphere::new(Pt::new(0, 0, 1000), 100)));

    let a = near_first.capture(80, 60, 40);
    let b = far_first.capture(80, 60, 40);
    for y in 0..60 {
        for x in 0..80 {
            assert_eq!(a.get_pixel((x, y)), b.get_pixel((x, y)));
        }
    }
    assert_eq!(a.get_pixel((40, 30)), Some(Color::new(10, 10, 10)));
}

#[test]
fn render_at_viewport_distance_100() {
    let mut scene = Scene::new();
    scene.add_obj(Renderable::Sphere(Sphere::new(Pt::new(0, 0, 500), 100)));

    let capture = scene.capture(500, 300, 100);
    assert_eq!(capture.get_pixel((250, 150)), Some(Color::new(10, 10, 10)));
    assert_eq!(capture.get_pixel((450, 250)), Some(Color::new(0, 0, 0)));

    let mut bright_scene = Scene::new();
    let mut sphere = Sphere::new(Pt::new(0, 0, 500), 100);
    sphere.set_lum(255);
    bright_scene.add_obj(Renderable::Sphere(sphere));
    let bright = bright_scene.capture(500, 300, 100);
    assert_eq!(bright.get_pixel((250, 150)), Some(Color::new(255, 255, 255)));
}

#[test]
fn capture_is_idempotent() {
    let mut scene = Scene::new();
    scene.add_obj(Renderable::Sphere(Sphere::new(Pt::new(5, -3, 60), 20)));
    let mut second = Sphere::new(Pt::new(-10, 4, 90), 30);
    second.set_lum(200);
    scene.add_obj(Renderable::Sphere(second));

    let a = scene.capture(64, 48, 32);
    let b = scene.capture(64, 48, 32);
    for y in 0..48 {
        for x in 0..64 {
            assert_eq!(a.get_pixel((x, y)), b.get_pixel((x, y)));
        }
    }
}

#[test]
fn empty_scene_renders_black() {
    let scene = Scene::new();
    let capture = scene.capture(16, 12, 8);
    for y in 0..12 {
        for x in 0..16 {
            assert_eq!(capture.get_pixel((x, y)), Some(Color::new(0, 0, 0)));
        }
    }
}

#[test]
fn capture_starts_black() {
    let capture = Capture::new((4, 3));
    for y in 0..3 {
        for x in 0..4 {
            assert_eq!(capture.get_pixel((x, y)), Some(Color::new(0, 0, 0)));
        }
    }
}

#[test]
fn pixel_access_is_bounds_checked() {
    let mut capture = Capture::new((4, 3));
    assert_eq!(capture.get_pixel((4, 0)), None);
    assert_eq!(capture.get_pixel((0, 3)), None);
    assert!(!capture.set_pixel((4, 0), Color::new(1, 1, 1)));
    assert!(!capture.set_pixel((0, 3), Color::new(1, 1, 1)));
    assert!(capture.set_pixel((2, 1), Color::new(9, 8, 7)));
    assert_eq!(capture.get_pixel((2, 1)), Some(Color::new(9, 8, 7)));
    assert_eq!(capture.get_pixel((1, 2)), Some(Color::new(0, 0, 0)));
}
