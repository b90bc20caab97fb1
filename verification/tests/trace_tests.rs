use raytracer::render::pixels;
use raytracer::trace::{has_highlight, intersect, occluded, ray_trace, LightKind};

#[test]
fn intersect_finds_nothing_in_an_empty_scene() {
    assert_eq!(intersect(&vec![], Some(1), None), None);
    assert_eq!(intersect(&vec![], None, None), None);
}

#[test]
fn intersect_finds_nothing_where_every_object_is_missed() {
    assert_eq!(intersect(&vec![None, None, None], None, None), None);
}

#[test]
fn intersect_takes_the_nearest_object() {
    assert_eq!(intersect(&vec![Some(50), None, Some(30), Some(40)], None, None), Some(2));
    assert_eq!(intersect(&vec![Some(10), Some(30)], None, None), Some(0));
}

#[test]
fn intersect_takes_the_first_of_equally_near_objects() {
    assert_eq!(intersect(&vec![Some(50), Some(30), Some(30)], None, None), Some(1));
}

#[test]
fn intersect_keeps_to_the_range() {
    let hits = vec![Some(5), Some(20), Some(90), Some(40)];
    assert_eq!(intersect(&hits, Some(10), None), Some(1));
    assert_eq!(intersect(&hits, Some(21), None), Some(3));
    assert_eq!(intersect(&hits, Some(21), Some(39)), None);
    assert_eq!(intersect(&hits, None, Some(4)), None);
    assert_eq!(intersect(&hits, None, Some(5)), Some(0));
    assert_eq!(intersect(&hits, Some(90), Some(90)), Some(2));
}

#[test]
fn intersect_sees_objects_behind_the_origin_without_a_near_bound() {
    assert_eq!(intersect(&vec![Some(-7), Some(3)], None, None), Some(0));
    assert_eq!(intersect(&vec![Some(-7), Some(3)], Some(0), None), Some(1));
}

#[test]
fn occluded_by_an_object_before_the_light() {
    assert!(occluded(&vec![None, Some(50)], 10, 100));
    assert!(occluded(&vec![Some(10)], 10, 100));
    assert!(occluded(&vec![Some(100), Some(99)], 10, 100));
}

#[test]
fn not_occluded_by_what_lies_at_or_beyond_the_light_or_under_the_bias() {
    assert!(!occluded(&vec![], 10, 100));
    assert!(!occluded(&vec![None], 10, 100));
    assert!(!occluded(&vec![Some(100)], 10, 100));
    assert!(!occluded(&vec![Some(150)], 10, 100));
    assert!(!occluded(&vec![Some(9), Some(0), Some(-40)], 10, 100));
}

#[test]
fn only_point_lights_cast_shadows() {
    assert!(LightKind::Point.casts_shadow());
    assert!(!LightKind::Ambient.casts_shadow());
}

#[test]
fn highlight_needs_a_specular_exponent() {
    assert!(!has_highlight(0));
    assert!(has_highlight(1));
    assert!(has_highlight(500));
}

// A scene of rays numbered by hand. Ray 0 is the primary ray; ray 10 + i is
// the ray reflected off object i; ray 100 + 10 * i + l runs from object i to
// light l. A colour is a number.
fn toy_cast(ray: u32) -> Vec<Option<i32>> {
    match ray {
        // The primary ray meets object 1 first; object 0 lies before the range.
        0 => vec![Some(5), Some(200), Some(300)],
        // Off object 1 the reflected ray meets object 2.
        11 => vec![None, None, Some(70)],
        // Off object 2 it meets object 1 again.
        12 => vec![None, Some(80), None],
        // From object 1, light 0 is hidden behind object 2.
        110 => vec![None, None, Some(50)],
        _ => vec![None, None, None],
    }
}

fn toy_toward(_ray: u32, object: usize, light: usize) -> u32 {
    100 + 10 * object as u32 + light as u32
}

fn toy_shade(_ray: u32, object: usize, lit: Vec<bool>) -> i64 {
    let mut total = 0;
    for (l, reached) in lit.iter().enumerate() {
        if *reached {
            total += [100, 20][l];
        }
    }
    total + object as i64
}

fn toy_bounce(_ray: u32, object: usize) -> u32 {
    10 + object as u32
}

fn toy_blend(colour: i64, _object: usize, reflected: Option<i64>) -> i64 {
    match reflected {
        Some(r) => colour * 1000 + r,
        None => colour * 1000,
    }
}

fn toy_trace(depth: u16, mirrors: [bool; 3]) -> Option<i64> {
    let lights = vec![LightKind::Point, LightKind::Ambient];
    let mirror = move |object: usize| mirrors[object];
    ray_trace(
        &toy_cast,
        &toy_toward,
        &toy_shade,
        &mirror,
        &toy_bounce,
        &toy_blend,
        0u32,
        Some(100),
        None,
        depth,
        &lights,
        1,
        100,
    )
}

#[test]
fn ray_of_depth_zero_has_no_colour() {
    assert_eq!(toy_trace(0, [false, false, false]), None);
    assert_eq!(toy_trace(0, [true, true, true]), None);
}

#[test]
fn ray_takes_the_colour_of_the_nearest_surface_in_range() {
    // Object 1, lit by the ambient light only: the point light is hidden.
    assert_eq!(toy_trace(1, [false, false, false]), Some(21));
    assert_eq!(toy_trace(5, [false, false, false]), Some(21));
}

#[test]
fn reflection_adds_nothing_at_depth_one() {
    assert_eq!(toy_trace(1, [true, true, true]), Some(21000));
    assert_eq!(toy_trace(1, [false, true, false]), Some(21000));
}

#[test]
fn reflection_follows_one_bounce_at_depth_two() {
    // Object 2 is lit by both lights: 100 + 20 + 2.
    assert_eq!(toy_trace(2, [false, true, false]), Some(21000 + 122));
    // Where object 2 reflects too, its own reflection is cut off.
    assert_eq!(toy_trace(2, [false, true, true]), Some(21000 + 122000));
}

#[test]
fn reflection_follows_two_bounces_at_depth_three() {
    // Object 1 again, seen from object 2: the reflected ray starts at the
    // bias, so it is found at distance 80.
    assert_eq!(toy_trace(3, [false, true, true]), Some(21000 + 122000 + 21000));
}

#[test]
fn scene_without_objects_is_dark_at_every_pixel() {
    let lights = vec![LightKind::Ambient];
    let cast = |_ray: (u32, u32)| -> Vec<Option<i32>> { Vec::new() };
    let toward = |ray: (u32, u32), _object: usize, _light: usize| ray;
    let shade = |_ray: (u32, u32), _object: usize, _lit: Vec<bool>| [255u8, 255, 255];
    let mirror = |_object: usize| true;
    let bounce = |ray: (u32, u32), _object: usize| ray;
    let blend = |colour: [u8; 3], _object: usize, _reflected: Option<[u8; 3]>| colour;
    for pixel in pixels(8, 6) {
        let colour = ray_trace(
            &cast, &toward, &shade, &mirror, &bounce, &blend, pixel, Some(1), None, 4, &lights,
            1, 100,
        );
        let shown = match colour {
            Some(c) => c,
            None => [0, 0, 0],
        };
        assert_eq!(shown, [0, 0, 0]);
    }
}
