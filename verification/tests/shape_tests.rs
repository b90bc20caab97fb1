use raytracer::bounds::{Box3, Point3};
use raytracer::shape::{plane_intersects, triangle_intersects, turns_normal, NoneShape, Sphere};
use raytracer::span::Span;

// The place of a number in the order of numbers.
fn key(x: f32) -> i32 {
    assert!(!x.is_nan());
    let bits = (x + 0.0).to_bits() as i32;
    if bits < 0 {
        bits ^ 0x7fff_ffff
    } else {
        bits
    }
}

fn unkey(k: i32) -> f32 {
    let bits = if k < 0 { k ^ 0x7fff_ffff } else { k };
    f32::from_bits(bits as u32)
}

fn dot(a: [f32; 3], b: [f32; 3]) -> f32 {
    a[0] * b[0] + a[1] * b[1] + a[2] * b[2]
}

// Solves the crossing of a ray with the sphere of radius one half.
fn sphere_span(start: [f32; 3], ray: [f32; 3]) -> Option<Span> {
    let k1 = dot(ray, ray);
    let k2 = 2.0 * dot(start, ray);
    let k3 = dot(start, start) - 0.25;
    let d = k2 * k2 - 4.0 * k1 * k3;
    let (t1, t2) = if d < 0.0 {
        (0.0, 0.0)
    } else {
        ((-k2 + d.sqrt()) / (2.0 * k1), (-k2 - d.sqrt()) / (2.0 * k1))
    };
    Sphere::new().intersects(key(d), key(t1), key(t2))
}

#[test]
fn keys_keep_the_order_of_numbers() {
    let numbers = [-1.0e9f32, -2.5, -1.0, -1.0e-9, 0.0, 1.0e-9, 0.5, 1.0, 3.0, 1.0e9];
    for i in 0..numbers.len() {
        assert_eq!(unkey(key(numbers[i])), numbers[i]);
        for j in 0..numbers.len() {
            assert_eq!(numbers[i] < numbers[j], key(numbers[i]) < key(numbers[j]));
        }
    }
    assert_eq!(key(0.0), 0);
    assert_eq!(key(-0.0), 0);
}

#[test]
fn none_shape_is_never_hit() {
    assert_eq!(NoneShape::new().intersects(), None);
}

#[test]
fn sphere_is_missed_with_a_negative_discriminant() {
    assert_eq!(Sphere::new().intersects(-1, 10, 20), None);
    assert_eq!(Sphere::new().intersects(i32::MIN, 10, 20), None);
}

#[test]
fn sphere_is_entered_at_the_smaller_root() {
    assert_eq!(Sphere::new().intersects(5, 30, 10), Some(Span { entry: 10, exit: 30 }));
    assert_eq!(Sphere::new().intersects(5, 10, 30), Some(Span { entry: 10, exit: 30 }));
    assert_eq!(Sphere::new().intersects(0, 20, 20), Some(Span { entry: 20, exit: 20 }));
}

#[test]
fn ray_through_the_centre_enters_the_sphere_half_a_unit_from_it() {
    let directions = [
        [0.0f32, 0.0, 1.0],
        [1.0, 0.0, 0.0],
        [0.0, -1.0, 0.0],
        [0.6, 0.0, 0.8],
        [1.0, 2.0, -2.0],
        [-0.3, 0.4, 1.2],
    ];
    for ray in directions {
        let start = [-2.0 * ray[0], -2.0 * ray[1], -2.0 * ray[2]];
        let span = sphere_span(start, ray).unwrap();
        for t in [unkey(span.entry), unkey(span.exit)] {
            let point = [start[0] + t * ray[0], start[1] + t * ray[1], start[2] + t * ray[2]];
            let from_centre = dot(point, point).sqrt();
            assert!((from_centre - 0.5).abs() < 1e-4);
        }
        assert!(span.entry < span.exit);
    }
}

#[test]
fn ray_beside_the_sphere_misses_it() {
    assert_eq!(sphere_span([0.6, 0.0, -2.0], [0.0, 0.0, 1.0]), None);
}

// The unit plane at z = 0 from -0.5 to 0.5 along x and y, with a little slack.
fn unit_plane_hit(start: [f32; 3], ray: [f32; 3]) -> Option<Span> {
    let normal = [0.0f32, 0.0, -1.0];
    let d = 0.0f32;
    let eps = 1e-5f32;
    let bounds = Box3::new(
        Point3::new(key(-0.5 - eps), key(-0.5), key(-eps)),
        Point3::new(key(0.5), key(0.5 + eps), key(eps)),
    );
    let c = dot(ray, normal);
    let (t, point) = if c == 0.0 {
        (0.0, [0.0, 0.0, 0.0])
    } else {
        let t = -(dot(normal, start) + d) / c;
        (t, [start[0] + t * ray[0], start[1] + t * ray[1], start[2] + t * ray[2]])
    };
    plane_intersects(
        key(c),
        key(t),
        &Point3::new(key(point[0]), key(point[1]), key(point[2])),
        &bounds,
    )
}

#[test]
fn ray_straight_at_the_unit_plane_hits_it_at_distance_one() {
    let hit = unit_plane_hit([0.0, 0.0, -1.0], [0.0, 0.0, 1.0]).unwrap();
    assert_eq!(unkey(hit.entry), 1.0);
    assert_eq!(hit.entry, hit.exit);
}

#[test]
fn ray_along_the_plane_misses_it() {
    assert_eq!(unit_plane_hit([0.0, 0.0, -1.0], [1.0, 0.0, 0.0]), None);
}

#[test]
fn plane_behind_the_ray_is_missed() {
    assert_eq!(unit_plane_hit([0.0, 0.0, -1.0], [0.0, 0.0, -1.0]), None);
}

#[test]
fn ray_past_the_edge_of_the_plane_misses_it() {
    assert_eq!(unit_plane_hit([0.6, 0.0, -1.0], [0.0, 0.0, 1.0]), None);
    assert_eq!(unit_plane_hit([0.0, -0.6, -1.0], [0.0, 0.0, 1.0]), None);
    assert!(unit_plane_hit([0.5, -0.5, -1.0], [0.0, 0.0, 1.0]).is_some());
}

#[test]
fn plane_is_hit_at_distance_zero() {
    let bounds = Box3::new(Point3::new(-5, -5, 0), Point3::new(5, 5, 0));
    let origin = Point3::new(0, 0, 0);
    assert_eq!(plane_intersects(7, 0, &origin, &bounds), Some(Span { entry: 0, exit: 0 }));
    assert_eq!(plane_intersects(-7, 0, &origin, &bounds), Some(Span { entry: 0, exit: 0 }));
    assert_eq!(plane_intersects(7, -1, &origin, &bounds), None);
    assert_eq!(plane_intersects(0, 3, &origin, &bounds), None);
    assert_eq!(plane_intersects(7, 3, &Point3::new(0, 6, 0), &bounds), None);
}

#[test]
fn triangle_is_hit_inside_its_edges() {
    assert_eq!(triangle_intersects(2, 3, 5, 10, 77), Some(Span { entry: 77, exit: 77 }));
    assert_eq!(triangle_intersects(0, 0, 0, 10, 77), Some(Span { entry: 77, exit: 77 }));
    assert_eq!(triangle_intersects(10, 0, 10, 10, 77), Some(Span { entry: 77, exit: 77 }));
    assert_eq!(triangle_intersects(0, 10, 10, 10, -4), Some(Span { entry: -4, exit: -4 }));
}

#[test]
fn triangle_is_missed_outside_its_edges() {
    assert_eq!(triangle_intersects(-1, 3, 2, 10, 77), None);
    assert_eq!(triangle_intersects(11, 0, 11, 10, 77), None);
    assert_eq!(triangle_intersects(2, -1, 1, 10, 77), None);
    assert_eq!(triangle_intersects(6, 6, 12, 10, 77), None);
    assert_eq!(triangle_intersects(2, 3, 5, -10, 77), None);
}

#[test]
fn normal_is_turned_to_face_the_ray() {
    assert!(turns_normal(1));
    assert!(!turns_normal(0));
    assert!(!turns_normal(-1));
}
