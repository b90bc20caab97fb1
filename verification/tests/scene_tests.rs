use raytracer::render::{centered, pixels};
use raytracer::shape::Sphere;
use raytracer::trace::{ray_trace, LightKind};

fn key(x: f32) -> i32 {
    assert!(!x.is_nan());
    let bits = (x + 0.0).to_bits() as i32;
    if bits < 0 {
        bits ^ 0x7fff_ffff
    } else {
        bits
    }
}

fn unkey(k: i32) -> f32 {
    let bits = if k < 0 { k ^ 0x7fff_ffff } else { k };
    f32::from_bits(bits as u32)
}

type V = [f32; 3];

fn sub(a: V, b: V) -> V {
    [a[0] - b[0], a[1] - b[1], a[2] - b[2]]
}

fn dot(a: V, b: V) -> f32 {
    a[0] * b[0] + a[1] * b[1] + a[2] * b[2]
}

fn unit(a: V) -> V {
    let length = dot(a, a).sqrt();
    [a[0] / length, a[1] / length, a[2] / length]
}

#[derive(Clone, Copy)]
struct Ray {
    start: V,
    direction: V,
}

fn along(ray: Ray, t: f32) -> V {
    [
        ray.start[0] + t * ray.direction[0],
        ray.start[1] + t * ray.direction[1],
        ray.start[2] + t * ray.direction[2],
    ]
}

const CENTRE: V = [0.0, 0.0, 4.0];
const EYE: V = [0.0, 0.0, 0.0];

// Where a ray enters the sphere of diameter one about CENTRE, and the normal there.
fn sphere_hit(ray: Ray) -> Option<(f32, V)> {
    let start = sub(ray.start, CENTRE);
    let k1 = dot(ray.direction, ray.direction);
    let k2 = 2.0 * dot(start, ray.direction);
    let k3 = dot(start, start) - 0.25;
    let d = k2 * k2 - 4.0 * k1 * k3;
    let root = d.max(0.0).sqrt();
    let t1 = (-k2 + root) / (2.0 * k1);
    let t2 = (-k2 - root) / (2.0 * k1);
    let span = Sphere::new().intersects(key(d), key(t1), key(t2))?;
    let t = unkey(span.entry);
    Some((t, unit(sub(along(ray, t), CENTRE))))
}

// Renders a square image seen from EYE through a screen of width one at
// distance one, lit by a point light at the eye and by ambient light.
fn render(size: u32, with_sphere: bool, depth: u16) -> Vec<[u8; 3]> {
    let lights = vec![LightKind::Point, LightKind::Ambient];
    let cast = |ray: Ray| -> Vec<Option<i32>> {
        if with_sphere {
            vec![sphere_hit(ray).map(|(t, _)| key(t))]
        } else {
            Vec::new()
        }
    };
    let toward = |ray: Ray, _object: usize, _light: usize| -> Ray {
        let (t, _) = sphere_hit(ray).unwrap();
        let point = along(ray, t);
        Ray { start: point, direction: sub(EYE, point) }
    };
    let shade = |ray: Ray, _object: usize, lit: Vec<bool>| -> [f32; 3] {
        let (t, normal) = sphere_hit(ray).unwrap();
        let to_light = sub(EYE, along(ray, t));
        let mut intensity = 0.0;
        if lit[0] {
            intensity += 0.8 * dot(unit(to_light), normal).max(0.0);
        }
        if lit[1] {
            intensity += 0.2;
        }
        [intensity, intensity, intensity]
    };
    let mirror = |_object: usize| false;
    let bounce = |ray: Ray, _object: usize| ray;
    let blend = |colour: [f32; 3], _object: usize, _reflected: Option<[f32; 3]>| colour;
    pixels(size, size)
        .iter()
        .map(|&(x, y)| {
            let direction = unit([
                centered(x as i32, size as i32) as f32 / size as f32,
                centered(y as i32, size as i32) as f32 / size as f32,
                1.0,
            ]);
            let colour = ray_trace(
                &cast,
                &toward,
                &shade,
                &mirror,
                &bounce,
                &blend,
                Ray { start: EYE, direction },
                Some(key(1.0)),
                None,
                depth,
                &lights,
                key(1e-4),
                key(1.0),
            );
            match colour {
                Some(c) => [(255.0 * c[0]) as u8, (255.0 * c[1]) as u8, (255.0 * c[2]) as u8],
                None => [0, 0, 0],
            }
        })
        .collect()
}

#[test]
fn empty_scene_renders_black() {
    for pixel in render(16, false, 3) {
        assert_eq!(pixel, [0, 0, 0]);
    }
}

#[test]
fn depth_zero_renders_black() {
    for pixel in render(16, true, 0) {
        assert_eq!(pixel, [0, 0, 0]);
    }
}

#[test]
fn sphere_seen_head_on_is_a_bright_disk_in_the_middle() {
    let size = 64u32;
    let image = render(size, true, 1);
    let at = |x: u32, y: u32| image[(x * size + y) as usize];
    // The sphere of radius 0.5 at distance 4 covers the directions within
    // asin(0.5 / 4) of the axis: 8.06 pixels on a screen 64 pixels wide.
    for &(x, y) in pixels(size, size).iter() {
        let dx = x as f32 - 32.0;
        let dy = y as f32 - 32.0;
        let r = (dx * dx + dy * dy).sqrt();
        if r <= 7.9 {
            assert!(at(x, y)[0] >= 51, "pixel {} {} is not lit", x, y);
        }
        if r >= 8.2 {
            assert_eq!(at(x, y), [0, 0, 0], "pixel {} {} is not black", x, y);
        }
    }
    assert!(at(32, 32)[0] >= 254);
    assert_eq!(at(32, 32)[0], at(32, 32)[1]);
    assert_eq!(at(32, 32)[1], at(32, 32)[2]);
    // The disk fades from the middle to its rim.
    assert!(at(32, 32)[0] > at(36, 32)[0]);
    assert!(at(36, 32)[0] > at(40, 32)[0]);
    assert!(at(40, 32)[0] >= 51);
    assert_eq!(at(41, 32), [0, 0, 0]);
    assert_eq!(at(0, 0), [0, 0, 0]);
    assert_eq!(at(63, 63), [0, 0, 0]);
}
