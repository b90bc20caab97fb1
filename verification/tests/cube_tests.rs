use raytracer::cube::{intersects, FaceHit};
use raytracer::span::Span;

fn hit(face: usize, entry: i32, exit: i32) -> Option<FaceHit> {
    Some(FaceHit { face, span: Span { entry, exit } })
}

#[test]
fn ray_that_misses_every_face_misses_the_box() {
    assert_eq!(intersects(&vec![None, None, None, None, None, None]), None);
    assert_eq!(intersects(&vec![]), None);
}

#[test]
fn ray_through_two_faces_enters_by_the_nearer() {
    assert_eq!(intersects(&vec![None, Some(30), None, Some(10), None, None]), hit(3, 10, 30));
    assert_eq!(intersects(&vec![Some(10), None, None, None, None, Some(30)]), hit(0, 10, 30));
}

#[test]
fn ray_through_one_face_enters_and_leaves_there() {
    assert_eq!(intersects(&vec![None, None, Some(25), None, None, None]), hit(2, 25, 25));
}

#[test]
fn only_the_first_two_faces_hit_count() {
    assert_eq!(intersects(&vec![Some(30), Some(20), Some(10), None, None, Some(5)]), hit(1, 20, 30));
}

#[test]
fn equally_near_faces_keep_their_order() {
    assert_eq!(intersects(&vec![None, Some(20), Some(20), None, None, None]), hit(1, 20, 20));
}
