use raytracer::bounds::{Axis, Box3, Point3};
use raytracer::partition::{distribute, enclose, preference, AxisOrder, LEAF_LIMIT};
use raytracer::split::{visit, Side, Visit};

fn cube(lo: i32, hi: i32) -> Box3 {
    Box3::new(Point3::new(lo, lo, lo), Point3::new(hi, hi, hi))
}

#[test]
fn leaf_limit_is_two_hundred_and_fifty_six() {
    assert_eq!(LEAF_LIMIT, 256);
}

#[test]
fn enclose_wraps_the_members_only() {
    let bounds = vec![cube(0, 1), cube(-5, -4), cube(100, 200), cube(3, 9)];
    assert_eq!(enclose(&bounds, &vec![0, 1, 3]), cube(-5, 9));
    assert_eq!(enclose(&bounds, &vec![2]), cube(100, 200));
    assert_eq!(enclose(&bounds, &vec![3, 3, 0]), cube(0, 9));
}

#[test]
fn distribute_deals_by_the_side_of_the_cut() {
    let bounds = vec![cube(0, 4), cube(6, 9), cube(3, 7), cube(5, 5), cube(0, 5), cube(5, 9)];
    let (lower, upper) = distribute(&bounds, &vec![0, 1, 2, 3, 4, 5], Axis::X, 5);
    assert_eq!(lower, vec![0, 2, 3, 4, 5]);
    assert_eq!(upper, vec![1, 2, 3, 4, 5]);
}

#[test]
fn distribute_reads_the_chosen_axis() {
    let flat = Box3::new(Point3::new(0, 10, 20), Point3::new(1, 11, 21));
    let bounds = vec![flat];
    let only: Vec<usize> = vec![0];
    let none: Vec<usize> = vec![];
    assert_eq!(distribute(&bounds, &vec![0], Axis::X, 5), (only.clone(), none.clone()));
    assert_eq!(distribute(&bounds, &vec![0], Axis::Y, 5), (none.clone(), only.clone()));
    assert_eq!(distribute(&bounds, &vec![0], Axis::Z, 21), (only.clone(), only.clone()));
}

#[test]
fn distribute_keeps_the_order_and_repeats() {
    let bounds = vec![cube(0, 1), cube(8, 9)];
    let (lower, upper) = distribute(&bounds, &vec![1, 0, 0, 1], Axis::Y, 5);
    assert_eq!(lower, vec![0, 0]);
    assert_eq!(upper, vec![1, 1]);
}

#[test]
fn preference_puts_the_widest_axis_first() {
    let order = |x, y, z| preference(&Point3::new(x, y, z));
    let a = |first, second, third| AxisOrder { first, second, third };
    assert_eq!(order(3, 2, 1), a(Axis::X, Axis::Y, Axis::Z));
    assert_eq!(order(3, 1, 2), a(Axis::X, Axis::Z, Axis::Y));
    assert_eq!(order(2, 3, 1), a(Axis::Y, Axis::X, Axis::Z));
    assert_eq!(order(1, 3, 2), a(Axis::Y, Axis::Z, Axis::X));
    assert_eq!(order(2, 1, 3), a(Axis::Z, Axis::X, Axis::Y));
    assert_eq!(order(1, 2, 3), a(Axis::Z, Axis::Y, Axis::X));
}

#[test]
fn preference_settles_ties_by_x_then_y_then_z() {
    let order = |x, y, z| preference(&Point3::new(x, y, z));
    let a = |first, second, third| AxisOrder { first, second, third };
    assert_eq!(order(5, 5, 5), a(Axis::X, Axis::Y, Axis::Z));
    assert_eq!(order(5, 5, 9), a(Axis::Z, Axis::X, Axis::Y));
    assert_eq!(order(5, 9, 5), a(Axis::Y, Axis::X, Axis::Z));
    assert_eq!(order(9, 5, 5), a(Axis::X, Axis::Y, Axis::Z));
    assert_eq!(order(1, 5, 5), a(Axis::Y, Axis::Z, Axis::X));
    assert_eq!(order(5, 1, 5), a(Axis::X, Axis::Z, Axis::Y));
    assert_eq!(order(0, 0, 0).nth(0), Axis::X);
    assert_eq!(order(0, 0, 0).nth(1), Axis::Y);
    assert_eq!(order(0, 0, 0).nth(2), Axis::Z);
}

#[test]
fn visit_enters_the_boxes_that_are_met() {
    assert_eq!(visit(None, None), Visit::Neither);
    assert_eq!(visit(Some(3), None), Visit::Only { side: Side::Left });
    assert_eq!(visit(None, Some(3)), Visit::Only { side: Side::Right });
}

#[test]
fn visit_enters_the_nearer_box_first() {
    assert_eq!(visit(Some(3), Some(4)), Visit::Both { first: Side::Left });
    assert_eq!(visit(Some(4), Some(3)), Visit::Both { first: Side::Right });
    assert_eq!(visit(Some(4), Some(4)), Visit::Both { first: Side::Right });
}
