use yolov8_rs::geometry::{center_to_corner, corner_to_center, iou_gt, iou_value, Bbox};

const UNIT: i64 = 1_000_000;

fn boxed(xmin: i64, ymin: i64, width: i64, height: i64) -> Bbox {
    Bbox::new(xmin, ymin, width, height, 0, 900_000)
}

#[test]
fn iou_of_box_with_itself_is_exactly_one() {
    let b = boxed(10, 20, 30, 40);
    assert_eq!(iou_value(&b, &b), UNIT);
}

#[test]
fn iou_of_disjoint_boxes_is_exactly_zero() {
    let a = boxed(0, 0, 10, 10);
    let b = boxed(100, 100, 10, 10);
    assert_eq!(iou_value(&a, &b), 0);
    assert!(!iou_gt(&a, &b, 0));
}

#[test]
fn iou_of_touching_boxes_is_exactly_zero() {
    let a = boxed(0, 0, 10, 10);
    let b = boxed(10, 0, 10, 10);
    assert_eq!(iou_value(&a, &b), 0);
}

#[test]
fn iou_of_half_overlapping_boxes_is_exact() {
    // intersection 5x10 = 50, union 100 + 100 - 50 = 150, IoU = 1/3
    let a = boxed(0, 0, 10, 10);
    let b = boxed(5, 0, 10, 10);
    assert_eq!(iou_value(&a, &b), 333_333);
    assert!(iou_gt(&a, &b, 333_332));
    assert!(!iou_gt(&a, &b, 333_334));
}

#[test]
fn corner_center_round_trip_recovers_original_even_extent() {
    let (cx, cy, w, h) = corner_to_center(5, 7, 10, 4);
    assert_eq!((cx, cy, w, h), (10, 9, 10, 4));
    let (x, y, w2, h2) = center_to_corner(cx, cy, w, h);
    assert_eq!((x, y, w2, h2), (5, 7, 10, 4));
}

#[test]
fn corner_center_round_trip_recovers_original_odd_extent() {
    let (cx, cy, w, h) = corner_to_center(-3, 8, 9, 3);
    assert_eq!((cx, cy, w, h), (1, 9, 9, 3));
    let (x, y, w2, h2) = center_to_corner(cx, cy, w, h);
    assert_eq!((x, y, w2, h2), (-3, 8, 9, 3));
}

#[test]
fn box_accessors_match_corner_form() {
    let b = boxed(3, 4, 10, 20);
    assert_eq!(b.xmax(), 13);
    assert_eq!(b.ymax(), 24);
    assert_eq!(b.area(), 200i128);
}
