use rustface::window::{get_window_data, rect_intersection};
use rustface::{ImageData, Rectangle};

#[test]
fn test_window_inside_image() {
    let data: Vec<u8> = (0..12).collect();
    let img = ImageData::new(&data, 4, 3);
    let mut roi = Rectangle::new(1, 1, 2, 2);
    let mut out = Vec::new();
    get_window_data(&img, &mut roi, &mut out);
    assert_eq!(out, vec![5, 6, 9, 10]);
    assert_eq!((roi.x(), roi.y()), (1, 1));
}

#[test]
fn test_window_padded_top_left() {
    let data: Vec<u8> = (1..=12).collect();
    let img = ImageData::new(&data, 4, 3);
    let mut roi = Rectangle::new(-1, -1, 3, 3);
    let mut out = Vec::new();
    get_window_data(&img, &mut roi, &mut out);
    assert_eq!(out, vec![0, 0, 0, 0, 1, 2, 0, 5, 6]);
    // the window origin is clamped afterwards
    assert_eq!((roi.x(), roi.y()), (0, 0));
    assert_eq!((roi.width(), roi.height()), (3, 3));
}

#[test]
fn test_window_padded_bottom_right() {
    let data: Vec<u8> = (1..=12).collect();
    let img = ImageData::new(&data, 4, 3);
    let mut roi = Rectangle::new(3, 2, 2, 2);
    let mut out = Vec::new();
    get_window_data(&img, &mut roi, &mut out);
    assert_eq!(out, vec![12, 0, 0, 0]);
}

#[test]
fn test_intersection_disjoint() {
    let a = Rectangle::new(0, 0, 10, 10);
    let b = Rectangle::new(20, 20, 5, 5);
    let (w, h) = rect_intersection(&a, &b);
    assert!(w <= 0 || h <= 0);
}

#[test]
fn test_intersection_identical() {
    let a = Rectangle::new(3, 4, 10, 12);
    let (w, h) = rect_intersection(&a, &a);
    assert_eq!((w, h), (10, 12));
}

#[test]
fn test_intersection_partial_overlap() {
    let a = Rectangle::new(0, 0, 10, 10);
    let b = Rectangle::new(5, 8, 10, 10);
    let (w, h) = rect_intersection(&a, &b);
    assert_eq!((w, h), (5, 2));
}
