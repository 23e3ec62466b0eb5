use rustface::common::{is_legal_image, Progression};
use rustface::{ImageData, Rectangle};

#[test]
pub fn test_seq_take() {
    let seq = Progression::new(0, 1);
    assert_eq!(vec![0, 1, 2, 3, 4], seq.take(5));
}

#[test]
pub fn test_seq_take_while() {
    let seq = Progression::new(0, 1);
    assert_eq!(vec![0, 1, 2, 3, 4], seq.take_while_lt(5));
}

#[test]
fn test_progression_step_and_inclusive_limit() {
    let seq = Progression::new(0, 16);
    assert_eq!(vec![0, 16], seq.take_while_le(24));
    let seq = Progression::new(0, 16);
    assert_eq!(vec![0, 16, 32], seq.take_while_le(32));
}

#[test]
fn test_rectangle_accessors() {
    let mut r = Rectangle::new(-3, 4, 10, 20);
    assert_eq!(r.x(), -3);
    assert_eq!(r.y(), 4);
    assert_eq!(r.width(), 10);
    assert_eq!(r.height(), 20);
    r.set_x(1);
    r.set_y(2);
    r.set_width(3);
    r.set_height(4);
    assert_eq!((r.x(), r.y(), r.width(), r.height()), (1, 2, 3, 4));
}

#[test]
fn test_image_data_view() {
    let data = vec![1u8, 2, 3, 4, 5, 6];
    let img = ImageData::new(&data, 3, 2);
    assert_eq!(img.width(), 3);
    assert_eq!(img.height(), 2);
    assert_eq!(img.num_channels(), 1);
    assert_eq!(img.data(), &data[..]);
    assert!(is_legal_image(&img));
}
