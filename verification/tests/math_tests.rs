use rustface::math::{abs, copy_u8_to_i32, square, vector_add, vector_sub};

#[test]
fn test_square() {
    let mut vec = vec![1, 2, 3];
    square(&[1, 2, 3], &mut vec);
    assert_eq!(vec![1, 4, 9], vec);
}

#[test]
fn test_abs() {
    let mut vec = vec![0, 0, 0];
    abs(&[-1, 2, -3], &mut vec);
    assert_eq!(vec![1, 2, 3], vec);
}

#[test]
fn test_vector_add() {
    let mut vec = vec![0, 0, 0];
    vector_add(&[1, 2, 3], &[1, 2, 3], &mut vec);
    assert_eq!(vec![2, 4, 6], vec);
}

#[test]
fn test_vector_sub() {
    let mut vec = vec![0, 0, 0];
    vector_sub(&[1, 2, 3], &[1, 2, 3], &mut vec);
    assert_eq!(vec![0, 0, 0], vec);
}

#[test]
fn test_copy_u8_widens() {
    let mut dest = vec![7i32; 5];
    copy_u8_to_i32(&[255, 0, 128], &mut dest);
    assert_eq!(vec![255, 0, 128, 7, 7], dest);
}

#[test]
fn test_square_wraps_like_source_pixels() {
    // 65535^2 = 4294836225 does not fit an i32; the stored u32 keeps the
    // low 32 bits, exactly as the squared-intensity integral expects.
    let mut dest = vec![0u32; 1];
    square(&[65535], &mut dest);
    assert_eq!(vec![65535u32.wrapping_mul(65535)], dest);
}

#[test]
fn test_vector_add_wraps() {
    let mut dest = vec![0i32; 1];
    vector_add(&[i32::MAX], &[1], &mut dest);
    assert_eq!(vec![i32::MIN], dest);
}

#[test]
fn test_vector_sub_elementwise() {
    let mut dest = vec![0i32; 3];
    vector_sub(&[10, -4, 7], &[3, 5, -2], &mut dest);
    assert_eq!(vec![7, -9, 9], dest);
}
