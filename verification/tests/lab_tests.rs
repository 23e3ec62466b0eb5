use rustface::feat::FeatureMap;
use rustface::lab::LabBoostedFeatureMap;
use rustface::{ImageData, Rectangle};

fn pseudo_random_plane(width: usize, height: usize) -> Vec<u8> {
    let mut data = Vec::with_capacity(width * height);
    let mut state: u32 = 0x2545_f491;
    for _ in 0..width * height {
        state = state.wrapping_mul(1664525).wrapping_add(1013904223);
        data.push((state >> 24) as u8);
    }
    data
}

/// The rectangle sum read through the integral-image corners equals the
/// direct sum over the pixels, and the squared sum likewise (modulo
/// 2^32).
#[test]
fn test_integral_roi_round_trip() {
    let width = 13usize;
    let height = 11usize;
    let data = pseudo_random_plane(width, height);
    let img = ImageData::new(&data, width as u32, height as u32);
    let mut map = LabBoostedFeatureMap::new();
    map.compute(&img);

    for (x, y, w, h) in [(0, 0, 13, 11), (0, 3, 5, 4), (2, 0, 4, 7), (3, 5, 9, 6), (7, 7, 1, 1)] {
        let (sum, sq_sum) = map.get_roi_sums(Rectangle::new(x as i32, y as i32, w as u32, h as u32));
        let mut direct: i32 = 0;
        let mut direct_sq: u32 = 0;
        for r in y..y + h {
            for c in x..x + w {
                let v = data[r * width + c] as i32;
                direct += v;
                direct_sq = direct_sq.wrapping_add((v as u32).wrapping_mul(v as u32));
            }
        }
        assert_eq!(sum, direct);
        assert_eq!(sq_sum, direct_sq);
    }
}

/// On a 9x9 constant image with a bright center, the single LAB byte has
/// all eight bits set: the center block sum beats every neighbour.
#[test]
fn test_lab_byte_bright_center() {
    let mut data = vec![10u8; 81];
    data[4 * 9 + 4] = 200;
    let img = ImageData::new(&data, 9, 9);
    let mut map = LabBoostedFeatureMap::new();
    map.compute(&img);
    let code = map.get_feature_val(0, 0, Rectangle::new(0, 0, 9, 9));
    assert_eq!(code, 0xff);
}

/// With a dark center the comparisons all fail and the byte is clear.
#[test]
fn test_lab_byte_dark_center() {
    let mut data = vec![10u8; 81];
    data[4 * 9 + 4] = 0;
    let img = ImageData::new(&data, 9, 9);
    let mut map = LabBoostedFeatureMap::new();
    map.compute(&img);
    let code = map.get_feature_val(0, 0, Rectangle::new(0, 0, 9, 9));
    assert_eq!(code, 0x00);
}

/// On a constant image every comparison is a tie, which counts for the
/// center: all bits set.
#[test]
fn test_lab_byte_constant_image() {
    let data = vec![77u8; 81];
    let img = ImageData::new(&data, 9, 9);
    let mut map = LabBoostedFeatureMap::new();
    map.compute(&img);
    let code = map.get_feature_val(0, 0, Rectangle::new(0, 0, 9, 9));
    assert_eq!(code, 0xff);
}

/// The LAB byte plane matches a brute-force recomputation of the block
/// comparisons on a pseudo-random image.
#[test]
fn test_lab_plane_brute_force() {
    let width = 12usize;
    let height = 10usize;
    let data = pseudo_random_plane(width, height);
    let img = ImageData::new(&data, width as u32, height as u32);
    let mut map = LabBoostedFeatureMap::new();
    map.compute(&img);

    let block = |x: usize, y: usize| -> i32 {
        let mut s: i32 = 0;
        for r in y..y + 3 {
            for c in x..x + 3 {
                s += data[r * width + c] as i32;
            }
        }
        s
    };
    for y in 0..=height - 9 {
        for x in 0..=width - 9 {
            let center = block(x + 3, y + 3);
            let neighbors = [
                (x, y, 0x80u8),
                (x + 3, y, 0x40),
                (x + 6, y, 0x20),
                (x, y + 3, 0x10),
                (x + 6, y + 3, 0x08),
                (x, y + 6, 0x04),
                (x + 3, y + 6, 0x02),
                (x + 6, y + 6, 0x01),
            ];
            let mut expected: u8 = 0;
            for (nx, ny, bit) in neighbors {
                if center >= block(nx, ny) {
                    expected |= bit;
                }
            }
            let got = map.get_feature_val(x as i32, y as i32, Rectangle::new(0, 0, 9, 9));
            assert_eq!(got, expected, "mismatch at ({}, {})", x, y);
        }
    }
}
