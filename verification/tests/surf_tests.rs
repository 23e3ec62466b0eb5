use rustface::feat::FeatureMap;
use rustface::surf::SurfMlpFeatureMap;
use rustface::{ImageData, Rectangle};

/// The number of pooled features that the five fixed patch formats
/// enumerate over the 40x40 sample, recomputed independently from the
/// enumeration rule.
fn expected_pool_size() -> usize {
    let formats = [(1u32, 1u32, 2u32, 2u32), (1, 2, 2, 2), (2, 1, 2, 2), (2, 3, 2, 2), (3, 2, 2, 2)];
    let mut count = 0usize;
    for (fw, fh, rows_per, cols_per) in formats {
        let mut h = 16u32;
        while h <= 40 {
            if h % cols_per == 0 && h % fh == 0 {
                let w = h / fh * fw;
                if w % rows_per == 0 && w >= 16 && w <= 40 {
                    let mut y = 0u32;
                    while y <= 40 - h {
                        let mut x = 0u32;
                        while x <= 40 - w {
                            count += 1;
                            x += 16;
                        }
                        y += 16;
                    }
                }
            }
            h += 1;
        }
    }
    count
}

#[test]
fn test_feature_pool_size_deterministic() {
    let map_a = SurfMlpFeatureMap::new();
    let map_b = SurfMlpFeatureMap::new();
    assert_eq!(map_a.get_feature_pool_size(), map_b.get_feature_pool_size());
    assert_eq!(map_a.get_feature_pool_size(), expected_pool_size());
}

/// Every pooled feature has a 2x2 cell grid, so every descriptor is
/// 2 * 2 * 8 = 32 long.
#[test]
fn test_feature_vector_dim() {
    let map = SurfMlpFeatureMap::new();
    for id in 0..map.get_feature_pool_size() {
        let f = &map.feature_pool.features[id];
        assert_eq!(
            map.get_feature_vector_dim(id),
            (f.num_cell_per_col * f.num_cell_per_row * 8) as usize
        );
        assert_eq!(map.get_feature_vector_dim(id), 32);
    }
}

/// A constant image has zero gradients everywhere, so every raw
/// descriptor is all zero.
#[test]
fn test_descriptor_zero_on_constant_image() {
    let data = vec![128u8; 40 * 40];
    let img = ImageData::new(&data, 40, 40);
    let mut map = SurfMlpFeatureMap::new();
    map.compute(&img);
    map.compute_feature_vector(0, Rectangle::new(0, 0, 40, 40));
    let v = map.get_feature_vector(0);
    assert_eq!(v.len(), 32);
    assert!(v.iter().all(|&x| x == 0));
}

/// A horizontal ramp has dx == 2 and dy == 0 at every pixel: only the
/// two positive-x channels are live, each cell summing 2 per pixel.
#[test]
fn test_descriptor_on_horizontal_ramp() {
    let mut data = vec![0u8; 40 * 40];
    for y in 0..40 {
        for x in 0..40 {
            data[y * 40 + x] = x as u8;
        }
    }
    let img = ImageData::new(&data, 40, 40);
    let mut map = SurfMlpFeatureMap::new();
    map.compute(&img);

    // Feature 0 is the first collected patch: 16x16 at (0, 0) with 2x2
    // cells of 8x8 pixels.
    let f = &map.feature_pool.features[0];
    assert_eq!((f.patch.x(), f.patch.y()), (0, 0));
    assert_eq!((f.patch.width(), f.patch.height()), (16, 16));

    map.compute_feature_vector(0, Rectangle::new(0, 0, 40, 40));
    let v = map.get_feature_vector(0).clone();
    for cell in 0..4 {
        let d = &v[cell * 8..cell * 8 + 8];
        // dx = 2 over an 8x8 cell: channels [dx | dy>=0] and [|dx| | dy>=0].
        assert_eq!(d, &[128, 128, 0, 0, 0, 0, 0, 0]);
    }
}

/// The descriptor matches a brute-force recomputation of the channel
/// sums on a pseudo-random 40x40 image.
#[test]
fn test_descriptor_brute_force() {
    let width = 40usize;
    let height = 40usize;
    let mut data = vec![0u8; width * height];
    let mut state: u32 = 0xdead_beef;
    for px in data.iter_mut() {
        state = state.wrapping_mul(1664525).wrapping_add(1013904223);
        *px = (state >> 24) as u8;
    }
    let img = ImageData::new(&data, width as u32, height as u32);
    let mut map = SurfMlpFeatureMap::new();
    map.compute(&img);

    let at = |x: usize, y: usize| data[y * width + x] as i32;
    let grad = |x: usize, y: usize| -> (i32, i32) {
        let dx = if x == 0 {
            2 * (at(1, y) - at(0, y))
        } else if x == width - 1 {
            2 * (at(x, y) - at(x - 1, y))
        } else {
            at(x + 1, y) - at(x - 1, y)
        };
        let dy = if y == 0 {
            2 * (at(x, 1) - at(x, 0))
        } else if y == height - 1 {
            2 * (at(x, y) - at(x, y - 1))
        } else {
            at(x, y + 1) - at(x, y - 1)
        };
        (dx, dy)
    };
    let chan = |x: usize, y: usize, ch: usize| -> i32 {
        let (dx, dy) = grad(x, y);
        match ch {
            0 => if dy >= 0 { dx } else { 0 },
            1 => if dy >= 0 { dx.abs() } else { 0 },
            2 => if dy < 0 { dx } else { 0 },
            3 => if dy < 0 { dx.abs() } else { 0 },
            4 => if dx >= 0 { dy } else { 0 },
            5 => if dx >= 0 { dy.abs() } else { 0 },
            6 => if dx < 0 { dy } else { 0 },
            _ => if dx < 0 { dy.abs() } else { 0 },
        }
    };

    for id in [0usize, 13, 55] {
        let f = &map.feature_pool.features[id];
        let (px, py) = (f.patch.x() as usize, f.patch.y() as usize);
        let (pw, ph) = (f.patch.width() as usize, f.patch.height() as usize);
        let (cols, rows) = (f.num_cell_per_row as usize, f.num_cell_per_col as usize);
        let (cw, ch_h) = (pw / cols, ph / rows);
        let mut expected = Vec::new();
        for i in 0..rows {
            for j in 0..cols {
                for ch in 0..8 {
                    let mut s: i32 = 0;
                    for y in py + i * ch_h..py + (i + 1) * ch_h {
                        for x in px + j * cw..px + (j + 1) * cw {
                            s += chan(x, y, ch);
                        }
                    }
                    expected.push(s);
                }
            }
        }
        map.compute_feature_vector(id, Rectangle::new(0, 0, 40, 40));
        assert_eq!(map.get_feature_vector(id), &expected, "feature {}", id);
    }
}
