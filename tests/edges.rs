use image_processor::{edge_detect, rounded_root, LumaGrid, Rgba, RgbaGrid};

fn grid(width: u32, height: u32, data: Vec<u8>) -> LumaGrid {
    LumaGrid::from_raw(width, height, data).expect("dense grid")
}

fn gray(v: u8) -> Rgba {
    Rgba { r: v, g: v, b: v, a: 255 }
}

const BORDER: Rgba = Rgba { r: 0, g: 0, b: 0, a: 255 };

fn is_border(out: &RgbaGrid, x: u32, y: u32) -> bool {
    x == 0 || y == 0 || x + 1 == out.width || y + 1 == out.height
}

fn step_grid(width: u32, height: u32, edge: u32, left: u8, right: u8) -> LumaGrid {
    let mut data = Vec::new();
    for _y in 0..height {
        for x in 0..width {
            data.push(if x < edge { left } else { right });
        }
    }
    grid(width, height, data)
}

#[test]
fn output_keeps_size_and_is_opaque() {
    let data: Vec<u8> = (0..42u32).map(|i| (i * 37 % 251) as u8).collect();
    let g = grid(7, 6, data);
    let out = edge_detect(&g);
    assert_eq!(out.width, 7);
    assert_eq!(out.height, 6);
    assert_eq!(out.pixels.len(), 42);
    for p in &out.pixels {
        assert_eq!(p.a, 255);
        assert_eq!(p.r, p.g);
        assert_eq!(p.g, p.b);
    }
}

#[test]
fn border_pixels_keep_the_default() {
    let data: Vec<u8> = (0..30u32).map(|i| (i * 91 % 256) as u8).collect();
    let g = grid(6, 5, data);
    let out = edge_detect(&g);
    for y in 0..5 {
        for x in 0..6 {
            if is_border(&out, x, y) {
                assert_eq!(out.get(x, y), BORDER);
            }
        }
    }
}

#[test]
fn uniform_grid_has_zero_gradient() {
    let g = grid(5, 5, vec![77; 25]);
    let out = edge_detect(&g);
    for y in 1..4 {
        for x in 1..4 {
            assert_eq!(out.get(x, y), gray(0));
        }
    }
}

#[test]
fn step_edge_is_brighter_than_flat_regions() {
    let g = step_grid(8, 5, 4, 30, 200);
    let out = edge_detect(&g);
    for y in 1..4 {
        // 4 * (200 - 30) = 680 saturates
        assert_eq!(out.get(3, y), gray(255));
        assert_eq!(out.get(4, y), gray(255));
        for x in [1u32, 2, 5, 6] {
            assert_eq!(out.get(x, y), gray(0));
        }
    }
}

#[test]
fn small_step_gives_exact_level() {
    let g = step_grid(6, 3, 3, 10, 12);
    let out = edge_detect(&g);
    // gx = 4 * 2 = 8, gy = 0
    assert_eq!(out.get(2, 1), gray(8));
    assert_eq!(out.get(3, 1), gray(8));
    assert_eq!(out.get(1, 1), gray(0));
    assert_eq!(out.get(4, 1), gray(0));
}

#[test]
fn mirrored_input_gives_mirrored_output() {
    let (w, h) = (7u32, 5u32);
    let data: Vec<u8> = (0..w * h).map(|i| (i * i * 13 % 256) as u8).collect();
    let mut mirrored = Vec::new();
    for y in 0..h {
        for x in 0..w {
            mirrored.push(data[(y * w + (w - 1 - x)) as usize]);
        }
    }
    let out = edge_detect(&grid(w, h, data));
    let out_m = edge_detect(&grid(w, h, mirrored));
    for y in 0..h {
        for x in 0..w {
            assert_eq!(out_m.get(x, y), out.get(w - 1 - x, y));
        }
    }
}

#[test]
fn degenerate_sizes_are_all_default() {
    for (w, h) in [(1u32, 1u32), (2, 2), (2, 7), (7, 2), (1, 9), (0, 4), (3, 0)] {
        let data: Vec<u8> = (0..w * h).map(|i| (i * 50 % 256) as u8).collect();
        let out = edge_detect(&grid(w, h, data));
        assert_eq!(out.width, w);
        assert_eq!(out.height, h);
        assert_eq!(out.pixels.len(), (w * h) as usize);
        assert!(out.pixels.iter().all(|p| *p == BORDER));
    }
}

#[test]
fn five_by_five_boundary_scenario() {
    let mut data = Vec::new();
    for _y in 0..5 {
        data.extend_from_slice(&[0, 0, 128, 255, 255]);
    }
    let out = edge_detect(&grid(5, 5, data));
    for y in 1..4 {
        // gx = 4 * 128 = 512 at column 1, 4 * 255 at column 2, 4 * 127 at column 3
        assert_eq!(out.get(1, y), gray(255));
        assert_eq!(out.get(2, y), gray(255));
        assert_eq!(out.get(3, y), gray(255));
    }
    for x in 0..5 {
        assert_eq!(out.get(x, 0), BORDER);
        assert_eq!(out.get(x, 4), BORDER);
    }
}

#[test]
fn flat_regions_of_a_wide_step_are_zero() {
    let g = step_grid(10, 4, 5, 0, 255);
    let out = edge_detect(&g);
    for y in 1..3 {
        for x in [1u32, 2, 3, 6, 7, 8] {
            assert_eq!(out.get(x, y), gray(0));
        }
        assert_eq!(out.get(4, y), gray(255));
        assert_eq!(out.get(5, y), gray(255));
    }
}

#[test]
fn gradient_of_a_ramp() {
    let g = grid(3, 3, vec![1, 2, 3, 4, 5, 6, 7, 8, 9]);
    // gx = 24 - 16 = 8, gy = 32 - 8 = 24, sqrt(640) = 25.3
    assert_eq!(edge_detect(&g).get(1, 1), gray(25));
}

#[test]
fn magnitude_rounds_to_nearest() {
    // gx = 2, gy = 2: sqrt(8) = 2.83
    let g = grid(3, 3, vec![0, 0, 0, 0, 0, 1, 1, 0, 1]);
    assert_eq!(edge_detect(&g).get(1, 1), gray(3));
    // gx = 1, gy = 1: sqrt(2) = 1.41
    let g = grid(3, 3, vec![0, 0, 0, 0, 0, 0, 0, 0, 1]);
    assert_eq!(edge_detect(&g).get(1, 1), gray(1));
}

#[test]
fn largest_gradient_saturates() {
    let g = grid(3, 3, vec![0, 255, 255, 0, 255, 255, 0, 0, 255]);
    assert_eq!(edge_detect(&g).get(1, 1), gray(255));
}

#[test]
fn rounded_root_values() {
    assert_eq!(rounded_root(0), 0);
    assert_eq!(rounded_root(1), 1);
    assert_eq!(rounded_root(2), 1);
    assert_eq!(rounded_root(3), 2);
    assert_eq!(rounded_root(6), 2);
    assert_eq!(rounded_root(7), 3);
    assert_eq!(rounded_root(640), 25);
    assert_eq!(rounded_root(64770), 254);
    assert_eq!(rounded_root(64771), 255);
    assert_eq!(rounded_root(2 * 1020 * 1020), 255);
}

#[test]
fn from_raw_checks_density() {
    assert!(LumaGrid::from_raw(3, 2, vec![0; 6]).is_some());
    assert!(LumaGrid::from_raw(3, 2, vec![0; 5]).is_none());
    assert!(LumaGrid::from_raw(3, 2, vec![0; 7]).is_none());
    let g = grid(3, 2, vec![1, 2, 3, 4, 5, 6]);
    assert_eq!(g.get(2, 1), 6);
    assert_eq!(g.get(0, 1), 4);
}
