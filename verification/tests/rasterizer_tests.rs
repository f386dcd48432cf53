use aftershock::color::Color;
use aftershock::partitioned_rasterizer::{BoundingParallelThreshold, PartitionedRasterizer};
use aftershock::rasterizer::{DrawMode, Rasterizer};

fn rgba(r: u8, g: u8, b: u8, a: u8) -> Color {
    Color::new(r, g, b, a)
}

#[test]
fn pset_wraps_out_of_range_coordinates() {
    let mut r = Rasterizer::new(10, 10);
    r.set_draw_mode(DrawMode::NoOp);
    r.pset(13, -1, rgba(1, 2, 3, 255));
    // 13 mod 10 == 3, -1 mod 10 == 9
    assert_eq!(r.pget(3, 9), rgba(1, 2, 3, 255));
}

#[test]
fn pget_out_of_bounds_is_opaque_black() {
    let r = Rasterizer::new(4, 4);
    assert_eq!(r.pget(-1, 0), rgba(0, 0, 0, 255));
    assert_eq!(r.pget(0, 4), rgba(0, 0, 0, 255));
    assert_eq!(r.pget(100, 100), rgba(0, 0, 0, 255));
}

#[test]
fn clear_and_clear_color_flood_every_pixel() {
    let mut r = Rasterizer::new(8, 8);
    r.clear_color(rgba(9, 8, 7, 255));
    for y in 0..8 {
        for x in 0..8 {
            assert_eq!(r.pget(x, y), rgba(9, 8, 7, 255));
        }
    }
    r.clear();
    for y in 0..8 {
        for x in 0..8 {
            assert_eq!(r.pget(x, y), rgba(0, 0, 0, 0));
        }
    }
    assert_eq!(r.drawn_pixels_since_clear, 0);
}

#[test]
fn opaque_mode_skips_partial_alpha_and_writes_full_alpha() {
    let mut r = Rasterizer::new(4, 4);
    r.clear_color(rgba(10, 20, 30, 255));
    r.set_draw_mode(DrawMode::Opaque);
    r.pset(1, 1, rgba(200, 100, 50, 254));
    assert_eq!(r.pget(1, 1), rgba(10, 20, 30, 255));
    r.pset(1, 1, rgba(200, 100, 50, 255));
    assert_eq!(r.pget(1, 1), rgba(200, 100, 50, 255));
}

#[test]
fn blend_fast_opacity_ends_are_exact() {
    let a = rgba(200, 100, 50, 255);
    let b = rgba(10, 20, 30, 40);
    assert_eq!(a.blend_fast(b, 0), b);
    assert_eq!(a.blend_fast(b, 255), a);
}

#[test]
fn alpha_mode_opacity_zero_keeps_background_color() {
    let mut r = Rasterizer::new(4, 4);
    r.clear_color(rgba(10, 20, 30, 255));
    r.set_draw_mode(DrawMode::Alpha);
    r.opacity = 0;
    r.pset(2, 2, rgba(250, 250, 250, 255));
    // background color channels survive; alpha is forced to 255
    assert_eq!(r.pget(2, 2), rgba(10, 20, 30, 255));
}

#[test]
fn filled_rectangle_scenario_on_red_background() {
    let mut pr = PartitionedRasterizer::new(100, 100, 1);
    pr.clear_color(rgba(255, 0, 0, 255));
    pr.set_draw_mode(DrawMode::Opaque);
    pr.prectangle(true, 10, 10, 20, 20, rgba(0, 0, 255, 255));
    for y in 0..100 {
        for x in 0..100 {
            let expected = if (10..30).contains(&x) && (10..30).contains(&y) {
                rgba(0, 0, 255, 255)
            } else {
                rgba(255, 0, 0, 255)
            };
            assert_eq!(pr.pget(x, y), expected, "pixel ({}, {})", x, y);
        }
    }
}

#[test]
fn parallel_and_serial_rectangles_give_identical_buffers() {
    // Same scene drawn with the area threshold forced low (parallel path)
    // and high (serial path); partitions start in sync after clear_color.
    let mut a = PartitionedRasterizer::new(64, 64, 4);
    let mut b = PartitionedRasterizer::new(64, 64, 4);
    a.threshold = BoundingParallelThreshold::Always;
    b.threshold = BoundingParallelThreshold::VeryLow;
    for pr in [&mut a, &mut b] {
        pr.clear_color(rgba(0, 128, 0, 255));
        pr.set_draw_mode(DrawMode::Opaque);
        pr.prectangle(true, 5, 7, 40, 30, rgba(200, 10, 10, 255));
    }
    assert_eq!(a.rasterizer.color, b.rasterizer.color);
}

#[test]
fn partition_grids_tile_the_master_exactly() {
    // For schemes whose grid divides the dimensions evenly, the partitions'
    // areas sum to the master's area and their offsets tile it.
    for cores in [1usize, 2, 3, 4, 6, 8, 12, 20, 32] {
        let pr = PartitionedRasterizer::new(120, 120, cores);
        let mut covered = vec![false; 120 * 120];
        let mut area = 0usize;
        for p in &pr.partitions {
            area += p.width * p.height;
            for y in 0..p.height {
                for x in 0..p.width {
                    let idx = (p.offset_y + y) * 120 + (p.offset_x + x);
                    assert!(!covered[idx], "overlap at core count {}", cores);
                    covered[idx] = true;
                }
            }
        }
        assert_eq!(area, 120 * 120, "coverage for core count {}", cores);
        assert!(covered.iter().all(|c| *c));
    }
}

#[test]
fn identity_pimgmtx_matches_pimg() {
    let mut sprite = Rasterizer::new(8, 8);
    sprite.clear_color(rgba(255, 255, 255, 255));
    let mut a = Rasterizer::new(40, 40);
    let mut b = Rasterizer::new(40, 40);
    a.set_draw_mode(DrawMode::Opaque);
    b.set_draw_mode(DrawMode::Opaque);
    a.pimg(&sprite, 12, 9);
    // rotation 0 (cos = 65536, sin = 0), scale 1.0, pivot (0, 0), at the same
    // spot in fixed point
    b.pimgmtx(&sprite, 12 * 65536, 9 * 65536, 65536, 0, 65536, 65536, 0, 0);
    assert_eq!(a.color, b.color);
}

#[test]
fn rotated_square_sprite_keeps_its_footprint() {
    // An all-opaque-white 8x8 sprite rotated a quarter turn about its center
    // lands as an 8x8 axis-aligned cluster centered at (50, 50).
    let mut sprite = Rasterizer::new(8, 8);
    sprite.clear_color(rgba(255, 255, 255, 255));
    let mut r = Rasterizer::new(100, 100);
    r.clear();
    r.set_draw_mode(DrawMode::Opaque);
    // cos(pi/2) = 0, sin(pi/2) = 65536, pivot (0.5, 0.5)
    r.pimgmtx(&sprite, 50 * 65536, 50 * 65536, 0, 65536, 65536, 65536, 32768, 32768);
    let mut min_x = i64::MAX;
    let mut max_x = i64::MIN;
    let mut min_y = i64::MAX;
    let mut max_y = i64::MIN;
    let mut count = 0i64;
    for y in 0..100 {
        for x in 0..100 {
            if r.pget(x, y) == rgba(255, 255, 255, 255) {
                min_x = min_x.min(x);
                max_x = max_x.max(x);
                min_y = min_y.min(y);
                max_y = max_y.max(y);
                count += 1;
            }
        }
    }
    assert!(count > 0);
    assert!((max_x - min_x + 1 - 8).abs() <= 1, "width {}", max_x - min_x + 1);
    assert!((max_y - min_y + 1 - 8).abs() <= 1, "height {}", max_y - min_y + 1);
    let cx = (min_x + max_x) as f64 / 2.0;
    let cy = (min_y + max_y) as f64 / 2.0;
    assert!((cx - 50.0).abs() <= 1.5, "center x {}", cx);
    assert!((cy - 50.0).abs() <= 1.5, "center y {}", cy);
}

#[test]
fn triangle_fill_covers_vertices_and_stays_in_bounds_of_hull() {
    let mut r = Rasterizer::new(40, 40);
    r.set_draw_mode(DrawMode::NoOp);
    let c = rgba(7, 7, 7, 255);
    r.ptriangle(true, 5, 5, 30, 10, 12, 30, c);
    assert_eq!(r.pget(5, 5), c);
    assert_eq!(r.pget(30, 10), c);
    assert_eq!(r.pget(12, 30), c);
    // nothing outside the bounding box of the vertices
    for y in 0..40i64 {
        for x in 0..40i64 {
            if r.pget(x, y) == c {
                assert!((5..=30).contains(&x) && (5..=30).contains(&y));
            }
        }
    }
}

#[test]
fn bezier_path_is_connected() {
    let mut r = Rasterizer::new(64, 64);
    r.set_draw_mode(DrawMode::NoOp);
    let c = rgba(9, 9, 9, 255);
    r.pbeizer_cubic(10, 10, 50, 50, 22, 18, 38, 42, c);
    // every drawn pixel (but the ends) touches another drawn pixel
    let mut drawn = vec![];
    for y in 0..64i64 {
        for x in 0..64i64 {
            if r.pget(x, y) == c {
                drawn.push((x, y));
            }
        }
    }
    assert!(drawn.len() > 8);
    for &(x, y) in &drawn {
        let mut neighbors = 0;
        for dy in -1..=1i64 {
            for dx in -1..=1i64 {
                if (dx, dy) != (0, 0) && drawn.contains(&(x + dx, y + dy)) {
                    neighbors += 1;
                }
            }
        }
        assert!(neighbors >= 1, "isolated pixel at ({}, {})", x, y);
    }
}

#[test]
fn collect_mode_gathers_pixels_without_writing() {
    let mut r = Rasterizer::new(10, 10);
    r.clear_color(rgba(3, 3, 3, 255));
    r.set_draw_mode(DrawMode::Collect);
    r.pline(0, 0, 3, 3, rgba(50, 60, 70, 255));
    assert_eq!(r.pget(0, 0), rgba(3, 3, 3, 255));
    assert_eq!(r.collected_pixels.len(), 4);
    assert_eq!(r.collected_pixels[0], (0, 0, rgba(50, 60, 70, 255)));
    r.clear_collected();
    assert!(r.collected_pixels.is_empty());
}

#[test]
fn addition_mode_saturates() {
    let mut r = Rasterizer::new(2, 2);
    r.clear_color(rgba(200, 200, 200, 255));
    r.set_draw_mode(DrawMode::Addition);
    r.pset(0, 0, rgba(100, 100, 100, 255));
    assert_eq!(r.pget(0, 0), rgba(255, 255, 255, 255));
}

#[test]
fn outline_circle_hits_cardinal_points() {
    let mut r = Rasterizer::new(21, 21);
    r.set_draw_mode(DrawMode::NoOp);
    let c = rgba(1, 1, 1, 255);
    r.pcircle(false, 10, 10, 5, c);
    assert_eq!(r.pget(15, 10), c);
    assert_eq!(r.pget(5, 10), c);
    assert_eq!(r.pget(10, 15), c);
    assert_eq!(r.pget(10, 5), c);
    assert_eq!(r.pget(10, 10), rgba(0, 0, 0, 0));
}

#[test]
fn circle_dispatch_boundary_matches_disc_area() {
    // radius 52: pi * 52^2 is just above the High threshold of 8192, so the
    // parallel path must run; with in-sync partitions it matches the serial
    // result byte for byte.
    let mut a = PartitionedRasterizer::new(120, 120, 4);
    let mut b = PartitionedRasterizer::new(120, 120, 4);
    b.threshold = BoundingParallelThreshold::VeryLow; // forces serial for r = 52
    for pr in [&mut a, &mut b] {
        pr.clear_color(rgba(0, 0, 60, 255));
        pr.set_draw_mode(DrawMode::Opaque);
        pr.pcircle(true, 60, 60, 52, rgba(250, 250, 0, 255));
    }
    assert_eq!(a.rasterizer.color, b.rasterizer.color);
    // sanity: the parallel run actually drew into partitions
    assert!(a.partitions.iter().any(|p| p.drawn_pixels_since_clear > 0));
    assert!(b.partitions.iter().all(|p| p.drawn_pixels_since_clear == 0));
}

#[test]
fn partitioned_pimgrect_parallel_matches_serial() {
    let mut tile = Rasterizer::new(16, 16);
    tile.set_draw_mode(DrawMode::NoOp);
    for y in 0..16 {
        for x in 0..16 {
            tile.pset(x, y, rgba((x * 16) as u8, (y * 16) as u8, 77, 255));
        }
    }
    let mut a = PartitionedRasterizer::new(64, 64, 4);
    let mut b = PartitionedRasterizer::new(64, 64, 4);
    a.threshold = BoundingParallelThreshold::Always;
    b.threshold = BoundingParallelThreshold::VeryLow;
    for pr in [&mut a, &mut b] {
        pr.clear_color(rgba(1, 2, 3, 255));
        pr.set_draw_mode(DrawMode::Opaque);
        pr.pimgrect(&tile, 10, 12, 4, 4, 40, 30);
    }
    assert_eq!(a.rasterizer.color, b.rasterizer.color);
}

#[test]
fn partitioned_pimgmtx_parallel_matches_serial() {
    let mut sprite = Rasterizer::new(12, 12);
    sprite.clear_color(rgba(200, 150, 100, 255));
    let mut a = PartitionedRasterizer::new(64, 64, 4);
    let mut b = PartitionedRasterizer::new(64, 64, 4);
    a.threshold = BoundingParallelThreshold::Always;
    b.threshold = BoundingParallelThreshold::VeryLow;
    for pr in [&mut a, &mut b] {
        pr.clear_color(rgba(0, 0, 0, 255));
        pr.set_draw_mode(DrawMode::Opaque);
        // quarter turn about the sprite center, placed at (30, 30)
        pr.pimgmtx(&sprite, 30 * 65536, 30 * 65536, 0, 65536, 65536, 65536, 32768, 32768);
    }
    assert_eq!(a.rasterizer.color, b.rasterizer.color);
}
