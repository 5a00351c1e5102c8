use photo_digitizer::margins::{trim_white_borders, trim_work_size, white_margins};
use photo_digitizer::masks::{big_labels, fill_holes, hole_labels, invert_mask, patch_markers, region_mask};
use photo_digitizer::orientation::{normalize_degrees, quarter_turn, turn, QuarterTurn};
use photo_digitizer::raster::{fill_polygon_scanline, select_by_coverage};
use photo_digitizer::sizing::{fit_within, orient_size, preview_size};
use photo_digitizer::tiling::{ramp, tile_count, tile_input, upscale_plan};

#[test]
fn fit_within_caps_the_long_side() {
    assert_eq!(fit_within(1280, 960, 640), (640, 480));
    assert_eq!(fit_within(640, 480, 640), (640, 480));
    assert_eq!(fit_within(300, 200, 640), (300, 200));
    assert_eq!(fit_within(3000, 1000, 1600), (1600, 533));
    assert_eq!(fit_within(1000, 3000, 1600), (533, 1600));
    assert_eq!(fit_within(0, 0, 512), (0, 0));
}

#[test]
fn orientation_copy_size() {
    assert_eq!(orient_size(500, 400), (1000, 800));
    assert_eq!(orient_size(1000, 500), (1150, 575));
    assert_eq!(orient_size(3000, 2000), (2400, 1600));
    assert_eq!(orient_size(1200, 800), (1200, 800));
}

#[test]
fn preview_size_truncates() {
    assert_eq!(preview_size(1800, 1200), (900, 600));
    assert_eq!(preview_size(1000, 333), (900, 299));
    assert_eq!(preview_size(800, 600), (800, 600));
}

#[test]
fn upscale_readme_example() {
    // "output is x4, e.g. 640x480 -> 2560x1920"
    let p = upscale_plan(640, 480);
    assert_eq!((p.base_w, p.base_h), (640, 480));
    assert_eq!((4 * p.base_w, 4 * p.base_h), (2560, 1920));
    assert_eq!((p.tiles_x, p.tiles_y), (3, 2));
    assert_eq!((p.pad_w, p.pad_h), (64, 0));
    let q = upscale_plan(1280, 960);
    assert_eq!((q.base_w, q.base_h), (640, 480));
    let r = upscale_plan(100, 50);
    assert_eq!((r.base_w, r.base_h, r.tiles_x, r.tiles_y, r.pad_w, r.pad_h), (100, 50, 1, 1, 156, 206));
}

#[test]
fn tile_counts() {
    assert_eq!(tile_count(1), 1);
    assert_eq!(tile_count(256), 1);
    assert_eq!(tile_count(257), 2);
    assert_eq!(tile_count(480), 2);
    assert_eq!(tile_count(481), 3);
    assert_eq!(tile_count(640), 3);
    for size in 1usize..2000 {
        let n = tile_count(size);
        assert!((n - 1) * 224 + 256 >= size);
        assert!(n == 1 || (n - 2) * 224 + 256 < size);
    }
}

#[test]
fn blend_ramp_weights() {
    assert_eq!(ramp(0, 1024, true, false), 32);
    assert_eq!(ramp(0, 1024, false, false), 1);
    assert_eq!(ramp(31, 1024, false, false), 32);
    assert_eq!(ramp(500, 1024, false, false), 32);
    assert_eq!(ramp(1023, 1024, false, false), 1);
    assert_eq!(ramp(1000, 1024, false, true), 32);
    assert_eq!(ramp(1000, 1024, false, false), 24);
}

#[test]
fn tile_input_is_rgb_planes() {
    let wp = 300usize;
    let hp = 260usize;
    let mut bytes = vec![0u8; wp * hp * 3];
    for y in 0..hp {
        for x in 0..wp {
            let i = (y * wp + x) * 3;
            bytes[i] = (x % 251) as u8; // blue
            bytes[i + 1] = (y % 251) as u8; // green
            bytes[i + 2] = 200; // red
        }
    }
    let input = tile_input(&bytes, wp, 10, 2);
    assert_eq!(input.len(), 3 * 65536);
    assert_eq!(input[0], 200);
    assert_eq!(input[65536], 2);
    assert_eq!(input[2 * 65536], 10);
    assert_eq!(input[2 * 65536 + 5], 15);
    assert_eq!(input[65536 + 3 * 256], 5);
}

#[test]
fn scanline_fills_a_square() {
    let (w, h) = (6usize, 6usize);
    let mut grid = vec![0u8; w * h];
    fill_polygon_scanline(&[(1, 1), (4, 1), (4, 4), (1, 4)], &mut grid, w, h);
    for y in 0..h {
        for x in 0..w {
            let expected = if (1..=4).contains(&x) && (1..=3).contains(&y) { 255 } else { 0 };
            assert_eq!(grid[y * w + x], expected, "cell ({x}, {y})");
        }
    }
}

#[test]
fn scanline_fills_a_triangle_and_ignores_lines() {
    let (w, h) = (8usize, 8usize);
    let mut grid = vec![7u8; w * h];
    fill_polygon_scanline(&[(0, 0), (6, 0), (0, 6)], &mut grid, w, h);
    // row y: crossings at x = 0 and 6 - (y + 0.5); filled x = 0 ..= trunc(5.5 - y)
    for y in 0..h {
        for x in 0..w {
            let filled = y < 6 && (x as f32) <= 5.5 - y as f32;
            assert_eq!(grid[y * w + x], if filled { 255 } else { 7 }, "cell ({x}, {y})");
        }
    }
    let mut g2 = vec![1u8; 16];
    fill_polygon_scanline(&[(0, 0), (3, 3)], &mut g2, 4, 4);
    assert!(g2.iter().all(|&v| v == 1));
}

#[test]
fn coverage_selection_keeps_new_area() {
    let sq = |x0: i32, y0: i32, x1: i32, y1: i32| vec![(x0, y0), (x1, y0), (x1, y1), (x0, y1)];
    let polys = vec![sq(0, 0, 10, 10), sq(5, 0, 15, 10), sq(8, 0, 12, 10), sq(2, 2, 5, 5)];
    assert_eq!(select_by_coverage(&polys, 20, 12), vec![0, 1]);
    let dup = vec![sq(0, 0, 10, 10), sq(0, 0, 10, 10)];
    assert_eq!(select_by_coverage(&dup, 20, 12), vec![0]);
    let empty_first = vec![vec![(1, 1), (2, 2)], sq(0, 0, 3, 3)];
    assert_eq!(select_by_coverage(&empty_first, 20, 12), vec![1]);
}

#[test]
fn quarter_turns_and_angles() {
    assert_eq!(normalize_degrees(-90), 270);
    assert_eq!(normalize_degrees(450), 90);
    assert_eq!(normalize_degrees(-360), 0);
    assert_eq!(normalize_degrees(i32::MIN), i32::MIN.rem_euclid(360));
    assert!(matches!(quarter_turn(90), QuarterTurn::Clockwise90));
    assert!(matches!(quarter_turn(-90), QuarterTurn::CounterClockwise90));
    assert!(matches!(quarter_turn(540), QuarterTurn::Half));
    assert!(matches!(quarter_turn(45), QuarterTurn::Keep));
    assert_eq!(turn(270, 90), 0);
    assert_eq!(turn(0, -90), 270);
    let mut r = 90;
    for _ in 0..4 {
        r = turn(r, 90);
    }
    assert_eq!(r, 90);
    let mut r = 180;
    for _ in 0..4 {
        r = turn(r, -90);
    }
    assert_eq!(r, 180);
}

#[test]
fn trim_work_size_thresholds() {
    assert_eq!(trim_work_size(200, 300), None);
    assert_eq!(trim_work_size(240, 240), Some((240, 240)));
    assert_eq!(trim_work_size(840, 600), Some((420, 300)));
}

fn banded(w: usize, h: usize, top: usize, left: usize) -> Vec<u8> {
    let mut g = vec![50u8; w * h];
    for y in 0..h {
        for x in 0..w {
            if y < top || x < left {
                g[y * w + x] = 255;
            }
        }
    }
    g
}

#[test]
fn trim_removes_white_top_band() {
    let (w, h) = (420usize, 300usize);
    let g = banded(w, h, 30, 0);
    assert_eq!(white_margins(&g, w, h), (30, 0, 0, 0));
    assert_eq!(trim_white_borders(840, 600, &g, w, h), Some((0, 60, 840, 540)));
}

#[test]
fn trim_caps_margins_at_thirty_percent() {
    let (w, h) = (420usize, 300usize);
    let g = vec![255u8; w * h];
    let (top, bottom, left, right) = white_margins(&g, w, h);
    assert_eq!((top, bottom, left, right), (90, 90, 126, 126));
    let rect = trim_white_borders(840, 600, &g, w, h).unwrap();
    assert_eq!(rect, (252, 180, 336, 240));
}

#[test]
fn trim_leaves_clean_or_small_photos() {
    let (w, h) = (420usize, 300usize);
    let g = banded(w, h, 0, 0);
    assert_eq!(trim_white_borders(840, 600, &g, w, h), None);
    let g2 = banded(w, h, 2, 0);
    assert_eq!(trim_white_borders(840, 600, &g2, w, h), None);
    let g2b = banded(w, h, 3, 0);
    assert_eq!(trim_white_borders(840, 600, &g2b, w, h), Some((0, 6, 840, 594)));
    let g3 = banded(w, h, 1, 1);
    assert_eq!(trim_white_borders(420, 300, &g3, w, h), None);
    let tiny = vec![255u8; 100 * 100];
    assert_eq!(trim_white_borders(100, 100, &tiny, 100, 100), None);
}

#[test]
fn mask_inversion_and_markers() {
    assert_eq!(invert_mask(&[0, 5, 255]), vec![255, 0, 0]);
    assert_eq!(patch_markers(&[1, 2, 3], &[0, 1, 1]), vec![999, 2, 3]);
    assert_eq!(patch_markers(&[1, 2, 3], &[0, 1]), vec![999, 2]);
    assert_eq!(region_mask(&[1, 2, 1], 1), vec![255, 0, 255]);
}

#[test]
fn fill_holes_fills_enclosed_background() {
    let mask: Vec<u8> = vec![
        0, 0, 0, 0, 0,
        0, 255, 255, 255, 0,
        0, 255, 0, 255, 0,
        0, 255, 255, 255, 0,
        0, 0, 0, 0, 0,
    ];
    let labels: Vec<u16> = vec![
        1, 1, 1, 1, 1,
        1, 0, 0, 0, 1,
        1, 0, 2, 0, 1,
        1, 0, 0, 0, 1,
        1, 1, 1, 1, 1,
    ];
    let stats: Vec<i32> = vec![1, 1, 3, 3, 8, 0, 0, 5, 5, 16, 2, 2, 1, 1, 1];
    assert_eq!(hole_labels(&stats, 3, 5, 5), vec![false, false, true]);
    let out = fill_holes(&mask, &labels, &stats, 3, 5, 5);
    let mut expected = mask.clone();
    expected[12] = 255;
    assert_eq!(out, expected);
}

#[test]
fn big_labels_counts_inside_box() {
    let labels: Vec<u16> = vec![
        1, 1, 2, 0,
        1, 1, 2, 0,
        3, 3, 3, 3,
        0, 0, 0, 0,
    ];
    assert_eq!(big_labels(&labels, 4, 0, 0, 4, 4, 3), vec![1, 3]);
    assert_eq!(big_labels(&labels, 4, 0, 0, 4, 4, 1), vec![1, 2, 3]);
    assert_eq!(big_labels(&labels, 4, 0, 0, 2, 2, 0), vec![1]);
    assert_eq!(big_labels(&labels, 4, 2, 1, 2, 1, 1), vec![2]);
}

#[test]
fn trim_never_cuts_more_than_thirty_percent_at_full_size() {
    let (w, h) = (420usize, 100usize);
    let g = vec![255u8; w * h];
    assert_eq!(trim_work_size(4200, 996), Some((420, 100)));
    let (fx, fy, fw, fh) = trim_white_borders(4200, 996, &g, w, h).unwrap();
    assert_eq!((fx, fy, fw, fh), (1260, 298, 1680, 400));
    assert!(fx <= 3 * 4200 / 10 && 4200 - fx - fw <= 3 * 4200 / 10);
    assert!(fy <= 3 * 996 / 10 && 996 - fy - fh <= 3 * 996 / 10);
}

#[test]
fn quarter_turns_round_trip() {
    for d in [0, 90, 180, 270, 45, -90, 725] {
        for k in [-3, -1, 0, 2] {
            assert!(std::mem::discriminant(&quarter_turn(d + 360 * k)) == std::mem::discriminant(&quarter_turn(d)));
        }
        for r in [0, 90, 180, 270, 17] {
            assert_eq!(turn(turn(r, d), 360 - d), r);
        }
    }
    assert!(matches!(quarter_turn(360 - 90), QuarterTurn::CounterClockwise90));
    assert!(matches!(quarter_turn(360 - 270), QuarterTurn::Clockwise90));
}
