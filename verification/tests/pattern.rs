use groovy_cli::double::{scale, scale_even, Double};
use groovy_cli::groovy::{modelines, Modeline};
use groovy_cli::test_pattern::{generate_pattern, split_fields};

fn double(x: f64) -> Double {
    Double { bits: x.to_bits() }
}

fn mode(name: &str) -> Modeline {
    modelines().into_iter().find(|m| m.name == name).unwrap()
}

fn modeline_320x240() -> Modeline {
    mode("320x240 NTSC")
}

fn modeline_640x480i() -> Modeline {
    mode("640x480i NTSC")
}

#[test]
fn test_generate_pattern_size() {
    let p = generate_pattern(320, 240, double(1.0));
    assert_eq!(p.len(), 320 * 240 * 3);
}

#[test]
fn test_generate_pattern_size_640x480() {
    let p = generate_pattern(640, 480, double(1.0));
    assert_eq!(p.len(), 640 * 480 * 3);
}

#[test]
fn test_generate_pattern_not_all_black() {
    let p = generate_pattern(320, 240, double(1.0));
    assert!(p.iter().any(|&b| b != 0), "pattern should not be all black");
}

#[test]
fn test_generate_pattern_has_white_border() {
    let w = 320usize;
    let h = 240usize;
    let p = generate_pattern(w, h, double(1.0));
    // Top-left corner (0,0) should be white border
    assert_eq!(p[0], 255, "B at (0,0)");
    assert_eq!(p[1], 255, "G at (0,0)");
    assert_eq!(p[2], 255, "R at (0,0)");
    // Bottom-right corner
    let off = ((h - 1) * w + (w - 1)) * 3;
    assert_eq!(p[off], 255, "B at bottom-right");
}

#[test]
fn test_generate_pattern_scaled_has_black_padding() {
    let w = 320usize;
    let h = 240usize;
    let p = generate_pattern(w, h, double(0.8));
    // Top-left corner should be black (padding)
    assert_eq!(p[0], 0);
    assert_eq!(p[1], 0);
    assert_eq!(p[2], 0);
    // But center area should have content
    let cx = w / 2;
    let cy = h / 2;
    let off = (cy * w + cx) * 3;
    // Center crosshair = gray (80,80,80)
    assert_eq!(p[off], 80);
    assert_eq!(p[off + 1], 80);
    assert_eq!(p[off + 2], 80);
}

#[test]
fn test_generate_pattern_center_crosshair() {
    let w = 320usize;
    let h = 240usize;
    let p = generate_pattern(w, h, double(1.0));
    // Center pixel should be crosshair gray
    let cx = w / 2;
    let cy = h / 2;
    let off = (cy * w + cx) * 3;
    assert_eq!(p[off], 80, "crosshair B");
    assert_eq!(p[off + 1], 80, "crosshair G");
    assert_eq!(p[off + 2], 80, "crosshair R");
}

#[test]
fn test_split_fields_progressive() {
    let w = 320;
    let h = 240;
    let pattern = vec![42u8; w * h * 3];
    let (f0, f1) = split_fields(&pattern, w, h, h, false);
    assert_eq!(f0.len(), w * h * 3);
    assert!(f1.is_empty());
    assert_eq!(f0, pattern);
}

#[test]
fn test_split_fields_interlaced() {
    let w = 4; // small for easy verification
    let h = 4;
    let field_h = 2;
    let rb = w * 3;
    // Pattern: row 0 = 0x00, row 1 = 0x11, row 2 = 0x22, row 3 = 0x33
    let mut pattern = vec![0u8; w * h * 3];
    for y in 0..h {
        let val = (y * 0x11) as u8;
        for x in 0..rb {
            pattern[y * rb + x] = val;
        }
    }
    let (f0, f1) = split_fields(&pattern, w, h, field_h, true);
    assert_eq!(f0.len(), w * field_h * 3);
    assert_eq!(f1.len(), w * field_h * 3);
    // f0 = even rows (0, 2) with values 0x00, 0x22
    assert!(f0[..rb].iter().all(|&b| b == 0x00));
    assert!(f0[rb..].iter().all(|&b| b == 0x22));
    // f1 = odd rows (1, 3) with values 0x11, 0x33
    assert!(f1[..rb].iter().all(|&b| b == 0x11));
    assert!(f1[rb..].iter().all(|&b| b == 0x33));
}

#[test]
fn test_split_fields_modeline_sizes() {
    let m = modeline_640x480i();
    let w = m.h_active as usize;
    let h = m.v_active as usize;
    let field_h = m.field_height();
    let pattern = generate_pattern(w, h, double(1.0));
    let (f0, f1) = split_fields(&pattern, w, h, field_h, true);
    assert_eq!(f0.len(), m.field_size());
    assert_eq!(f1.len(), m.field_size());
}

#[test]
fn test_split_fields_progressive_modeline() {
    let m = modeline_320x240();
    let w = m.h_active as usize;
    let h = m.v_active as usize;
    let field_h = m.field_height();
    let pattern = generate_pattern(w, h, double(1.0));
    let (f0, f1) = split_fields(&pattern, w, h, field_h, false);
    assert_eq!(f0.len(), m.field_size());
    assert!(f1.is_empty());
}

#[test]
fn test_generate_pattern_various_scales() {
    for &scale in &[0.3, 0.5, 0.8, 0.9, 1.0] {
        let p = generate_pattern(640, 480, double(scale));
        assert_eq!(p.len(), 640 * 480 * 3, "scale={}", scale);
        // Should have some non-black content
        assert!(p.iter().any(|&b| b != 0), "all black at scale={}", scale);
    }
}

#[test]
fn test_generate_pattern_deterministic() {
    let p1 = generate_pattern(320, 240, double(1.0));
    let p2 = generate_pattern(320, 240, double(1.0));
    assert_eq!(p1, p2);
}

/// The color of a pixel of the inner picture, computed with floating-point numbers.
fn float_color(iw: usize, ih: usize, ix: usize, iy: usize) -> [u8; 3] {
    let cx = ix as f64 - iw as f64 / 2.0;
    let cy = iy as f64 - ih as f64 / 2.0;
    let half = ih as f64 / 2.0;
    let dist = (cx.powi(2) + cy.powi(2)).sqrt() / half;
    if ix == 0 || ix == iw - 1 || iy == 0 || iy == ih - 1 {
        return [255; 3];
    }
    if (ix as isize - iw as isize / 2).unsigned_abs() < 2
        || (iy as isize - ih as isize / 2).unsigned_abs() < 2
    {
        return [80; 3];
    }
    let ring = (dist * 4.0) as u32;
    let frac = (dist * 4.0).fract();
    if frac > 0.35 && frac < 0.65 && ring < 4 {
        match ring {
            0 => [255, 255, 255],
            1 => [0, 0, 255],
            2 => [0, 255, 0],
            _ => [255, 0, 0],
        }
    } else if dist > 1.02 {
        [10; 3]
    } else {
        [40; 3]
    }
}

fn check_against_floats(w: usize, h: usize, scale: f64) {
    let iw = ((w as f64) * scale) as usize & !1;
    let ih = ((h as f64) * scale) as usize & !1;
    let (px, py) = ((w - iw) / 2, (h - ih) / 2);
    let p = generate_pattern(w, h, double(scale));
    for y in 0..h {
        for x in 0..w {
            let off = (y * w + x) * 3;
            let inside = x >= px && y >= py && x - px < iw && y - py < ih;
            let expected = if inside {
                float_color(iw, ih, x - px, y - py)
            } else {
                [0; 3]
            };
            assert_eq!(p[off..off + 3], expected, "({}, {}) of {}x{} at {}", x, y, w, h, scale);
        }
    }
}

#[test]
fn pattern_is_that_of_the_formula_full_size() {
    check_against_floats(320, 240, 1.0);
    check_against_floats(720, 480, 1.0);
    check_against_floats(720, 576, 1.0);
}

#[test]
fn pattern_is_that_of_the_formula_scaled() {
    for &scale in &[0.3, 0.37, 0.5, 0.8, 0.85, 0.9] {
        check_against_floats(256, 240, scale);
    }
    check_against_floats(640, 480, 0.9);
}

#[test]
fn pattern_of_small_and_odd_sizes() {
    for w in 0..24 {
        for h in 0..24 {
            check_against_floats(w, h, 1.0);
            check_against_floats(w, h, 0.7);
        }
    }
}

#[test]
fn ring_bounds_on_exact_hits() {
    // Pythagorean triples put pixels exactly on the bounds of rings.
    check_against_floats(400, 400, 1.0);
    check_against_floats(800, 800, 1.0);
    check_against_floats(4, 2000, 1.0);
    check_against_floats(2000, 80, 1.0);
}

#[test]
fn odd_row_is_left_black() {
    // Three rows: the second field has no row for its second place.
    let pattern: Vec<u8> = (1..=9).collect();
    let (f0, f1) = split_fields(&pattern, 1, 3, 2, true);
    assert_eq!(f0, vec![1, 2, 3, 7, 8, 9]);
    assert_eq!(f1, vec![4, 5, 6, 0, 0, 0]);
}

#[test]
fn fields_interleave_to_the_frame() {
    let w = 3;
    let pattern: Vec<u8> = (0..w * 6 * 3).map(|i| i as u8).collect();
    let (f0, f1) = split_fields(&pattern, w, 6, 3, true);
    let mut frame = vec![];
    for y in 0..3 {
        frame.extend_from_slice(&f0[y * w * 3..(y + 1) * w * 3]);
        frame.extend_from_slice(&f1[y * w * 3..(y + 1) * w * 3]);
    }
    assert_eq!(frame, pattern);
}

#[test]
fn scaling_is_that_of_floats() {
    let factors = [
        0.0, -0.0, 0.1, 0.3, 0.33, 0.5, 0.85, 0.9, 0.999999999, 1.0, 1.5, 3.7, 1e-300, 1e300,
        5e-324, f64::NAN, f64::INFINITY, f64::NEG_INFINITY, -0.5, f64::MAX,
    ];
    let sizes = [
        0usize, 1, 2, 3, 7, 240, 255, 256, 479, 480, 576, 640, 720, 65535,
        (1 << 53) - 1, 1 << 53, (1 << 53) + 1, usize::MAX - 1, usize::MAX,
    ];
    for &f in &factors {
        for &n in &sizes {
            assert_eq!(scale(n, double(f)), (n as f64 * f) as usize, "{} * {}", n, f);
            assert_eq!(scale_even(n, double(f)), (n as f64 * f) as usize & !1, "{} * {}", n, f);
        }
    }
}

#[test]
fn scaling_follows_float_rounding() {
    // A small linear congruential generator picks sizes and factors.
    let mut state = 1u64;
    for _ in 0..20000 {
        state = state.wrapping_mul(6364136223846793005).wrapping_add(1442695040888963407);
        let n = (state >> 33) as usize % 5000;
        state = state.wrapping_mul(6364136223846793005).wrapping_add(1442695040888963407);
        let f = (state >> 11) as f64 / (1u64 << 53) as f64;
        assert_eq!(scale(n, double(f)), (n as f64 * f) as usize, "{} * {}", n, f);
    }
}

#[test]
fn full_scale_keeps_and_smaller_scales_shrink() {
    for n in [1usize, 240, 481, 720] {
        assert_eq!(scale(n, double(1.0)), n);
        assert!(scale(n, double(0.999)) < n);
    }
}

#[test]
fn comparing_is_that_of_floats() {
    let numbers = [
        0.0, -0.0, 1.0, -1.0, 0.3, 0.29999999999999993, 1e300, -1e300, f64::NAN, -f64::NAN,
        f64::INFINITY, f64::NEG_INFINITY, 5e-324, -5e-324,
    ];
    for &a in &numbers {
        assert_eq!(double(a).is_positive(), a > 0.0, "{}", a);
        for &b in &numbers {
            assert_eq!(double(a).less_than(double(b)), a < b, "{} < {}", a, b);
        }
        let clamped = double(a).clamp(double(0.3), double(1.0));
        assert_eq!(clamped.bits, a.clamp(0.3, 1.0).to_bits(), "{}", a);
    }
}
