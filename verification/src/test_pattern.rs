//! Test pattern for the calibration of a screen, and its split into interlaced fields.

use crate::double;
use crate::double::Double;
use vstd::arithmetic::div_mod::*;
use vstd::prelude::*;

verus! {

/// The colour of a pixel: blue, green, red.
pub struct Color {
    pub b: u8,
    pub g: u8,
    pub r: u8,
}

/// A shade of grey.
pub open spec fn grey(level: u8) -> Color {
    Color { b: level, g: level, r: level }
}

/// The distance of two numbers.
pub open spec fn distance(a: int, b: int) -> int {
    if a < b {
        b - a
    } else {
        a - b
    }
}

/// Whether the squared distance `d` from the centre lies on ring `k` of the four rings whose
/// outermost edge is at the radius `half`. Ring `k` goes from `k + 0.35` to `k + 0.65` quarters of
/// the radius; the bounds themselves belong to every ring but the innermost.
pub open spec fn on_ring(k: int, d: int, half: int) -> bool {
    let inner = (100 * k + 35) * (100 * k + 35) * (half * half);
    let outer = (100 * k + 65) * (100 * k + 65) * (half * half);
    if k == 0 {
        inner < 160000 * d < outer
    } else {
        inner <= 160000 * d <= outer
    }
}

/// The colour of a ring, from the innermost outwards: white, red, green, blue.
pub open spec fn ring_color(k: int) -> Color {
    if k == 0 {
        grey(255)
    } else if k == 1 {
        Color { b: 0, g: 0, r: 255 }
    } else if k == 2 {
        Color { b: 0, g: 255, r: 0 }
    } else {
        Color { b: 255, g: 0, r: 0 }
    }
}

/// The colour at the squared distance `d` from the centre, away from border and crosshair: a ring,
/// else a dark grey, and a darker one beyond 1.02 times the radius.
pub open spec fn disc_color(d: int, half: int) -> Color {
    if on_ring(0, d, half) {
        ring_color(0)
    } else if on_ring(1, d, half) {
        ring_color(1)
    } else if on_ring(2, d, half) {
        ring_color(2)
    } else if on_ring(3, d, half) {
        ring_color(3)
    } else if 2500 * d > 2601 * (half * half) {
        grey(10)
    } else {
        grey(40)
    }
}

/// The colour at `ix`, `iy` inside a picture of `iw` by `ih` pixels: a white border, a grey
/// crosshair through the centre, and the rings.
pub open spec fn inner_color(iw: int, ih: int, ix: int, iy: int) -> Color {
    if ix == 0 || ix == iw - 1 || iy == 0 || iy == ih - 1 {
        grey(255)
    } else if distance(ix, iw / 2) < 2 || distance(iy, ih / 2) < 2 {
        grey(80)
    } else {
        let cx = ix - iw / 2;
        let cy = iy - ih / 2;
        disc_color(cx * cx + cy * cy, ih / 2)
    }
}

/// The colour at `x`, `y` of a frame of `w` by `h` pixels that shows a picture of `iw` by `ih`
/// pixels in its middle and is black around it.
pub open spec fn frame_color(w: int, h: int, iw: int, ih: int, x: int, y: int) -> Color {
    let ix = x - (w - iw) / 2;
    let iy = y - (h - ih) / 2;
    if 0 <= ix < iw && 0 <= iy < ih {
        inner_color(iw, ih, ix, iy)
    } else {
        grey(0)
    }
}

/// One of the three bytes of a pixel.
pub open spec fn channel(c: Color, i: int) -> u8 {
    if i == 0 {
        c.b
    } else if i == 1 {
        c.g
    } else {
        c.r
    }
}

/// The first `n` bytes of the test pattern, row by row, three bytes to a pixel.
pub open spec fn pattern_bytes(w: int, h: int, scale: Double, n: nat) -> Seq<u8> {
    let iw = double::scaled_even(w as nat, scale) as int;
    let ih = double::scaled_even(h as nat, scale) as int;
    Seq::new(n, |i: int| channel(frame_color(w, h, iw, ih, (i / 3) % w, (i / 3) / w), i % 3))
}

/// The bytes of the pixel at `x`, `y` stand at three times its place in reading order.
pub proof fn law_pixel_bytes(w: int, h: int, scale: Double, x: int, y: int, i: int)
    requires
        0 <= x < w,
        0 <= y < h,
        0 <= i < 3,
    ensures
        0 <= (y * w + x) * 3 + i < w * h * 3,
        pattern_bytes(w, h, scale, (w * h * 3) as nat)[(y * w + x) * 3 + i] == channel(
            frame_color(
                w,
                h,
                double::scaled_even(w as nat, scale) as int,
                double::scaled_even(h as nat, scale) as int,
                x,
                y,
            ),
            i,
        ),
{
    let place = y * w + x;
    lemma_place(w, h, x, y);
    assert((place * 3 + i) / 3 == place);
    assert((place * 3 + i) % 3 == i);
}

/// A place in reading order tells its row and column.
proof fn lemma_place(w: int, h: int, x: int, y: int)
    requires
        0 <= x < w,
        0 <= y < h,
    ensures
        0 <= y * w + x < w * h,
        (y * w + x) / w == y,
        (y * w + x) % w == x,
{
    lemma_fundamental_div_mod_converse(y * w + x, w, y, x);
    assert(y * w + x < w * h) by (nonlinear_arith)
        requires
            0 <= x < w,
            0 <= y < h,
    ;
    assert(0 <= y * w) by (nonlinear_arith)
        requires
            0 <= w,
            0 <= y,
    ;
}

/// The inner picture has a white border.
pub proof fn law_border_is_white(iw: int, ih: int, ix: int, iy: int)
    requires
        0 <= ix < iw,
        0 <= iy < ih,
        ix == 0 || ix == iw - 1 || iy == 0 || iy == ih - 1,
    ensures
        inner_color(iw, ih, ix, iy) == grey(255),
{
}

/// Outside the inner picture the pattern is black.
pub proof fn law_padding_is_black(w: int, h: int, iw: int, ih: int, x: int, y: int)
    requires
        x < (w - iw) / 2 || x >= (w - iw) / 2 + iw || y < (h - ih) / 2 || y >= (h - ih) / 2 + ih,
    ensures
        frame_color(w, h, iw, ih, x, y) == grey(0),
{
}

/// In its middle row and middle column the inner picture is a grey cross, up to the border.
pub proof fn law_cross_is_grey(iw: int, ih: int, ix: int, iy: int)
    requires
        0 < ix < iw - 1,
        0 < iy < ih - 1,
        ix == iw / 2 || iy == ih / 2,
    ensures
        inner_color(iw, ih, ix, iy) == grey(80),
{
}

/// Whether `a` times `c` is less than `b` times `d`.
fn product_less(a: u128, c: u64, b: u128, d: u64) -> (yes: bool)
    requires
        c <= 0x100000,
        d <= 0x100000,
    ensures
        yes == (a * c < b * d),
{
    let word: u128 = 0x1_0000_0000_0000_0000;
    let (ah, al): (u128, u128) = (a / word, a % word);
    let (bh, bl): (u128, u128) = (b / word, b % word);
    proof {
        assert(al * c <= 0x1_0000_0000_0000_0000 * 0x100000) by (nonlinear_arith)
            requires
                al <= 0x1_0000_0000_0000_0000,
                c <= 0x100000,
        ;
        assert(bl * d <= 0x1_0000_0000_0000_0000 * 0x100000) by (nonlinear_arith)
            requires
                bl <= 0x1_0000_0000_0000_0000,
                d <= 0x100000,
        ;
        assert(ah * c <= 0x1_0000_0000_0000_0000 * 0x100000) by (nonlinear_arith)
            requires
                ah <= 0x1_0000_0000_0000_0000,
                c <= 0x100000,
        ;
        assert(bh * d <= 0x1_0000_0000_0000_0000 * 0x100000) by (nonlinear_arith)
            requires
                bh <= 0x1_0000_0000_0000_0000,
                d <= 0x100000,
        ;
    }
    let x: u128 = al * c as u128;
    let y: u128 = bl * d as u128;
    let xh: u128 = ah * c as u128 + x / word;
    let yh: u128 = bh * d as u128 + y / word;
    let xl: u128 = x % word;
    let yl: u128 = y % word;
    proof {
        assert(a * c == (ah * c) * word + al * c) by (nonlinear_arith)
            requires
                a == ah * word + al,
        ;
        assert(b * d == (bh * d) * word + bl * d) by (nonlinear_arith)
            requires
                b == bh * word + bl,
        ;
        assert(a * c == xh * word + xl);
        assert(b * d == yh * word + yl);
    }
    xh < yh || (xh == yh && xl < yl)
}

/// Whether a squared distance lies on a ring.
fn is_on_ring(k: u64, d: u128, square: u128, Ghost(half): Ghost<int>) -> (yes: bool)
    requires
        k < 4,
        square == half * half,
    ensures
        yes == on_ring(k as int, d as int, half),
{
    proof {
        assert((100 * k + 35) * (100 * k + 35) <= 400 * 400) by (nonlinear_arith)
            requires
                k < 4,
        ;
        assert((100 * k + 65) * (100 * k + 65) <= 400 * 400) by (nonlinear_arith)
            requires
                k < 4,
        ;
    }
    let inner: u64 = (100 * k + 35) * (100 * k + 35);
    let outer: u64 = (100 * k + 65) * (100 * k + 65);
    proof {
        assert(inner * square == square * inner) by (nonlinear_arith);
        assert(outer * square == square * outer) by (nonlinear_arith);
    }
    if k == 0 {
        product_less(square, inner, d, 160000) && product_less(d, 160000, square, outer)
    } else {
        !product_less(d, 160000, square, inner) && !product_less(square, outer, d, 160000)
    }
}

/// A shade of grey.
fn shade(level: u8) -> (c: Color)
    ensures
        c == grey(level),
{
    Color { b: level, g: level, r: level }
}

/// The colour at a squared distance from the centre.
fn disc(d: u128, square: u128, Ghost(half): Ghost<int>) -> (c: Color)
    requires
        square == half * half,
    ensures
        c == disc_color(d as int, half),
{
    if is_on_ring(0, d, square, Ghost(half)) {
        shade(255)
    } else if is_on_ring(1, d, square, Ghost(half)) {
        Color { b: 0, g: 0, r: 255 }
    } else if is_on_ring(2, d, square, Ghost(half)) {
        Color { b: 0, g: 255, r: 0 }
    } else if is_on_ring(3, d, square, Ghost(half)) {
        Color { b: 255, g: 0, r: 0 }
    } else if product_less(square, 2601, d, 2500) {
        shade(10)
    } else {
        shade(40)
    }
}

/// The distance of two numbers.
fn apart(a: usize, b: usize) -> (d: usize)
    ensures
        d == distance(a as int, b as int),
{
    if a < b {
        b - a
    } else {
        a - b
    }
}

/// Far outside the outermost ring.
proof fn lemma_far(d: int, half: int)
    requires
        half > 0,
        d >= 4 * (half * half),
    ensures
        disc_color(d, half) == grey(10),
{
    let square = half * half;
    assert(square > 0) by (nonlinear_arith)
        requires
            half > 0,
            square == half * half,
    ;
    assert forall|k: int| 0 <= k < 4 implies !on_ring(k, d, half) by {
        let c = (100 * k + 65) * (100 * k + 65);
        assert(c <= 133225) by (nonlinear_arith)
            requires
                0 <= k < 4,
                c == (100 * k + 65) * (100 * k + 65),
        ;
        assert(c * square <= 133225 * square) by (nonlinear_arith)
            requires
                c <= 133225,
                square > 0,
        ;
        assert(c * square < 160000 * d);
        assert(c * square == (100 * k + 65) * (100 * k + 65) * (half * half));
    }
    assert(!on_ring(0, d, half) && !on_ring(1, d, half) && !on_ring(2, d, half) && !on_ring(
        3,
        d,
        half,
    ));
}

/// The colour at a place inside a picture.
fn inner_pixel(iw: usize, ih: usize, ix: usize, iy: usize) -> (c: Color)
    requires
        ix < iw <= isize::MAX,
        iy < ih <= isize::MAX,
    ensures
        c == inner_color(iw as int, ih as int, ix as int, iy as int),
{
    if ix == 0 || ix == iw - 1 || iy == 0 || iy == ih - 1 {
        return shade(255);
    }
    let ax: usize = apart(ix, iw / 2);
    let ay: usize = apart(iy, ih / 2);
    if ax < 2 || ay < 2 {
        return shade(80);
    }
    let half: usize = ih / 2;
    let ghost cx = ix - iw as int / 2;
    let ghost cy = iy - ih as int / 2;
    proof {
        assert(cx * cx == ax * ax) by (nonlinear_arith)
            requires
                cx == ax || cx == -ax,
        ;
        assert(cy * cy == ay * ay) by (nonlinear_arith)
            requires
                cy == ay || cy == -ay,
        ;
        assert(ay * ay >= 0) by (nonlinear_arith);
        assert(ax * ax >= 0) by (nonlinear_arith);
    }
    if ax / 2 >= half {
        proof {
            assert(ax * ax >= 4 * (half * half)) by (nonlinear_arith)
                requires
                    ax >= 2 * half,
                    half >= 0,
            ;
            lemma_far(cx * cx + cy * cy, half as int);
        }
        return shade(10);
    }
    let limit: u128 = 0x4000_0000_0000_0000;
    proof {
        assert(ax * ax <= (2 * limit) * (2 * limit)) by (nonlinear_arith)
            requires
                0 <= ax <= 2 * limit,
        ;
        assert(ay * ay <= limit * limit) by (nonlinear_arith)
            requires
                0 <= ay <= limit,
        ;
        assert(half * half <= limit * limit) by (nonlinear_arith)
            requires
                0 <= half <= limit,
        ;
    }
    let d: u128 = ax as u128 * ax as u128 + ay as u128 * ay as u128;
    disc(d, half as u128 * half as u128, Ghost(half as int))
}

/// The colour at a place in a frame that shows a picture in its middle.
fn frame_pixel(w: usize, h: usize, iw: usize, ih: usize, x: usize, y: usize) -> (c: Color)
    requires
        iw <= w <= isize::MAX,
        ih <= h <= isize::MAX,
        x < w,
        y < h,
    ensures
        c == frame_color(w as int, h as int, iw as int, ih as int, x as int, y as int),
{
    let pad_x: usize = (w - iw) / 2;
    let pad_y: usize = (h - ih) / 2;
    if x >= pad_x && y >= pad_y && x - pad_x < iw && y - pad_y < ih {
        inner_pixel(iw, ih, x - pad_x, y - pad_y)
    } else {
        shade(0)
    }
}

/// Generates a test pattern at full frame resolution: a picture of the frame's size times `scale`,
/// cut to even numbers, in the middle of a black frame. It has a white border, a crosshair through
/// the centre and four coloured rings. Returns `w * h * 3` bytes, blue, green and red of each
/// pixel, row by row.
pub fn generate_pattern(w: usize, h: usize, scale: Double) -> (pattern: Vec<u8>)
    requires
        w * h * 3 <= isize::MAX,
        double::scaled_even(w as nat, scale) <= w,
        double::scaled_even(h as nat, scale) <= h,
    ensures
        pattern@ == pattern_bytes(w as int, h as int, scale, (w * h * 3) as nat),
{
    let iw: usize = double::scale_even(w, scale);
    let ih: usize = double::scale_even(h, scale);
    let mut pattern: Vec<u8> = Vec::new();
    let mut y: usize = 0;
    assert(0 * w == 0) by (nonlinear_arith);
    while y < h
        invariant
            y <= h,
            w * h * 3 <= isize::MAX,
            iw == double::scaled_even(w as nat, scale),
            ih == double::scaled_even(h as nat, scale),
            iw <= w,
            ih <= h,
            pattern@ == pattern_bytes(w as int, h as int, scale, (y * w * 3) as nat),
        decreases h - y,
    {
        let mut x: usize = 0;
        while x < w
            invariant
                x <= w,
                y < h,
                w * h * 3 <= isize::MAX,
                iw == double::scaled_even(w as nat, scale),
                ih == double::scaled_even(h as nat, scale),
                iw <= w,
                ih <= h,
                pattern@ == pattern_bytes(w as int, h as int, scale, ((y * w + x) * 3) as nat),
            decreases w - x,
        {
            proof {
                lemma_place(w as int, h as int, x as int, y as int);
                assert(w <= w * h && h <= w * h) by (nonlinear_arith)
                    requires
                        w > 0,
                        h > 0,
                ;
            }
            let c: Color = frame_pixel(w, h, iw, ih, x, y);
            pattern.push(c.b);
            pattern.push(c.g);
            pattern.push(c.r);
            proof {
                let place = y * w + x;
                let n = ((y * w + x + 1) * 3) as nat;
                let all = pattern_bytes(w as int, h as int, scale, n);
                assert(y * w + (x + 1) == place + 1);
                assert((place * 3) / 3 == place && (place * 3) % 3 == 0);
                assert((place * 3 + 1) / 3 == place && (place * 3 + 1) % 3 == 1);
                assert((place * 3 + 2) / 3 == place && (place * 3 + 2) % 3 == 2);
                assert(pattern@ =~= all);
            }
            x += 1;
        }
        proof {
            assert((y + 1) * w == y * w + w) by (nonlinear_arith);
        }
        y += 1;
    }
    proof {
        assert(h * w == w * h) by (nonlinear_arith);
    }
    pattern
}

/// The rows that splitting reads from a frame of `full_h` rows for two fields of `field_h` rows.
pub open spec fn rows_read(full_h: int, field_h: int) -> int {
    if field_h == 0 {
        0
    } else if 2 * field_h - 1 < full_h {
        2 * field_h
    } else {
        2 * field_h - 1
    }
}

/// The first `n` bytes of one of the two fields of an interlaced frame with `row` bytes to a row:
/// the field's row `y` is the frame's row `2 * y + parity`, or black where the frame ends before.
pub open spec fn field_bytes(frame: Seq<u8>, row: int, full_h: int, parity: int, n: nat) -> Seq<
    u8,
> {
    Seq::new(
        n,
        |i: int|
            if parity == 0 || 2 * (i / row) + 1 < full_h {
                frame[(2 * (i / row) + parity) * row + i % row]
            } else {
                0u8
            },
    )
}

/// Nothing is lost in the split: byte `i` of a frame of `2 * field_h` rows stands in the field
/// that its row belongs to, in half the row's number and at the same column.
pub proof fn law_fields_hold_frame(frame: Seq<u8>, row: int, field_h: int, i: int)
    requires
        0 < row,
        0 <= i < 2 * field_h * row,
    ensures
        0 <= (i / row / 2) * row + i % row < field_h * row,
        field_bytes(frame, row, 2 * field_h, (i / row) % 2, (field_h * row) as nat)[(i / row / 2)
            * row + i % row] == frame[i],
{
    let r = i / row;
    lemma_fundamental_div_mod(i, row);
    assert(0 <= r < 2 * field_h) by (nonlinear_arith)
        requires
            i == row * r + i % row,
            0 <= i % row < row,
            0 <= i < 2 * field_h * row,
            0 < row,
    ;
    lemma_place(row, field_h, i % row, r / 2);
    assert(r * row == row * r) by (nonlinear_arith);
    assert(row * field_h == field_h * row) by (nonlinear_arith);
}

/// Splits a frame into its even and its odd rows for interlaced output. For progressive output the
/// frame is the first field, and the second is empty.
pub fn split_fields(
    pattern: &[u8],
    w: usize,
    full_h: usize,
    field_h: usize,
    interlace: bool,
) -> (fields: (Vec<u8>, Vec<u8>))
    requires
        interlace ==> {
            &&& w * 3 <= usize::MAX
            &&& 2 * field_h <= usize::MAX
            &&& rows_read(full_h as int, field_h as int) * (w * 3) <= pattern@.len()
        },
    ensures
        !interlace ==> fields.0@ == pattern@ && fields.1@.len() == 0,
        interlace ==> {
            let n = (field_h * (w * 3)) as nat;
            &&& fields.0@ == field_bytes(pattern@, w * 3, full_h as int, 0, n)
            &&& fields.1@ == field_bytes(pattern@, w * 3, full_h as int, 1, n)
        },
{
    if !interlace {
        let copy: Vec<u8> = crate::bytes::copy_range(pattern, 0, pattern.len());
        assert(copy@ =~= pattern@);
        return (copy, Vec::new());
    }
    let row: usize = w * 3;
    let mut f0: Vec<u8> = Vec::new();
    let mut f1: Vec<u8> = Vec::new();
    let mut y: usize = 0;
    assert(0 * row == 0) by (nonlinear_arith);
    while y < field_h
        invariant
            y <= field_h,
            row == w * 3,
            2 * field_h <= usize::MAX,
            rows_read(full_h as int, field_h as int) * row <= pattern@.len(),
            f0@ == field_bytes(pattern@, row as int, full_h as int, 0, (y * row) as nat),
            f1@ == field_bytes(pattern@, row as int, full_h as int, 1, (y * row) as nat),
        decreases field_h - y,
    {
        let has_odd: bool = 2 * y + 1 < full_h;
        let mut x: usize = 0;
        while x < row
            invariant
                x <= row,
                y < field_h,
                row == w * 3,
                2 * field_h <= usize::MAX,
                has_odd == (2 * y + 1 < full_h),
                rows_read(full_h as int, field_h as int) * row <= pattern@.len(),
                f0@ == field_bytes(pattern@, row as int, full_h as int, 0, (y * row + x) as nat),
                f1@ == field_bytes(pattern@, row as int, full_h as int, 1, (y * row + x) as nat),
            decreases row - x,
        {
            proof {
                let rows = rows_read(full_h as int, field_h as int);
                lemma_place(row as int, field_h as int, x as int, y as int);
                lemma_place(row as int, rows, x as int, 2 * y);
                if has_odd {
                    lemma_place(row as int, rows, x as int, 2 * y + 1);
                }
                assert(rows * row == row * rows) by (nonlinear_arith);
                assert(2 * y * row >= 0 && (2 * y + 1) * row >= 0) by (nonlinear_arith);
                assert(pattern@.len() <= pattern.len());
            }
            f0.push(pattern[2 * y * row + x]);
            if has_odd {
                f1.push(pattern[(2 * y + 1) * row + x]);
            } else {
                f1.push(0);
            }
            proof {
                let n = (y * row + x + 1) as nat;
                assert(y * row + (x + 1) == n);
                assert(f0@ =~= field_bytes(pattern@, row as int, full_h as int, 0, n));
                assert(f1@ =~= field_bytes(pattern@, row as int, full_h as int, 1, n));
            }
            x += 1;
        }
        proof {
            assert((y + 1) * row == y * row + row) by (nonlinear_arith);
        }
        y += 1;
    }
    (f0, f1)
}

/// Each pixel stands as three bytes, its blue before its green before its red, row by row from the
/// top; the picture is in the middle of the frame.
pub proof fn law_pixels_stand_in_reading_order(
    w: int,
    h: int,
    scale: Double,
    x: int,
    y: int,
)
    requires
        0 <= x < w,
        0 <= y < h,
    ensures
        ({
            let bytes = pattern_bytes(w, h, scale, (w * h * 3) as nat);
            let iw = double::scaled_even(w as nat, scale) as int;
            let ih = double::scaled_even(h as nat, scale) as int;
            let c = frame_color(w, h, iw, ih, x, y);
            let at = 3 * (y * w + x);
            &&& bytes.len() == 3 * (w * h)
            &&& 0 <= at
            &&& at + 2 < bytes.len()
            &&& bytes[at] == c.b
            &&& bytes[at + 1] == c.g
            &&& bytes[at + 2] == c.r
        }),
{
    law_pixel_bytes(w, h, scale, x, y, 0);
    law_pixel_bytes(w, h, scale, x, y, 1);
    law_pixel_bytes(w, h, scale, x, y, 2);
    assert(0 <= w * h) by (nonlinear_arith)
        requires
            0 <= w,
            0 <= h,
    ;
}

/// The picture is shown whole and unchanged in the middle of the frame: the margins on two sides
/// differ by one at most.
pub proof fn law_picture_is_in_the_middle(w: int, h: int, iw: int, ih: int, ix: int, iy: int)
    requires
        0 <= iw <= w,
        0 <= ih <= h,
        0 <= ix < iw,
        0 <= iy < ih,
    ensures
        exists|left: int, top: int|
            {
                &&& 0 <= left
                &&& 0 <= top
                &&& 0 <= (w - iw - left) - left <= 1
                &&& 0 <= (h - ih - top) - top <= 1
                &&& #[trigger] frame_color(w, h, iw, ih, left + ix, top + iy) == inner_color(
                    iw,
                    ih,
                    ix,
                    iy,
                )
            },
{
    let left = (w - iw) / 2;
    let top = (h - ih) / 2;
    assert(frame_color(w, h, iw, ih, left + ix, top + iy) == inner_color(iw, ih, ix, iy));
}

/// Away from border and cross the colour follows from the distance to the centre alone. There are
/// four rings, each three tenths of a quarter radius wide around the odd eighths of the radius:
/// white, red, green and blue from the inside out. Between them it is dark grey, and darker beyond
/// 1.02 times the radius, which is half of the picture's height.
pub proof fn law_rings_around_the_centre(iw: int, ih: int, ix: int, iy: int, k: int)
    requires
        0 < ix < iw - 1,
        0 < iy < ih - 1,
        ix - iw / 2 >= 2 || iw / 2 - ix >= 2,
        iy - ih / 2 >= 2 || ih / 2 - iy >= 2,
        0 <= k < 4,
    ensures
        ({
            let half = ih / 2;
            let square = half * half;
            let d = (ix - iw / 2) * (ix - iw / 2) + (iy - half) * (iy - half);
            let c = inner_color(iw, ih, ix, iy);
            let inner = (100 * k + 35) * (100 * k + 35) * square;
            let outer = (100 * k + 65) * (100 * k + 65) * square;
            &&& inner < 160000 * d < outer ==> {
                &&& k == 0 ==> c.b == 255 && c.g == 255 && c.r == 255
                &&& k == 1 ==> c.b == 0 && c.g == 0 && c.r == 255
                &&& k == 2 ==> c.b == 0 && c.g == 255 && c.r == 0
                &&& k == 3 ==> c.b == 255 && c.g == 0 && c.r == 0
            }
            &&& 160000 * d < 35 * 35 * square ==> c.b == 40 && c.g == 40 && c.r == 40
            &&& k < 3 && outer < 160000 * d < (100 * k + 135) * (100 * k + 135) * square ==> c.b
                == 40 && c.g == 40 && c.r == 40
            &&& 2500 * d > 2601 * square ==> c.b == 10 && c.g == 10 && c.r == 10
        }),
{
    let half = ih / 2;
    let square = half * half;
    let d = (ix - iw / 2) * (ix - iw / 2) + (iy - half) * (iy - half);
    assert(square >= 0) by (nonlinear_arith)
        requires
            square == half * half,
    ;
    assert(d >= 0) by (nonlinear_arith)
        requires
            d == (ix - iw / 2) * (ix - iw / 2) + (iy - half) * (iy - half),
    ;
    lemma_ring_squares(0);
    lemma_ring_squares(1);
    lemma_ring_squares(2);
    lemma_ring_squares(3);
    assert(on_ring(0, d, half) == (1225 * square < 160000 * d < 4225 * square));
    assert(on_ring(1, d, half) == (18225 * square <= 160000 * d <= 27225 * square));
    assert(on_ring(2, d, half) == (55225 * square <= 160000 * d <= 70225 * square));
    assert(on_ring(3, d, half) == (112225 * square <= 160000 * d <= 133225 * square));
    if k == 0 {
    } else if k == 1 {
    } else if k == 2 {
    } else {
        assert(k == 3);
    }
}

/// The squares of the bounds of a ring, in four hundredths of the radius.
proof fn lemma_ring_squares(k: int)
    requires
        0 <= k < 4,
    ensures
        (100 * k + 35) * (100 * k + 35) == if k == 0 {
            1225int
        } else if k == 1 {
            18225int
        } else if k == 2 {
            55225int
        } else {
            112225int
        },
        (100 * k + 65) * (100 * k + 65) == if k == 0 {
            4225int
        } else if k == 1 {
            27225int
        } else if k == 2 {
            70225int
        } else {
            133225int
        },
        (100 * k + 135) * (100 * k + 135) == if k == 0 {
            18225int
        } else if k == 1 {
            55225int
        } else if k == 2 {
            112225int
        } else {
            189225int
        },
{
    let a = 100 * k + 35;
    let b = 100 * k + 65;
    let c = 100 * k + 135;
    if k == 0 {
        assert(a * a == 1225 && b * b == 4225 && c * c == 18225) by (nonlinear_arith)
            requires
                a == 35,
                b == 65,
                c == 135,
        ;
    } else if k == 1 {
        assert(a * a == 18225 && b * b == 27225 && c * c == 55225) by (nonlinear_arith)
            requires
                a == 135,
                b == 165,
                c == 235,
        ;
    } else if k == 2 {
        assert(a * a == 55225 && b * b == 70225 && c * c == 112225) by (nonlinear_arith)
            requires
                a == 235,
                b == 265,
                c == 335,
        ;
    } else {
        assert(a * a == 112225 && b * b == 133225 && c * c == 189225) by (nonlinear_arith)
            requires
                a == 335,
                b == 365,
                c == 435,
        ;
    }
}

/// The picture looks the same in both halves, left and right and top and bottom, away from its
/// border.
pub proof fn law_picture_is_symmetric(iw: int, ih: int, ix: int, iy: int, jx: int, jy: int)
    requires
        0 < ix < iw - 1,
        0 < iy < ih - 1,
        0 < jx < iw - 1,
        0 < jy < ih - 1,
        jx == ix || jx - iw / 2 == iw / 2 - ix,
        jy == iy || jy - ih / 2 == ih / 2 - iy,
    ensures
        inner_color(iw, ih, ix, iy) == inner_color(iw, ih, jx, jy),
{
    let a = ix - iw / 2;
    let b = jx - iw / 2;
    let c = iy - ih / 2;
    let e = jy - ih / 2;
    assert(a * a == b * b) by (nonlinear_arith)
        requires
            a == b || a == -b,
    ;
    assert(c * c == e * e) by (nonlinear_arith)
        requires
            c == e || c == -e,
    ;
}

/// The first field of an interlaced frame holds the even rows and the second the odd ones, each at
/// half of the row's number; a row that the frame does not have is black.
pub proof fn law_rows_go_to_their_field(
    frame: Seq<u8>,
    row: int,
    full_h: int,
    field_h: int,
    y: int,
    x: int,
)
    requires
        0 < row,
        0 <= y < field_h,
        0 <= x < row,
    ensures
        ({
            let even = field_bytes(frame, row, full_h, 0, (field_h * row) as nat);
            let odd = field_bytes(frame, row, full_h, 1, (field_h * row) as nat);
            let at = y * row + x;
            &&& 0 <= at < even.len()
            &&& even.len() == field_h * row
            &&& odd.len() == field_h * row
            &&& even[at] == frame[2 * y * row + x]
            &&& 2 * y + 1 < full_h ==> odd[at] == frame[(2 * y + 1) * row + x]
            &&& 2 * y + 1 >= full_h ==> odd[at] == 0
        }),
{
    lemma_place(row, field_h, x, y);
    assert(row * field_h == field_h * row) by (nonlinear_arith);
}

} // verus!
