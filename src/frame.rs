use vstd::prelude::*;
use crate::color::Rgb;

verus! {

/// One captured frame: rows of RGBA pixels, four bytes each, `row_pitch`
/// bytes apart (a row may carry padding after its last pixel).
pub struct Frame<'a> {
    pub data: &'a [u8],
    pub width: usize,
    pub height: usize,
    pub row_pitch: usize,
}

impl<'a> Frame<'a> {
    /// Every pixel of the `width` x `height` grid lies inside `data`.
    pub open spec fn is_well_formed(&self) -> bool {
        &&& self.row_pitch >= 4 * self.width
        &&& self.data@.len() >= self.height * self.row_pitch
    }

    /// Byte `c` (0 red, 1 green, 2 blue, 3 alpha) of the pixel at column `x`, row `y`.
    pub open spec fn channel(&self, x: int, y: int, c: int) -> int {
        self.data@[y * self.row_pitch + 4 * x + c] as int
    }

    /// Tells whether the frame is well formed.
    pub fn check_well_formed(&self) -> (r: bool)
        ensures
            r == self.is_well_formed(),
    {
        let pitch_ok = self.row_pitch as u128 >= 4 * (self.width as u128);
        proof {
            lemma_usize_product_fits(self.height, self.row_pitch);
        }
        let size_ok = self.data.len() as u128 >= (self.height as u128) * (self.row_pitch as u128);
        pitch_ok && size_ok
    }
}

proof fn lemma_usize_product_fits(a: usize, b: usize)
    ensures
        (a as int) * (b as int) <= u128::MAX,
{
    let x = a as int;
    let y = b as int;
    assert(x <= u64::MAX && y <= u64::MAX);
    assert(x * y <= u128::MAX) by (nonlinear_arith)
        requires
            0 <= x <= u64::MAX,
            0 <= y <= u64::MAX,
    ;
}

/// A rectangle of pixels: `w` columns from column `x`, `h` rows from row `y`.
pub open spec fn band_in_frame(f: Frame, x: int, y: int, w: int, h: int) -> bool {
    &&& 0 <= x
    &&& 0 <= y
    &&& 0 < w
    &&& 0 < h
    &&& x + w <= f.width
    &&& y + h <= f.height
}

/// Sum of channel `c` over the first `w` pixels of row `y` from column `x`.
pub open spec fn row_sum(f: Frame, x: int, y: int, w: int, c: int) -> int
    decreases w,
{
    if w <= 0 {
        0
    } else {
        row_sum(f, x, y, w - 1, c) + f.channel(x + w - 1, y, c)
    }
}

/// Sum of channel `c` over the `w` x `h` rectangle at column `x`, row `y`.
pub open spec fn band_sum(f: Frame, x: int, y: int, w: int, h: int, c: int) -> int
    decreases h,
{
    if h <= 0 {
        0
    } else {
        band_sum(f, x, y, w, h - 1, c) + row_sum(f, x, y + h - 1, w, c)
    }
}

/// The unweighted mean of channel `c` over a rectangle, rounded down.
pub open spec fn band_mean(f: Frame, x: int, y: int, w: int, h: int, c: int) -> int {
    band_sum(f, x, y, w, h, c) / (w * h)
}

/// The mean color of a rectangle, channel by channel; alpha is left out.
pub open spec fn band_color(f: Frame, x: int, y: int, w: int, h: int) -> Rgb {
    Rgb {
        r: band_mean(f, x, y, w, h, 0) as u8,
        g: band_mean(f, x, y, w, h, 1) as u8,
        b: band_mean(f, x, y, w, h, 2) as u8,
    }
}

proof fn lemma_row_sum_bounds(f: Frame, x: int, y: int, w: int, c: int)
    requires
        0 <= w,
    ensures
        0 <= row_sum(f, x, y, w, c) <= 255 * w,
    decreases w,
{
    if w > 0 {
        lemma_row_sum_bounds(f, x, y, w - 1, c);
    }
}

proof fn lemma_band_sum_bounds(f: Frame, x: int, y: int, w: int, h: int, c: int)
    requires
        0 <= w,
        0 <= h,
    ensures
        0 <= band_sum(f, x, y, w, h, c) <= 255 * (w * h),
    decreases h,
{
    if h > 0 {
        lemma_band_sum_bounds(f, x, y, w, h - 1, c);
        lemma_row_sum_bounds(f, x, y + h - 1, w, c);
        assert(w * (h - 1) + w == w * h) by (nonlinear_arith);
    }
}

/// Each channel mean of a rectangle lies in 0..=255.
pub proof fn lemma_band_mean_bounds(f: Frame, x: int, y: int, w: int, h: int, c: int)
    requires
        0 < w,
        0 < h,
    ensures
        0 <= band_mean(f, x, y, w, h, c) <= 255,
{
    lemma_band_sum_bounds(f, x, y, w, h, c);
    let s = band_sum(f, x, y, w, h, c);
    assert(w * h > 0) by (nonlinear_arith)
        requires
            0 < w,
            0 < h,
    ;
    div_at_most_255(s, w * h);
}

proof fn div_at_most_255(s: int, n: int)
    requires
        0 <= s <= 255 * n,
        n > 0,
    ensures
        0 <= s / n <= 255,
{
    assert(s / n <= 255) by (nonlinear_arith)
        requires
            0 <= s <= 255 * n,
            n > 0,
    ;
    assert(s / n >= 0) by (nonlinear_arith)
        requires
            0 <= s,
            n > 0,
    ;
}

proof fn lemma_index_in_frame(f: Frame, x: int, y: int, c: int)
    requires
        f.is_well_formed(),
        0 <= x < f.width,
        0 <= y < f.height,
        0 <= c < 4,
    ensures
        0 <= y * f.row_pitch + 4 * x + c < f.data@.len(),
{
    let p = f.row_pitch as int;
    let hh = f.height as int;
    assert(y * p + 4 * x + c < (y + 1) * p) by (nonlinear_arith)
        requires
            4 * x + c < p,
    ;
    assert((y + 1) * p <= hh * p) by (nonlinear_arith)
        requires
            y + 1 <= hh,
            0 <= p,
    ;
    assert(0 <= y * p) by (nonlinear_arith)
        requires
            0 <= y,
            0 <= p,
    ;
}

/// The mean color of the `w` x `h` rectangle at column `x`, row `y`.
pub fn band_average(frame: &Frame, x: usize, y: usize, w: usize, h: usize) -> (r: Rgb)
    requires
        frame.is_well_formed(),
        band_in_frame(*frame, x as int, y as int, w as int, h as int),
    ensures
        r == band_color(*frame, x as int, y as int, w as int, h as int),
{
    let ghost f = *frame;
    let len: usize = frame.data.len();
    let mut sum_r: u128 = 0;
    let mut sum_g: u128 = 0;
    let mut sum_b: u128 = 0;
    let mut j: usize = 0;
    while j < h
        invariant
            f == *frame,
            len == f.data@.len(),
            f.is_well_formed(),
            band_in_frame(f, x as int, y as int, w as int, h as int),
            j <= h,
            sum_r == band_sum(f, x as int, y as int, w as int, j as int, 0),
            sum_g == band_sum(f, x as int, y as int, w as int, j as int, 1),
            sum_b == band_sum(f, x as int, y as int, w as int, j as int, 2),
            sum_r <= 255 * (w * j),
            sum_g <= 255 * (w * j),
            sum_b <= 255 * (w * j),
        decreases h - j,
    {
        proof {
            lemma_index_in_frame(f, x as int, (y + j) as int, 0);
        }
        let row_start: usize = (y + j) * frame.row_pitch + 4 * x;
        let mut row_r: u128 = 0;
        let mut row_g: u128 = 0;
        let mut row_b: u128 = 0;
        let mut i: usize = 0;
        while i < w
            invariant
                f == *frame,
                len == f.data@.len(),
                f.is_well_formed(),
                band_in_frame(f, x as int, y as int, w as int, h as int),
                j < h,
                i <= w,
                row_start == (y + j) * f.row_pitch + 4 * x,
                row_r == row_sum(f, x as int, (y + j) as int, i as int, 0),
                row_g == row_sum(f, x as int, (y + j) as int, i as int, 1),
                row_b == row_sum(f, x as int, (y + j) as int, i as int, 2),
                row_r <= 255 * i,
                row_g <= 255 * i,
                row_b <= 255 * i,
            decreases w - i,
        {
            proof {
                lemma_index_in_frame(f, (x + i) as int, (y + j) as int, 2);
            }
            let k: usize = row_start + 4 * i;
            assert(k == (y + j) * f.row_pitch + 4 * (x + i));
            row_r = row_r + frame.data[k] as u128;
            row_g = row_g + frame.data[k + 1] as u128;
            row_b = row_b + frame.data[k + 2] as u128;
            i = i + 1;
        }
        proof {
            let ww = w as int;
            let jj = j as int;
            assert(255 * (ww * jj) + 255 * ww == 255 * (ww * (jj + 1))) by (nonlinear_arith);
            assert(ww * (jj + 1) <= ww * (h as int)) by (nonlinear_arith)
                requires
                    jj + 1 <= h,
                    0 <= ww,
            ;
            assert(ww * (h as int) <= f.height * f.row_pitch) by (nonlinear_arith)
                requires
                    4 * ww <= f.row_pitch,
                    0 <= h <= f.height,
                    0 <= ww,
            ;
            assert(len <= u64::MAX);
        }
        sum_r = sum_r + row_r;
        sum_g = sum_g + row_g;
        sum_b = sum_b + row_b;
        j = j + 1;
    }
    proof {
        assert(len <= u64::MAX);
        lemma_band_mean_bounds(f, x as int, y as int, w as int, h as int, 0);
        lemma_band_mean_bounds(f, x as int, y as int, w as int, h as int, 1);
        lemma_band_mean_bounds(f, x as int, y as int, w as int, h as int, 2);
        assert((w as int) * (h as int) <= f.height * f.row_pitch) by (nonlinear_arith)
            requires
                4 * w <= f.row_pitch,
                0 <= h <= f.height,
        ;
        assert((w as int) * (h as int) > 0) by (nonlinear_arith)
            requires
                0 < w,
                0 < h,
        ;
    }
    let n: u128 = (w as u128) * (h as u128);
    Rgb { r: (sum_r / n) as u8, g: (sum_g / n) as u8, b: (sum_b / n) as u8 }
}

/// The color of the pixel at column `x`, row `y`; alpha is left out.
pub open spec fn pixel_rgb(f: Frame, x: int, y: int) -> Rgb {
    Rgb { r: f.channel(x, y, 0) as u8, g: f.channel(x, y, 1) as u8, b: f.channel(x, y, 2) as u8 }
}

/// Every pixel of the rectangle has color `c`.
pub open spec fn band_is_uniform(f: Frame, x: int, y: int, w: int, h: int, c: Rgb) -> bool {
    forall|px: int, py: int|
        x <= px < x + w && y <= py < y + h ==> #[trigger] pixel_rgb(f, px, py) == c
}

proof fn lemma_uniform_row(f: Frame, x: int, y: int, w: int, k: int, v: int)
    requires
        0 <= w,
        forall|px: int| x <= px < x + w ==> #[trigger] f.channel(px, y, k) == v,
    ensures
        row_sum(f, x, y, w, k) == v * w,
    decreases w,
{
    if w > 0 {
        lemma_uniform_row(f, x, y, w - 1, k, v);
        assert(f.channel(x + w - 1, y, k) == v);
        assert(v * (w - 1) + v == v * w) by (nonlinear_arith);
    } else {
        assert(v * w == 0) by (nonlinear_arith)
            requires
                w == 0,
        ;
    }
}

/// The sum over a rectangle whose channel `k` is `v` everywhere is `v`
/// times its area.
pub proof fn lemma_uniform_band_sum(f: Frame, x: int, y: int, w: int, h: int, k: int, v: int)
    requires
        0 <= w,
        0 <= h,
        forall|px: int, py: int|
            x <= px < x + w && y <= py < y + h ==> #[trigger] f.channel(px, py, k) == v,
    ensures
        band_sum(f, x, y, w, h, k) == v * (w * h),
    decreases h,
{
    if h > 0 {
        lemma_uniform_band_sum(f, x, y, w, h - 1, k, v);
        assert forall|px: int| x <= px < x + w implies #[trigger] f.channel(px, y + h - 1, k) == v by {
            assert(y <= y + h - 1 < y + h);
        }
        lemma_uniform_row(f, x, y + h - 1, w, k, v);
        assert(v * (w * (h - 1)) + v * w == v * (w * h)) by (nonlinear_arith);
    } else {
        assert(v * (w * h) == 0) by (nonlinear_arith)
            requires
                h == 0,
        ;
    }
}

proof fn lemma_uniform_channel_mean(f: Frame, x: int, y: int, w: int, h: int, k: int, v: int)
    requires
        0 < w,
        0 < h,
        forall|px: int, py: int|
            x <= px < x + w && y <= py < y + h ==> #[trigger] f.channel(px, py, k) == v,
    ensures
        band_mean(f, x, y, w, h, k) == v,
{
    lemma_uniform_band_sum(f, x, y, w, h, k, v);
    assert(w * h > 0) by (nonlinear_arith)
        requires
            0 < w,
            0 < h,
    ;
    assert((v * (w * h)) / (w * h) == v) by (nonlinear_arith)
        requires
            w * h > 0,
    ;
}

/// The mean color of a rectangle whose pixels all have color `c` is `c`.
pub proof fn lemma_uniform_band_color(f: Frame, x: int, y: int, w: int, h: int, c: Rgb)
    requires
        f.is_well_formed(),
        band_in_frame(f, x, y, w, h),
        band_is_uniform(f, x, y, w, h, c),
    ensures
        band_color(f, x, y, w, h) == c,
{
    assert forall|px: int, py: int| x <= px < x + w && y <= py < y + h implies #[trigger] f.channel(
        px,
        py,
        0,
    ) == c.r as int && f.channel(px, py, 1) == c.g as int && f.channel(px, py, 2) == c.b as int by {
        assert(pixel_rgb(f, px, py) == c);
    }
    assert forall|px: int, py: int| x <= px < x + w && y <= py < y + h implies #[trigger] f.channel(
        px,
        py,
        1,
    ) == c.g as int by {
        assert(f.channel(px, py, 0) == c.r as int);
    }
    assert forall|px: int, py: int| x <= px < x + w && y <= py < y + h implies #[trigger] f.channel(
        px,
        py,
        2,
    ) == c.b as int by {
        assert(f.channel(px, py, 0) == c.r as int);
    }
    lemma_uniform_channel_mean(f, x, y, w, h, 0, c.r as int);
    lemma_uniform_channel_mean(f, x, y, w, h, 1, c.g as int);
    lemma_uniform_channel_mean(f, x, y, w, h, 2, c.b as int);
}

proof fn lemma_row_split(f: Frame, x: int, y: int, w1: int, w2: int, k: int)
    requires
        0 <= w1,
        0 <= w2,
    ensures
        row_sum(f, x, y, w1 + w2, k) == row_sum(f, x, y, w1, k) + row_sum(f, x + w1, y, w2, k),
    decreases w2,
{
    if w2 > 0 {
        lemma_row_split(f, x, y, w1, w2 - 1, k);
        assert(x + w1 + w2 - 1 == x + (w1 + w2) - 1);
    }
}

/// A rectangle's sum is the sum of its top `h1` rows and of the `h2` rows below.
pub proof fn lemma_band_split_rows(f: Frame, x: int, y: int, w: int, h1: int, h2: int, k: int)
    requires
        0 <= h1,
        0 <= h2,
    ensures
        band_sum(f, x, y, w, h1 + h2, k) == band_sum(f, x, y, w, h1, k) + band_sum(
            f,
            x,
            y + h1,
            w,
            h2,
            k,
        ),
    decreases h2,
{
    if h2 > 0 {
        lemma_band_split_rows(f, x, y, w, h1, h2 - 1, k);
        assert(y + h1 + h2 - 1 == y + (h1 + h2) - 1);
    }
}

/// A rectangle's sum is the sum of its left `w1` columns and of the `w2`
/// columns to their right.
pub proof fn lemma_band_split_columns(f: Frame, x: int, y: int, w1: int, w2: int, h: int, k: int)
    requires
        0 <= w1,
        0 <= w2,
        0 <= h,
    ensures
        band_sum(f, x, y, w1 + w2, h, k) == band_sum(f, x, y, w1, h, k) + band_sum(
            f,
            x + w1,
            y,
            w2,
            h,
            k,
        ),
    decreases h,
{
    if h > 0 {
        lemma_band_split_columns(f, x, y, w1, w2, h - 1, k);
        lemma_row_split(f, x, y + h - 1, w1, w2, k);
    }
}

} // verus!
