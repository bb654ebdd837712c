use vstd::prelude::*;

use crate::raster::Image;

verus! {

/// The precomputed statistics of one window: the integer-truncated mean of
/// each channel, and the window's total squared deviation `ssd` — the sum,
/// over all four channels and all pixels of the window, of the squared
/// difference between the channel value and that channel's truncated mean.
/// The window's variance is `ssd` divided by the window area; the area is
/// one constant across a whole filter run, so comparing two windows by
/// `ssd` orders them exactly as comparing by variance does, with no
/// rounding.
#[derive(Clone, Copy, Debug, PartialEq, Eq, Structural)]
pub struct WindowEntry {
    pub r: u8,
    pub g: u8,
    pub b: u8,
    pub a: u8,
    pub ssd: u128,
}

/// The square of `v`.
pub open spec fn sq(v: int) -> int {
    v * v
}

/// Sum of channel `c` over the `n` pixels `(x, y) .. (x + n - 1, y)`.
pub open spec fn row_sum(im: Image, x: int, y: int, c: int, n: int) -> int
    decreases n,
{
    if n <= 0 {
        0
    } else {
        row_sum(im, x, y, c, n - 1) + im.chan(x + n - 1, y, c)
    }
}

/// Sum of channel `c` over the first `rows` rows of the `s`-wide window
/// anchored at `(x, y)`.
pub open spec fn win_sum(im: Image, x: int, y: int, c: int, s: int, rows: int) -> int
    decreases rows,
{
    if rows <= 0 {
        0
    } else {
        win_sum(im, x, y, c, s, rows - 1) + row_sum(im, x, y + rows - 1, c, s)
    }
}

/// The integer-truncated mean of channel `c` over the `s`-by-`s` window
/// anchored at `(x, y)`.
pub open spec fn win_mean(im: Image, x: int, y: int, c: int, s: int) -> int {
    win_sum(im, x, y, c, s, s) / (s * s)
}

/// Sum of the squared deviations from `m` of channel `c` over the `n`
/// pixels `(x, y) .. (x + n - 1, y)`.
pub open spec fn row_dev(im: Image, x: int, y: int, c: int, m: int, n: int) -> int
    decreases n,
{
    if n <= 0 {
        0
    } else {
        row_dev(im, x, y, c, m, n - 1) + sq(im.chan(x + n - 1, y, c) - m)
    }
}

/// Sum of the squared deviations from `m` of channel `c` over the first
/// `rows` rows of the `s`-wide window anchored at `(x, y)`.
pub open spec fn win_dev(im: Image, x: int, y: int, c: int, m: int, s: int, rows: int) -> int
    decreases rows,
{
    if rows <= 0 {
        0
    } else {
        win_dev(im, x, y, c, m, s, rows - 1) + row_dev(im, x, y + rows - 1, c, m, s)
    }
}

/// The total squared deviation of the `s`-by-`s` window anchored at
/// `(x, y)`: each channel measured against its own truncated mean, all four
/// channels summed into one scalar.
pub open spec fn win_ssd(im: Image, x: int, y: int, s: int) -> int {
    win_dev(im, x, y, 0, win_mean(im, x, y, 0, s), s, s)
        + win_dev(im, x, y, 1, win_mean(im, x, y, 1, s), s, s)
        + win_dev(im, x, y, 2, win_mean(im, x, y, 2, s), s, s)
        + win_dev(im, x, y, 3, win_mean(im, x, y, 3, s), s, s)
}

/// The statistics the table stores for the `s`-by-`s` window anchored at
/// `(x, y)`.
pub open spec fn spec_window_entry(im: Image, x: int, y: int, s: int) -> WindowEntry {
    WindowEntry {
        r: win_mean(im, x, y, 0, s) as u8,
        g: win_mean(im, x, y, 1, s) as u8,
        b: win_mean(im, x, y, 2, s) as u8,
        a: win_mean(im, x, y, 3, s) as u8,
        ssd: win_ssd(im, x, y, s) as u128,
    }
}

/// A channel sum over `n` pixels of one row lies between 0 and `255 * n`.
pub proof fn lemma_row_sum_bounds(im: Image, x: int, y: int, c: int, n: int)
    requires
        n >= 0,
    ensures
        0 <= row_sum(im, x, y, c, n) <= 255 * n,
    decreases n,
{
    if n > 0 {
        lemma_row_sum_bounds(im, x, y, c, n - 1);
        assert(im.chan(x + n - 1, y, c) <= 255);
    }
}

/// A channel sum over `rows` rows of an `s`-wide window lies between 0 and
/// `255 * s * rows`.
pub proof fn lemma_win_sum_bounds(im: Image, x: int, y: int, c: int, s: int, rows: int)
    requires
        s >= 0,
        rows >= 0,
    ensures
        0 <= win_sum(im, x, y, c, s, rows) <= 255 * s * rows,
    decreases rows,
{
    if rows > 0 {
        lemma_win_sum_bounds(im, x, y, c, s, rows - 1);
        lemma_row_sum_bounds(im, x, y + rows - 1, c, s);
        assert(255 * s * (rows - 1) + 255 * s == 255 * s * rows) by (nonlinear_arith);
    }
}

/// A truncated channel mean of a nonempty window lies between 0 and 255.
pub proof fn lemma_win_mean_bounds(im: Image, x: int, y: int, c: int, s: int)
    requires
        s >= 1,
    ensures
        0 <= win_mean(im, x, y, c, s) <= 255,
{
    lemma_win_sum_bounds(im, x, y, c, s, s);
    let sum = win_sum(im, x, y, c, s, s);
    let area = s * s;
    assert(area >= 1 && 255 * s * s == area * 255) by (nonlinear_arith)
        requires
            s >= 1,
            area == s * s,
    ;
    vstd::arithmetic::div_mod::lemma_div_pos_is_pos(sum, area);
    vstd::arithmetic::div_mod::lemma_div_is_ordered(sum, area * 255, area);
    vstd::arithmetic::div_mod::lemma_div_multiples_vanish(255, area);
}

/// A squared-deviation sum over `n` pixels of one row lies between 0 and
/// `65025 * n` whenever the reference value `m` is itself a channel value.
pub proof fn lemma_row_dev_bounds(im: Image, x: int, y: int, c: int, m: int, n: int)
    requires
        n >= 0,
        0 <= m <= 255,
    ensures
        0 <= row_dev(im, x, y, c, m, n) <= 65025 * n,
    decreases n,
{
    if n > 0 {
        lemma_row_dev_bounds(im, x, y, c, m, n - 1);
        let v = im.chan(x + n - 1, y, c);
        assert(0 <= sq(v - m) <= 65025) by (nonlinear_arith)
            requires
                0 <= v <= 255,
                0 <= m <= 255,
        ;
    }
}

/// A squared-deviation sum over `rows` rows of an `s`-wide window lies
/// between 0 and `65025 * s * rows`.
pub proof fn lemma_win_dev_bounds(im: Image, x: int, y: int, c: int, m: int, s: int, rows: int)
    requires
        s >= 0,
        rows >= 0,
        0 <= m <= 255,
    ensures
        0 <= win_dev(im, x, y, c, m, s, rows) <= 65025 * s * rows,
    decreases rows,
{
    if rows > 0 {
        lemma_win_dev_bounds(im, x, y, c, m, s, rows - 1);
        lemma_row_dev_bounds(im, x, y + rows - 1, c, m, s);
        assert(65025 * s * (rows - 1) + 65025 * s == 65025 * s * rows) by (nonlinear_arith);
    }
}

/// Computes the mean color and the total squared deviation of the
/// `s`-by-`s` window anchored at `(x, y)`: a pure function of the window's
/// pixel data.
pub fn window_stats(im: &Image, x: u32, y: u32, s: u32) -> (e: WindowEntry)
    requires
        im.wf(),
        s >= 1,
        x + s <= im.width,
        y + s <= im.height,
    ensures
        e == spec_window_entry(*im, x as int, y as int, s as int),
{
    let ghost gim = *im;
    let ghost gx = x as int;
    let ghost gy = y as int;
    let ghost gs = s as int;

    let mut sum_r: u128 = 0;
    let mut sum_g: u128 = 0;
    let mut sum_b: u128 = 0;
    let mut sum_a: u128 = 0;
    let mut j: u32 = 0;
    while j < s
        invariant
            im.wf(),
            s >= 1,
            x + s <= im.width,
            y + s <= im.height,
            j <= s,
            gim == *im,
            gx == x as int,
            gy == y as int,
            gs == s as int,
            sum_r == win_sum(gim, gx, gy, 0, gs, j as int),
            sum_g == win_sum(gim, gx, gy, 1, gs, j as int),
            sum_b == win_sum(gim, gx, gy, 2, gs, j as int),
            sum_a == win_sum(gim, gx, gy, 3, gs, j as int),
        decreases s - j,
    {
        let mut i: u32 = 0;
        while i < s
            invariant
                im.wf(),
                s >= 1,
                x + s <= im.width,
                y + s <= im.height,
                j < s,
                i <= s,
                gim == *im,
                gx == x as int,
                gy == y as int,
                gs == s as int,
                sum_r == win_sum(gim, gx, gy, 0, gs, j as int)
                    + row_sum(gim, gx, gy + j, 0, i as int),
                sum_g == win_sum(gim, gx, gy, 1, gs, j as int)
                    + row_sum(gim, gx, gy + j, 1, i as int),
                sum_b == win_sum(gim, gx, gy, 2, gs, j as int)
                    + row_sum(gim, gx, gy + j, 2, i as int),
                sum_a == win_sum(gim, gx, gy, 3, gs, j as int)
                    + row_sum(gim, gx, gy + j, 3, i as int),
            decreases s - i,
        {
            let p = im.get_pixel(x + i, y + j);
            proof {
                lemma_win_sum_bounds(gim, gx, gy, 0, gs, j as int);
                lemma_win_sum_bounds(gim, gx, gy, 1, gs, j as int);
                lemma_win_sum_bounds(gim, gx, gy, 2, gs, j as int);
                lemma_win_sum_bounds(gim, gx, gy, 3, gs, j as int);
                lemma_row_sum_bounds(gim, gx, gy + j, 0, i as int);
                lemma_row_sum_bounds(gim, gx, gy + j, 1, i as int);
                lemma_row_sum_bounds(gim, gx, gy + j, 2, i as int);
                lemma_row_sum_bounds(gim, gx, gy + j, 3, i as int);
                assert(255 * gs * (j as int) + 255 * (i as int) + 255
                    <= 255 * 0x1_0000_0000 * 0x1_0000_0000) by (nonlinear_arith)
                    requires
                        0 <= j as int <= gs,
                        0 <= i as int <= gs,
                        1 <= gs < 0x1_0000_0000,
                ;
            }
            sum_r = sum_r + p.0 as u128;
            sum_g = sum_g + p.1 as u128;
            sum_b = sum_b + p.2 as u128;
            sum_a = sum_a + p.3 as u128;
            i = i + 1;
        }
        j = j + 1;
    }

    proof {
        assert(1 <= (s as u128) * (s as u128) <= 0xffff_fffe_0000_0001u128) by (nonlinear_arith)
            requires
                1 <= (s as u128) <= 0xffff_ffffu128,
        ;
    }
    let area: u128 = (s as u128) * (s as u128);
    proof {
        assert(area == gs * gs) by (nonlinear_arith)
            requires
                area == (s as u128) * (s as u128),
                gs == s as int,
        ;
        lemma_win_mean_bounds(gim, gx, gy, 0, gs);
        lemma_win_mean_bounds(gim, gx, gy, 1, gs);
        lemma_win_mean_bounds(gim, gx, gy, 2, gs);
        lemma_win_mean_bounds(gim, gx, gy, 3, gs);
    }
    let mean_r: u8 = (sum_r / area) as u8;
    let mean_g: u8 = (sum_g / area) as u8;
    let mean_b: u8 = (sum_b / area) as u8;
    let mean_a: u8 = (sum_a / area) as u8;

    let mut dev_r: u128 = 0;
    let mut dev_g: u128 = 0;
    let mut dev_b: u128 = 0;
    let mut dev_a: u128 = 0;
    let mut j2: u32 = 0;
    while j2 < s
        invariant
            im.wf(),
            s >= 1,
            x + s <= im.width,
            y + s <= im.height,
            j2 <= s,
            gim == *im,
            gx == x as int,
            gy == y as int,
            gs == s as int,
            mean_r as int == win_mean(gim, gx, gy, 0, gs),
            mean_g as int == win_mean(gim, gx, gy, 1, gs),
            mean_b as int == win_mean(gim, gx, gy, 2, gs),
            mean_a as int == win_mean(gim, gx, gy, 3, gs),
            dev_r == win_dev(gim, gx, gy, 0, mean_r as int, gs, j2 as int),
            dev_g == win_dev(gim, gx, gy, 1, mean_g as int, gs, j2 as int),
            dev_b == win_dev(gim, gx, gy, 2, mean_b as int, gs, j2 as int),
            dev_a == win_dev(gim, gx, gy, 3, mean_a as int, gs, j2 as int),
        decreases s - j2,
    {
        let mut i2: u32 = 0;
        while i2 < s
            invariant
                im.wf(),
                s >= 1,
                x + s <= im.width,
                y + s <= im.height,
                j2 < s,
                i2 <= s,
                gim == *im,
                gx == x as int,
                gy == y as int,
                gs == s as int,
                mean_r as int == win_mean(gim, gx, gy, 0, gs),
                mean_g as int == win_mean(gim, gx, gy, 1, gs),
                mean_b as int == win_mean(gim, gx, gy, 2, gs),
                mean_a as int == win_mean(gim, gx, gy, 3, gs),
                dev_r == win_dev(gim, gx, gy, 0, mean_r as int, gs, j2 as int)
                    + row_dev(gim, gx, gy + j2, 0, mean_r as int, i2 as int),
                dev_g == win_dev(gim, gx, gy, 1, mean_g as int, gs, j2 as int)
                    + row_dev(gim, gx, gy + j2, 1, mean_g as int, i2 as int),
                dev_b == win_dev(gim, gx, gy, 2, mean_b as int, gs, j2 as int)
                    + row_dev(gim, gx, gy + j2, 2, mean_b as int, i2 as int),
                dev_a == win_dev(gim, gx, gy, 3, mean_a as int, gs, j2 as int)
                    + row_dev(gim, gx, gy + j2, 3, mean_a as int, i2 as int),
            decreases s - i2,
        {
            let p = im.get_pixel(x + i2, y + j2);
            proof {
                lemma_win_dev_bounds(gim, gx, gy, 0, mean_r as int, gs, j2 as int);
                lemma_win_dev_bounds(gim, gx, gy, 1, mean_g as int, gs, j2 as int);
                lemma_win_dev_bounds(gim, gx, gy, 2, mean_b as int, gs, j2 as int);
                lemma_win_dev_bounds(gim, gx, gy, 3, mean_a as int, gs, j2 as int);
                lemma_row_dev_bounds(gim, gx, gy + j2, 0, mean_r as int, i2 as int);
                lemma_row_dev_bounds(gim, gx, gy + j2, 1, mean_g as int, i2 as int);
                lemma_row_dev_bounds(gim, gx, gy + j2, 2, mean_b as int, i2 as int);
                lemma_row_dev_bounds(gim, gx, gy + j2, 3, mean_a as int, i2 as int);
                assert(65025 * gs * (j2 as int) + 65025 * (i2 as int) + 65025
                    <= 65025 * 0x1_0000_0000 * 0x1_0000_0000) by (nonlinear_arith)
                    requires
                        0 <= j2 as int <= gs,
                        0 <= i2 as int <= gs,
                        1 <= gs < 0x1_0000_0000,
                ;
            }
            let dr: i64 = p.0 as i64 - mean_r as i64;
            let dg: i64 = p.1 as i64 - mean_g as i64;
            let db: i64 = p.2 as i64 - mean_b as i64;
            let da: i64 = p.3 as i64 - mean_a as i64;
            proof {
                assert(0 <= dr * dr <= 65025 && 0 <= dg * dg <= 65025 && 0 <= db * db <= 65025
                    && 0 <= da * da <= 65025) by (nonlinear_arith)
                    requires
                        -255 <= dr <= 255,
                        -255 <= dg <= 255,
                        -255 <= db <= 255,
                        -255 <= da <= 255,
                ;
            }
            dev_r = dev_r + (dr * dr) as u128;
            dev_g = dev_g + (dg * dg) as u128;
            dev_b = dev_b + (db * db) as u128;
            dev_a = dev_a + (da * da) as u128;
            i2 = i2 + 1;
        }
        j2 = j2 + 1;
    }

    proof {
        lemma_win_dev_bounds(gim, gx, gy, 0, mean_r as int, gs, gs);
        lemma_win_dev_bounds(gim, gx, gy, 1, mean_g as int, gs, gs);
        lemma_win_dev_bounds(gim, gx, gy, 2, mean_b as int, gs, gs);
        lemma_win_dev_bounds(gim, gx, gy, 3, mean_a as int, gs, gs);
        assert(4 * (65025 * gs * gs) < 0x1_0000_0000_0000_0000_0000_0000_0000_0000)
            by (nonlinear_arith)
            requires
                1 <= gs < 0x1_0000_0000,
        ;
    }
    let ssd: u128 = dev_r + dev_g + dev_b + dev_a;
    WindowEntry { r: mean_r, g: mean_g, b: mean_b, a: mean_a, ssd }
}

} // verus!
