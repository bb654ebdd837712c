use vstd::prelude::*;

use crate::error::Error;
use crate::iter::ImageIterator;
use crate::raster::Image;
use crate::stats::{
    row_dev, row_sum, spec_window_entry, sq, win_dev, win_mean, win_ssd, win_sum, window_stats,
    WindowEntry,
};

verus! {

/// The image cannot hold even one full window geometry for the radius
/// `num`: the filter must refuse it.
pub open spec fn dims_too_small(width: int, height: int, num: int) -> bool {
    width < 2 * num + 1 || height < 2 * num + 1
}

/// The top-left quadrant of the pixel `(x, y)`: the window whose
/// bottom-right corner touches the pixel, when it fits in the image.
pub open spec fn quad_top_left(im: Image, num: int, x: int, y: int) -> Option<WindowEntry> {
    if x >= num && y >= num {
        Some(spec_window_entry(im, x - num, y - num, num + 1))
    } else {
        None
    }
}

/// The top-right quadrant of the pixel `(x, y)`: the window whose
/// bottom-left corner touches the pixel, when it fits in the image.
pub open spec fn quad_top_right(im: Image, num: int, x: int, y: int) -> Option<WindowEntry> {
    if x < im.width - num && y >= num {
        Some(spec_window_entry(im, x, y - num, num + 1))
    } else {
        None
    }
}

/// The bottom-left quadrant of the pixel `(x, y)`: the window whose
/// top-right corner touches the pixel, when it fits in the image.
pub open spec fn quad_bottom_left(im: Image, num: int, x: int, y: int) -> Option<WindowEntry> {
    if x >= num && y < im.height - num {
        Some(spec_window_entry(im, x - num, y, num + 1))
    } else {
        None
    }
}

/// The bottom-right quadrant of the pixel `(x, y)`: the window whose
/// top-left corner touches the pixel, when it fits in the image.
pub open spec fn quad_bottom_right(im: Image, num: int, x: int, y: int) -> Option<WindowEntry> {
    if x < im.width - num && y < im.height - num {
        Some(spec_window_entry(im, x, y, num + 1))
    } else {
        None
    }
}

/// Of two candidate windows, the one with the smaller total squared
/// deviation; the first wins an exact tie, and an absent candidate is
/// skipped.
pub open spec fn spec_better(p: Option<WindowEntry>, q: Option<WindowEntry>) -> Option<
    WindowEntry,
> {
    match (p, q) {
        (Some(a), Some(b)) => if a.ssd <= b.ssd {
            Some(a)
        } else {
            Some(b)
        },
        (Some(a), None) => Some(a),
        (None, Some(b)) => Some(b),
        (None, None) => None,
    }
}

/// The window the filter selects for the pixel `(x, y)`: the lowest-
/// variance quadrant, combined in pairs so that an exact tie falls to the
/// earlier quadrant in the order top-left, top-right, bottom-left,
/// bottom-right.
pub open spec fn selected(im: Image, num: int, x: int, y: int) -> Option<WindowEntry> {
    spec_better(
        spec_better(quad_top_left(im, num, x, y), quad_top_right(im, num, x, y)),
        spec_better(quad_bottom_left(im, num, x, y), quad_bottom_right(im, num, x, y)),
    )
}

/// Channel `c` of the output pixel at `(x, y)`: the selected quadrant's
/// mean color, or the original color when no quadrant is valid.
pub open spec fn out_chan(im: Image, num: int, x: int, y: int, c: int) -> int {
    match selected(im, num, x, y) {
        Some(e) => if c == 0 {
            e.r as int
        } else if c == 1 {
            e.g as int
        } else if c == 2 {
            e.b as int
        } else {
            e.a as int
        },
        None => im.chan(x, y, c),
    }
}

/// The table entry the row-major window table holds at column `x`, row `y`
/// of a table `tw` anchors wide.
pub open spec fn tbl_at(t: Seq<WindowEntry>, tw: int, x: int, y: int) -> WindowEntry {
    t[y * tw + x]
}

/// A row-major position `b * tw + a` with `a < tw`, `b < th` lies inside
/// the grid, and no two coordinate pairs share it.
proof fn lemma_row_major(tw: int, th: int, a: int, b: int, a2: int, b2: int)
    requires
        0 <= a < tw,
        0 <= b < th,
        0 <= a2 < tw,
        0 <= b2 < th,
    ensures
        0 <= b * tw + a < tw * th,
        b * tw + a == b2 * tw + a2 ==> a == a2 && b == b2,
{
    assert(0 <= b * tw + a < tw * th && (b * tw + a == b2 * tw + a2 ==> a == a2 && b == b2))
        by (nonlinear_arith)
        requires
            0 <= a < tw,
            0 <= b < th,
            0 <= a2 < tw,
            0 <= b2 < th,
    ;
}

/// Reads the entry of the anchor `(a, b)` out of a row-major window table
/// `tw` anchors wide and `th` anchors high.
fn table_get(t: &Vec<WindowEntry>, tw: u32, th: u32, a: u32, b: u32) -> (e: WindowEntry)
    requires
        a < tw,
        b < th,
        t@.len() == (tw as int) * (th as int),
    ensures
        e == tbl_at(t@, tw as int, a as int, b as int),
{
    proof {
        lemma_row_major(tw as int, th as int, a as int, b as int, a as int, b as int);
        assert((b as u64) * (tw as u64) <= 0xffff_fffe_0000_0001u64) by (nonlinear_arith)
            requires
                (b as u64) <= 0xffff_ffffu64,
                (tw as u64) <= 0xffff_ffffu64,
        ;
        assert((b as u64) * (tw as u64) + (a as u64) == (b as int) * (tw as int) + (a as int))
            by (nonlinear_arith);
    }
    let idx: u64 = (b as u64) * (tw as u64) + (a as u64);
    let _n: usize = t.len();
    t[idx as usize]
}

/// Of two candidate windows, the one with the smaller total squared
/// deviation; the first wins an exact tie.
fn better_of(p: Option<WindowEntry>, q: Option<WindowEntry>) -> (r: Option<WindowEntry>)
    ensures
        r == spec_better(p, q),
{
    match (p, q) {
        (Some(a), Some(b)) => if a.ssd <= b.ssd {
            Some(a)
        } else {
            Some(b)
        },
        (Some(a), None) => Some(a),
        (None, Some(b)) => Some(b),
        (None, None) => None,
    }
}

/// Precomputes the statistics of every window that fits in the image,
/// each anchor computed exactly once, in row-major anchor order.
pub fn build_table(im: &Image, num: u32) -> (t: Vec<WindowEntry>)
    requires
        im.wf(),
        !dims_too_small(im.width as int, im.height as int, num as int),
    ensures
        t@.len() == (im.width - num) * (im.height - num),
        forall|xx: int, yy: int|
            0 <= xx < im.width - num && 0 <= yy < im.height - num ==> #[trigger] tbl_at(
                t@,
                im.width - num,
                xx,
                yy,
            ) == spec_window_entry(*im, xx, yy, num as int + 1),
{
    let tw: u32 = im.width - num;
    let th: u32 = im.height - num;
    let s: u32 = num + 1;
    let ghost gim = *im;
    let mut t: Vec<WindowEntry> = Vec::new();
    let mut it = ImageIterator::new(tw, th);
    loop
        invariant
            im.wf(),
            gim == *im,
            !dims_too_small(im.width as int, im.height as int, num as int),
            tw == im.width - num,
            th == im.height - num,
            s == num + 1,
            it.wf(),
            it.max_x == tw,
            it.max_y == th,
            it.pos() <= it.total(),
            t@.len() == it.pos(),
            forall|xx: int, yy: int|
                0 <= xx < tw && 0 <= yy < th && yy * (tw as int) + xx < it.pos()
                    ==> #[trigger] tbl_at(t@, tw as int, xx, yy) == spec_window_entry(
                    gim,
                    xx,
                    yy,
                    s as int,
                ),
        ensures
            t@.len() == (tw as int) * (th as int),
            forall|xx: int, yy: int|
                0 <= xx < tw && 0 <= yy < th ==> #[trigger] tbl_at(t@, tw as int, xx, yy)
                    == spec_window_entry(gim, xx, yy, s as int),
        decreases it.total() - it.pos(),
    {
        match it.next() {
            None => {
                proof {
                    assert forall|xx: int, yy: int| 0 <= xx < tw && 0 <= yy < th implies #[trigger]
                        tbl_at(t@, tw as int, xx, yy) == spec_window_entry(gim, xx, yy, s as int) by {
                        lemma_row_major(tw as int, th as int, xx, yy, xx, yy);
                    }
                }
                break ;
            },
            Some((x, y)) => {
                let e = window_stats(im, x, y, s);
                let ghost oldt = t@;
                t.push(e);
                proof {
                    let gtw = tw as int;
                    let gth = th as int;
                    let k = (y as int) * gtw + (x as int);
                    assert forall|xx: int, yy: int|
                        0 <= xx < gtw && 0 <= yy < gth && yy * gtw + xx < it.pos()
                            implies #[trigger] tbl_at(t@, gtw, xx, yy) == spec_window_entry(
                            gim,
                            xx,
                            yy,
                            s as int,
                        ) by {
                        lemma_row_major(gtw, gth, xx, yy, x as int, y as int);
                        if yy * gtw + xx < k {
                            assert(tbl_at(t@, gtw, xx, yy) == tbl_at(oldt, gtw, xx, yy));
                        } else {
                            assert(yy * gtw + xx == k);
                            assert(xx == x as int && yy == y as int);
                            assert(tbl_at(t@, gtw, xx, yy) == e);
                        }
                    }
                }
            },
        }
    }
    t
}

/// Applies the Kuwahara filter in place. For each pixel the four windows
/// whose corner touches it are compared by variance, and the pixel takes
/// the mean color of the calmest one, ties falling to the earlier quadrant
/// in the order top-left, top-right, bottom-left, bottom-right. An image
/// whose width or height is under `2 * num + 1` is refused untouched.
pub fn kuwahara(img: &mut Image, num: u32) -> (result: Result<(), Error>)
    requires
        old(img).wf(),
    ensures
        final(img).wf(),
        final(img).width == old(img).width,
        final(img).height == old(img).height,
        dims_too_small(old(img).width as int, old(img).height as int, num as int) <==> result
            is Err,
        result is Err ==> *final(img) == *old(img) && result matches Err(Error::FilterError(_)),
        result is Ok ==> forall|x: int, y: int, c: int|
            0 <= x < old(img).width && 0 <= y < old(img).height && 0 <= c < 4
                ==> #[trigger] final(img).chan(x, y, c) == out_chan(
                *old(img),
                num as int,
                x,
                y,
                c,
            ),
{
    let w: u32 = img.width;
    let h: u32 = img.height;
    if (w as u64) < 2 * (num as u64) + 1 || (h as u64) < 2 * (num as u64) + 1 {
        return Err(Error::FilterError(String::from_str(
            "image dimensions are too small for the filter radius",
        )));
    }
    let ghost orig: Image = *img;
    let table = build_table(img, num);
    let tw: u32 = w - num;
    let th: u32 = h - num;
    let s: u32 = num + 1;
    let mut it = ImageIterator::new(w, h);
    loop
        invariant
            img.wf(),
            img.width == w,
            img.height == h,
            orig.width == w,
            orig.height == h,
            !dims_too_small(w as int, h as int, num as int),
            tw == w - num,
            th == h - num,
            s == num + 1,
            table@.len() == (tw as int) * (th as int),
            forall|xx: int, yy: int|
                0 <= xx < tw && 0 <= yy < th ==> #[trigger] tbl_at(table@, tw as int, xx, yy)
                    == spec_window_entry(orig, xx, yy, s as int),
            it.wf(),
            it.max_x == w,
            it.max_y == h,
            it.pos() <= it.total(),
            forall|xx: int, yy: int, cc: int|
                0 <= xx < w && 0 <= yy < h && 0 <= cc < 4 && yy * (w as int) + xx < it.pos()
                    ==> #[trigger] img.chan(xx, yy, cc) == out_chan(orig, num as int, xx, yy, cc),
            forall|xx: int, yy: int, cc: int|
                0 <= xx < w && 0 <= yy < h && 0 <= cc < 4 && yy * (w as int) + xx >= it.pos()
                    ==> #[trigger] img.chan(xx, yy, cc) == orig.chan(xx, yy, cc),
        ensures
            img.wf(),
            img.width == w,
            img.height == h,
            forall|xx: int, yy: int, cc: int|
                0 <= xx < w && 0 <= yy < h && 0 <= cc < 4 ==> #[trigger] img.chan(xx, yy, cc)
                    == out_chan(orig, num as int, xx, yy, cc),
        decreases it.total() - it.pos(),
    {
        match it.next() {
            None => {
                proof {
                    assert forall|xx: int, yy: int, cc: int|
                        0 <= xx < w && 0 <= yy < h && 0 <= cc < 4 implies #[trigger] img.chan(
                        xx,
                        yy,
                        cc,
                    ) == out_chan(orig, num as int, xx, yy, cc) by {
                        lemma_row_major(w as int, h as int, xx, yy, xx, yy);
                    }
                }
                break ;
            },
            Some((x, y)) => {
                let tl = if x >= num && y >= num {
                    Some(table_get(&table, tw, th, x - num, y - num))
                } else {
                    None
                };
                let tr = if x < tw && y >= num {
                    Some(table_get(&table, tw, th, x, y - num))
                } else {
                    None
                };
                let bl = if x >= num && y < th {
                    Some(table_get(&table, tw, th, x - num, y))
                } else {
                    None
                };
                let br = if x < tw && y < th {
                    Some(table_get(&table, tw, th, x, y))
                } else {
                    None
                };
                proof {
                    assert(tl == quad_top_left(orig, num as int, x as int, y as int));
                    assert(tr == quad_top_right(orig, num as int, x as int, y as int));
                    assert(bl == quad_bottom_left(orig, num as int, x as int, y as int));
                    assert(br == quad_bottom_right(orig, num as int, x as int, y as int));
                }
                let best = better_of(better_of(tl, tr), better_of(bl, br));
                match best {
                    Some(e) => img.put_pixel(x, y, (e.r, e.g, e.b, e.a)),
                    None => (),
                }
                proof {
                    let gw = w as int;
                    let gh = h as int;
                    let gx = x as int;
                    let gy = y as int;
                    let k = gy * gw + gx;
                    assert forall|xx: int, yy: int, cc: int|
                        0 <= xx < gw && 0 <= yy < gh && 0 <= cc < 4 && yy * gw + xx < it.pos()
                            implies #[trigger] img.chan(xx, yy, cc) == out_chan(
                            orig,
                            num as int,
                            xx,
                            yy,
                            cc,
                        ) by {
                        lemma_row_major(gw, gh, xx, yy, gx, gy);
                        if yy * gw + xx == k {
                            assert(xx == gx && yy == gy);
                        }
                    }
                    assert forall|xx: int, yy: int, cc: int|
                        0 <= xx < gw && 0 <= yy < gh && 0 <= cc < 4 && yy * gw + xx >= it.pos()
                            implies #[trigger] img.chan(xx, yy, cc) == orig.chan(xx, yy, cc) by {
                        if xx == gx && yy == gy {
                            assert(yy * gw + xx == k);
                        }
                    }
                }
            },
        }
    }
    Ok(())
}

/// Every pixel of the image shows the same color as the pixel (0, 0).
pub open spec fn is_uniform(im: Image) -> bool {
    forall|x: int, y: int, c: int|
        0 <= x < im.width && 0 <= y < im.height && 0 <= c < 4 ==> #[trigger] im.chan(x, y, c)
            == im.chan(0, 0, c)
}

proof fn lemma_uniform_row_sum(im: Image, x: int, y: int, c: int, n: int, v: int)
    requires
        is_uniform(im),
        0 <= c < 4,
        v == im.chan(0, 0, c),
        0 <= x,
        0 <= y < im.height,
        x + n <= im.width,
        n >= 0,
    ensures
        row_sum(im, x, y, c, n) == n * v,
    decreases n,
{
    if n == 0 {
        assert(0 * v == 0) by (nonlinear_arith);
    } else {
        lemma_uniform_row_sum(im, x, y, c, n - 1, v);
        assert(im.chan(x + n - 1, y, c) == v);
        assert((n - 1) * v + v == n * v) by (nonlinear_arith);
    }
}

proof fn lemma_uniform_win_sum(im: Image, x: int, y: int, c: int, s: int, rows: int, v: int)
    requires
        is_uniform(im),
        0 <= c < 4,
        v == im.chan(0, 0, c),
        0 <= x,
        0 <= y,
        x + s <= im.width,
        y + rows <= im.height,
        s >= 0,
        rows >= 0,
    ensures
        win_sum(im, x, y, c, s, rows) == s * rows * v,
    decreases rows,
{
    if rows == 0 {
        assert(s * 0 * v == 0) by (nonlinear_arith);
    } else {
        lemma_uniform_win_sum(im, x, y, c, s, rows - 1, v);
        lemma_uniform_row_sum(im, x, y + rows - 1, c, s, v);
        assert(s * (rows - 1) * v + s * v == s * rows * v) by (nonlinear_arith);
    }
}

proof fn lemma_uniform_row_dev(im: Image, x: int, y: int, c: int, m: int, n: int)
    requires
        is_uniform(im),
        0 <= c < 4,
        m == im.chan(0, 0, c),
        0 <= x,
        0 <= y < im.height,
        x + n <= im.width,
        n >= 0,
    ensures
        row_dev(im, x, y, c, m, n) == 0,
    decreases n,
{
    if n > 0 {
        lemma_uniform_row_dev(im, x, y, c, m, n - 1);
        assert(im.chan(x + n - 1, y, c) == m);
        assert(sq(0) == 0);
    }
}

proof fn lemma_uniform_win_dev(im: Image, x: int, y: int, c: int, m: int, s: int, rows: int)
    requires
        is_uniform(im),
        0 <= c < 4,
        m == im.chan(0, 0, c),
        0 <= x,
        0 <= y,
        x + s <= im.width,
        y + rows <= im.height,
        s >= 0,
        rows >= 0,
    ensures
        win_dev(im, x, y, c, m, s, rows) == 0,
    decreases rows,
{
    if rows > 0 {
        lemma_uniform_win_dev(im, x, y, c, m, s, rows - 1);
        lemma_uniform_row_dev(im, x, y + rows - 1, c, m, s);
    }
}

/// On a uniform image every window that fits has the uniform color as its
/// truncated mean on each channel, and zero total squared deviation.
pub proof fn lemma_uniform_entry(im: Image, ax: int, ay: int, s: int)
    requires
        is_uniform(im),
        s >= 1,
        0 <= ax,
        0 <= ay,
        ax + s <= im.width,
        ay + s <= im.height,
    ensures
        win_mean(im, ax, ay, 0, s) == im.chan(0, 0, 0),
        win_mean(im, ax, ay, 1, s) == im.chan(0, 0, 1),
        win_mean(im, ax, ay, 2, s) == im.chan(0, 0, 2),
        win_mean(im, ax, ay, 3, s) == im.chan(0, 0, 3),
        win_ssd(im, ax, ay, s) == 0,
{
    lemma_uniform_chan_stats(im, ax, ay, 0, s);
    lemma_uniform_chan_stats(im, ax, ay, 1, s);
    lemma_uniform_chan_stats(im, ax, ay, 2, s);
    lemma_uniform_chan_stats(im, ax, ay, 3, s);
}

proof fn lemma_uniform_chan_stats(im: Image, ax: int, ay: int, c: int, s: int)
    requires
        is_uniform(im),
        0 <= c < 4,
        s >= 1,
        0 <= ax,
        0 <= ay,
        ax + s <= im.width,
        ay + s <= im.height,
    ensures
        win_mean(im, ax, ay, c, s) == im.chan(0, 0, c),
        win_dev(im, ax, ay, c, win_mean(im, ax, ay, c, s), s, s) == 0,
{
    let v = im.chan(0, 0, c);
    assert(s * s >= 1) by (nonlinear_arith)
        requires
            s >= 1,
    ;
    lemma_uniform_win_sum(im, ax, ay, c, s, s, v);
    assert(s * s * v == (s * s) * v) by (nonlinear_arith);
    vstd::arithmetic::div_mod::lemma_div_multiples_vanish(v, s * s);
    assert(win_mean(im, ax, ay, c, s) == v);
    lemma_uniform_win_dev(im, ax, ay, c, v, s, s);
}

/// Identity on uniform images: where every pixel has the same color, the
/// filtered value of every pixel and channel equals the original, for any
/// radius the image admits — every quadrant's variance is zero and every
/// quadrant's mean is the original color, so any tie-break returns it.
pub proof fn lemma_uniform_identity(im: Image, num: int, x: int, y: int, c: int)
    requires
        im.wf(),
        is_uniform(im),
        num >= 0,
        !dims_too_small(im.width as int, im.height as int, num),
        0 <= x < im.width,
        0 <= y < im.height,
        0 <= c < 4,
    ensures
        out_chan(im, num, x, y, c) == im.chan(x, y, c),
{
    let s = num + 1;
    if x >= num && y >= num {
        lemma_uniform_entry(im, x - num, y - num, s);
    }
    if x < im.width - num && y >= num {
        lemma_uniform_entry(im, x, y - num, s);
    }
    if x >= num && y < im.height - num {
        lemma_uniform_entry(im, x - num, y, s);
    }
    if x < im.width - num && y < im.height - num {
        lemma_uniform_entry(im, x, y, s);
    }
    assert(im.chan(x, y, c) == im.chan(0, 0, c));
}

/// Window reuse: the window anchored at `(ax, ay)` is one entry serving as
/// the bottom-right quadrant of the pixel at the anchor itself, the
/// bottom-left quadrant of the pixel `num` columns right, the top-right
/// quadrant of the pixel `num` rows down, and the top-left quadrant of the
/// pixel `num` columns right and `num` rows down: all four lookups yield
/// the same statistics.
pub proof fn lemma_window_reuse(im: Image, num: int, ax: int, ay: int)
    requires
        num >= 0,
        0 <= ax < im.width - num,
        0 <= ay < im.height - num,
    ensures
        quad_bottom_right(im, num, ax, ay) == Some(spec_window_entry(im, ax, ay, num + 1)),
        quad_bottom_left(im, num, ax + num, ay) == quad_bottom_right(im, num, ax, ay),
        quad_top_right(im, num, ax, ay + num) == quad_bottom_right(im, num, ax, ay),
        quad_top_left(im, num, ax + num, ay + num) == quad_bottom_right(im, num, ax, ay),
{
}

/// Once the image admits the radius, every pixel has at least one valid
/// quadrant: the filter never falls back to the original color.
pub proof fn lemma_quadrant_coverage(im: Image, num: int, x: int, y: int)
    requires
        num >= 0,
        !dims_too_small(im.width as int, im.height as int, num),
        0 <= x < im.width,
        0 <= y < im.height,
    ensures
        selected(im, num, x, y) is Some,
{
    assert(x >= num || x < im.width - num);
    assert(y >= num || y < im.height - num);
}

/// Border fallback never fires: at the extreme corner of an image sized
/// exactly `2 * num + 1` square, exactly one quadrant is valid, and the
/// output pixel is that quadrant's mean.
pub proof fn lemma_corner_single_quadrant(im: Image, num: int)
    requires
        num >= 1,
        im.width == 2 * num + 1,
        im.height == 2 * num + 1,
    ensures
        quad_top_left(im, num, 0, 0) is None,
        quad_top_right(im, num, 0, 0) is None,
        quad_bottom_left(im, num, 0, 0) is None,
        quad_bottom_right(im, num, 0, 0) == Some(spec_window_entry(im, 0, 0, num + 1)),
        selected(im, num, 0, 0) == quad_bottom_right(im, num, 0, 0),
        out_chan(im, num, 0, 0, 0) == spec_window_entry(im, 0, 0, num + 1).r as int,
        out_chan(im, num, 0, 0, 1) == spec_window_entry(im, 0, 0, num + 1).g as int,
        out_chan(im, num, 0, 0, 2) == spec_window_entry(im, 0, 0, num + 1).b as int,
        out_chan(im, num, 0, 0, 3) == spec_window_entry(im, 0, 0, num + 1).a as int,
{
}

} // verus!
