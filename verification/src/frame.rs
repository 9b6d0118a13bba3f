//! RGBA frames as the recorder handles them: cropping to a region or to even
//! sizes, blitting a monitor's BGRA pixels into the stitched desktop, and
//! the desktop's bounds over all monitors.

use vstd::prelude::*;
use crate::encoder::{even_down, round_down_even};
use crate::text::{decimal, push_decimal};

verus! {

/// An RGBA image, rows top to bottom, four bytes per pixel.
pub struct Frame {
    pub width: u32,
    pub height: u32,
    pub rgba: Vec<u8>,
}

impl Frame {
    /// The buffer holds exactly `width * height` pixels.
    pub open spec fn wf(&self) -> bool {
        self.rgba@.len() == self.width * self.height * 4
    }
}

/// Byte offset of pixel (`x`, `y`) in an image `width` pixels wide.
pub open spec fn pixel_offset(width: int, x: int, y: int) -> int {
    (y * width + x) * 4
}

/// The four bytes (R, G, B, A) of pixel (`x`, `y`) of an RGBA buffer
/// `width` pixels wide.
pub open spec fn pixel(rgba: Seq<u8>, width: int, x: int, y: int) -> Seq<u8> {
    rgba.subrange(pixel_offset(width, x, y), pixel_offset(width, x, y) + 4)
}

/// Whether (`x`, `y`) lies in a `w` x `h` image.
pub open spec fn inside(w: int, h: int, x: int, y: int) -> bool {
    0 <= x < w && 0 <= y < h
}

/// Rows `y .. y + rows` of the `w`-pixel-wide window at column `x` of an
/// image `width` pixels wide, concatenated.
pub open spec fn crop_rows(src: Seq<u8>, width: int, x: int, y: int, w: int, rows: int) -> Seq<u8>
    decreases rows,
{
    if rows <= 0 {
        Seq::empty()
    } else {
        crop_rows(src, width, x, y, w, rows - 1) + src.subrange(
            pixel_offset(width, x, y + rows - 1),
            pixel_offset(width, x + w, y + rows - 1),
        )
    }
}

proof fn lemma_row_in_bounds(width: int, height: int, x: int, y: int, w: int, row: int)
    requires
        0 <= x,
        0 <= w,
        x + w <= width,
        0 <= y + row < height,
        0 <= row,
    ensures
        0 <= pixel_offset(width, x, y + row) <= pixel_offset(width, x + w, y + row),
        pixel_offset(width, x + w, y + row) <= width * height * 4,
        pixel_offset(width, x + w, y + row) - pixel_offset(width, x, y + row) == w * 4,
{
    assert(0 <= (y + row) * width) by (nonlinear_arith)
        requires
            0 <= y + row,
            0 <= x,
            0 <= w,
            x + w <= width,
    ;
    assert((y + row) * width + x + w <= height * width) by (nonlinear_arith)
        requires
            0 <= y + row,
            y + row + 1 <= height,
            0 <= x,
            0 <= w,
            x + w <= width,
    ;
    assert(height * width * 4 == width * height * 4) by (nonlinear_arith);
}

proof fn lemma_crop_rows_len(src: Seq<u8>, width: int, height: int, x: int, y: int, w: int, rows: int)
    requires
        src.len() == width * height * 4,
        0 <= x,
        0 <= y,
        0 <= w,
        0 <= rows,
        x + w <= width,
        y + rows <= height,
    ensures
        crop_rows(src, width, x, y, w, rows).len() == w * rows * 4,
    decreases rows,
{
    if rows > 0 {
        lemma_crop_rows_len(src, width, height, x, y, w, rows - 1);
        lemma_row_in_bounds(width, height, x, y, w, rows - 1);
        let a = pixel_offset(width, x, y + rows - 1);
        let b = pixel_offset(width, x + w, y + rows - 1);
        assert(crop_rows(src, width, x, y, w, rows) == crop_rows(src, width, x, y, w, rows - 1)
            + src.subrange(a, b));
        assert(w * (rows - 1) * 4 + w * 4 == w * rows * 4) by (nonlinear_arith);
    } else {
        assert(w * rows * 4 == 0) by (nonlinear_arith)
            requires
                rows == 0,
        ;
    }
}

/// The `w` x `h` window at (`x`, `y`) of `src`, as a new frame. The window
/// must lie inside the image.
pub fn crop(src: &Frame, x: u32, y: u32, w: u32, h: u32) -> (out: Frame)
    requires
        src.wf(),
        x + w <= src.width,
        y + h <= src.height,
    ensures
        out.wf(),
        out.width == w,
        out.height == h,
        out.rgba@ == crop_rows(src.rgba@, src.width as int, x as int, y as int, w as int, h as int),
{
    let mut out: Vec<u8> = Vec::new();
    let mut row: u32 = 0;
    let total = src.rgba.len();
    while row < h
        invariant
            src.wf(),
            total == src.rgba@.len(),
            x + w <= src.width,
            y + h <= src.height,
            row <= h,
            out@ == crop_rows(src.rgba@, src.width as int, x as int, y as int, w as int, row as int),
        decreases h - row,
    {
        proof {
            lemma_row_in_bounds(src.width as int, src.height as int, x as int, y as int, w as int, row as int);
            assert(0 <= (y + row) * src.width <= (y + row) * src.width + x) by (nonlinear_arith)
                requires
                    0 <= x,
                    0 <= y + row,
            ;
        }
        let start = ((y + row) as usize * src.width as usize + x as usize) * 4;
        let end = start + w as usize * 4;
        let mut k: usize = start;
        let ghost before = out@;
        while k < end
            invariant
                start <= k <= end,
                end <= src.rgba@.len(),
                out@ == before + src.rgba@.subrange(start as int, k as int),
            decreases end - k,
        {
            out.push(src.rgba[k]);
            assert(out@ =~= before + src.rgba@.subrange(start as int, k + 1));
            k = k + 1;
        }
        assert(out@ =~= crop_rows(src.rgba@, src.width as int, x as int, y as int, w as int, row + 1));
        row = row + 1;
    }
    proof {
        lemma_crop_rows_len(src.rgba@, src.width as int, src.height as int, x as int, y as int, w as int, h as int);
        assert(w as int * h as int * 4 == w * h * 4);
    }
    Frame { width: w, height: h, rgba: out }
}

/// `a - b`, or 0 when `b > a`.
pub open spec fn sat_sub(a: u32, b: u32) -> u32 {
    if b > a {
        0
    } else {
        (a - b) as u32
    }
}

/// The smaller of two values.
pub open spec fn min_u32(a: u32, b: u32) -> u32 {
    if a < b {
        a
    } else {
        b
    }
}

/// Where the recording region `r` (x, y, w, h in desktop coordinates) falls
/// in a desktop image `dw` x `dh` whose top-left is at `origin`: clamped to
/// the image, sizes rounded down to even; `None` when less than 16x16
/// remains.
pub open spec fn region_window(dw: u32, dh: u32, origin: (i32, i32), r: (i32, i32, u32, u32)) -> Option<
    (u32, u32, u32, u32),
> {
    let x = (if r.0 - origin.0 < 0 {
        0
    } else {
        r.0 - origin.0
    }) as u32;
    let y = (if r.1 - origin.1 < 0 {
        0
    } else {
        r.1 - origin.1
    }) as u32;
    let w = even_down(min_u32(r.2, sat_sub(dw, x)));
    let h = even_down(min_u32(r.3, sat_sub(dh, y)));
    if w < 16 || h < 16 {
        None
    } else {
        Some((x, y, w, h))
    }
}

/// A recording window always lies inside the desktop image, with even
/// sizes of at least 16 pixels.
pub proof fn lemma_region_window_inside(dw: u32, dh: u32, origin: (i32, i32), r: (i32, i32, u32, u32))
    ensures
        region_window(dw, dh, origin, r) matches Some((x, y, w, h)) ==> {
            &&& x + w <= dw
            &&& y + h <= dh
            &&& w % 2 == 0 && h % 2 == 0
            &&& w >= 16 && h >= 16
        },
{
}

/// Where the recording window sits and how large it is: its corner is the
/// region's corner relative to the desktop image's top-left, clamped at 0;
/// its sizes are the region's, cut to what remains of the image after that
/// corner, then rounded down to even (losing at most one pixel); and it
/// exists exactly when both sizes come to at least 16.
pub proof fn lemma_region_window_placement(dw: u32, dh: u32, origin: (i32, i32), r: (i32, i32, u32, u32))
    ensures
        ({
            let x: int = if r.0 - origin.0 < 0 { 0 } else { r.0 - origin.0 };
            let y: int = if r.1 - origin.1 < 0 { 0 } else { r.1 - origin.1 };
            let fit_w: int = if r.2 < dw - x { r.2 as int } else if dw - x < 0 { 0 } else { dw - x };
            let fit_h: int = if r.3 < dh - y { r.3 as int } else if dh - y < 0 { 0 } else { dh - y };
            match region_window(dw, dh, origin, r) {
                Some((wx, wy, ww, wh)) => {
                    &&& wx == x
                    &&& wy == y
                    &&& ww <= fit_w < ww + 2
                    &&& wh <= fit_h < wh + 2
                    &&& ww % 2 == 0 && wh % 2 == 0
                },
                None => fit_w < 16 || fit_h < 16,
            }
        }),
{
}

/// Crop a desktop image to the recording region (clamped, 2px-aligned).
pub fn crop_region(desktop: &Frame, origin: (i32, i32), r: (i32, i32, u32, u32)) -> (out: Option<Frame>)
    requires
        desktop.wf(),
        i32::MIN <= r.0 - origin.0 <= i32::MAX,
        i32::MIN <= r.1 - origin.1 <= i32::MAX,
    ensures
        match region_window(desktop.width, desktop.height, origin, r) {
            None => out is None,
            Some((x, y, w, h)) => out matches Some(f) && f.wf() && f.width == w && f.height == h
                && f.rgba@ == crop_rows(desktop.rgba@, desktop.width as int, x as int, y as int, w as int, h as int),
        },
{
    let (ox, oy) = origin;
    let (rx, ry, rw, rh) = r;
    let dx = rx - ox;
    let dy = ry - oy;
    let x: u32 = if dx < 0 { 0 } else { dx as u32 };
    let y: u32 = if dy < 0 { 0 } else { dy as u32 };
    let room_w: u32 = if x > desktop.width { 0 } else { desktop.width - x };
    let room_h: u32 = if y > desktop.height { 0 } else { desktop.height - y };
    let w = round_down_even(if rw < room_w { rw } else { room_w });
    let h = round_down_even(if rh < room_h { rh } else { room_h });
    if w < 16 || h < 16 {
        return None;
    }
    Some(crop(desktop, x, y, w, h))
}

/// A frame cut down to even width and height (the encoder needs them).
pub fn crop_to_even(frame: Frame) -> (out: Frame)
    requires
        frame.wf(),
    ensures
        out.wf(),
        out.width == even_down(frame.width),
        out.height == even_down(frame.height),
        out.rgba@ == (if out.width == frame.width && out.height == frame.height {
            frame.rgba@
        } else {
            crop_rows(frame.rgba@, frame.width as int, 0, 0, out.width as int, out.height as int)
        }),
{
    let fw = round_down_even(frame.width);
    let fh = round_down_even(frame.height);
    if fw != frame.width || fh != frame.height {
        crop(&frame, 0, 0, fw, fh)
    } else {
        frame
    }
}

/// BGRA(X) pixels as RGBA: blue and red swapped, alpha opaque.
pub open spec fn bgra_to_rgba(b: Seq<u8>) -> Seq<u8> {
    Seq::new(
        b.len(),
        |i: int|
            if i % 4 == 0 {
                b[i + 2]
            } else if i % 4 == 1 {
                b[i]
            } else if i % 4 == 2 {
                b[i - 2]
            } else {
                255u8
            },
    )
}

/// `s` with `d` written over it from position `at`.
pub open spec fn splice(s: Seq<u8>, at: int, d: Seq<u8>) -> Seq<u8> {
    s.subrange(0, at) + d + s.subrange(at + d.len(), s.len() as int)
}

/// The canvas after its first `rows` rows of the `w`-pixel-wide BGRA image
/// `src` were copied, converted, to (`dx`, `dy`) of a canvas `cw` wide.
pub open spec fn blit_rows(canvas: Seq<u8>, cw: int, src: Seq<u8>, dx: int, dy: int, w: int, rows: int) -> Seq<u8>
    decreases rows,
{
    if rows <= 0 {
        canvas
    } else {
        splice(
            blit_rows(canvas, cw, src, dx, dy, w, rows - 1),
            pixel_offset(cw, dx, dy + rows - 1),
            bgra_to_rgba(src.subrange(pixel_offset(w, 0, rows - 1), pixel_offset(w, 0, rows))),
        )
    }
}

pub open spec fn outside_canvas_message() -> Seq<char> {
    "monitor outside canvas"@
}

pub open spec fn short_frame_message(len: nat, need: nat) -> Seq<char> {
    "short frame: "@ + decimal(len) + " < "@ + decimal(need)
}

/// Bulk BGRA(X)->RGBA blit of one monitor (`w` x `h` pixels in `src`) into
/// the stitched canvas at (`dst_x`, `dst_y`).
pub fn blit_bgra(src: &[u8], canvas: &mut Frame, dst_x: u32, dst_y: u32, w: u32, h: u32) -> (r: Result<(), String>)
    requires
        old(canvas).wf(),
        dst_x + w <= u32::MAX,
        dst_y + h <= u32::MAX,
        dst_x + w <= old(canvas).width && dst_y + h <= old(canvas).height ==> w * h * 4 <= u32::MAX,
    ensures
        final(canvas).wf(),
        final(canvas).width == old(canvas).width,
        final(canvas).height == old(canvas).height,
        match r {
            Ok(()) => {
                &&& dst_x + w <= old(canvas).width && dst_y + h <= old(canvas).height
                &&& src@.len() >= w * h * 4
                &&& final(canvas).rgba@ == blit_rows(
                    old(canvas).rgba@,
                    old(canvas).width as int,
                    src@,
                    dst_x as int,
                    dst_y as int,
                    w as int,
                    h as int,
                )
            },
            Err(e) => {
                &&& final(canvas).rgba@ == old(canvas).rgba@
                &&& if dst_x + w > old(canvas).width || dst_y + h > old(canvas).height {
                    e@ == outside_canvas_message()
                } else {
                    src@.len() < w * h * 4 && e@ == short_frame_message(src@.len(), (w * h * 4) as nat)
                }
            },
        },
{
    let cw = canvas.width;
    let ch = canvas.height;
    if dst_x + w > cw || dst_y + h > ch {
        return Err("monitor outside canvas".to_owned());
    }
    let need = w * h * 4;
    if src.len() < need as usize {
        let mut msg = "short frame: ".to_owned();
        push_decimal(&mut msg, src.len() as u64);
        msg.append(" < ");
        push_decimal(&mut msg, need as u64);
        return Err(msg);
    }
    let ghost orig = canvas.rgba@;
    let total = canvas.rgba.len();
    let slen = src.len();
    let mut row: u32 = 0;
    while row < h
        invariant
            canvas.wf(),
            canvas.width == cw,
            canvas.height == ch,
            total == canvas.rgba@.len(),
            slen == src@.len(),
            dst_x + w <= cw,
            dst_y + h <= ch,
            src@.len() >= w * h * 4,
            row <= h,
            canvas.rgba@ == blit_rows(orig, cw as int, src@, dst_x as int, dst_y as int, w as int, row as int),
        decreases h - row,
    {
        proof {
            lemma_row_in_bounds(cw as int, ch as int, dst_x as int, dst_y as int, w as int, row as int);
            assert(0 <= (dst_y + row) * cw <= (dst_y + row) * cw + dst_x) by (nonlinear_arith)
                requires
                    0 <= dst_x,
                    0 <= dst_y + row,
            ;
            assert(0 <= row * w && row * w * 4 <= (row + 1) * w * 4 && (row + 1) * w * 4 <= w * h * 4 && (row + 1) * w * 4 == row * w * 4 + w * 4) by (nonlinear_arith)
                requires
                    row + 1 <= h,
                    0 <= w,
            ;
        }
        let s_off = (row as usize * w as usize) * 4;
        let d_off = ((dst_y + row) as usize * cw as usize + dst_x as usize) * 4;
        let ghost before = canvas.rgba@;
        let ghost srow = src@.subrange(pixel_offset(w as int, 0, row as int), pixel_offset(w as int, 0, row + 1));
        let ghost conv = bgra_to_rgba(srow);
        assert(srow.len() == w * 4);
        let mut j: u32 = 0;
        assert(conv.take(0) =~= Seq::<u8>::empty());
        assert(canvas.rgba@ =~= splice(before, d_off as int, conv.take(0)));
        while j < w
            invariant
                canvas.wf(),
                canvas.width == cw,
                canvas.height == ch,
                total == canvas.rgba@.len(),
                slen == src@.len(),
                before.len() == total,
                j <= w,
                d_off + w * 4 <= total,
                s_off + w * 4 <= src@.len(),
                s_off == pixel_offset(w as int, 0, row as int),
                srow == src@.subrange(s_off as int, s_off + w * 4),
                conv == bgra_to_rgba(srow),
                canvas.rgba@ == splice(before, d_off as int, conv.take(4 * j as int)),
            decreases w - j,
        {
            let si = s_off + j as usize * 4;
            let di = d_off + j as usize * 4;
            let b = src[si];
            let g = src[si + 1];
            let rr = src[si + 2];
            canvas.rgba.set(di, rr);
            canvas.rgba.set(di + 1, g);
            canvas.rgba.set(di + 2, b);
            canvas.rgba.set(di + 3, 255);
            assert(conv[4 * j as int] == rr);
            assert(conv[4 * j + 1] == g);
            assert(conv[4 * j + 2] == b);
            assert(conv[4 * j + 3] == 255);
            assert(canvas.rgba@ =~= splice(before, d_off as int, conv.take(4 * (j + 1))));
            j = j + 1;
        }
        assert(conv.take(4 * w as int) =~= conv);
        assert(pixel_offset(cw as int, dst_x as int, dst_y + row) == d_off);
        assert(canvas.rgba@ == blit_rows(orig, cw as int, src@, dst_x as int, dst_y as int, w as int, row + 1));
        row = row + 1;
    }
    Ok(())
}

/// A monitor's geometry: x, y (may be negative), width, height.
pub type MonitorRect = (i32, i32, u32, u32);

/// Right edge of a monitor, as the capturer computes it (`x + w as i32`).
pub open spec fn right_edge(m: MonitorRect) -> int {
    m.0 + (m.2 as i32)
}

/// Bottom edge of a monitor (`y + h as i32`).
pub open spec fn bottom_edge(m: MonitorRect) -> int {
    m.1 + (m.3 as i32)
}

pub open spec fn fold_min_x(ms: Seq<MonitorRect>) -> i32
    decreases ms.len(),
{
    if ms.len() == 0 {
        i32::MAX
    } else {
        let a = fold_min_x(ms.drop_last());
        if ms.last().0 < a { ms.last().0 } else { a }
    }
}

pub open spec fn fold_min_y(ms: Seq<MonitorRect>) -> i32
    decreases ms.len(),
{
    if ms.len() == 0 {
        i32::MAX
    } else {
        let a = fold_min_y(ms.drop_last());
        if ms.last().1 < a { ms.last().1 } else { a }
    }
}

pub open spec fn fold_max_x(ms: Seq<MonitorRect>) -> int
    decreases ms.len(),
{
    if ms.len() == 0 {
        i32::MIN as int
    } else {
        let a = fold_max_x(ms.drop_last());
        if right_edge(ms.last()) > a { right_edge(ms.last()) } else { a }
    }
}

pub open spec fn fold_max_y(ms: Seq<MonitorRect>) -> int
    decreases ms.len(),
{
    if ms.len() == 0 {
        i32::MIN as int
    } else {
        let a = fold_max_y(ms.drop_last());
        if bottom_edge(ms.last()) > a { bottom_edge(ms.last()) } else { a }
    }
}

/// The stitched virtual desktop: top-left corner and size in physical pixels.
pub struct DesktopBounds {
    pub min_x: i32,
    pub min_y: i32,
    pub width: u32,
    pub height: u32,
}

/// Every monitor's edges, and the desktop's extent, fit in 32-bit signed
/// coordinates (the capturer's arithmetic).
pub open spec fn monitors_in_range(ms: Seq<MonitorRect>) -> bool {
    &&& forall|i: int| 0 <= i < ms.len() ==> i32::MIN <= #[trigger] right_edge(ms[i]) <= i32::MAX
    &&& forall|i: int| 0 <= i < ms.len() ==> i32::MIN <= #[trigger] bottom_edge(ms[i]) <= i32::MAX
    &&& ms.len() > 0 ==> i32::MIN <= fold_max_x(ms) - fold_min_x(ms) <= i32::MAX
    &&& ms.len() > 0 ==> i32::MIN <= fold_max_y(ms) - fold_min_y(ms) <= i32::MAX
}

/// The bounding box of all monitors: the top-left corner is the smallest x
/// and y, the size reaches the largest right and bottom edge.
pub fn desktop_bounds(monitors: &Vec<MonitorRect>) -> (r: Result<DesktopBounds, String>)
    requires
        monitors_in_range(monitors@),
    ensures
        match r {
            Ok(b) => {
                &&& monitors@.len() > 0
                &&& b.min_x == fold_min_x(monitors@)
                &&& b.min_y == fold_min_y(monitors@)
                &&& b.width == (fold_max_x(monitors@) - fold_min_x(monitors@)) as u32
                &&& b.height == (fold_max_y(monitors@) - fold_min_y(monitors@)) as u32
            },
            Err(e) => monitors@.len() == 0 && e@ == "no monitors found"@,
        },
{
    if monitors.len() == 0 {
        return Err("no monitors found".to_owned());
    }
    let ghost ms = monitors@;
    let n = monitors.len();
    let mut min_x = i32::MAX;
    let mut min_y = i32::MAX;
    let mut max_x = i32::MIN;
    let mut max_y = i32::MIN;
    let mut i: usize = 0;
    assert(ms.take(0) =~= Seq::<MonitorRect>::empty());
    while i < n
        invariant
            n == ms.len(),
            ms == monitors@,
            i <= n,
            monitors_in_range(ms),
            min_x == fold_min_x(ms.take(i as int)),
            min_y == fold_min_y(ms.take(i as int)),
            max_x == fold_max_x(ms.take(i as int)),
            max_y == fold_max_y(ms.take(i as int)),
        decreases n - i,
    {
        let (x, y, w, h) = monitors[i];
        assert(ms.take(i + 1).drop_last() =~= ms.take(i as int));
        assert(right_edge(ms[i as int]) == x + (w as i32));
        assert(bottom_edge(ms[i as int]) == y + (h as i32));
        if x < min_x {
            min_x = x;
        }
        if y < min_y {
            min_y = y;
        }
        let right = x + w as i32;
        let bottom = y + h as i32;
        if right > max_x {
            max_x = right;
        }
        if bottom > max_y {
            max_y = bottom;
        }
        i = i + 1;
    }
    assert(ms.take(n as int) =~= ms);
    Ok(DesktopBounds {
        min_x,
        min_y,
        width: (max_x - min_x) as u32,
        height: (max_y - min_y) as u32,
    })
}

/// The desktop bounds enclose every monitor, and are tight: the corner is
/// some monitor's corner coordinate and the far edges are some monitor's
/// edges. Negative offsets are merged like any other.
pub proof fn lemma_desktop_bounds_enclose(ms: Seq<MonitorRect>)
    requires
        ms.len() > 0,
        forall|i: int| 0 <= i < ms.len() ==> i32::MIN <= #[trigger] right_edge(ms[i]),
        forall|i: int| 0 <= i < ms.len() ==> i32::MIN <= #[trigger] bottom_edge(ms[i]),
    ensures
        forall|i: int|
            0 <= i < ms.len() ==> fold_min_x(ms) <= #[trigger] ms[i].0 && right_edge(ms[i]) <= fold_max_x(ms),
        forall|i: int|
            0 <= i < ms.len() ==> fold_min_y(ms) <= #[trigger] ms[i].1 && bottom_edge(ms[i]) <= fold_max_y(ms),
        exists|i: int| 0 <= i < ms.len() && #[trigger] ms[i].0 == fold_min_x(ms),
        exists|i: int| 0 <= i < ms.len() && #[trigger] ms[i].1 == fold_min_y(ms),
        exists|i: int| 0 <= i < ms.len() && #[trigger] right_edge(ms[i]) == fold_max_x(ms),
        exists|i: int| 0 <= i < ms.len() && #[trigger] bottom_edge(ms[i]) == fold_max_y(ms),
    decreases ms.len(),
{
    let dl = ms.drop_last();
    let k = ms.len() - 1;
    assert(ms[k] == ms.last());
    if ms.len() > 1 {
        assert forall|i: int| 0 <= i < dl.len() implies #[trigger] ms[i] == dl[i] by {}
        assert forall|i: int| 0 <= i < dl.len() implies i32::MIN <= #[trigger] right_edge(dl[i]) by {
            assert(ms[i] == dl[i]);
        }
        assert forall|i: int| 0 <= i < dl.len() implies i32::MIN <= #[trigger] bottom_edge(dl[i]) by {
            assert(ms[i] == dl[i]);
        }
        lemma_desktop_bounds_enclose(dl);
        let wx: int = if ms[k].0 == fold_min_x(ms) {
            k
        } else {
            choose|j: int| 0 <= j < dl.len() && #[trigger] dl[j].0 == fold_min_x(dl)
        };
        assert(ms[wx].0 == fold_min_x(ms));
        let wy: int = if ms[k].1 == fold_min_y(ms) {
            k
        } else {
            choose|j: int| 0 <= j < dl.len() && #[trigger] dl[j].1 == fold_min_y(dl)
        };
        assert(ms[wy].1 == fold_min_y(ms));
        let wr: int = if right_edge(ms[k]) == fold_max_x(ms) {
            k
        } else {
            choose|j: int| 0 <= j < dl.len() && #[trigger] right_edge(dl[j]) == fold_max_x(dl)
        };
        assert(right_edge(ms[wr]) == fold_max_x(ms));
        let wb: int = if bottom_edge(ms[k]) == fold_max_y(ms) {
            k
        } else {
            choose|j: int| 0 <= j < dl.len() && #[trigger] bottom_edge(dl[j]) == fold_max_y(dl)
        };
        assert(bottom_edge(ms[wb]) == fold_max_y(ms));
    } else {
        assert(dl.len() == 0);
        assert(fold_min_x(dl) == i32::MAX);
        assert(fold_min_y(dl) == i32::MAX);
        assert(fold_max_x(dl) == i32::MIN);
        assert(fold_max_y(dl) == i32::MIN);
        assert(i32::MIN <= right_edge(ms[0]));
        assert(i32::MIN <= bottom_edge(ms[0]));
        assert(ms[0].0 == fold_min_x(ms));
        assert(ms[0].1 == fold_min_y(ms));
        assert(right_edge(ms[0]) == fold_max_x(ms));
        assert(bottom_edge(ms[0]) == fold_max_y(ms));
    }
}

pub open spec fn unsupported_depth_message(depth: u8) -> Seq<char> {
    "unsupported X depth "@ + decimal(depth as nat)
}

/// Places one monitor's X11 image (Z-pixmap reply of `depth` bits) into the
/// canvas: depths 24 and 32 are little-endian BGRX/BGRA and get blitted,
/// other depths are refused.
pub fn blit_x11_image(
    depth: u8,
    data: &[u8],
    canvas: &mut Frame,
    dst_x: u32,
    dst_y: u32,
    w: u32,
    h: u32,
) -> (r: Result<(), String>)
    requires
        old(canvas).wf(),
        dst_x + w <= u32::MAX,
        dst_y + h <= u32::MAX,
        dst_x + w <= old(canvas).width && dst_y + h <= old(canvas).height ==> w * h * 4 <= u32::MAX,
    ensures
        final(canvas).wf(),
        final(canvas).width == old(canvas).width,
        final(canvas).height == old(canvas).height,
        depth != 24 && depth != 32 ==> (r matches Err(e) && e@ == unsupported_depth_message(depth)
            && final(canvas).rgba@ == old(canvas).rgba@),
        (depth == 24 || depth == 32) ==> match r {
            Ok(()) => {
                &&& dst_x + w <= old(canvas).width && dst_y + h <= old(canvas).height
                &&& data@.len() >= w * h * 4
                &&& final(canvas).rgba@ == blit_rows(
                    old(canvas).rgba@,
                    old(canvas).width as int,
                    data@,
                    dst_x as int,
                    dst_y as int,
                    w as int,
                    h as int,
                )
            },
            Err(e) => {
                &&& final(canvas).rgba@ == old(canvas).rgba@
                &&& if dst_x + w > old(canvas).width || dst_y + h > old(canvas).height {
                    e@ == outside_canvas_message()
                } else {
                    data@.len() < w * h * 4 && e@ == short_frame_message(
                        data@.len(),
                        (w * h * 4) as nat,
                    )
                }
            },
        },
{
    if depth != 24 && depth != 32 {
        let mut msg = "unsupported X depth ".to_owned();
        push_decimal(&mut msg, depth as u64);
        return Err(msg);
    }
    blit_bgra(data, canvas, dst_x, dst_y, w, h)
}

} // verus!
