//! Properties that relate several canvas operations, stated over the same
//! spec functions the operations' contracts use.

use vstd::prelude::*;

use crate::canvas::{color_at, fill_effect, pixel, read, rect_covers, set_effect, CoordinateSystem, Geometry, Rgba};

verus! {

/// A pixel on the frame has an index inside the frame, and each index of the
/// frame is the index of a pixel on it.
proof fn lemma_pixel_of_index(g: Geometry, p: int) -> (r: (int, int))
    requires
        g.wf(),
        0 <= p < g.physical_width * g.physical_height,
    ensures
        g.on_frame(r.0, r.1),
        g.index(r.0, r.1) == p,
{
    let w = g.physical_width as int;
    let h = g.physical_height as int;
    assert(w > 0) by (nonlinear_arith)
        requires
            0 <= p < w * h,
            h >= 0,
    ;
    vstd::arithmetic::div_mod::lemma_fundamental_div_mod(p, w);
    let px = p % w;
    let py = p / w;
    assert(0 <= px < w);
    assert(0 <= py < h) by (nonlinear_arith)
        requires
            p == w * py + px,
            0 <= px < w,
            0 <= p < w * h,
    ;
    (px, py)
}

/// Two frames of the same geometry that agree on every pixel are equal.
proof fn lemma_frames_equal(g: Geometry, a: Seq<u8>, b: Seq<u8>)
    requires
        g.wf(),
        a.len() == g.frame_len(),
        b.len() == g.frame_len(),
        forall|px: int, py: int| #[trigger] g.on_frame(px, py) ==> pixel(g, a, px, py) == pixel(g, b, px, py),
    ensures
        a == b,
{
    assert forall|i: int| 0 <= i < a.len() implies a[i] == b[i] by {
        let p = i / 4;
        let (px, py) = lemma_pixel_of_index(g, p);
        assert(g.on_frame(px, py));
        assert(color_at(a, p) == color_at(b, p));
    }
    assert(a =~= b);
}

/// Setting a point of the logical grid and then reading it back gives the
/// color that was set, when each logical pixel covers at least one physical
/// pixel.
pub proof fn law_set_then_get(g: Geometry, before: Seq<u8>, after: Seq<u8>, x: int, y: int, c: Rgba)
    requires
        g.wf(),
        before.len() == g.frame_len(),
        g.pixel_scale_x >= 1,
        g.pixel_scale_y >= 1,
        g.in_bounds(x, y),
        set_effect(g, before, after, x, y, c),
    ensures
        read(g, after, x, y) == Some(c),
{
    let (lx, ly) = g.map(x, y).unwrap();
    crate::canvas::lemma_block_fits(lx, g.pixel_scale_x as int, g.logical_width as int, g.physical_width as int);
    crate::canvas::lemma_block_fits(ly, g.pixel_scale_y as int, g.logical_height as int, g.physical_height as int);
    let px = lx * g.pixel_scale_x;
    let py = ly * g.pixel_scale_y;
    assert(g.on_frame(px, py));
    assert(g.covers(x, y, px, py));
}

/// On an unscaled canvas with its origin at the top-left, the point (0, 0)
/// stands for the pixel of buffer index 0 alone, and the point
/// (width - 1, height - 1) for the last pixel alone.
pub proof fn law_top_left_corners(g: Geometry)
    requires
        g.wf(),
        g.coordinate_system == CoordinateSystem::TopLeft,
        g.logical_width == g.physical_width,
        g.logical_height == g.physical_height,
    ensures
        forall|px: int, py: int| #[trigger] g.on_frame(px, py) ==> (g.covers(0, 0, px, py) <==> g.index(px, py) == 0),
        forall|px: int, py: int| #[trigger] g.on_frame(px, py) ==> (g.covers(
            g.logical_width - 1,
            g.logical_height - 1,
            px,
            py,
        ) <==> g.index(px, py) == g.physical_width * g.physical_height - 1),
{
    let w = g.physical_width as int;
    let h = g.physical_height as int;
    vstd::arithmetic::div_mod::lemma_div_by_self(w);
    vstd::arithmetic::div_mod::lemma_div_by_self(h);
    assert(g.index(0, 0) == 0);
    assert(g.index(w - 1, h - 1) == w * h - 1) by (nonlinear_arith)
        requires
            g.index(w - 1, h - 1) == (h - 1) * w + (w - 1),
    ;
    assert forall|px: int, py: int| #[trigger] g.on_frame(px, py) implies (g.covers(0, 0, px, py) <==> g.index(px, py) == 0) by {
        if px != 0 || py != 0 {
            crate::canvas::lemma_index_distinct(g, px, py, 0, 0);
        }
    }
    assert forall|px: int, py: int| #[trigger] g.on_frame(px, py) implies (g.covers(w - 1, h - 1, px, py) <==> g.index(px, py)
        == w * h - 1) by {
        if px != w - 1 || py != h - 1 {
            crate::canvas::lemma_index_distinct(g, px, py, w - 1, h - 1);
        }
    }
}

/// Whether physical pixel `(px, py)` lies in the block of one of the first
/// `n` points `(x + dx, y + dy)` of `offsets`.
spec fn some_offset_covers(g: Geometry, x: int, y: int, offsets: Seq<(int, int)>, n: int, px: int, py: int) -> bool {
    exists|i: int| 0 <= i < n && #[trigger] g.covers(x + offsets[i].0, y + offsets[i].1, px, py)
}

/// After the first `n` steps of a run of `set_pixel` effects, a pixel holds
/// `c` if one of those points covers it, and its first color otherwise.
proof fn lemma_run_prefix(
    g: Geometry,
    x: int,
    y: int,
    c: Rgba,
    offsets: Seq<(int, int)>,
    frames: Seq<Seq<u8>>,
    n: int,
)
    requires
        0 <= n <= offsets.len(),
        frames.len() == offsets.len() + 1,
        forall|i: int| 0 <= i < offsets.len() ==> set_effect(g, #[trigger] frames[i], frames[i + 1], x + offsets[i].0, y + offsets[i].1, c),
    ensures
        frames[n].len() == frames[0].len(),
        forall|px: int, py: int| #[trigger] g.on_frame(px, py) ==> pixel(g, frames[n], px, py) == if some_offset_covers(
            g,
            x,
            y,
            offsets,
            n,
            px,
            py,
        ) {
            c
        } else {
            pixel(g, frames[0], px, py)
        },
    decreases n,
{
    if n > 0 {
        lemma_run_prefix(g, x, y, c, offsets, frames, n - 1);
        let k = n - 1;
        assert(set_effect(g, frames[k], frames[k + 1], x + offsets[k].0, y + offsets[k].1, c));
        assert forall|px: int, py: int| #[trigger] g.on_frame(px, py) implies pixel(g, frames[n], px, py) == if some_offset_covers(
            g,
            x,
            y,
            offsets,
            n,
            px,
            py,
        ) {
            c
        } else {
            pixel(g, frames[0], px, py)
        } by {
            if g.covers(x + offsets[k].0, y + offsets[k].1, px, py) {
                assert(some_offset_covers(g, x, y, offsets, n, px, py));
            } else if some_offset_covers(g, x, y, offsets, n, px, py) {
                let i = choose|i: int| 0 <= i < n && #[trigger] g.covers(x + offsets[i].0, y + offsets[i].1, px, py);
                assert(some_offset_covers(g, x, y, offsets, k, px, py));
            } else {
                if some_offset_covers(g, x, y, offsets, k, px, py) {
                    let i = choose|i: int| 0 <= i < k && #[trigger] g.covers(x + offsets[i].0, y + offsets[i].1, px, py);
                    assert(some_offset_covers(g, x, y, offsets, n, px, py));
                }
            }
        }
    }
}

/// Filling a rectangle gives the same frame as setting each of its points
/// `(x + dx, y + dy)`, `0 <= dx < w`, `0 <= dy < h`, one after another, in
/// any order and with any repeats: `frames[i + 1]` is `frames[i]` after
/// setting the point of `offsets[i]`.
pub proof fn law_fill_rect_as_set_pixels(
    g: Geometry,
    before: Seq<u8>,
    after: Seq<u8>,
    x: int,
    y: int,
    w: int,
    h: int,
    c: Rgba,
    offsets: Seq<(int, int)>,
    frames: Seq<Seq<u8>>,
)
    requires
        g.wf(),
        before.len() == g.frame_len(),
        fill_effect(g, before, after, x, y, w, h, c),
        forall|dx: int, dy: int| 0 <= dx < w && 0 <= dy < h ==> offsets.contains((dx, dy)),
        forall|i: int| 0 <= i < offsets.len() ==> 0 <= #[trigger] offsets[i].0 < w && 0 <= offsets[i].1 < h,
        frames.len() == offsets.len() + 1,
        frames[0] == before,
        forall|i: int| 0 <= i < offsets.len() ==> set_effect(g, #[trigger] frames[i], frames[i + 1], x + offsets[i].0, y + offsets[i].1, c),
    ensures
        frames.last() == after,
{
    let n = offsets.len() as int;
    lemma_run_prefix(g, x, y, c, offsets, frames, n);
    assert forall|px: int, py: int| #[trigger] g.on_frame(px, py) implies pixel(g, frames[n], px, py) == pixel(g, after, px, py) by {
        if rect_covers(g, x, y, w, h, px, py) {
            let (dx, dy) = choose|dx: int, dy: int| 0 <= dx < w && 0 <= dy < h && #[trigger] g.covers(x + dx, y + dy, px, py);
            assert(offsets.contains((dx, dy)));
            let i = choose|i: int| 0 <= i < offsets.len() && offsets[i] == (dx, dy);
            assert(g.covers(x + offsets[i].0, y + offsets[i].1, px, py));
            assert(some_offset_covers(g, x, y, offsets, n, px, py));
        }
        if some_offset_covers(g, x, y, offsets, n, px, py) {
            let i = choose|i: int| 0 <= i < n && #[trigger] g.covers(x + offsets[i].0, y + offsets[i].1, px, py);
            assert(0 <= offsets[i].0 < w && 0 <= offsets[i].1 < h);
            assert(rect_covers(g, x, y, w, h, px, py));
        }
    }
    lemma_frames_equal(g, frames[n], after);
}

} // verus!
