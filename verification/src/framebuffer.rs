//! Rendering a tile into a private buffer and committing that buffer into the
//! row-major framebuffer of the whole canvas.

use vstd::prelude::*;
use crate::math::Vec2;
use crate::tile::Rect;
use crate::tile::ThreadDescryptor;
use crate::tile::lemma_grid_index;
use crate::tile::lemma_index_in_grid;
use crate::tile::lemma_partition_covers_canvas;
use crate::tile::lemma_pixel_in_its_tile;
use crate::tile::tile_count;
use crate::tile::tile_index_of;
use crate::tile::tile_rect;

verus! {

/// Where the pixel with row-major index `i` on a canvas of the given width lies
/// in the row-major buffer of a tile that covers `rect`.
pub open spec fn local_index(width: int, rect: Rect, i: int) -> int {
    (i / width - rect.y) * rect.w + (i % width - rect.x)
}

/// The framebuffer after the pixels of one tile have been committed: inside
/// the tile's rectangle the tile's pixels, elsewhere what was there before.
pub open spec fn committed<P>(buffer: Seq<P>, width: int, rect: Rect, pixels: Seq<P>) -> Seq<P> {
    Seq::new(
        buffer.len(),
        |i: int|
            if rect.contains(i % width, i / width) {
                pixels[local_index(width, rect, i)]
            } else {
                buffer[i]
            },
    )
}

/// Whether pixel `i` lies in the part of `rect` that is written once `rows`
/// full rows of the tile and `cols` pixels of the next row are done.
spec fn in_done(width: int, rect: Rect, i: int, rows: int, cols: int) -> bool {
    let px = i % width;
    let py = i / width;
    rect.contains(px, py) && (py - rect.y < rows || (py - rect.y == rows && px - rect.x < cols))
}

/// The framebuffer while a commit is under way.
spec fn partly_committed<P>(
    buffer: Seq<P>,
    width: int,
    rect: Rect,
    pixels: Seq<P>,
    rows: int,
    cols: int,
) -> Seq<P> {
    Seq::new(
        buffer.len(),
        |i: int|
            if in_done(width, rect, i, rows, cols) {
                pixels[local_index(width, rect, i)]
            } else {
                buffer[i]
            },
    )
}

/// Renders one tile into a buffer of its own, in row-major order: `sample` is
/// called once for each pixel of the tile, with the pixel's coordinates on the
/// canvas, and what it returns becomes that pixel.
pub fn render_tile<V, P, F: Fn(usize, usize) -> P>(desc: &ThreadDescryptor<V>, sample: F) -> (pixels:
    Vec<P>)
    requires
        desc.offset.x + desc.thread_size.x <= usize::MAX,
        desc.offset.y + desc.thread_size.y <= usize::MAX,
        forall|px: usize, py: usize|
            desc.rect().contains(px as int, py as int) ==> #[trigger] call_requires(sample, (px, py)),
    ensures
        pixels@.len() == desc.thread_size.x * desc.thread_size.y,
        forall|i: int|
            0 <= i < pixels@.len() ==> call_ensures(
                sample,
                (
                    (desc.offset.x + i % (desc.thread_size.x as int)) as usize,
                    (desc.offset.y + i / (desc.thread_size.x as int)) as usize,
                ),
                #[trigger] pixels@[i],
            ),
{
    let w = desc.thread_size.x;
    let h = desc.thread_size.y;
    let mut pixels: Vec<P> = Vec::new();
    assert(0 * w == 0) by (nonlinear_arith);
    for y in 0..h
        invariant
            w == desc.thread_size.x,
            h == desc.thread_size.y,
            desc.offset.x + w <= usize::MAX,
            desc.offset.y + h <= usize::MAX,
            forall|px: usize, py: usize|
                desc.rect().contains(px as int, py as int) ==> #[trigger] call_requires(sample, (px, py)),
            pixels@.len() == y * w,
            forall|i: int|
                0 <= i < pixels@.len() ==> call_ensures(
                    sample,
                    ((desc.offset.x + i % (w as int)) as usize, (desc.offset.y + i / (w as int)) as usize),
                    #[trigger] pixels@[i],
                ),
    {
        for x in 0..w
            invariant
                w == desc.thread_size.x,
                h == desc.thread_size.y,
                0 <= y < h,
                desc.offset.x + w <= usize::MAX,
                desc.offset.y + h <= usize::MAX,
                forall|px: usize, py: usize|
                    desc.rect().contains(px as int, py as int) ==> #[trigger] call_requires(sample, (px, py)),
                pixels@.len() == y * w + x,
                forall|i: int|
                    0 <= i < pixels@.len() ==> call_ensures(
                        sample,
                        (
                            (desc.offset.x + i % (w as int)) as usize,
                            (desc.offset.y + i / (w as int)) as usize,
                        ),
                        #[trigger] pixels@[i],
                    ),
        {
            proof {
                lemma_grid_index(w as int, h as int, x as int, y as int);
            }
            let pixel_color = sample(x + desc.offset.x, y + desc.offset.y);
            pixels.push(pixel_color);
        }
        assert((y + 1) * w == y * w + w) by (nonlinear_arith);
    }
    assert(h * w == w * h) by (nonlinear_arith);
    pixels
}

/// Copies the pixels of a rendered tile into the framebuffer at the tile's
/// offset. Pixels outside the tile's rectangle keep their value.
pub fn commit_tile<V, P: Copy>(
    color_buffer: &mut Vec<P>,
    desc: &ThreadDescryptor<V>,
    pixels: &Vec<P>,
)
    requires
        desc.wf(),
        old(color_buffer)@.len() == desc.color_buffer_size.x * desc.color_buffer_size.y,
        pixels@.len() == desc.thread_size.x * desc.thread_size.y,
    ensures
        final(color_buffer)@ == committed(
            old(color_buffer)@,
            desc.color_buffer_size.x as int,
            desc.rect(),
            pixels@,
        ),
{
    let w = desc.thread_size.x;
    let h = desc.thread_size.y;
    let ox = desc.offset.x;
    let oy = desc.offset.y;
    let width = desc.color_buffer_size.x;
    let buffer_len = color_buffer.len();
    let pixel_count = pixels.len();
    let ghost height = desc.color_buffer_size.y as int;
    let ghost before = color_buffer@;
    let ghost rect = desc.rect();
    assert(color_buffer@ =~= partly_committed(before, width as int, rect, pixels@, 0, 0));
    for y in 0..h
        invariant
            desc.wf(),
            rect == desc.rect(),
            w == desc.thread_size.x,
            h == desc.thread_size.y,
            ox == desc.offset.x,
            oy == desc.offset.y,
            width == desc.color_buffer_size.x,
            height == desc.color_buffer_size.y,
            before.len() == width * height,
            before.len() == buffer_len,
            pixels@.len() == w * h,
            pixels@.len() == pixel_count,
            color_buffer@ =~= partly_committed(before, width as int, rect, pixels@, y as int, 0),
    {
        for x in 0..w
            invariant
                desc.wf(),
                rect == desc.rect(),
                w == desc.thread_size.x,
                h == desc.thread_size.y,
                ox == desc.offset.x,
                oy == desc.offset.y,
                width == desc.color_buffer_size.x,
                height == desc.color_buffer_size.y,
                0 <= y < h,
                before.len() == width * height,
                before.len() == buffer_len,
                pixels@.len() == w * h,
                pixels@.len() == pixel_count,
                color_buffer@ =~= partly_committed(
                    before,
                    width as int,
                    rect,
                    pixels@,
                    y as int,
                    x as int,
                ),
        {
            proof {
                lemma_grid_index(width as int, height, x + ox, y + oy);
                lemma_grid_index(w as int, h as int, x as int, y as int);
                assert(0 <= (y + oy) * width) by (nonlinear_arith);
                assert(0 <= y * w) by (nonlinear_arith);
            }
            let ghost target = (y + oy) * width + (x + ox);
            let ghost prior = color_buffer@;
            let value = pixels[y * w + x];
            color_buffer.set((y + oy) * width + (x + ox), value);
            proof {
                let next = partly_committed(before, width as int, rect, pixels@, y as int, x + 1);
                assert forall|i: int| 0 <= i < before.len() implies color_buffer@[i] == next[i] by {
                    lemma_index_in_grid(width as int, height, i);
                    if i != target {
                        assert(color_buffer@[i] == prior[i]);
                        assert(in_done(width as int, rect, i, y as int, x as int) == in_done(
                            width as int,
                            rect,
                            i,
                            y as int,
                            x + 1,
                        ));
                    }
                }
                assert(color_buffer@ =~= next);
            }
        }
        proof {
            assert forall|i: int| 0 <= i < before.len() implies in_done(
                width as int,
                rect,
                i,
                y as int,
                w as int,
            ) == in_done(width as int, rect, i, y + 1, 0) by {}
            assert(partly_committed(before, width as int, rect, pixels@, y as int, w as int)
                =~= partly_committed(before, width as int, rect, pixels@, y + 1, 0));
        }
    }
    proof {
        assert(partly_committed(before, width as int, rect, pixels@, h as int, 0) =~= committed(
            before,
            width as int,
            rect,
            pixels@,
        ));
    }
}

/// The framebuffer after the tiles that `order` names have been committed one
/// after the other; tile `k` covers `rects[k]` and has the pixels `pixels[k]`.
pub open spec fn commit_all<P>(
    buffer: Seq<P>,
    width: int,
    rects: Seq<Rect>,
    pixels: Seq<Seq<P>>,
    order: Seq<int>,
) -> Seq<P>
    decreases order.len(),
{
    if order.len() == 0 {
        buffer
    } else {
        let k = order.last();
        committed(
            commit_all(buffer, width, rects, pixels, order.drop_last()),
            width,
            rects[k],
            pixels[k],
        )
    }
}

/// No pixel lies in two of the rectangles.
pub open spec fn pairwise_disjoint(rects: Seq<Rect>) -> bool {
    forall|i: int, j: int, px: int, py: int|
        0 <= i < rects.len() && 0 <= j < rects.len() && #[trigger] rects[i].contains(px, py)
            && #[trigger] rects[j].contains(px, py) ==> i == j
}

/// Every entry of `order` is the index of one of `n` tiles.
pub open spec fn valid_order(order: Seq<int>, n: int) -> bool {
    forall|j: int| 0 <= j < order.len() ==> 0 <= #[trigger] order[j] < n
}

/// The rectangles of the partition of a canvas, in row-major order.
pub open spec fn partition_rects(canvas: Vec2<usize>, tile: Vec2<usize>) -> Seq<Rect> {
    Seq::new(tile_count(canvas, tile) as nat, |i: int| tile_rect(canvas, tile, i))
}

/// What a pixel holds after a series of commits of disjoint tiles: the pixel
/// of the committed tile that covers it, whenever that tile was committed, and
/// what it held before where no committed tile covers it.
pub proof fn lemma_commit_all_pixel<P>(
    buffer: Seq<P>,
    width: int,
    rects: Seq<Rect>,
    pixels: Seq<Seq<P>>,
    order: Seq<int>,
    i: int,
)
    requires
        pairwise_disjoint(rects),
        valid_order(order, rects.len() as int),
        0 <= i < buffer.len(),
    ensures
        commit_all(buffer, width, rects, pixels, order).len() == buffer.len(),
        forall|j: int|
            0 <= j < order.len() && rects[#[trigger] order[j]].contains(i % width, i / width)
                ==> commit_all(buffer, width, rects, pixels, order)[i] == pixels[order[j]][local_index(
                width,
                rects[order[j]],
                i,
            )],
        (forall|j: int|
            0 <= j < order.len() ==> !rects[#[trigger] order[j]].contains(i % width, i / width))
            ==> commit_all(buffer, width, rects, pixels, order)[i] == buffer[i],
    decreases order.len(),
{
    if order.len() > 0 {
        let earlier = order.drop_last();
        let k = order.last();
        lemma_commit_all_pixel(buffer, width, rects, pixels, earlier, i);
        let before = commit_all(buffer, width, rects, pixels, earlier);
        let after = commit_all(buffer, width, rects, pixels, order);
        assert(after == committed(before, width, rects[k], pixels[k]));
        assert(0 <= k < rects.len()) by {
            assert(k == order[order.len() - 1]);
        }
        assert forall|j: int|
            0 <= j < order.len() && rects[#[trigger] order[j]].contains(
                i % width,
                i / width,
            ) implies after[i] == pixels[order[j]][local_index(width, rects[order[j]], i)] by {
            if rects[k].contains(i % width, i / width) {
                assert(order[j] == k);
            } else {
                assert(j < earlier.len());
                assert(earlier[j] == order[j]);
            }
        }
        if forall|j: int|
            0 <= j < order.len() ==> !rects[#[trigger] order[j]].contains(i % width, i / width) {
            assert(!rects[order[order.len() - 1]].contains(i % width, i / width));
            assert forall|j: int| 0 <= j < earlier.len() implies !rects[#[trigger] earlier[j]].contains(
                i % width,
                i / width,
            ) by {
                assert(earlier[j] == order[j]);
            }
        }
    }
}

/// The order in which disjoint tiles are committed does not change the
/// result: two series of commits that name the same tiles leave the same
/// framebuffer.
pub proof fn lemma_commit_order_independent<P>(
    buffer: Seq<P>,
    width: int,
    rects: Seq<Rect>,
    pixels: Seq<Seq<P>>,
    first: Seq<int>,
    second: Seq<int>,
)
    requires
        pairwise_disjoint(rects),
        valid_order(first, rects.len() as int),
        valid_order(second, rects.len() as int),
        forall|k: int| first.contains(k) <==> second.contains(k),
    ensures
        commit_all(buffer, width, rects, pixels, first) == commit_all(
            buffer,
            width,
            rects,
            pixels,
            second,
        ),
{
    let a = commit_all(buffer, width, rects, pixels, first);
    let b = commit_all(buffer, width, rects, pixels, second);
    if buffer.len() > 0 {
        lemma_commit_all_pixel(buffer, width, rects, pixels, first, 0);
        lemma_commit_all_pixel(buffer, width, rects, pixels, second, 0);
    } else {
        lemma_commit_all_keeps_len(buffer, width, rects, pixels, first);
        lemma_commit_all_keeps_len(buffer, width, rects, pixels, second);
    }
    assert forall|i: int| 0 <= i < buffer.len() implies a[i] == b[i] by {
        lemma_commit_all_pixel(buffer, width, rects, pixels, first, i);
        lemma_commit_all_pixel(buffer, width, rects, pixels, second, i);
        if exists|j: int|
            0 <= j < first.len() && rects[#[trigger] first[j]].contains(i % width, i / width) {
            let j1 = choose|j: int|
                0 <= j < first.len() && rects[#[trigger] first[j]].contains(i % width, i / width);
            let k = first[j1];
            assert(first.contains(k));
            assert(second.contains(k));
            let j2 = choose|j: int| 0 <= j < second.len() && second[j] == k;
            assert(rects[second[j2]].contains(i % width, i / width));
        } else {
            assert forall|j: int| 0 <= j < second.len() implies !rects[#[trigger] second[j]].contains(
                i % width,
                i / width,
            ) by {
                let k = second[j];
                if rects[k].contains(i % width, i / width) {
                    assert(second.contains(k));
                    assert(first.contains(k));
                    let j1 = choose|j: int| 0 <= j < first.len() && first[j] == k;
                    assert(rects[first[j1]].contains(i % width, i / width));
                }
            }
        }
    }
    assert(a =~= b);
}

/// A series of commits leaves the framebuffer as long as it was.
pub proof fn lemma_commit_all_keeps_len<P>(
    buffer: Seq<P>,
    width: int,
    rects: Seq<Rect>,
    pixels: Seq<Seq<P>>,
    order: Seq<int>,
)
    ensures
        commit_all(buffer, width, rects, pixels, order).len() == buffer.len(),
    decreases order.len(),
{
    if order.len() > 0 {
        lemma_commit_all_keeps_len(buffer, width, rects, pixels, order.drop_last());
    }
}

/// The rectangles of a partition are pairwise disjoint.
pub proof fn lemma_partition_disjoint(canvas: Vec2<usize>, tile: Vec2<usize>)
    requires
        tile.x >= 1,
        tile.y >= 1,
    ensures
        pairwise_disjoint(partition_rects(canvas, tile)),
{
    lemma_partition_covers_canvas(canvas, tile);
    let rects = partition_rects(canvas, tile);
    assert forall|i: int, j: int, px: int, py: int|
        0 <= i < rects.len() && 0 <= j < rects.len() && #[trigger] rects[i].contains(px, py)
            && #[trigger] rects[j].contains(px, py) implies i == j by {
        assert(tile_rect(canvas, tile, i).contains(px, py));
        assert(tile_rect(canvas, tile, j).contains(px, py));
    }
}

/// Once every tile of a partition has been committed, in whatever order, each
/// pixel of the canvas holds the pixel that its tile rendered for it: nothing
/// of the framebuffer's earlier content is left, and the order plays no part.
pub proof fn lemma_render_complete<P>(
    buffer: Seq<P>,
    canvas: Vec2<usize>,
    tile: Vec2<usize>,
    pixels: Seq<Seq<P>>,
    order: Seq<int>,
    px: int,
    py: int,
)
    requires
        tile.x >= 1,
        tile.y >= 1,
        buffer.len() == canvas.x * canvas.y,
        valid_order(order, tile_count(canvas, tile)),
        forall|t: int| 0 <= t < tile_count(canvas, tile) ==> order.contains(t),
        0 <= px < canvas.x,
        0 <= py < canvas.y,
    ensures
        ({
            let t = tile_index_of(canvas, tile, px, py);
            let r = tile_rect(canvas, tile, t);
            commit_all(buffer, canvas.x as int, partition_rects(canvas, tile), pixels, order)[py
                * canvas.x + px] == pixels[t][(py - r.y) * r.w + (px - r.x)]
        }),
{
    let width = canvas.x as int;
    let rects = partition_rects(canvas, tile);
    let i = py * width + px;
    let t = tile_index_of(canvas, tile, px, py);
    lemma_grid_index(width, canvas.y as int, px, py);
    lemma_pixel_in_its_tile(canvas, tile, px, py);
    lemma_partition_disjoint(canvas, tile);
    assert(order.contains(t));
    let j = choose|j: int| 0 <= j < order.len() && order[j] == t;
    assert(rects[order[j]] == tile_rect(canvas, tile, t));
    assert(width * canvas.y == canvas.y * width) by (nonlinear_arith);
    lemma_commit_all_pixel(buffer, width, rects, pixels, order, i);
}

} // verus!
