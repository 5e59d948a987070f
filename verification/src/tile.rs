//! Tiles: the rectangular units of work that a canvas is cut into, and the
//! partitioner that produces them in row-major order.

use vstd::prelude::*;
use vstd::arithmetic::div_mod::lemma_fundamental_div_mod;
use vstd::arithmetic::div_mod::lemma_fundamental_div_mod_converse;
use crate::math::Vec2;
use crate::math::ceil_div;
use crate::math::clamp;
use crate::math::divide_roundup;
use crate::math::lemma_ceil_div;
use crate::math::lemma_ceil_div_bounds;

verus! {

/// A rectangle of pixels, the mathematical model of the region a tile covers.
pub struct Rect {
    pub x: int,
    pub y: int,
    pub w: int,
    pub h: int,
}

impl Rect {
    /// Whether the pixel `(px, py)` lies in the rectangle.
    pub open spec fn contains(self, px: int, py: int) -> bool {
        self.x <= px < self.x + self.w && self.y <= py < self.y + self.h
    }

    /// Whether the rectangle is not empty and lies inside a canvas of the given size.
    pub open spec fn inside(self, width: int, height: int) -> bool {
        &&& 0 <= self.x
        &&& 0 <= self.y
        &&& 1 <= self.w
        &&& 1 <= self.h
        &&& self.x + self.w <= width
        &&& self.y + self.h <= height
    }
}

/// What one worker needs to render one tile: where the tile lies on the canvas,
/// how many samples to draw per pixel, and the window of the plane that the
/// canvas shows. `V` is the scalar type of that plane.
#[derive(Copy, Debug, PartialEq)]
pub struct ThreadDescryptor<V> {
    pub offset: Vec2<usize>,
    pub thread_size: Vec2<usize>,
    pub color_buffer_size: Vec2<usize>,
    pub sample_count: usize,
    pub center: Vec2<V>,
    pub view_size: Vec2<V>,
}

impl<V: Copy> Clone for ThreadDescryptor<V> {
    fn clone(&self) -> (d: Self)
        ensures
            d == *self,
    {
        *self
    }
}

impl<V> ThreadDescryptor<V> {
    /// A descriptor of an empty tile on an empty canvas, showing the given window.
    pub fn new(center: Vec2<V>, view_size: Vec2<V>) -> (d: ThreadDescryptor<V>)
        ensures
            d == (ThreadDescryptor {
                offset: Vec2 { x: 0usize, y: 0usize },
                thread_size: Vec2 { x: 0usize, y: 0usize },
                color_buffer_size: Vec2 { x: 0usize, y: 0usize },
                sample_count: 0usize,
                center,
                view_size,
            }),
    {
        ThreadDescryptor {
            offset: Vec2::<usize>::new(),
            thread_size: Vec2::<usize>::new(),
            color_buffer_size: Vec2::<usize>::new(),
            sample_count: 0,
            center,
            view_size,
        }
    }

    /// The region of the canvas that the tile covers.
    pub open spec fn rect(&self) -> Rect {
        Rect {
            x: self.offset.x as int,
            y: self.offset.y as int,
            w: self.thread_size.x as int,
            h: self.thread_size.y as int,
        }
    }

    /// The tile is not empty and lies inside its canvas.
    pub open spec fn wf(&self) -> bool {
        self.rect().inside(self.color_buffer_size.x as int, self.color_buffer_size.y as int)
    }

    /// Whether the tile is not empty and lies inside its canvas.
    pub fn fits(&self) -> (b: bool)
        ensures
            b == self.wf(),
    {
        self.thread_size.x >= 1 && self.thread_size.y >= 1 && self.thread_size.x
            <= self.color_buffer_size.x && self.thread_size.y <= self.color_buffer_size.y
            && self.offset.x <= self.color_buffer_size.x - self.thread_size.x && self.offset.y
            <= self.color_buffer_size.y - self.thread_size.y
    }
}

/// The extent, along one axis, of the tile at grid position `t`: the nominal
/// extent, cut down to what is left of the canvas.
pub open spec fn tile_extent(canvas: int, tile: int, t: int) -> int {
    if tile <= canvas - t * tile {
        tile
    } else {
        canvas - t * tile
    }
}

/// How many tiles the partition of a canvas has.
pub open spec fn tile_count(canvas: Vec2<usize>, tile: Vec2<usize>) -> int {
    ceil_div(canvas.x as int, tile.x as int) * ceil_div(canvas.y as int, tile.y as int)
}

/// The region of the tile with the given index in row-major order.
pub open spec fn tile_rect(canvas: Vec2<usize>, tile: Vec2<usize>, index: int) -> Rect {
    let cols = ceil_div(canvas.x as int, tile.x as int);
    let tx = index % cols;
    let ty = index / cols;
    Rect {
        x: tx * tile.x,
        y: ty * tile.y,
        w: tile_extent(canvas.x as int, tile.x as int, tx),
        h: tile_extent(canvas.y as int, tile.y as int, ty),
    }
}

/// The index, in row-major order, of the tile that holds the pixel `(px, py)`.
pub open spec fn tile_index_of(canvas: Vec2<usize>, tile: Vec2<usize>, px: int, py: int) -> int {
    (py / (tile.y as int)) * ceil_div(canvas.x as int, tile.x as int) + px / (tile.x as int)
}

/// The descriptor with the given index in the partition of a canvas.
pub open spec fn tile_at<V>(
    canvas: Vec2<usize>,
    tile: Vec2<usize>,
    sample_count: usize,
    center: Vec2<V>,
    view_size: Vec2<V>,
    index: int,
) -> ThreadDescryptor<V> {
    let r = tile_rect(canvas, tile, index);
    ThreadDescryptor {
        offset: Vec2 { x: r.x as usize, y: r.y as usize },
        thread_size: Vec2 { x: r.w as usize, y: r.h as usize },
        color_buffer_size: canvas,
        sample_count,
        center,
        view_size,
    }
}

/// Along one axis, every grid position below the rounded-up quotient starts
/// inside the canvas, and its tile is not empty and ends inside the canvas.
pub proof fn lemma_axis_tile_inside(canvas: int, tile: int, t: int)
    requires
        canvas >= 0,
        tile >= 1,
        0 <= t < ceil_div(canvas, tile),
    ensures
        0 <= t * tile < canvas,
        1 <= tile_extent(canvas, tile, t) <= tile,
        t * tile + tile_extent(canvas, tile, t) <= canvas,
{
    let q = ceil_div(canvas, tile);
    lemma_ceil_div_bounds(canvas, tile);
    assert(0 <= t * tile && t * tile <= (q - 1) * tile) by (nonlinear_arith)
        requires
            0 <= t <= q - 1,
            tile >= 1,
    ;
}

/// Along one axis, a pixel of the canvas lies in the tile at the grid position
/// that its coordinate divided by the nominal extent gives.
pub proof fn lemma_axis_pixel_tile(canvas: int, tile: int, p: int)
    requires
        tile >= 1,
        0 <= p < canvas,
    ensures
        0 <= p / tile < ceil_div(canvas, tile),
        (p / tile) * tile <= p < (p / tile) * tile + tile_extent(canvas, tile, p / tile),
{
    let t = p / tile;
    let q = ceil_div(canvas, tile);
    lemma_fundamental_div_mod(p, tile);
    assert(tile * t == t * tile) by (nonlinear_arith);
    assert(t >= 0) by (nonlinear_arith)
        requires
            t * tile + p % tile == p,
            0 <= p % tile < tile,
            p >= 0,
            tile >= 1,
    ;
    lemma_ceil_div_bounds(canvas, tile);
    assert(t < q) by (nonlinear_arith)
        requires
            t * tile <= p,
            p < canvas,
            canvas <= q * tile,
            tile >= 1,
    ;
}

/// Along one axis, a pixel lies in at most one tile: the one that
/// `lemma_axis_pixel_tile` names.
pub proof fn lemma_axis_tile_unique(canvas: int, tile: int, t: int, p: int)
    requires
        tile >= 1,
        0 <= t,
        t * tile <= p < t * tile + tile_extent(canvas, tile, t),
    ensures
        t == p / tile,
{
    lemma_fundamental_div_mod_converse(p, tile, t, p - t * tile);
}

/// Along one axis, every tile but the last has the nominal extent, and the last
/// has the remainder of the canvas by the nominal extent, or the nominal
/// extent where that remainder is 0.
pub proof fn lemma_axis_boundary(canvas: int, tile: int, t: int)
    requires
        canvas >= 0,
        tile >= 1,
        0 <= t < ceil_div(canvas, tile),
    ensures
        t < ceil_div(canvas, tile) - 1 ==> tile_extent(canvas, tile, t) == tile,
        t == ceil_div(canvas, tile) - 1 && canvas % tile != 0 ==> tile_extent(canvas, tile, t)
            == canvas % tile,
        t == ceil_div(canvas, tile) - 1 && canvas % tile == 0 ==> tile_extent(canvas, tile, t)
            == tile,
{
    let q = ceil_div(canvas, tile);
    lemma_ceil_div(canvas, tile);
    lemma_fundamental_div_mod(canvas, tile);
    let d = canvas / tile;
    assert(tile * d == d * tile) by (nonlinear_arith);
    if t < q - 1 {
        assert(t * tile + tile <= (q - 1) * tile) by (nonlinear_arith)
            requires
                0 <= t <= q - 2,
                tile >= 1,
        ;
        if canvas % tile == 0 {
            assert((q - 1) * tile == d * tile - tile) by (nonlinear_arith)
                requires
                    q == d,
            ;
        } else {
            assert((q - 1) * tile == d * tile) by (nonlinear_arith)
                requires
                    q == d + 1,
            ;
        }
    } else {
        if canvas % tile == 0 {
            assert(t * tile == d * tile - tile) by (nonlinear_arith)
                requires
                    t == d - 1,
            ;
        } else {
            assert(t * tile == d * tile) by (nonlinear_arith)
                requires
                    t == d,
            ;
        }
    }
}

/// A row-major index below the tile count splits into a column and a row of the grid.
pub proof fn lemma_index_in_grid(cols: int, rows: int, index: int)
    requires
        0 <= index < cols * rows,
        cols >= 0,
        rows >= 0,
    ensures
        cols > 0,
        0 <= index % cols < cols,
        0 <= index / cols < rows,
        index == (index / cols) * cols + index % cols,
{
    assert(cols > 0) by (nonlinear_arith)
        requires
            0 <= index < cols * rows,
            cols >= 0,
    ;
    lemma_fundamental_div_mod(index, cols);
    let r = index / cols;
    assert(cols * r == r * cols) by (nonlinear_arith);
    assert(0 <= r < rows) by (nonlinear_arith)
        requires
            index == r * cols + index % cols,
            0 <= index % cols < cols,
            0 <= index < cols * rows,
    ;
}

/// The row-major index of a grid position is below the tile count and splits
/// back into that position.
pub proof fn lemma_grid_index(cols: int, rows: int, tx: int, ty: int)
    requires
        0 <= tx < cols,
        0 <= ty < rows,
    ensures
        0 <= ty * cols + tx < cols * rows,
        (ty * cols + tx) % cols == tx,
        (ty * cols + tx) / cols == ty,
{
    assert(0 <= ty * cols && ty * cols + cols <= cols * rows) by (nonlinear_arith)
        requires
            0 <= ty <= rows - 1,
            cols > 0,
    ;
    lemma_fundamental_div_mod_converse(ty * cols + tx, cols, ty, tx);
}

/// Every tile of the partition is not empty and lies inside the canvas.
pub proof fn lemma_tile_inside_canvas(canvas: Vec2<usize>, tile: Vec2<usize>, index: int)
    requires
        tile.x >= 1,
        tile.y >= 1,
        0 <= index < tile_count(canvas, tile),
    ensures
        tile_rect(canvas, tile, index).inside(canvas.x as int, canvas.y as int),
{
    let cols = ceil_div(canvas.x as int, tile.x as int);
    let rows = ceil_div(canvas.y as int, tile.y as int);
    lemma_ceil_div_bounds(canvas.x as int, tile.x as int);
    lemma_ceil_div_bounds(canvas.y as int, tile.y as int);
    lemma_index_in_grid(cols, rows, index);
    lemma_axis_tile_inside(canvas.x as int, tile.x as int, index % cols);
    lemma_axis_tile_inside(canvas.y as int, tile.y as int, index / cols);
}

/// Every pixel of the canvas lies in the tile that `tile_index_of` names.
pub proof fn lemma_pixel_in_its_tile(canvas: Vec2<usize>, tile: Vec2<usize>, px: int, py: int)
    requires
        tile.x >= 1,
        tile.y >= 1,
        0 <= px < canvas.x,
        0 <= py < canvas.y,
    ensures
        0 <= tile_index_of(canvas, tile, px, py) < tile_count(canvas, tile),
        tile_rect(canvas, tile, tile_index_of(canvas, tile, px, py)).contains(px, py),
{
    let cols = ceil_div(canvas.x as int, tile.x as int);
    let rows = ceil_div(canvas.y as int, tile.y as int);
    lemma_axis_pixel_tile(canvas.x as int, tile.x as int, px);
    lemma_axis_pixel_tile(canvas.y as int, tile.y as int, py);
    lemma_grid_index(cols, rows, px / (tile.x as int), py / (tile.y as int));
}

/// A pixel lies in no tile but the one that `tile_index_of` names.
pub proof fn lemma_tile_of_pixel_unique(
    canvas: Vec2<usize>,
    tile: Vec2<usize>,
    index: int,
    px: int,
    py: int,
)
    requires
        tile.x >= 1,
        tile.y >= 1,
        0 <= index < tile_count(canvas, tile),
        tile_rect(canvas, tile, index).contains(px, py),
    ensures
        index == tile_index_of(canvas, tile, px, py),
{
    let cols = ceil_div(canvas.x as int, tile.x as int);
    let rows = ceil_div(canvas.y as int, tile.y as int);
    lemma_ceil_div_bounds(canvas.x as int, tile.x as int);
    lemma_ceil_div_bounds(canvas.y as int, tile.y as int);
    lemma_index_in_grid(cols, rows, index);
    lemma_axis_tile_unique(canvas.x as int, tile.x as int, index % cols, px);
    lemma_axis_tile_unique(canvas.y as int, tile.y as int, index / cols, py);
}

/// The tiles of a partition cover the canvas exactly: each tile is a non-empty
/// rectangle inside the canvas, each pixel of the canvas lies in some tile, and
/// no pixel lies in two tiles.
pub proof fn lemma_partition_covers_canvas(canvas: Vec2<usize>, tile: Vec2<usize>)
    requires
        tile.x >= 1,
        tile.y >= 1,
    ensures
        forall|i: int|
            0 <= i < tile_count(canvas, tile) ==> (#[trigger] tile_rect(canvas, tile, i)).inside(
                canvas.x as int,
                canvas.y as int,
            ),
        forall|px: int, py: int|
            0 <= px < canvas.x && 0 <= py < canvas.y ==> 0 <= #[trigger] tile_index_of(
                canvas,
                tile,
                px,
                py,
            ) < tile_count(canvas, tile) && tile_rect(
                canvas,
                tile,
                tile_index_of(canvas, tile, px, py),
            ).contains(px, py),
        forall|i: int, j: int, px: int, py: int|
            0 <= i < tile_count(canvas, tile) && 0 <= j < tile_count(canvas, tile)
                && #[trigger] tile_rect(canvas, tile, i).contains(px, py)
                && #[trigger] tile_rect(canvas, tile, j).contains(px, py) ==> i == j,
{
    assert forall|i: int| 0 <= i < tile_count(canvas, tile) implies (#[trigger] tile_rect(
        canvas,
        tile,
        i,
    )).inside(canvas.x as int, canvas.y as int) by {
        lemma_tile_inside_canvas(canvas, tile, i);
    }
    assert forall|px: int, py: int| 0 <= px < canvas.x && 0 <= py < canvas.y implies 0
        <= #[trigger] tile_index_of(canvas, tile, px, py) < tile_count(canvas, tile) && tile_rect(
        canvas,
        tile,
        tile_index_of(canvas, tile, px, py),
    ).contains(px, py) by {
        lemma_pixel_in_its_tile(canvas, tile, px, py);
    }
    assert forall|i: int, j: int, px: int, py: int|
        0 <= i < tile_count(canvas, tile) && 0 <= j < tile_count(canvas, tile)
            && #[trigger] tile_rect(canvas, tile, i).contains(px, py) && #[trigger] tile_rect(
            canvas,
            tile,
            j,
        ).contains(px, py) implies i == j by {
        lemma_tile_of_pixel_unique(canvas, tile, i, px, py);
        lemma_tile_of_pixel_unique(canvas, tile, j, px, py);
    }
}

/// Boundary tiles are cut to the canvas: a tile in the last column is as wide as
/// the remainder of the canvas width by the nominal width, where that remainder
/// is not 0; every other tile has the nominal width. The same holds of rows and
/// heights.
pub proof fn lemma_boundary_clamp(canvas: Vec2<usize>, tile: Vec2<usize>, index: int)
    requires
        tile.x >= 1,
        tile.y >= 1,
        0 <= index < tile_count(canvas, tile),
    ensures
        ({
            let cols = ceil_div(canvas.x as int, tile.x as int);
            let rows = ceil_div(canvas.y as int, tile.y as int);
            let r = tile_rect(canvas, tile, index);
            &&& index % cols == cols - 1 && canvas.x % tile.x != 0 ==> r.w == canvas.x % tile.x
            &&& index % cols < cols - 1 || canvas.x % tile.x == 0 ==> r.w == tile.x
            &&& index / cols == rows - 1 && canvas.y % tile.y != 0 ==> r.h == canvas.y % tile.y
            &&& index / cols < rows - 1 || canvas.y % tile.y == 0 ==> r.h == tile.y
        }),
{
    let cols = ceil_div(canvas.x as int, tile.x as int);
    let rows = ceil_div(canvas.y as int, tile.y as int);
    lemma_ceil_div_bounds(canvas.x as int, tile.x as int);
    lemma_ceil_div_bounds(canvas.y as int, tile.y as int);
    lemma_index_in_grid(cols, rows, index);
    lemma_axis_boundary(canvas.x as int, tile.x as int, index % cols);
    lemma_axis_boundary(canvas.y as int, tile.y as int, index / cols);
}

/// Cuts a canvas into tiles of the nominal size `thread_size`, in row-major
/// order: the tiles of the top row from left to right, then the next row.
/// Tiles at the right and bottom edge are cut down to the canvas.
pub fn partition<V: Copy>(
    color_buffer_size: Vec2<usize>,
    thread_size: Vec2<usize>,
    sample_count: usize,
    center: Vec2<V>,
    view_size: Vec2<V>,
) -> (tiles: Vec<ThreadDescryptor<V>>)
    requires
        thread_size.x >= 1,
        thread_size.y >= 1,
    ensures
        tiles@.len() == tile_count(color_buffer_size, thread_size),
        forall|i: int|
            0 <= i < tiles@.len() ==> #[trigger] tiles@[i] == tile_at(
                color_buffer_size,
                thread_size,
                sample_count,
                center,
                view_size,
                i,
            ),
        forall|i: int|
            0 <= i < tiles@.len() ==> (#[trigger] tiles@[i]).rect() == tile_rect(
                color_buffer_size,
                thread_size,
                i,
            ) && tiles@[i].wf(),
{
    let rows = divide_roundup(color_buffer_size.y, thread_size.y);
    let cols = divide_roundup(color_buffer_size.x, thread_size.x);
    let mut tiles: Vec<ThreadDescryptor<V>> = Vec::new();
    assert(0 * cols == 0) by (nonlinear_arith);
    for y in 0..rows
        invariant
            thread_size.x >= 1,
            thread_size.y >= 1,
            rows == ceil_div(color_buffer_size.y as int, thread_size.y as int),
            cols == ceil_div(color_buffer_size.x as int, thread_size.x as int),
            tiles@.len() == y * cols,
            forall|i: int|
                0 <= i < tiles@.len() ==> #[trigger] tiles@[i] == tile_at(
                    color_buffer_size,
                    thread_size,
                    sample_count,
                    center,
                    view_size,
                    i,
                ),
            forall|i: int|
                0 <= i < tiles@.len() ==> (#[trigger] tiles@[i]).rect() == tile_rect(
                    color_buffer_size,
                    thread_size,
                    i,
                ) && tiles@[i].wf(),
    {
        for x in 0..cols
            invariant
                thread_size.x >= 1,
                thread_size.y >= 1,
                0 <= y < rows,
                rows == ceil_div(color_buffer_size.y as int, thread_size.y as int),
                cols == ceil_div(color_buffer_size.x as int, thread_size.x as int),
                tiles@.len() == y * cols + x,
                forall|i: int|
                    0 <= i < tiles@.len() ==> #[trigger] tiles@[i] == tile_at(
                        color_buffer_size,
                        thread_size,
                        sample_count,
                        center,
                        view_size,
                        i,
                    ),
                forall|i: int|
                    0 <= i < tiles@.len() ==> (#[trigger] tiles@[i]).rect() == tile_rect(
                        color_buffer_size,
                        thread_size,
                        i,
                    ) && tiles@[i].wf(),
        {
            proof {
                lemma_axis_tile_inside(color_buffer_size.x as int, thread_size.x as int, x as int);
                lemma_axis_tile_inside(color_buffer_size.y as int, thread_size.y as int, y as int);
                lemma_grid_index(cols as int, rows as int, x as int, y as int);
            }
            let mut new_desc = ThreadDescryptor::new(center, view_size);
            new_desc.offset = Vec2 { x: x * thread_size.x, y: y * thread_size.y };
            let max_width = color_buffer_size.x - x * thread_size.x;
            let max_height = color_buffer_size.y - y * thread_size.y;
            new_desc.thread_size = Vec2 {
                x: clamp(thread_size.x, 0, max_width),
                y: clamp(thread_size.y, 0, max_height),
            };
            new_desc.color_buffer_size = color_buffer_size;
            new_desc.sample_count = sample_count;
            tiles.push(new_desc);
        }
        assert((y + 1) * cols == y * cols + cols) by (nonlinear_arith);
    }
    assert(rows * cols == cols * rows) by (nonlinear_arith);
    tiles
}

} // verus!
