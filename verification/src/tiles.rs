//! Cutting an image into square tiles, the units of work of a render.
//!
//! The image is covered by tiles of a fixed size, the last column and row of
//! tiles clipped to the image.  Tiles are queued column by column; the pixels
//! of a tile are visited column by column too.  The laws at the end of this
//! file show that, taken over all tiles, every pixel of the image is visited
//! exactly once.
use itertools::Itertools;
use vstd::arithmetic::div_mod::{lemma_fundamental_div_mod, lemma_fundamental_div_mod_converse};
use vstd::prelude::*;

verus! {

/// The side of a tile where nothing else is asked for.
pub const TILE_SIZE: usize = 16;

/// A rectangle of pixels: the columns `x_0 <= x < x_1` of the rows
/// `y_0 <= y < y_1`.
pub struct Rect {
    pub x_0: int,
    pub y_0: int,
    pub x_1: int,
    pub y_1: int,
}

impl Rect {
    pub open spec fn wf(self) -> bool {
        0 <= self.x_0 <= self.x_1 && 0 <= self.y_0 <= self.y_1
    }

    pub open spec fn columns(self) -> int {
        self.x_1 - self.x_0
    }

    pub open spec fn rows(self) -> int {
        self.y_1 - self.y_0
    }

    /// How many pixels the rectangle has.
    pub open spec fn area(self) -> int {
        self.columns() * self.rows()
    }

    pub open spec fn contains(self, x: int, y: int) -> bool {
        self.x_0 <= x < self.x_1 && self.y_0 <= y < self.y_1
    }

    /// The pixel visited at step `j`: the rectangle is walked column by
    /// column, each column from its first row to its last.
    pub open spec fn pixel(self, j: int) -> (int, int) {
        (self.x_0 + j / self.rows(), self.y_0 + j % self.rows())
    }
}

/// An image size together with a tile size.
pub struct Layout {
    pub width: int,
    pub height: int,
    pub tile_size: int,
}

impl Layout {
    pub open spec fn wf(self) -> bool {
        0 <= self.width && 0 <= self.height && 0 < self.tile_size
    }

    pub open spec fn in_image(self, x: int, y: int) -> bool {
        0 <= x < self.width && 0 <= y < self.height
    }

    /// Number of tile columns: `width / tile_size`, rounded up.
    pub open spec fn across(self) -> int {
        (self.width + self.tile_size - 1) / self.tile_size
    }

    /// Number of tile rows: `height / tile_size`, rounded up.
    pub open spec fn down(self) -> int {
        (self.height + self.tile_size - 1) / self.tile_size
    }

    /// Number of tiles.
    pub open spec fn count(self) -> int {
        self.across() * self.down()
    }

    pub open spec fn in_grid(self, tx: int, ty: int) -> bool {
        0 <= tx < self.across() && 0 <= ty < self.down()
    }

    /// The tile in column `tx` and row `ty` of the grid: a square of side
    /// `tile_size`, clipped to the image.
    pub open spec fn tile(self, tx: int, ty: int) -> Rect {
        let x_0 = tx * self.tile_size;
        let y_0 = ty * self.tile_size;
        Rect {
            x_0,
            y_0,
            x_1: if x_0 + self.tile_size <= self.width { x_0 + self.tile_size } else { self.width },
            y_1: if y_0 + self.tile_size <= self.height { y_0 + self.tile_size } else { self.height },
        }
    }

    /// The tile queued at position `k`: the grid is walked column by column.
    pub open spec fn scheduled(self, k: int) -> Rect {
        self.tile(k / self.down(), k % self.down())
    }

    /// Step `j` of the tile queued at position `k` exists.
    pub open spec fn is_write(self, k: int, j: int) -> bool {
        0 <= k < self.count() && 0 <= j < self.scheduled(k).area()
    }

    /// The pixel that step `j` of the tile queued at position `k` writes.
    pub open spec fn written(self, k: int, j: int) -> (int, int) {
        self.scheduled(k).pixel(j)
    }
}

/// Whether a list of `n` pairs of indices can be allocated: sixteen bytes a
/// pair, and no allocation is larger than `isize::MAX` bytes.
pub open spec fn allocatable(n: int) -> bool {
    n * 16 <= isize::MAX
}

/// The pairs of `x_0 <= x < x_1` and `y_0 <= y < y_1`: for each `x` in
/// turn, every `y` in turn.
pub open spec fn pairs_in_order(x_0: int, x_1: int, y_0: int, y_1: int) -> Seq<(usize, usize)> {
    if x_0 < x_1 && y_0 < y_1 {
        Seq::new(
            ((x_1 - x_0) * (y_1 - y_0)) as nat,
            |k: int| ((x_0 + k / (y_1 - y_0)) as usize, (y_0 + k % (y_1 - y_0)) as usize),
        )
    } else {
        Seq::empty()
    }
}

/// `Itertools::cartesian_product` on two ranges of indices, collected.
///
/// The adaptor takes the items of the first range one by one and pairs each
/// with every item of the second range, in order; a range whose end is not
/// above its start has no items.  The contract states exactly that list.  It
/// asks that the list can be allocated.
#[verifier::external_body]
fn cartesian_product(x_0: usize, x_1: usize, y_0: usize, y_1: usize) -> (pairs: Vec<(usize, usize)>)
    requires
        x_0 <= x_1,
        y_0 <= y_1,
        allocatable((x_1 - x_0) * (y_1 - y_0)),
    ensures
        pairs@ == pairs_in_order(x_0 as int, x_1 as int, y_0 as int, y_1 as int),
{
    (x_0..x_1).cartesian_product(y_0..y_1).collect()
}

/// Why a grid of tiles cannot be laid over an image.
#[derive(Clone, Copy, Debug, PartialEq, Eq, Structural)]
pub enum GridError {
    /// The tile size is zero.
    ZeroTileSize,
    /// The image has more pixels than a list in memory can name.
    TooLarge,
}

/// One tile of an image: a rectangle of pixels that is rendered as a unit.
#[derive(Clone, Copy, Debug)]
pub struct Tile {
    x_0: usize,
    y_0: usize,
    x_1: usize,
    y_1: usize,
}

impl View for Tile {
    type V = Rect;

    closed spec fn view(&self) -> Rect {
        Rect { x_0: self.x_0 as int, y_0: self.y_0 as int, x_1: self.x_1 as int, y_1: self.y_1 as int }
    }
}

impl Tile {
    #[verifier::type_invariant]
    spec fn inv(self) -> bool {
        self@.wf() && allocatable(self@.area())
    }

    /// First column of the tile.
    pub fn x_0(&self) -> (x: usize)
        ensures
            x == self@.x_0,
    {
        self.x_0
    }

    /// First row of the tile.
    pub fn y_0(&self) -> (y: usize)
        ensures
            y == self@.y_0,
    {
        self.y_0
    }

    /// The column after the last column of the tile.
    pub fn x_1(&self) -> (x: usize)
        ensures
            x == self@.x_1,
    {
        self.x_1
    }

    /// The row after the last row of the tile.
    pub fn y_1(&self) -> (y: usize)
        ensures
            y == self@.y_1,
    {
        self.y_1
    }

    /// The pixels of the tile, in the order in which they are rendered.
    pub fn pixels(&self) -> (pixels: Vec<(usize, usize)>)
        ensures
            self@.wf(),
            pixels@.len() == self@.area(),
            forall|j: int|
                0 <= j < pixels@.len() ==> (#[trigger] pixels@[j]).0 == self@.pixel(j).0
                    && pixels@[j].1 == self@.pixel(j).1,
            forall|j: int|
                0 <= j < pixels@.len() ==> self@.contains(
                    (#[trigger] pixels@[j]).0 as int,
                    pixels@[j].1 as int,
                ),
    {
        proof {
            use_type_invariant(self);
        }
        let pixels = cartesian_product(self.x_0, self.x_1, self.y_0, self.y_1);
        proof {
            let r = self@;
            if r.x_0 < r.x_1 && r.y_0 < r.y_1 {
                assert forall|j: int| 0 <= j < pixels@.len() implies (#[trigger] pixels@[j]).0
                    == r.pixel(j).0 && pixels@[j].1 == r.pixel(j).1 && r.contains(
                    pixels@[j].0 as int,
                    pixels@[j].1 as int,
                ) by {
                    lemma_step_in_rect(r, j);
                }
            } else {
                assert(r.area() == 0) by (nonlinear_arith)
                    requires
                        r.area() == (r.x_1 - r.x_0) * (r.y_1 - r.y_0),
                        r.x_0 == r.x_1 || r.y_0 == r.y_1,
                ;
            }
        }
        pixels
    }
}

/// Step `j` of a rectangle lies in the rectangle.
pub proof fn lemma_step_in_rect(r: Rect, j: int)
    requires
        r.wf(),
        0 <= j < r.area(),
    ensures
        0 < r.rows(),
        0 <= j / r.rows() < r.columns(),
        0 <= j % r.rows() < r.rows(),
        r.contains(r.pixel(j).0, r.pixel(j).1),
{
    let rows = r.rows();
    let columns = r.columns();
    assert(rows > 0) by (nonlinear_arith)
        requires
            0 <= j < columns * rows,
            rows >= 0,
    ;
    lemma_fundamental_div_mod(j, rows);
    let q = j / rows;
    assert(0 <= q < columns) by (nonlinear_arith)
        requires
            j == rows * q + j % rows,
            0 <= j % rows < rows,
            0 <= j < columns * rows,
    ;
}

/// A grid of square tiles laid over an image.
#[derive(Clone, Copy, Debug)]
pub struct TileGrid {
    width: usize,
    height: usize,
    tile_size: usize,
}

impl View for TileGrid {
    type V = Layout;

    closed spec fn view(&self) -> Layout {
        Layout { width: self.width as int, height: self.height as int, tile_size: self.tile_size as int }
    }
}

impl TileGrid {
    #[verifier::type_invariant]
    spec fn inv(self) -> bool {
        self@.wf() && allocatable(self@.width * self@.height)
    }

    /// Lays tiles of side `tile_size` over an image of `width` by `height`
    /// pixels.
    ///
    /// Fails when the tile size is zero, and when the image has so many
    /// pixels that they could not be listed in memory.
    pub fn new(width: u32, height: u32, tile_size: usize) -> (grid: Result<TileGrid, GridError>)
        ensures
            match grid {
                Ok(g) => {
                    &&& tile_size > 0
                    &&& allocatable(width * height)
                    &&& g@ == (Layout {
                        width: width as int,
                        height: height as int,
                        tile_size: tile_size as int,
                    })
                    &&& g@.wf()
                },
                Err(GridError::ZeroTileSize) => tile_size == 0,
                Err(GridError::TooLarge) => tile_size > 0 && !allocatable(width * height),
            },
    {
        if tile_size == 0 {
            return Err(GridError::ZeroTileSize);
        }
        assert(width * height <= 0xffff_ffff * 0xffff_ffff) by (nonlinear_arith)
            requires
                0 <= width <= 0xffff_ffff,
                0 <= height <= 0xffff_ffff,
        ;
        let pixels: u64 = (width as u64) * (height as u64);
        let limit: u64 = (isize::MAX as u64) / 16;
        if pixels > limit {
            return Err(GridError::TooLarge);
        }
        Ok(TileGrid { width: width as usize, height: height as usize, tile_size })
    }

    /// Width of the image in pixels.
    pub fn width(&self) -> (w: usize)
        ensures
            w == self@.width,
    {
        self.width
    }

    /// Height of the image in pixels.
    pub fn height(&self) -> (h: usize)
        ensures
            h == self@.height,
    {
        self.height
    }

    /// Side of a tile in pixels.
    pub fn tile_size(&self) -> (s: usize)
        ensures
            s == self@.tile_size,
            s > 0,
    {
        proof {
            use_type_invariant(self);
        }
        self.tile_size
    }

    /// Number of tile columns.
    pub fn tiles_across(&self) -> (n: usize)
        ensures
            n == self@.across(),
    {
        proof {
            use_type_invariant(self);
            lemma_round_up(self.width as int, self.tile_size as int);
            lemma_round_up_bounded(self.width as int, self.tile_size as int);
        }
        let whole = self.width / self.tile_size;
        if self.width % self.tile_size == 0 {
            whole
        } else {
            whole + 1
        }
    }

    /// Number of tile rows.
    pub fn tiles_down(&self) -> (n: usize)
        ensures
            n == self@.down(),
    {
        proof {
            use_type_invariant(self);
            lemma_round_up(self.height as int, self.tile_size as int);
            lemma_round_up_bounded(self.height as int, self.tile_size as int);
        }
        let whole = self.height / self.tile_size;
        if self.height % self.tile_size == 0 {
            whole
        } else {
            whole + 1
        }
    }

    /// Number of tiles, which is the number of tasks of a render.
    pub fn tile_count(&self) -> (n: usize)
        ensures
            n == self@.count(),
    {
        proof {
            use_type_invariant(self);
            lemma_count_bounded(self@);
        }
        self.tiles_across() * self.tiles_down()
    }

    /// The tile in column `tile_x` and row `tile_y` of the grid, if the grid
    /// has such a tile.
    pub fn tile(&self, tile_x: usize, tile_y: usize) -> (tile: Option<Tile>)
        ensures
            self@.wf(),
            match tile {
                Some(t) => self@.in_grid(tile_x as int, tile_y as int) && t@ == self@.tile(
                    tile_x as int,
                    tile_y as int,
                ),
                None => !self@.in_grid(tile_x as int, tile_y as int),
            },
    {
        proof {
            use_type_invariant(self);
        }
        if tile_x < self.tiles_across() && tile_y < self.tiles_down() {
            Some(self.tile_in_grid(tile_x, tile_y))
        } else {
            None
        }
    }

    fn tile_in_grid(&self, tile_x: usize, tile_y: usize) -> (tile: Tile)
        requires
            self@.in_grid(tile_x as int, tile_y as int),
        ensures
            tile@ == self@.tile(tile_x as int, tile_y as int),
    {
        proof {
            use_type_invariant(self);
            lemma_tile_inside(self@, tile_x as int, tile_y as int);
            lemma_area_bounded(self@, self@.tile(tile_x as int, tile_y as int));
        }
        let x_0 = tile_x * self.tile_size;
        let y_0 = tile_y * self.tile_size;
        let x_1 = if self.width - x_0 >= self.tile_size {
            x_0 + self.tile_size
        } else {
            self.width
        };
        let y_1 = if self.height - y_0 >= self.tile_size {
            y_0 + self.tile_size
        } else {
            self.height
        };
        Tile { x_0, y_0, x_1, y_1 }
    }

    /// The tiles of the grid in the order in which they are queued.
    pub fn tiles(&self) -> (tiles: Vec<Tile>)
        ensures
            self@.wf(),
            tiles@.len() == self@.count(),
            forall|k: int| 0 <= k < tiles@.len() ==> (#[trigger] tiles@[k])@ == self@.scheduled(k),
    {
        proof {
            use_type_invariant(self);
            lemma_count_bounded(self@);
        }
        let across = self.tiles_across();
        let down = self.tiles_down();
        let indices = cartesian_product(0, across, 0, down);
        let mut tiles: Vec<Tile> = Vec::new();
        let mut k: usize = 0;
        proof {
            if !(0 < across && 0 < down) {
                assert(across * down == 0) by (nonlinear_arith)
                    requires
                        across == 0 || down == 0,
                ;
            }
        }
        while k < indices.len()
            invariant
                self@.wf(),
                across == self@.across(),
                down == self@.down(),
                indices@ == pairs_in_order(0, across as int, 0, down as int),
                indices@.len() == self@.count(),
                k <= indices@.len(),
                tiles@.len() == k,
                forall|i: int| 0 <= i < k ==> (#[trigger] tiles@[i])@ == self@.scheduled(i),
            decreases indices@.len() - k,
        {
            let (tile_x, tile_y) = indices[k];
            proof {
                lemma_step_in_rect(
                    Rect { x_0: 0, y_0: 0, x_1: across as int, y_1: down as int },
                    k as int,
                );
            }
            let tile = self.tile_in_grid(tile_x, tile_y);
            tiles.push(tile);
            k += 1;
        }
        tiles
    }
}

/// Rounding a quotient up: one more than the whole quotient unless the
/// division is exact.
proof fn lemma_round_up(n: int, d: int)
    requires
        0 <= n,
        0 < d,
    ensures
        (n + d - 1) / d == if n % d == 0 {
            n / d
        } else {
            n / d + 1
        },
{
    lemma_fundamental_div_mod(n, d);
    let q = n / d;
    let r = n % d;
    if r == 0 {
        assert(n + d - 1 == q * d + (d - 1)) by (nonlinear_arith)
            requires
                n == d * q + r,
                r == 0,
        ;
        lemma_fundamental_div_mod_converse(n + d - 1, d, q, d - 1);
    } else {
        assert(n + d - 1 == (q + 1) * d + (r - 1)) by (nonlinear_arith)
            requires
                n == d * q + r,
        ;
        lemma_fundamental_div_mod_converse(n + d - 1, d, q + 1, r - 1);
    }
}

/// The tiles of the last column and row still begin inside the image, and no
/// tile is empty or reaches beyond the image.
pub proof fn lemma_tile_inside(l: Layout, tx: int, ty: int)
    requires
        l.wf(),
        l.in_grid(tx, ty),
    ensures
        l.tile(tx, ty).wf(),
        0 <= l.tile(tx, ty).x_0 < l.tile(tx, ty).x_1 <= l.width,
        0 <= l.tile(tx, ty).y_0 < l.tile(tx, ty).y_1 <= l.height,
        l.tile(tx, ty).columns() <= l.tile_size,
        l.tile(tx, ty).rows() <= l.tile_size,
{
    lemma_last_tile_starts_inside(l.width, l.tile_size, tx);
    lemma_last_tile_starts_inside(l.height, l.tile_size, ty);
}

proof fn lemma_last_tile_starts_inside(n: int, d: int, t: int)
    requires
        0 <= n,
        0 < d,
        0 <= t < (n + d - 1) / d,
    ensures
        0 <= t * d < n,
{
    lemma_fundamental_div_mod(n + d - 1, d);
    let q = (n + d - 1) / d;
    let r = (n + d - 1) % d;
    assert(0 <= t * d < n) by (nonlinear_arith)
        requires
            n + d - 1 == d * q + r,
            0 <= r < d,
            0 <= t < q,
            0 < d,
    ;
}

proof fn lemma_area_bounded(l: Layout, r: Rect)
    requires
        l.wf(),
        r.wf(),
        r.x_1 <= l.width,
        r.y_1 <= l.height,
        allocatable(l.width * l.height),
    ensures
        allocatable(r.area()),
{
    assert(r.area() <= l.width * l.height) by (nonlinear_arith)
        requires
            r.area() == (r.x_1 - r.x_0) * (r.y_1 - r.y_0),
            0 <= r.x_0 <= r.x_1 <= l.width,
            0 <= r.y_0 <= r.y_1 <= l.height,
    ;
}

/// There are no more tiles than pixels.
proof fn lemma_count_bounded(l: Layout)
    requires
        l.wf(),
    ensures
        0 <= l.across() <= l.width,
        0 <= l.down() <= l.height,
        0 <= l.count() <= l.width * l.height,
{
    lemma_round_up_bounded(l.width, l.tile_size);
    lemma_round_up_bounded(l.height, l.tile_size);
    assert(0 <= l.across() * l.down() <= l.width * l.height) by (nonlinear_arith)
        requires
            0 <= l.across() <= l.width,
            0 <= l.down() <= l.height,
    ;
}

proof fn lemma_round_up_bounded(n: int, d: int)
    requires
        0 <= n,
        0 < d,
    ensures
        0 <= (n + d - 1) / d <= n,
{
    lemma_fundamental_div_mod(n + d - 1, d);
    let q = (n + d - 1) / d;
    let r = (n + d - 1) % d;
    assert(0 <= q <= n) by (nonlinear_arith)
        requires
            n + d - 1 == d * q + r,
            0 <= r < d,
            0 < d,
            0 <= n,
    ;
}

/// Every pixel of the image lies in the tile of its own column and row of
/// the grid, and in no other tile: the tiles cover the image and no two of
/// them share a pixel.
pub proof fn lemma_pixel_in_one_tile(l: Layout, x: int, y: int)
    requires
        l.wf(),
        l.in_image(x, y),
    ensures
        l.in_grid(x / l.tile_size, y / l.tile_size),
        l.tile(x / l.tile_size, y / l.tile_size).contains(x, y),
        forall|tx: int, ty: int|
            l.in_grid(tx, ty) && #[trigger] l.tile(tx, ty).contains(x, y) ==> tx == x / l.tile_size
                && ty == y / l.tile_size,
{
    lemma_axis_in_one_tile(l.width, l.tile_size, x);
    lemma_axis_in_one_tile(l.height, l.tile_size, y);
    assert forall|tx: int, ty: int|
        l.in_grid(tx, ty) && #[trigger] l.tile(tx, ty).contains(x, y) implies tx == x / l.tile_size
        && ty == y / l.tile_size by {
        lemma_fundamental_div_mod_converse(x, l.tile_size, tx, x - tx * l.tile_size);
        lemma_fundamental_div_mod_converse(y, l.tile_size, ty, y - ty * l.tile_size);
    }
}

/// Along one axis of length `n` cut into pieces of length `d`, position `v`
/// falls into piece `v / d`, which exists.
proof fn lemma_axis_in_one_tile(n: int, d: int, v: int)
    requires
        0 < d,
        0 <= v < n,
    ensures
        0 <= v / d < (n + d - 1) / d,
        (v / d) * d <= v < (v / d) * d + d,
{
    lemma_fundamental_div_mod(v, d);
    lemma_fundamental_div_mod(n + d - 1, d);
    let t = v / d;
    let q = (n + d - 1) / d;
    let r = (n + d - 1) % d;
    assert(0 <= t < q && t * d <= v < t * d + d) by (nonlinear_arith)
        requires
            v == d * t + v % d,
            0 <= v % d < d,
            n + d - 1 == d * q + r,
            0 <= r < d,
            0 <= v < n,
            0 < d,
    ;
}

/// Where a write lands decides which write it is: the pixel is in the image,
/// the tile is the one of the pixel's column and row of the grid, and the step
/// within the tile is the pixel's place in it.
pub proof fn lemma_write_is_determined(l: Layout, k: int, j: int)
    requires
        l.wf(),
        l.is_write(k, j),
    ensures
        ({
            let (x, y) = l.written(k, j);
            let tile = l.tile(x / l.tile_size, y / l.tile_size);
            &&& l.in_image(x, y)
            &&& l.scheduled(k) == tile
            &&& k == (x / l.tile_size) * l.down() + y / l.tile_size
            &&& j == (x - tile.x_0) * tile.rows() + (y - tile.y_0)
        }),
{
    let (x, y) = l.written(k, j);
    let down = l.down();
    let across = l.across();
    lemma_step_in_rect(Rect { x_0: 0, y_0: 0, x_1: across, y_1: down }, k);
    let tx = k / down;
    let ty = k % down;
    let r = l.tile(tx, ty);
    lemma_tile_inside(l, tx, ty);
    lemma_step_in_rect(r, j);
    lemma_pixel_in_one_tile(l, x, y);
    assert(r.contains(x, y));
    assert(tx == x / l.tile_size && ty == y / l.tile_size);
    lemma_fundamental_div_mod(k, down);
    assert(k == tx * down + ty) by (nonlinear_arith)
        requires
            k == down * tx + ty,
    ;
    lemma_fundamental_div_mod(j, r.rows());
    assert(j == (x - r.x_0) * r.rows() + (y - r.y_0)) by (nonlinear_arith)
        requires
            j == r.rows() * (j / r.rows()) + j % r.rows(),
            x - r.x_0 == j / r.rows(),
            y - r.y_0 == j % r.rows(),
    ;
}

/// Every write lands inside the image.
pub proof fn lemma_writes_inside_image(l: Layout, k: int, j: int)
    requires
        l.wf(),
        l.is_write(k, j),
    ensures
        l.in_image(l.written(k, j).0, l.written(k, j).1),
{
    lemma_write_is_determined(l, k, j);
}

/// Taken over all tiles of the grid, every pixel of the image is written
/// exactly once: some step of some queued tile writes it, and no other step
/// of that or any other tile does.
pub proof fn lemma_written_exactly_once(l: Layout, x: int, y: int)
    requires
        l.wf(),
        l.in_image(x, y),
    ensures
        exists|k: int, j: int| l.is_write(k, j) && l.written(k, j) == (x, y),
        forall|k_1: int, j_1: int, k_2: int, j_2: int|
            l.is_write(k_1, j_1) && l.is_write(k_2, j_2) && l.written(k_1, j_1) == (x, y)
                && l.written(k_2, j_2) == (x, y) ==> k_1 == k_2 && j_1 == j_2,
{
    let tx = x / l.tile_size;
    let ty = y / l.tile_size;
    let down = l.down();
    let across = l.across();
    lemma_pixel_in_one_tile(l, x, y);
    lemma_tile_inside(l, tx, ty);
    let r = l.tile(tx, ty);
    let rows = r.rows();
    let k = tx * down + ty;
    let j = (x - r.x_0) * rows + (y - r.y_0);
    lemma_fundamental_div_mod_converse(k, down, tx, ty);
    lemma_fundamental_div_mod_converse(j, rows, x - r.x_0, y - r.y_0);
    assert(0 <= k < across * down) by (nonlinear_arith)
        requires
            k == tx * down + ty,
            0 <= tx < across,
            0 <= ty < down,
    ;
    assert(0 <= j < r.columns() * rows) by (nonlinear_arith)
        requires
            j == (x - r.x_0) * rows + (y - r.y_0),
            0 <= x - r.x_0 < r.columns(),
            0 <= y - r.y_0 < rows,
    ;
    assert(l.is_write(k, j) && l.written(k, j) == (x, y));
    assert forall|k_1: int, j_1: int, k_2: int, j_2: int|
        l.is_write(k_1, j_1) && l.is_write(k_2, j_2) && l.written(k_1, j_1) == (x, y) && l.written(
            k_2,
            j_2,
        ) == (x, y) implies k_1 == k_2 && j_1 == j_2 by {
        lemma_write_is_determined(l, k_1, j_1);
        lemma_write_is_determined(l, k_2, j_2);
    }
}

/// The image after the writes `order` have been carried out on the image
/// `start`, one after the other.  `order[i]` is `(k, j)` for step `j` of
/// the tile queued at position `k`; a write stores at its pixel what
/// `color` gives for that pixel.
pub open spec fn painted<V>(
    l: Layout,
    order: Seq<(int, int)>,
    color: spec_fn(int, int) -> V,
    start: Map<(int, int), V>,
) -> Map<(int, int), V>
    decreases order.len(),
{
    if order.len() == 0 {
        start
    } else {
        let pixel = l.written(order.last().0, order.last().1);
        painted(l, order.drop_last(), color, start).insert(pixel, color(pixel.0, pixel.1))
    }
}

/// `order` carries out every write of every tile, and no other.
pub open spec fn completes(l: Layout, order: Seq<(int, int)>) -> bool {
    &&& forall|i: int| 0 <= i < order.len() ==> l.is_write((#[trigger] order[i]).0, order[i].1)
    &&& forall|k: int, j: int|
        l.is_write(k, j) ==> exists|i: int| 0 <= i < order.len() && #[trigger] order[i] == (k, j)
}

/// A pixel that some write of `order` lands on holds its colour afterwards.
proof fn lemma_painted_pixel<V>(
    l: Layout,
    order: Seq<(int, int)>,
    color: spec_fn(int, int) -> V,
    start: Map<(int, int), V>,
    i: int,
)
    requires
        0 <= i < order.len(),
    ensures
        ({
            let pixel = l.written(order[i].0, order[i].1);
            &&& painted(l, order, color, start).dom().contains(pixel)
            &&& painted(l, order, color, start)[pixel] == color(pixel.0, pixel.1)
        }),
    decreases order.len(),
{
    let pixel = l.written(order[i].0, order[i].1);
    let last = l.written(order.last().0, order.last().1);
    if last != pixel {
        assert(i < order.len() - 1);
        assert(order.drop_last()[i] == order[i]);
        lemma_painted_pixel(l, order.drop_last(), color, start, i);
    }
}

/// The image does not depend on the order in which the writes of a render
/// are carried out, nor on what the image held before: where the colour of
/// a pixel is a function of the pixel, any two runs that carry out every
/// write of every tile, in whatever order workers take and finish the
/// tiles, leave every pixel of the image with that colour.
pub proof fn lemma_image_independent_of_order<V>(
    l: Layout,
    color: spec_fn(int, int) -> V,
    order_1: Seq<(int, int)>,
    start_1: Map<(int, int), V>,
    order_2: Seq<(int, int)>,
    start_2: Map<(int, int), V>,
    x: int,
    y: int,
)
    requires
        l.wf(),
        l.in_image(x, y),
        completes(l, order_1),
        completes(l, order_2),
    ensures
        painted(l, order_1, color, start_1).dom().contains((x, y)),
        painted(l, order_2, color, start_2).dom().contains((x, y)),
        painted(l, order_1, color, start_1)[(x, y)] == color(x, y),
        painted(l, order_2, color, start_2)[(x, y)] == color(x, y),
{
    lemma_written_exactly_once(l, x, y);
    let (k, j) = choose|k: int, j: int| l.is_write(k, j) && l.written(k, j) == (x, y);
    let i_1 = choose|i: int| 0 <= i < order_1.len() && #[trigger] order_1[i] == (k, j);
    let i_2 = choose|i: int| 0 <= i < order_2.len() && #[trigger] order_2[i] == (k, j);
    lemma_painted_pixel(l, order_1, color, start_1, i_1);
    lemma_painted_pixel(l, order_2, color, start_2, i_2);
}

/// The writes of a render touch the image only: whatever lies outside the
/// image is after the writes what it was before.
pub proof fn lemma_outside_untouched<V>(
    l: Layout,
    color: spec_fn(int, int) -> V,
    order: Seq<(int, int)>,
    start: Map<(int, int), V>,
    x: int,
    y: int,
)
    requires
        l.wf(),
        !l.in_image(x, y),
        forall|i: int| 0 <= i < order.len() ==> l.is_write((#[trigger] order[i]).0, order[i].1),
    ensures
        painted(l, order, color, start).dom().contains((x, y)) == start.dom().contains((x, y)),
        painted(l, order, color, start)[(x, y)] == start[(x, y)],
    decreases order.len(),
{
    if order.len() > 0 {
        let front = order.drop_last();
        assert forall|i: int| 0 <= i < front.len() implies l.is_write(
            (#[trigger] front[i]).0,
            front[i].1,
        ) by {
            assert(front[i] == order[i]);
        }
        lemma_outside_untouched(l, color, front, start, x, y);
        lemma_writes_inside_image(l, order.last().0, order.last().1);
    }
}

} // verus!
