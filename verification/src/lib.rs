use vstd::prelude::*;
use vstd::arithmetic::div_mod::lemma_fundamental_div_mod_converse;

verus! {

/// One cell of the grid: dead or alive.
#[derive(Clone, Copy, Debug, PartialEq, Eq, Structural)]
pub enum Cell {
    Dead,
    Alive,
}

/// Numeric weight of a cell when counting live neighbors.
pub open spec fn alive_weight(c: Cell) -> int {
    if c is Alive {
        1
    } else {
        0
    }
}

/// Row-major position of the cell at row `r`, column `c` on a grid of width `w`.
pub open spec fn cell_index(w: int, r: int, c: int) -> int {
    r * w + c
}

/// The cell at row `r`, column `c` of the row-major grid `g` of width `w`.
pub open spec fn cell_at(g: Seq<Cell>, w: int, r: int, c: int) -> Cell {
    g[cell_index(w, r, c)]
}

/// Number of live cells among the eight toroidal neighbors of `(r, c)` on a
/// `w` by `h` grid: row offsets `{h-1, 0, 1}` and column offsets `{w-1, 0, 1}`
/// are added modulo the dimension, the offset pair `(0, 0)` excluded.
#[verifier::opaque]
pub open spec fn live_neighbors(g: Seq<Cell>, w: int, h: int, r: int, c: int) -> int {
    let ra = (r + h - 1) % h;
    let rb = (r + 1) % h;
    let ca = (c + w - 1) % w;
    let cb = (c + 1) % w;
    alive_weight(cell_at(g, w, ra, ca)) + alive_weight(cell_at(g, w, ra, c)) + alive_weight(
        cell_at(g, w, ra, cb),
    ) + alive_weight(cell_at(g, w, r, ca)) + alive_weight(cell_at(g, w, r, cb)) + alive_weight(
        cell_at(g, w, rb, ca),
    ) + alive_weight(cell_at(g, w, rb, c)) + alive_weight(cell_at(g, w, rb, cb))
}

/// Glyph for one cell in the text rendering.
pub open spec fn glyph(c: Cell) -> char {
    if c is Alive {
        '◼'
    } else {
        '◻'
    }
}

/// The full text rendering of grid `g`: `h` lines, each of `w` glyphs closed
/// by a newline; position `k` holds the glyph of the cell at row `k / (w+1)`,
/// column `k % (w+1)`, or a newline when that column is `w`.
#[verifier::opaque]
pub open spec fn rendered(g: Seq<Cell>, w: int, h: int) -> Seq<char> {
    Seq::new(
        (h * (w + 1)) as nat,
        |k: int|
            if k % (w + 1) == w {
                '\n'
            } else {
                glyph(g[(k / (w + 1)) * w + k % (w + 1)])
            },
    )
}

/// The Game of Life rule: a live cell with fewer than two live neighbors dies
/// of underpopulation, with two or three it survives, with more than three it
/// dies of overpopulation; a dead cell with exactly three live neighbors is
/// born; every other combination leaves the cell unchanged.
pub open spec fn next_cell(c: Cell, n: int) -> Cell {
    if c is Alive && n < 2 {
        Cell::Dead
    } else if c is Alive && (n == 2 || n == 3) {
        Cell::Alive
    } else if c is Alive && n > 3 {
        Cell::Dead
    } else if c is Dead && n == 3 {
        Cell::Alive
    } else {
        c
    }
}

/// Seed pattern of the fixed constructor: cell `i` starts alive exactly when
/// `i` is divisible by 2 or by 7.
pub open spec fn seed_cell(i: int) -> Cell {
    if i % 2 == 0 || i % 7 == 0 {
        Cell::Alive
    } else {
        Cell::Dead
    }
}

/// A fixed-size toroidal Game of Life grid: the cell at row `r`, column `c`
/// sits at position `r * width + c` of the flat buffer.
pub struct Universe {
    width: u32,
    height: u32,
    cells: Vec<Cell>,
}

/// A row-major position stays strictly inside a `w` by `h` grid.
proof fn lemma_index_bound(w: int, h: int, r: int, c: int)
    by (nonlinear_arith)
    requires
        1 <= w,
        1 <= h,
        0 <= r < h,
        0 <= c < w,
    ensures
        0 <= r * w + c < h * w,
{
}

/// Row-major positions are distinct for distinct in-range coordinates.
proof fn lemma_index_injective(w: int, r1: int, c1: int, r2: int, c2: int)
    by (nonlinear_arith)
    requires
        1 <= w,
        0 <= c1 < w,
        0 <= c2 < w,
        r1 * w + c1 == r2 * w + c2,
    ensures
        r1 == r2,
        c1 == c2,
{
}

/// Row-major position of `(row, col)`, as the original buffer stores it.
fn linear_index(width: u32, height: u32, row: u32, col: u32) -> (i: usize)
    requires
        1 <= width,
        1 <= height,
        (width as int) * (height as int) <= u32::MAX as int,
        row < height,
        col < width,
    ensures
        i as int == cell_index(width as int, row as int, col as int),
        i < (width as int) * (height as int),
{
    proof {
        lemma_index_bound(width as int, height as int, row as int, col as int);
    }
    ((row * width) + col) as usize
}

/// Weight (0 or 1) of the cell at `(row, col)` of the flat buffer.
fn weight_at(cells: &Vec<Cell>, width: u32, height: u32, row: u32, col: u32) -> (n: u8)
    requires
        1 <= width,
        1 <= height,
        (width as int) * (height as int) <= u32::MAX as int,
        cells@.len() == (width as int) * (height as int),
        row < height,
        col < width,
    ensures
        n as int == alive_weight(cell_at(cells@, width as int, row as int, col as int)),
        n <= 1,
{
    proof {
        lemma_index_bound(width as int, height as int, row as int, col as int);
    }
    let i: usize = linear_index(width, height, row, col);
    if cells[i] == Cell::Alive {
        1
    } else {
        0
    }
}

/// Live cells among the eight toroidal neighbors of `(row, col)`.
fn count_live_neighbors(cells: &Vec<Cell>, width: u32, height: u32, row: u32, col: u32) -> (n: u8)
    requires
        1 <= width,
        1 <= height,
        (width as int) * (height as int) <= u32::MAX as int,
        cells@.len() == (width as int) * (height as int),
        row < height,
        col < width,
    ensures
        n as int == live_neighbors(cells@, width as int, height as int, row as int, col as int),
        n <= 8,
{
    proof {
        reveal(live_neighbors);
    }
    let w64: u64 = width as u64;
    let h64: u64 = height as u64;
    let ra: u32 = (((row as u64) + h64 - 1) % h64) as u32;
    let rb: u32 = (((row as u64) + 1) % h64) as u32;
    let ca: u32 = (((col as u64) + w64 - 1) % w64) as u32;
    let cb: u32 = (((col as u64) + 1) % w64) as u32;
    let mut n: u8 = 0;
    n = n + weight_at(cells, width, height, ra, ca);
    n = n + weight_at(cells, width, height, ra, col);
    n = n + weight_at(cells, width, height, ra, cb);
    n = n + weight_at(cells, width, height, row, ca);
    n = n + weight_at(cells, width, height, row, cb);
    n = n + weight_at(cells, width, height, rb, ca);
    n = n + weight_at(cells, width, height, rb, col);
    n = n + weight_at(cells, width, height, rb, cb);
    n
}

/// One step of the transition rule, on a single cell with `n` live neighbors.
pub fn transition(c: Cell, n: u8) -> (next: Cell)
    ensures
        next == next_cell(c, n as int),
{
    if c == Cell::Alive && n < 2 {
        Cell::Dead
    } else if c == Cell::Alive && (n == 2 || n == 3) {
        Cell::Alive
    } else if c == Cell::Alive && n > 3 {
        Cell::Dead
    } else if c == Cell::Dead && n == 3 {
        Cell::Alive
    } else {
        c
    }
}

/// The whole next generation, computed entirely from the frozen buffer
/// `cells`: no entry of the result feeds back into a neighbor count.
#[verifier::rlimit(60)]
fn next_generation(cells: &Vec<Cell>, width: u32, height: u32) -> (next: Vec<Cell>)
    requires
        1 <= width,
        1 <= height,
        (width as int) * (height as int) <= u32::MAX as int,
        cells@.len() == (width as int) * (height as int),
    ensures
        next@.len() == cells@.len(),
        forall|r: int, c: int|
            0 <= r < height && 0 <= c < width ==> next@[cell_index(width as int, r, c)]
                == next_cell(
                cell_at(cells@, width as int, r, c),
                live_neighbors(cells@, width as int, height as int, r, c),
            ),
{
    let ghost w: int = width as int;
    let ghost h: int = height as int;
    let mut next: Vec<Cell> = Vec::new();
    let mut row: u32 = 0;
    while row < height
        invariant
            1 <= width,
            1 <= height,
            w == width as int,
            h == height as int,
            w * h <= u32::MAX as int,
            cells@.len() == w * h,
            row <= height,
            next@.len() == (row as int) * w,
            forall|r: int, c: int|
                0 <= r < h && 0 <= c < w && cell_index(w, r, c) < next@.len() ==> next@[cell_index(
                    w,
                    r,
                    c,
                )] == next_cell(cell_at(cells@, w, r, c), live_neighbors(cells@, w, h, r, c)),
        decreases height - row,
    {
        let mut col: u32 = 0;
        while col < width
            invariant
                1 <= width,
                1 <= height,
                w == width as int,
                h == height as int,
                w * h <= u32::MAX as int,
                cells@.len() == w * h,
                row < height,
                col <= width,
                next@.len() == (row as int) * w + col,
                forall|r: int, c: int|
                    0 <= r < h && 0 <= c < w && cell_index(w, r, c) < next@.len() ==> next@[
                        cell_index(w, r, c)
                    ] == next_cell(cell_at(cells@, w, r, c), live_neighbors(cells@, w, h, r, c)),
            decreases width - col,
        {
            let i: usize = linear_index(width, height, row, col);
            let cur: Cell = cells[i];
            let n: u8 = count_live_neighbors(cells, width, height, row, col);
            next.push(transition(cur, n));
            proof {
                assert forall|r: int, c: int|
                    0 <= r < h && 0 <= c < w && cell_index(w, r, c) < next@.len() implies next@[
                    cell_index(w, r, c)
                ] == next_cell(
                    cell_at(cells@, w, r, c),
                    live_neighbors(cells@, w, h, r, c),
                ) by {
                    if cell_index(w, r, c) == (row as int) * w + col {
                        lemma_index_injective(w, r, c, row as int, col as int);
                    }
                }
            }
            col = col + 1;
        }
        proof {
            assert((row as int) * w + w == (row as int + 1) * w) by (nonlinear_arith);
        }
        row = row + 1;
    }
    proof {
        assert(h * w == w * h) by (nonlinear_arith);
        assert forall|r: int, c: int| 0 <= r < h && 0 <= c < w implies cell_index(w, r, c)
            < next@.len() by {
            lemma_index_bound(w, h, r, c);
        }
    }
    next
}

impl Universe {
    /// Grid width, as a mathematical integer.
    pub closed spec fn spec_width(&self) -> int {
        self.width as int
    }

    /// Grid height, as a mathematical integer.
    pub closed spec fn spec_height(&self) -> int {
        self.height as int
    }

    /// The flat cell buffer, in row-major order.
    pub closed spec fn grid(&self) -> Seq<Cell> {
        self.cells@
    }

    /// Structural invariant: positive dimensions, a product that fits the
    /// index type, and a buffer of exactly `width * height` cells.
    pub open spec fn well_formed(&self) -> bool {
        &&& 1 <= self.spec_width()
        &&& 1 <= self.spec_height()
        &&& self.spec_width() * self.spec_height() <= u32::MAX as int
        &&& self.grid().len() == self.spec_width() * self.spec_height()
    }

    /// Fixed grid width.
    pub fn width(&self) -> (w: u32)
        ensures
            w as int == self.spec_width(),
    {
        self.width
    }

    /// Fixed grid height.
    pub fn height(&self) -> (h: u32)
        ensures
            h as int == self.spec_height(),
    {
        self.height
    }

    /// Read-only view of the live cell buffer, in row-major order.
    pub fn cells(&self) -> (cells: &Vec<Cell>)
        ensures
            cells@ == self.grid(),
    {
        &self.cells
    }

    /// Live cells among the eight toroidal neighbors of `(row, col)`.
    /// The count is always between 0 and 8.
    pub fn live_neighbor_count(&self, row: u32, col: u32) -> (n: u8)
        requires
            self.well_formed(),
            row < self.spec_height(),
            col < self.spec_width(),
        ensures
            n as int == live_neighbors(
                self.grid(),
                self.spec_width(),
                self.spec_height(),
                row as int,
                col as int,
            ),
            n <= 8,
    {
        count_live_neighbors(&self.cells, self.width, self.height, row, col)
    }

    /// Advance the universe by exactly one generation. Every cell of the new
    /// buffer is the rule applied to the cell and its live-neighbor count in
    /// the buffer as it stood before the call, so no update of this tick can
    /// leak into a neighbor count of the same tick.
    #[verifier::rlimit(60)]
    pub fn tick(&mut self)
        requires
            old(self).well_formed(),
        ensures
            final(self).well_formed(),
            final(self).spec_width() == old(self).spec_width(),
            final(self).spec_height() == old(self).spec_height(),
            forall|r: int, c: int|
                0 <= r < old(self).spec_height() && 0 <= c < old(self).spec_width() ==> cell_at(
                    final(self).grid(),
                    old(self).spec_width(),
                    r,
                    c,
                ) == next_cell(
                    cell_at(old(self).grid(), old(self).spec_width(), r, c),
                    live_neighbors(
                        old(self).grid(),
                        old(self).spec_width(),
                        old(self).spec_height(),
                        r,
                        c,
                    ),
                ),
    {
        let next: Vec<Cell> = next_generation(&self.cells, self.width, self.height);
        self.cells = next;
    }

    /// Construct the fixed 64 by 64 universe, cell `i` alive exactly when
    /// `i % 2 == 0` or `i % 7 == 0`.
    pub fn new() -> (u: Universe)
        ensures
            u.well_formed(),
            u.spec_width() == 64,
            u.spec_height() == 64,
            u.grid().len() == 4096,
            forall|i: int| 0 <= i < 4096 ==> u.grid()[i] == seed_cell(i),
    {
        let mut cells: Vec<Cell> = Vec::new();
        let mut i: u32 = 0;
        while i < 4096
            invariant
                i <= 4096,
                cells@.len() == i,
                forall|j: int| 0 <= j < i ==> cells@[j] == seed_cell(j),
            decreases 4096 - i,
        {
            if i % 2 == 0 || i % 7 == 0 {
                cells.push(Cell::Alive);
            } else {
                cells.push(Cell::Dead);
            }
            i = i + 1;
        }
        Universe { width: 64, height: 64, cells }
    }

    /// Construct a universe from an explicit buffer. Succeeds exactly when
    /// both dimensions are positive, their product fits the index type, and
    /// the buffer holds exactly `width * height` cells.
    pub fn from_cells(width: u32, height: u32, cells: Vec<Cell>) -> (result: Option<Universe>)
        ensures
            result is Some <==> {
                &&& 1 <= width
                &&& 1 <= height
                &&& (width as int) * (height as int) <= u32::MAX as int
                &&& cells@.len() == (width as int) * (height as int)
            },
            result matches Some(u) ==> {
                &&& u.well_formed()
                &&& u.spec_width() == width as int
                &&& u.spec_height() == height as int
                &&& u.grid() == cells@
            },
    {
        proof {
            assert((width as int) * (height as int) <= (u32::MAX as int) * (u32::MAX as int))
                by (nonlinear_arith)
                requires
                    width as int <= u32::MAX as int,
                    height as int <= u32::MAX as int,
            ;
        }
        let product: u64 = (width as u64) * (height as u64);
        if 1 <= width && 1 <= height && product <= (u32::MAX as u64) && (cells.len() as u64)
            == product {
            Some(Universe { width, height, cells })
        } else {
            None
        }
    }

    /// Text snapshot of the grid: rows in order, one glyph per cell, each row
    /// terminated by a newline.
    pub fn render(&self) -> (s: String)
        requires
            self.well_formed(),
        ensures
            s@ == rendered(self.grid(), self.spec_width(), self.spec_height()),
    {
        let ghost w: int = self.spec_width();
        let ghost h: int = self.spec_height();
        let ghost target: Seq<char> = rendered(self.grid(), w, h);
        proof {
            reveal(rendered);
        }
        let width: u32 = self.width;
        let height: u32 = self.height;
        let mut out: String = String::new();
        let mut row: u32 = 0;
        while row < height
            invariant
                self.well_formed(),
                w == self.spec_width(),
                h == self.spec_height(),
                width as int == w,
                height as int == h,
                target == rendered(self.grid(), w, h),
                target.len() == h * (w + 1),
                row <= height,
                out@.len() == (row as int) * (w + 1),
                forall|k: int| 0 <= k < out@.len() ==> out@[k] == target[k],
            decreases height - row,
        {
            let mut col: u32 = 0;
            while col < width
                invariant
                    self.well_formed(),
                    w == self.spec_width(),
                    h == self.spec_height(),
                    width as int == w,
                    height as int == h,
                    target == rendered(self.grid(), w, h),
                    target.len() == h * (w + 1),
                    row < height,
                    col <= width,
                    out@.len() == (row as int) * (w + 1) + col,
                    forall|k: int| 0 <= k < out@.len() ==> out@[k] == target[k],
                decreases width - col,
            {
                let i: usize = linear_index(width, height, row, col);
                proof {
                    reveal(rendered);
                    lemma_index_bound(w + 1, h, row as int, col as int);
                    lemma_fundamental_div_mod_converse(
                        (row as int) * (w + 1) + col,
                        w + 1,
                        row as int,
                        col as int,
                    );
                    reveal_strlit("◼");
                    reveal_strlit("◻");
                }
                if self.cells[i] == Cell::Alive {
                    out.append("◼");
                } else {
                    out.append("◻");
                }
                col = col + 1;
            }
            proof {
                reveal(rendered);
                lemma_index_bound(w + 1, h, row as int, w);
                lemma_fundamental_div_mod_converse(
                    (row as int) * (w + 1) + w,
                    w + 1,
                    row as int,
                    w,
                );
                assert((row as int) * (w + 1) + (w + 1) == (row as int + 1) * (w + 1))
                    by (nonlinear_arith);
                reveal_strlit("\n");
            }
            out.append("\n");
            row = row + 1;
        }
        proof {
            assert(out@ =~= target);
        }
        out
    }
}

/// The index just before `i` on a ring of `n` positions: the opposite edge
/// when `i` is the first position, written without modular arithmetic.
pub open spec fn wrap_prev(i: int, n: int) -> int {
    if i == 0 {
        n - 1
    } else {
        i - 1
    }
}

/// The index just after `i` on a ring of `n` positions: the opposite edge
/// when `i` is the last position, written without modular arithmetic.
pub open spec fn wrap_next(i: int, n: int) -> int {
    if i == n - 1 {
        0
    } else {
        i + 1
    }
}

/// Live neighbors of `(r, c)` counted by explicit edge wrapping instead of
/// modular offsets: the same eight cells, addressed with `wrap_prev` and
/// `wrap_next`.
pub open spec fn live_neighbors_by_edges(g: Seq<Cell>, w: int, h: int, r: int, c: int) -> int {
    let ra = wrap_prev(r, h);
    let rb = wrap_next(r, h);
    let ca = wrap_prev(c, w);
    let cb = wrap_next(c, w);
    alive_weight(cell_at(g, w, ra, ca)) + alive_weight(cell_at(g, w, ra, c)) + alive_weight(
        cell_at(g, w, ra, cb),
    ) + alive_weight(cell_at(g, w, r, ca)) + alive_weight(cell_at(g, w, r, cb)) + alive_weight(
        cell_at(g, w, rb, ca),
    ) + alive_weight(cell_at(g, w, rb, c)) + alive_weight(cell_at(g, w, rb, cb))
}

/// The modular offset `n - 1` lands exactly on the ring predecessor.
proof fn lemma_wrap_prev(i: int, n: int)
    requires
        1 <= n,
        0 <= i < n,
    ensures
        (i + n - 1) % n == wrap_prev(i, n),
{
    if i == 0 {
        lemma_fundamental_div_mod_converse(n - 1, n, 0, n - 1);
    } else {
        lemma_fundamental_div_mod_converse(i + n - 1, n, 1, i - 1);
    }
}

/// The modular offset `1` lands exactly on the ring successor.
proof fn lemma_wrap_next(i: int, n: int)
    requires
        1 <= n,
        0 <= i < n,
    ensures
        (i + 1) % n == wrap_next(i, n),
{
    if i == n - 1 {
        lemma_fundamental_div_mod_converse(n, n, 1, 0);
    } else {
        lemma_fundamental_div_mod_converse(i + 1, n, 0, i + 1);
    }
}

/// Neighbor counting is toroidal: for every in-range cell, the count through
/// modular offsets equals the count that indexes the opposite edge explicitly
/// wherever a neighbor would fall off the grid.
pub proof fn lemma_neighbors_toroidal(g: Seq<Cell>, w: int, h: int, r: int, c: int)
    requires
        1 <= w,
        1 <= h,
        0 <= r < h,
        0 <= c < w,
    ensures
        live_neighbors(g, w, h, r, c) == live_neighbors_by_edges(g, w, h, r, c),
{
    reveal(live_neighbors);
    lemma_wrap_prev(r, h);
    lemma_wrap_next(r, h);
    lemma_wrap_prev(c, w);
    lemma_wrap_next(c, w);
}

/// The transition rule is exhaustive over the ten reachable `(state, n)`
/// shapes: underpopulation and overpopulation kill a live cell, two or three
/// neighbors keep it, exactly three neighbors revive a dead cell, and every
/// remaining combination leaves the cell as it was.
pub proof fn lemma_rule_table(c: Cell, n: int)
    requires
        0 <= n <= 8,
    ensures
        c is Alive && n < 2 ==> next_cell(c, n) is Dead,
        c is Alive && (n == 2 || n == 3) ==> next_cell(c, n) is Alive,
        c is Alive && n > 3 ==> next_cell(c, n) is Dead,
        c is Dead && n == 3 ==> next_cell(c, n) is Alive,
        c is Dead && n != 3 ==> next_cell(c, n) == c,
{
}

/// The rendering of a well-sized grid has exactly `h` newline-terminated
/// lines: a newline at the end of every row and a cell glyph everywhere else.
pub proof fn lemma_rendered_shape(g: Seq<Cell>, w: int, h: int)
    requires
        1 <= w,
        1 <= h,
        g.len() == w * h,
    ensures
        rendered(g, w, h).len() == h * (w + 1),
        forall|r: int| 0 <= r < h ==> rendered(g, w, h)[#[trigger] cell_index(w + 1, r, w)] == '\n',
        forall|r: int, c: int|
            0 <= r < h && 0 <= c < w ==> rendered(g, w, h)[#[trigger] cell_index(w + 1, r, c)]
                == glyph(g[cell_index(w, r, c)]),
{
    reveal(rendered);
    assert forall|r: int| 0 <= r < h implies rendered(g, w, h)[#[trigger] cell_index(w + 1, r, w)]
        == '\n' by {
        lemma_index_bound(w + 1, h, r, w);
        lemma_fundamental_div_mod_converse(r * (w + 1) + w, w + 1, r, w);
    }
    assert forall|r: int, c: int| 0 <= r < h && 0 <= c < w implies rendered(g, w, h)[#[trigger]
        cell_index(w + 1, r, c)] == glyph(g[cell_index(w, r, c)]) by {
        lemma_index_bound(w + 1, h, r, c);
        lemma_fundamental_div_mod_converse(r * (w + 1) + c, w + 1, r, c);
    }
}

} // verus!
