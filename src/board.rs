use vstd::prelude::*;

verus! {

/// The state of one cell: a disc of either colour, or nothing.
#[derive(Copy, Clone, PartialEq, Eq, Debug, Structural)]
pub enum Disc {
    Black,
    White,
    Empty,
}

impl Disc {
    /// A colour that a player can play (not `Empty`).
    pub open spec fn is_side(self) -> bool {
        self != Disc::Empty
    }

    /// The other colour; `Empty` has none and maps to itself.
    pub open spec fn other(self) -> Disc {
        match self {
            Disc::Black => Disc::White,
            Disc::White => Disc::Black,
            Disc::Empty => Disc::Empty,
        }
    }

    pub fn opponent(&self) -> (r: Disc)
        requires
            self.is_side(),
        ensures
            r == self.other(),
            r.is_side(),
    {
        match self {
            Disc::Black => Disc::White,
            Disc::White => Disc::Black,
            Disc::Empty => Disc::Empty,
        }
    }
}

/// A (row, column) coordinate; it names a cell and a move alike.
#[derive(Copy, Clone, PartialEq, Eq, Hash, Debug, Structural)]
pub struct Position {
    pub row: isize,
    pub col: isize,
}

impl Position {
    pub fn new(row: isize, col: isize) -> (r: Self)
        ensures
            r.row == row,
            r.col == col,
    {
        Position { row, col }
    }
}

/// The mathematical board: `rows[r][c]` is the cell at row `r`, column `c`.
pub struct BoardView {
    pub width: nat,
    pub height: nat,
    pub rows: Seq<Seq<Disc>>,
}

/// Number of cells of `row` that hold `d`.
pub open spec fn row_count(row: Seq<Disc>, d: Disc) -> nat
    decreases row.len(),
{
    if row.len() == 0 {
        0
    } else {
        row_count(row.drop_last(), d) + if row.last() == d {
            1nat
        } else {
            0nat
        }
    }
}

/// Number of cells of the grid `rows` that hold `d`.
pub open spec fn grid_count(rows: Seq<Seq<Disc>>, d: Disc) -> nat
    decreases rows.len(),
{
    if rows.len() == 0 {
        0
    } else {
        grid_count(rows.drop_last(), d) + row_count(rows.last(), d)
    }
}

impl BoardView {
    pub open spec fn wf(self) -> bool {
        &&& self.width >= 1
        &&& self.height >= 1
        &&& self.width * self.height <= isize::MAX
        &&& self.width <= isize::MAX
        &&& self.height <= isize::MAX
        &&& self.rows.len() == self.height
        &&& forall|r: int| 0 <= r < self.height ==> #[trigger] self.rows[r].len() == self.width
    }

    pub open spec fn in_bounds(self, r: int, c: int) -> bool {
        0 <= r < self.height && 0 <= c < self.width
    }

    pub open spec fn contains(self, p: Position) -> bool {
        self.in_bounds(p.row as int, p.col as int)
    }

    pub open spec fn cell(self, r: int, c: int) -> Disc {
        self.rows[r][c]
    }

    pub open spec fn at(self, p: Position) -> Disc {
        self.cell(p.row as int, p.col as int)
    }

    pub open spec fn with_cell(self, r: int, c: int, d: Disc) -> BoardView {
        BoardView { rows: self.rows.update(r, self.rows[r].update(c, d)), ..self }
    }

    /// Number of cells holding `d`.
    pub open spec fn count(self, d: Disc) -> nat {
        grid_count(self.rows, d)
    }

    pub open spec fn same_shape(self, other: BoardView) -> bool {
        self.width == other.width && self.height == other.height
    }

    /// A `width` × `height` board with every cell empty.
    pub open spec fn empty(width: nat, height: nat) -> BoardView {
        BoardView {
            width,
            height,
            rows: Seq::new(height, |r: int| Seq::new(width, |c: int| Disc::Empty)),
        }
    }

    /// The standard 8 × 8 opening: Black on (3, 3) and (4, 4), White on (3, 4) and (4, 3).
    pub open spec fn opening() -> BoardView {
        BoardView::empty(8, 8).with_cell(3, 3, Disc::Black).with_cell(3, 4, Disc::White).with_cell(
            4,
            3,
            Disc::White,
        ).with_cell(4, 4, Disc::Black)
    }
}

pub proof fn lemma_row_count_update(row: Seq<Disc>, c: int, x: Disc, d: Disc)
    requires
        0 <= c < row.len(),
    ensures
        row_count(row.update(c, x), d) + (if row[c] == d {
            1int
        } else {
            0int
        }) == row_count(row, d) + (if x == d {
            1int
        } else {
            0int
        }),
    decreases row.len(),
{
    let u = row.update(c, x);
    if c == row.len() - 1 {
        assert(u.drop_last() =~= row.drop_last());
    } else {
        assert(u.drop_last() =~= row.drop_last().update(c, x));
        lemma_row_count_update(row.drop_last(), c, x, d);
    }
}

pub proof fn lemma_grid_count_update(rows: Seq<Seq<Disc>>, r: int, new_row: Seq<Disc>, d: Disc)
    requires
        0 <= r < rows.len(),
    ensures
        grid_count(rows.update(r, new_row), d) + row_count(rows[r], d) == grid_count(rows, d)
            + row_count(new_row, d),
    decreases rows.len(),
{
    let u = rows.update(r, new_row);
    if r == rows.len() - 1 {
        assert(u.drop_last() =~= rows.drop_last());
    } else {
        assert(u.drop_last() =~= rows.drop_last().update(r, new_row));
        lemma_grid_count_update(rows.drop_last(), r, new_row, d);
    }
}

/// Writing `x` into one cell moves that cell from the count of its old
/// content to the count of `x`.
pub proof fn lemma_count_with_cell(b: BoardView, r: int, c: int, x: Disc, d: Disc)
    requires
        b.wf(),
        b.in_bounds(r, c),
    ensures
        b.with_cell(r, c, x).count(d) + (if b.cell(r, c) == d {
            1int
        } else {
            0int
        }) == b.count(d) + (if x == d {
            1int
        } else {
            0int
        }),
{
    lemma_row_count_update(b.rows[r], c, x, d);
    lemma_grid_count_update(b.rows, r, b.rows[r].update(c, x), d);
}

proof fn lemma_row_count_le(row: Seq<Disc>, d: Disc)
    ensures
        row_count(row, d) <= row.len(),
    decreases row.len(),
{
    if row.len() > 0 {
        lemma_row_count_le(row.drop_last(), d);
    }
}

proof fn lemma_grid_count_le(rows: Seq<Seq<Disc>>, width: nat, d: Disc)
    requires
        forall|r: int| 0 <= r < rows.len() ==> #[trigger] rows[r].len() == width,
    ensures
        grid_count(rows, d) <= rows.len() * width,
    decreases rows.len(),
{
    if rows.len() > 0 {
        let rest = rows.drop_last();
        assert forall|r: int| 0 <= r < rest.len() implies #[trigger] rest[r].len() == width by {
            assert(rest[r] == rows[r]);
        }
        lemma_grid_count_le(rest, width, d);
        lemma_row_count_le(rows.last(), d);
        assert(rest.len() * width + width == rows.len() * width) by (nonlinear_arith)
            requires
                rest.len() + 1 == rows.len(),
        ;
    }
}

/// No colour holds more cells than the board has.
pub proof fn lemma_count_le(b: BoardView, d: Disc)
    requires
        b.wf(),
    ensures
        b.count(d) <= b.width * b.height,
{
    lemma_grid_count_le(b.rows, b.width, d);
    assert(b.height * b.width == b.width * b.height) by (nonlinear_arith);
}

pub proof fn lemma_with_cell_wf(b: BoardView, r: int, c: int, x: Disc)
    requires
        b.wf(),
        b.in_bounds(r, c),
    ensures
        b.with_cell(r, c, x).wf(),
        b.with_cell(r, c, x).same_shape(b),
        forall|r2: int, c2: int|
            b.in_bounds(r2, c2) ==> #[trigger] b.with_cell(r, c, x).cell(r2, c2) == if r2 == r
                && c2 == c {
                x
            } else {
                b.cell(r2, c2)
            },
{
    let n = b.with_cell(r, c, x);
    assert forall|r2: int| 0 <= r2 < n.height implies #[trigger] n.rows[r2].len() == n.width by {
        if r2 == r {
        } else {
        }
    }
}

pub proof fn lemma_index_in_range(w: int, h: int, r: int, c: int)
    requires
        0 <= r < h,
        0 <= c < w,
    ensures
        0 <= r * w + c < w * h,
{
    assert(0 <= r * w) by (nonlinear_arith)
        requires
            0 <= r,
            0 <= c < w,
    ;
    assert(r * w + c < w * h) by (nonlinear_arith)
        requires
            0 <= r < h,
            0 <= c < w,
    ;
}

proof fn lemma_index_distinct(w: int, r1: int, c1: int, r2: int, c2: int)
    requires
        0 <= r1,
        0 <= r2,
        0 <= c1 < w,
        0 <= c2 < w,
        r1 != r2 || c1 != c2,
    ensures
        r1 * w + c1 != r2 * w + c2,
{
    if r1 < r2 {
        assert(r1 * w + w <= r2 * w) by (nonlinear_arith)
            requires
                r1 < r2,
                0 <= w,
        ;
    } else if r2 < r1 {
        assert(r2 * w + w <= r1 * w) by (nonlinear_arith)
            requires
                r2 < r1,
                0 <= w,
        ;
    }
}

/// The board: a `width` × `height` grid stored row by row in one flat vector.
pub struct Board {
    width: usize,
    height: usize,
    tiles: Vec<Disc>,
}

impl View for Board {
    type V = BoardView;

    closed spec fn view(&self) -> BoardView {
        BoardView {
            width: self.width as nat,
            height: self.height as nat,
            rows: Seq::new(
                self.height as nat,
                |r: int| Seq::new(self.width as nat, |c: int| self.tiles@[r * self.width + c]),
            ),
        }
    }
}

impl Board {
    pub closed spec fn flat_ok(&self) -> bool {
        self.tiles@.len() == self.width * self.height
    }

    /// Well-formed: the dimensions are positive and fit, and every cell is stored.
    pub open spec fn wf(&self) -> bool {
        self@.wf() && self.flat_ok()
    }

    proof fn lemma_view_wf(&self)
        requires
            self.width >= 1,
            self.height >= 1,
            self.width * self.height <= isize::MAX,
        ensures
            self@.wf(),
    {
        let w = self.width as int;
        let h = self.height as int;
        assert(w <= w * h && h <= w * h) by (nonlinear_arith)
            requires
                w >= 1,
                h >= 1,
        ;
    }

    pub fn new(width: usize, height: usize) -> (r: Board)
        requires
            width >= 1,
            height >= 1,
            width * height <= isize::MAX,
        ensures
            r.wf(),
            r@ == BoardView::empty(width as nat, height as nat),
    {
        let n = width * height;
        let mut tiles: Vec<Disc> = Vec::new();
        let mut i: usize = 0;
        while i < n
            invariant
                i <= n,
                tiles@.len() == i,
                forall|j: int| 0 <= j < i ==> tiles@[j] == Disc::Empty,
            decreases n - i,
        {
            tiles.push(Disc::Empty);
            i += 1;
        }
        let r = Board { width, height, tiles };
        proof {
            r.lemma_view_wf();
            assert forall|row: int, c: int| 0 <= row < height && 0 <= c < width implies #[trigger] r@.cell(row, c) == Disc::Empty by {
                lemma_index_in_range(width as int, height as int, row, c);
            }
            let e = BoardView::empty(width as nat, height as nat);
            assert forall|row: int| 0 <= row < height implies #[trigger] r@.rows[row] =~= e.rows[row] by {
                assert forall|c: int| 0 <= c < width implies r@.rows[row][c] == e.rows[row][c] by {
                    assert(r@.cell(row, c) == Disc::Empty);
                }
            }
            assert(r@.rows =~= e.rows);
        }
        r
    }

    fn index(&self, pos: Position) -> (i: usize)
        requires
            self.wf(),
            self@.contains(pos),
        ensures
            i == pos.row * self.width + pos.col,
            i < self.tiles@.len(),
    {
        proof {
            lemma_index_in_range(self.width as int, self.height as int, pos.row as int, pos.col as int);
        }
        pos.row as usize * self.width + pos.col as usize
    }

    /// Puts `tile` on `pos`.
    pub fn set(&mut self, pos: Position, tile: Disc)
        requires
            old(self).wf(),
            old(self)@.contains(pos),
        ensures
            final(self).wf(),
            final(self)@ == old(self)@.with_cell(pos.row as int, pos.col as int, tile),
    {
        let i = self.index(pos);
        self.tiles.set(i, tile);
        proof {
            let w = self.width as int;
            let o = old(self)@.with_cell(pos.row as int, pos.col as int, tile);
            assert forall|r: int| 0 <= r < self.height implies #[trigger] self@.rows[r] =~= o.rows[r] by {
                assert forall|c: int| 0 <= c < w implies self@.rows[r][c] == o.rows[r][c] by {
                    lemma_index_in_range(w, self.height as int, r, c);
                    if r != pos.row || c != pos.col {
                        lemma_index_distinct(w, r, c, pos.row as int, pos.col as int);
                    }
                }
            }
            assert(self@.rows =~= o.rows);
        }
    }

    pub fn black(&mut self, pos: Position) -> (r: &mut Self)
        requires
            old(self).wf(),
            old(self)@.contains(pos),
        ensures
            r.wf(),
            r@ == old(self)@.with_cell(pos.row as int, pos.col as int, Disc::Black),
            *final(self) == *final(r),
    {
        self.set(pos, Disc::Black);
        self
    }

    pub fn white(&mut self, pos: Position) -> (r: &mut Self)
        requires
            old(self).wf(),
            old(self)@.contains(pos),
        ensures
            r.wf(),
            r@ == old(self)@.with_cell(pos.row as int, pos.col as int, Disc::White),
            *final(self) == *final(r),
    {
        self.set(pos, Disc::White);
        self
    }

    /// The disc on `pos`.
    pub fn at(&self, pos: Position) -> (r: Disc)
        requires
            self.wf(),
            self@.contains(pos),
        ensures
            r == self@.at(pos),
    {
        let i = self.index(pos);
        self.tiles[i]
    }

    /// Number of cells.
    pub fn len(&self) -> (r: usize)
        requires
            self.wf(),
        ensures
            r == self@.width * self@.height,
    {
        self.width * self.height
    }

    pub fn width(&self) -> (r: usize)
        ensures
            r == self@.width,
    {
        self.width
    }

    pub fn height(&self) -> (r: usize)
        ensures
            r == self@.height,
    {
        self.height
    }
}

impl Clone for Board {
    fn clone(&self) -> (r: Self)
        ensures
            r@ == self@,
            r.wf() == self.wf(),
    {
        let tiles = self.tiles.clone();
        proof {
            assert(tiles@ =~= self.tiles@);
        }
        let r = Board { width: self.width, height: self.height, tiles };
        proof {
            assert(r@.rows =~= self@.rows);
        }
        r
    }
}

impl Default for Board {
    /// The standard 8 × 8 opening position.
    fn default() -> (r: Self)
        ensures
            r.wf(),
            r@ == BoardView::opening(),
    {
        let mut board = Board::new(8, 8);
        board.black(Position { row: 3, col: 3 }).white(Position { row: 3, col: 4 }).white(
            Position { row: 4, col: 3 },
        ).black(Position { row: 4, col: 4 });
        board
    }
}

} // verus!
