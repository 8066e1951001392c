use vstd::prelude::*;
use crate::board::{
    grid_count, lemma_index_in_range, lemma_with_cell_wf, row_count, Board, BoardView, Disc,
    Position,
};

verus! {

/// The eight compass directions, in the order the rules try them.
pub open spec fn dir_of(k: int) -> (int, int) {
    if k == 0 {
        (0, 1)
    } else if k == 1 {
        (0, -1)
    } else if k == 2 {
        (1, 0)
    } else if k == 3 {
        (-1, 0)
    } else if k == 4 {
        (1, 1)
    } else if k == 5 {
        (-1, -1)
    } else if k == 6 {
        (1, -1)
    } else {
        (-1, 1)
    }
}

pub open spec fn is_dir(dr: int, dc: int) -> bool {
    -1 <= dr <= 1 && -1 <= dc <= 1 && (dr != 0 || dc != 0)
}

/// How far a walk from (r, c) along (dr, dc) can still go before it leaves the board.
pub open spec fn ray_room(b: BoardView, r: int, c: int, dr: int, dc: int) -> int {
    if dr > 0 {
        b.height - r
    } else if dr < 0 {
        r + 1
    } else if dc > 0 {
        b.width - c
    } else {
        c + 1
    }
}

/// Walking from (r, c) along (dr, dc): `Some(n)` when the walk meets `n` discs
/// of the opponent of `side` and then a disc of `side`, all on the board;
/// `None` when it meets an empty cell or the edge first.
pub open spec fn run(b: BoardView, r: int, c: int, dr: int, dc: int, side: Disc) -> Option<nat>
    decreases ray_room(b, r, c, dr, dc),
{
    if !is_dir(dr, dc) || !b.in_bounds(r, c) {
        None
    } else if b.cell(r, c) == side {
        Some(0)
    } else if b.cell(r, c) == side.other() && side.is_side() {
        match run(b, r + dr, c + dc, dr, dc, side) {
            Some(n) => Some(n + 1),
            None => None,
        }
    } else {
        None
    }
}

/// Number of opponent discs that a disc of `side` on (r, c) encloses along
/// (dr, dc); 0 when that direction encloses none.
pub open spec fn flank(b: BoardView, r: int, c: int, dr: int, dc: int, side: Disc) -> nat {
    match run(b, r + dr, c + dc, dr, dc, side) {
        Some(n) => n,
        None => 0,
    }
}

/// `side` may play on `p`: the cell is on the board and empty, and some
/// direction holds a run of opponent discs closed by a disc of `side`.
pub open spec fn is_valid(b: BoardView, p: Position, side: Disc) -> bool {
    &&& b.contains(p)
    &&& b.at(p) == Disc::Empty
    &&& exists|k: int|
        0 <= k < 8 && #[trigger] flank(b, p.row as int, p.col as int, dir_of(k).0, dir_of(k).1, side)
            > 0
}

/// `n` cells from (r, c) along (dr, dc) set to `side`.
pub open spec fn paint(b: BoardView, r: int, c: int, dr: int, dc: int, side: Disc, n: nat) -> BoardView
    decreases n,
{
    if n == 0 {
        b
    } else {
        paint(b.with_cell(r, c, side), r + dr, c + dc, dr, dc, side, (n - 1) as nat)
    }
}

/// The board after a disc of `side` is put on `p` and the first `k`
/// directions have had their enclosed discs turned.
pub open spec fn place_steps(b: BoardView, p: Position, side: Disc, k: nat) -> BoardView
    decreases k,
{
    if k == 0 {
        b.with_cell(p.row as int, p.col as int, side)
    } else {
        let prev = place_steps(b, p, side, (k - 1) as nat);
        let d = dir_of(k - 1);
        paint(
            prev,
            p.row + d.0,
            p.col + d.1,
            d.0,
            d.1,
            side,
            flank(prev, p.row as int, p.col as int, d.0, d.1, side),
        )
    }
}

/// Number of discs turned in the first `k` directions.
pub open spec fn flipped_steps(b: BoardView, p: Position, side: Disc, k: nat) -> nat
    decreases k,
{
    if k == 0 {
        0
    } else {
        let prev = place_steps(b, p, side, (k - 1) as nat);
        let d = dir_of(k - 1);
        flipped_steps(b, p, side, (k - 1) as nat) + flank(
            prev,
            p.row as int,
            p.col as int,
            d.0,
            d.1,
            side,
        )
    }
}

/// The board after `side` plays on `p`.
pub open spec fn place(b: BoardView, p: Position, side: Disc) -> BoardView {
    place_steps(b, p, side, 8)
}

/// Number of opponent discs that the move turns.
pub open spec fn flipped(b: BoardView, p: Position, side: Disc) -> nat {
    flipped_steps(b, p, side, 8)
}

pub open spec fn pos(r: int, c: int) -> Position {
    Position { row: r as isize, col: c as isize }
}

/// Valid moves of `side` in row `r` among the columns before `c`, left to right.
pub open spec fn row_moves(b: BoardView, side: Disc, r: int, c: int) -> Seq<Position>
    decreases c,
{
    if c <= 0 {
        Seq::empty()
    } else {
        let s = row_moves(b, side, r, c - 1);
        if is_valid(b, pos(r, c - 1), side) {
            s.push(pos(r, c - 1))
        } else {
            s
        }
    }
}

/// Valid moves of `side` in the rows before `r`, in row-major order.
pub open spec fn moves_before(b: BoardView, side: Disc, r: int) -> Seq<Position>
    decreases r,
{
    if r <= 0 {
        Seq::empty()
    } else {
        moves_before(b, side, r - 1) + row_moves(b, side, r - 1, b.width as int)
    }
}

/// Every valid move of `side`, in row-major order.
pub open spec fn valid_moves(b: BoardView, side: Disc) -> Seq<Position> {
    moves_before(b, side, b.height as int)
}

/// Either side may play on `p`.
pub open spec fn movable(b: BoardView, p: Position) -> bool {
    is_valid(b, p, Disc::Black) || is_valid(b, p, Disc::White)
}

/// Either side can still move somewhere.
pub open spec fn has_any_valid_moves(b: BoardView) -> bool {
    exists|p: Position| #[trigger] movable(b, p)
}

/// The colour with strictly more discs; `None` on a tie.
pub open spec fn winner_of(b: BoardView) -> Option<Disc> {
    if b.count(Disc::White) > b.count(Disc::Black) {
        Some(Disc::White)
    } else if b.count(Disc::Black) > b.count(Disc::White) {
        Some(Disc::Black)
    } else {
        None
    }
}

pub proof fn lemma_row_moves_valid(b: BoardView, side: Disc, r: int, c: int)
    ensures
        forall|i: int|
            0 <= i < row_moves(b, side, r, c).len() ==> {
                is_valid(b, #[trigger] row_moves(b, side, r, c)[i], side)
            },
    decreases c,
{
    if c > 0 {
        lemma_row_moves_valid(b, side, r, c - 1);
        let s = row_moves(b, side, r, c - 1);
        if is_valid(b, pos(r, c - 1), side) {
            assert forall|i: int| 0 <= i < s.len() + 1 implies is_valid(
                b,
                #[trigger] s.push(pos(r, c - 1))[i],
                side,
            ) by {
                if i < s.len() {
                    assert(s.push(pos(r, c - 1))[i] == s[i]);
                }
            }
        }
    }
}

pub proof fn lemma_moves_before_valid(b: BoardView, side: Disc, r: int)
    ensures
        forall|i: int|
            0 <= i < moves_before(b, side, r).len() ==> is_valid(
                b,
                #[trigger] moves_before(b, side, r)[i],
                side,
            ),
    decreases r,
{
    if r > 0 {
        lemma_moves_before_valid(b, side, r - 1);
        lemma_row_moves_valid(b, side, r - 1, b.width as int);
        let s = moves_before(b, side, r - 1);
        let t = row_moves(b, side, r - 1, b.width as int);
        assert forall|i: int| 0 <= i < (s + t).len() implies is_valid(b, #[trigger] (s + t)[i], side) by {
            if i >= s.len() {
                assert((s + t)[i] == t[i - s.len()]);
            }
        }
    }
}

/// Every listed move is a valid move.
pub proof fn lemma_valid_moves_valid(b: BoardView, side: Disc)
    ensures
        forall|i: int|
            0 <= i < valid_moves(b, side).len() ==> is_valid(
                b,
                #[trigger] valid_moves(b, side)[i],
                side,
            ),
{
    lemma_moves_before_valid(b, side, b.height as int);
}

pub proof fn lemma_paint_shape(b: BoardView, r: int, c: int, dr: int, dc: int, side: Disc, n: nat)
    requires
        b.wf(),
        run(b, r, c, dr, dc, side) == Some(n),
    ensures
        paint(b, r, c, dr, dc, side, n).wf(),
        paint(b, r, c, dr, dc, side, n).same_shape(b),
    decreases n,
{
    if n > 0 {
        let b2 = b.with_cell(r, c, side);
        lemma_with_cell_wf(b, r, c, side);
        assert(run(b, r + dr, c + dc, dr, dc, side) == Some((n - 1) as nat));
        lemma_run_unchanged_ahead(b, r, c, dr, dc, side, (n - 1) as nat);
        lemma_paint_shape(b2, r + dr, c + dc, dr, dc, side, (n - 1) as nat);
    }
}

/// A run that starts one step after (r, c) reads the same after (r, c) is written.
pub proof fn lemma_run_unchanged_ahead(
    b: BoardView,
    r: int,
    c: int,
    dr: int,
    dc: int,
    side: Disc,
    n: nat,
)
    requires
        b.wf(),
        b.in_bounds(r, c),
        is_dir(dr, dc),
        run(b, r + dr, c + dc, dr, dc, side) == Some(n),
    ensures
        run(b.with_cell(r, c, side), r + dr, c + dc, dr, dc, side) == Some(n),
{
    lemma_dir_step(dr, dc);
    assert(dr * (r + dr - r) + dc * (c + dc - c) >= 1) by (nonlinear_arith)
        requires
            dr * dr + dc * dc >= 1,
    ;
    lemma_run_unchanged_from(b, r, c, r + dr, c + dc, dr, dc, side, n, 1);
}

pub proof fn lemma_dir_step(dr: int, dc: int)
    requires
        is_dir(dr, dc),
    ensures
        dr * dr + dc * dc >= 1,
{
    assert(dr * dr + dc * dc >= 1) by (nonlinear_arith)
        requires
            -1 <= dr <= 1,
            -1 <= dc <= 1,
            dr != 0 || dc != 0,
    {
        if dr != 0 {
            assert(dr * dr == 1) by (nonlinear_arith)
                requires
                    dr == 1 || dr == -1,
            ;
        } else {
            assert(dc * dc == 1) by (nonlinear_arith)
                requires
                    dc == 1 || dc == -1,
            ;
        }
        assert(dc * dc >= 0);
        assert(dr * dr >= 0);
    }
}

proof fn lemma_run_unchanged_from(
    b: BoardView,
    r0: int,
    c0: int,
    r: int,
    c: int,
    dr: int,
    dc: int,
    side: Disc,
    n: nat,
    k: int,
)
    requires
        b.wf(),
        b.in_bounds(r0, c0),
        is_dir(dr, dc),
        k >= 1,
        dr * (r - r0) + dc * (c - c0) >= k,
        run(b, r, c, dr, dc, side) == Some(n),
    ensures
        run(b.with_cell(r0, c0, side), r, c, dr, dc, side) == Some(n),
    decreases n,
{
    lemma_with_cell_wf(b, r0, c0, side);
    let b2 = b.with_cell(r0, c0, side);
    assert(r != r0 || c != c0) by (nonlinear_arith)
        requires
            dr * (r - r0) + dc * (c - c0) >= k,
            k >= 1,
    ;
    assert(b2.cell(r, c) == b.cell(r, c));
    if n > 0 {
        lemma_dir_step(dr, dc);
        assert(dr * (r + dr - r0) + dc * (c + dc - c0) >= k + 1) by (nonlinear_arith)
            requires
                dr * (r - r0) + dc * (c - c0) >= k,
                dr * dr + dc * dc >= 1,
        ;
        lemma_run_unchanged_from(b, r0, c0, r + dr, c + dc, dr, dc, side, (n - 1) as nat, k + 1);
    }
}

pub proof fn lemma_place_steps_shape(b: BoardView, p: Position, side: Disc, k: nat)
    requires
        b.wf(),
        b.contains(p),
        k <= 8,
    ensures
        place_steps(b, p, side, k).wf(),
        place_steps(b, p, side, k).same_shape(b),
    decreases k,
{
    if k == 0 {
        lemma_with_cell_wf(b, p.row as int, p.col as int, side);
    } else {
        lemma_place_steps_shape(b, p, side, (k - 1) as nat);
        let prev = place_steps(b, p, side, (k - 1) as nat);
        let d = dir_of(k - 1);
        let n = flank(prev, p.row as int, p.col as int, d.0, d.1, side);
        if n > 0 {
            lemma_paint_shape(prev, p.row + d.0, p.col + d.1, d.0, d.1, side, n);
        }
    }
}

/// A disc dropped at a flat board index.
pub struct Move {
    index: usize,
    tile: Disc,
}

/// An Othello game: one board and the rules that act on it. The side to
/// move is always given by the caller.
pub struct Othello {
    board: Board,
}

impl View for Othello {
    type V = BoardView;

    closed spec fn view(&self) -> BoardView {
        self.board@
    }
}

impl Clone for Othello {
    fn clone(&self) -> (r: Self)
        ensures
            r@ == self@,
            r.wf() == self.wf(),
    {
        Othello { board: self.board.clone() }
    }
}

fn direction(k: usize) -> (d: (isize, isize))
    requires
        k < 8,
    ensures
        d.0 == dir_of(k as int).0,
        d.1 == dir_of(k as int).1,
        is_dir(d.0 as int, d.1 as int),
{
    if k == 0 {
        (0, 1)
    } else if k == 1 {
        (0, -1)
    } else if k == 2 {
        (1, 0)
    } else if k == 3 {
        (-1, 0)
    } else if k == 4 {
        (1, 1)
    } else if k == 5 {
        (-1, -1)
    } else if k == 6 {
        (1, -1)
    } else {
        (-1, 1)
    }
}

impl Othello {
    pub closed spec fn board_ok(&self) -> bool {
        self.board.wf()
    }

    pub open spec fn wf(&self) -> bool {
        self@.wf() && self.board_ok()
    }

    pub fn new(board: Board) -> (r: Self)
        ensures
            r@ == board@,
            r.wf() == board.wf(),
    {
        Othello { board }
    }

    pub fn board(&self) -> (r: &Board)
        ensures
            r@ == self@,
            r.wf() == self.wf(),
    {
        &self.board
    }

    fn in_bounds(&self, pos: Position) -> (r: bool)
        requires
            self.wf(),
        ensures
            r == self@.contains(pos),
    {
        pos.row >= 0 && pos.col >= 0 && (pos.row as usize) < self.board.height() && (pos.col as usize)
            < self.board.width()
    }

    /// Number of opponent discs that `player` on `pos` encloses along (dr, dc).
    fn flank_len(&self, pos: Position, player: Disc, dr: isize, dc: isize) -> (n: usize)
        requires
            self.wf(),
            self@.contains(pos),
            player.is_side(),
            is_dir(dr as int, dc as int),
        ensures
            n == flank(self@, pos.row as int, pos.col as int, dr as int, dc as int, player),
    {
        let ghost b = self@;
        let between = player.opponent();
        let mut row: isize = pos.row + dr;
        let mut col: isize = pos.col + dc;
        let mut seen: usize = 0;
        loop
            invariant
                self.wf(),
                b == self@,
                is_dir(dr as int, dc as int),
                player.is_side(),
                between == player.other(),
                b.contains(pos),
                dr == 1 ==> row == pos.row + seen + 1,
                dr == -1 ==> row == pos.row - seen - 1,
                dr == 0 ==> row == pos.row,
                dc == 1 ==> col == pos.col + seen + 1,
                dc == -1 ==> col == pos.col - seen - 1,
                dc == 0 ==> col == pos.col,
                run(b, pos.row + dr, pos.col + dc, dr as int, dc as int, player) == match run(
                    b,
                    row as int,
                    col as int,
                    dr as int,
                    dc as int,
                    player,
                ) {
                    Some(k) => Some((k + seen) as nat),
                    None => None::<nat>,
                },
            decreases ray_room(b, row as int, col as int, dr as int, dc as int),
        {
            let here = Position::new(row, col);
            if !self.in_bounds(here) {
                return 0;
            }
            let disc = self.board.at(here);
            if disc == Disc::Empty {
                return 0;
            } else if disc == between {
                seen += 1;
            } else {
                return seen;
            }
            row = row + dr;
            col = col + dc;
        }
    }

    /// `player` may play on `pos`.
    pub fn is_valid_move(&self, pos: Position, player: Disc) -> (r: bool)
        requires
            self.wf(),
            player.is_side(),
        ensures
            r == is_valid(self@, pos, player),
    {
        if !self.in_bounds(pos) {
            return false;
        }
        if self.board.at(pos) != Disc::Empty {
            return false;
        }
        let mut k: usize = 0;
        while k < 8
            invariant
                self.wf(),
                player.is_side(),
                self@.contains(pos),
                self@.at(pos) == Disc::Empty,
                k <= 8,
                forall|j: int|
                    0 <= j < k ==> #[trigger] flank(
                        self@,
                        pos.row as int,
                        pos.col as int,
                        dir_of(j).0,
                        dir_of(j).1,
                        player,
                    ) == 0,
            decreases 8 - k,
        {
            let (dr, dc) = direction(k);
            if self.flank_len(pos, player, dr, dc) > 0 {
                return true;
            }
            k += 1;
        }
        false
    }

    /// Turns the `n` discs from (row, col) along (dr, dc) to `player`.
    fn turn_run(&mut self, row: isize, col: isize, dr: isize, dc: isize, player: Disc, n: usize)
        requires
            old(self).wf(),
            is_dir(dr as int, dc as int),
            run(old(self)@, row as int, col as int, dr as int, dc as int, player) == Some(n as nat),
        ensures
            final(self).wf(),
            final(self)@ == paint(
                old(self)@,
                row as int,
                col as int,
                dr as int,
                dc as int,
                player,
                n as nat,
            ),
    {
        let ghost start = self@;
        let ghost target = paint(start, row as int, col as int, dr as int, dc as int, player, n as nat);
        let mut r = row;
        let mut c = col;
        let mut i: usize = 0;
        while i < n
            invariant
                self.wf(),
                self@.same_shape(start),
                start.wf(),
                is_dir(dr as int, dc as int),
                i <= n,
                run(start, r as int, c as int, dr as int, dc as int, player) == Some((n - i) as nat),
                paint(self@, r as int, c as int, dr as int, dc as int, player, (n - i) as nat)
                    == target,
            decreases n - i,
        {
            let ghost before = self@;
            self.board.set(Position::new(r, c), player);
            proof {
                lemma_with_cell_wf(before, r as int, c as int, player);
            }
            r = r + dr;
            c = c + dc;
            i += 1;
        }
    }

    /// Puts a disc of `player` on `pos` and turns every enclosed opponent disc.
    pub fn place(&mut self, pos: Position, player: Disc)
        requires
            old(self).wf(),
            player.is_side(),
            is_valid(old(self)@, pos, player),
        ensures
            final(self).wf(),
            final(self)@ == place(old(self)@, pos, player),
    {
        let ghost start = self@;
        self.board.set(pos, player);
        let mut k: usize = 0;
        while k < 8
            invariant
                self.wf(),
                start.wf(),
                start.contains(pos),
                player.is_side(),
                k <= 8,
                self@ == place_steps(start, pos, player, k as nat),
            decreases 8 - k,
        {
            let (dr, dc) = direction(k);
            proof {
                lemma_place_steps_shape(start, pos, player, k as nat);
            }
            let n = self.flank_len(pos, player, dr, dc);
            if n > 0 {
                self.turn_run(pos.row + dr, pos.col + dc, dr, dc, player, n);
            }
            k += 1;
        }
    }

    /// Every valid move of `player`, in row-major order.
    pub fn valid_moves(&self, player: Disc) -> (r: Vec<Position>)
        requires
            self.wf(),
            player.is_side(),
        ensures
            r@ == valid_moves(self@, player),
    {
        let mut moves: Vec<Position> = Vec::new();
        let height = self.board.height();
        let width = self.board.width();
        let mut row: usize = 0;
        while row < height
            invariant
                self.wf(),
                player.is_side(),
                height == self@.height,
                width == self@.width,
                row <= height,
                moves@ == moves_before(self@, player, row as int),
            decreases height - row,
        {
            let mut col: usize = 0;
            while col < width
                invariant
                    self.wf(),
                    player.is_side(),
                    height == self@.height,
                    width == self@.width,
                    row < height,
                    col <= width,
                    moves@ == moves_before(self@, player, row as int) + row_moves(
                        self@,
                        player,
                        row as int,
                        col as int,
                    ),
                decreases width - col,
            {
                let p = Position::new(row as isize, col as isize);
                proof {
                    assert(p == pos(row as int, col as int));
                }
                if self.is_valid_move(p, player) {
                    moves.push(p);
                }
                col += 1;
                proof {
                    assert(moves@ =~= moves_before(self@, player, row as int) + row_moves(
                        self@,
                        player,
                        row as int,
                        col as int,
                    ));
                }
            }
            row += 1;
        }
        moves
    }

    /// Either side can still move.
    pub fn any_valid_moves(&self) -> (r: bool)
        requires
            self.wf(),
        ensures
            r == has_any_valid_moves(self@),
    {
        let height = self.board.height();
        let width = self.board.width();
        let mut row: usize = 0;
        while row < height
            invariant
                self.wf(),
                height == self@.height,
                width == self@.width,
                row <= height,
                forall|p: Position| p.row < row ==> !#[trigger] movable(self@, p),
            decreases height - row,
        {
            let mut col: usize = 0;
            while col < width
                invariant
                    self.wf(),
                    height == self@.height,
                    width == self@.width,
                    row < height,
                    col <= width,
                    forall|p: Position|
                        p.row < row || (p.row == row && p.col < col) ==> !#[trigger] movable(
                            self@,
                            p,
                        ),
                decreases width - col,
            {
                let p = Position::new(row as isize, col as isize);
                if self.is_valid_move(p, Disc::Black) || self.is_valid_move(p, Disc::White) {
                    proof {
                        assert(movable(self@, p));
                    }
                    return true;
                }
                col += 1;
            }
            row += 1;
        }
        proof {
            assert forall|p: Position| !#[trigger] movable(self@, p) by {
                if p.row >= height {
                    assert(!self@.contains(p));
                }
            }
        }
        false
    }

    /// The colour with more discs, `None` on a tie.
    pub fn winner(&self) -> (r: Option<Disc>)
        requires
            self.wf(),
        ensures
            r == winner_of(self@),
    {
        let ghost b = self@;
        let height = self.board.height();
        let width = self.board.width();
        let mut white: usize = 0;
        let mut black: usize = 0;
        let mut row: usize = 0;
        while row < height
            invariant
                self.wf(),
                b == self@,
                height == b.height,
                width == b.width,
                row <= height,
                white == grid_count(b.rows.take(row as int), Disc::White),
                black == grid_count(b.rows.take(row as int), Disc::Black),
                white + black <= row * width,
            decreases height - row,
        {
            let mut col: usize = 0;
            while col < width
                invariant
                    self.wf(),
                    b == self@,
                    height == b.height,
                    width == b.width,
                    row < height,
                    col <= width,
                    white == grid_count(b.rows.take(row as int), Disc::White) + row_count(
                        b.rows[row as int].take(col as int),
                        Disc::White,
                    ),
                    black == grid_count(b.rows.take(row as int), Disc::Black) + row_count(
                        b.rows[row as int].take(col as int),
                        Disc::Black,
                    ),
                    white + black <= row * width + col,
                decreases width - col,
            {
                let disc = self.board.at(Position::new(row as isize, col as isize));
                proof {
                    lemma_index_in_range(width as int, height as int, row as int, col as int);
                    assert(b.rows[row as int].take(col + 1).drop_last() =~= b.rows[row as int].take(
                        col as int,
                    ));
                }
                if disc == Disc::White {
                    white += 1;
                } else if disc == Disc::Black {
                    black += 1;
                }
                col += 1;
            }
            proof {
                assert(b.rows[row as int].take(width as int) =~= b.rows[row as int]);
                assert(b.rows.take(row + 1).drop_last() =~= b.rows.take(row as int));
                assert((row + 1) * width == row * width + width) by (nonlinear_arith);
            }
            row += 1;
        }
        proof {
            assert(b.rows.take(height as int) =~= b.rows);
        }
        if white > black {
            Some(Disc::White)
        } else if black > white {
            Some(Disc::Black)
        } else {
            None
        }
    }
}

} // verus!
