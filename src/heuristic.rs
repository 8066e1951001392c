use vstd::prelude::*;
use crate::board::{BoardView, Disc, Position};
use crate::game::{moves_before, row_moves, valid_moves, Othello};
use crate::search::{Evaluation, Heuristic};

verus! {

/// Scores every position 0.
#[derive(Clone, Copy)]
pub struct HZero;

impl HZero {
    pub fn new() -> (r: Box<HZero>) {
        Box::new(HZero)
    }
}

impl Heuristic for HZero {
    open spec fn exact(&self) -> bool {
        true
    }

    open spec fn score(&self, b: BoardView, player: Disc) -> int {
        0
    }

    open spec fn accepts(&self, width: nat, height: nat) -> bool {
        true
    }

    proof fn lemma_score_fits(&self, b: BoardView, player: Disc)
    {
    }

    fn eval(&mut self, game: &Othello, player: Disc) -> (r: Evaluation) {
        0
    }
}

/// Relies on `rand::random`: a uniformly drawn `isize` from the thread-local
/// generator; nothing is known of its value.
#[verifier::external_body]
fn random_draw() -> (r: isize) {
    rand::random::<isize>()
}

/// A drawn number brought into the range −9 ..= 9: the remainder of `draw`
/// by 10, with the sign of `draw`.
pub open spec fn random_score_of(draw: int) -> int {
    if draw >= 0 {
        draw % 10
    } else {
        -((-draw) % 10)
    }
}

/// The score that a random draw gives.
pub fn random_score(draw: isize) -> (r: Evaluation)
    ensures
        r == random_score_of(draw as int),
        -9 <= r <= 9,
{
    if draw >= 0 {
        draw % 10
    } else {
        let p: isize = -(draw + 1);
        let m = (p % 10 + 1) % 10;
        proof {
            assert(m == (p + 1) % 10) by (nonlinear_arith)
                requires
                    p >= 0,
                    m == (p % 10 + 1) % 10,
            ;
        }
        -m
    }
}

/// A noisy score in −9 ..= 9, drawn anew at each evaluation.
#[derive(Clone, Copy)]
pub struct HRandom;

impl HRandom {
    pub fn new() -> (r: Box<HRandom>) {
        Box::new(HRandom)
    }
}

impl Heuristic for HRandom {
    open spec fn exact(&self) -> bool {
        false
    }

    open spec fn score(&self, b: BoardView, player: Disc) -> int {
        0
    }

    open spec fn accepts(&self, width: nat, height: nat) -> bool {
        true
    }

    proof fn lemma_score_fits(&self, b: BoardView, player: Disc)
    {
    }

    fn eval(&mut self, game: &Othello, player: Disc) -> (r: Evaluation)
        ensures
            -9 <= r <= 9,
    {
        random_score(random_draw())
    }
}

/// Discs of `player` minus discs of its opponent.
pub open spec fn unit_score(b: BoardView, player: Disc) -> int {
    b.count(player) - b.count(player.other())
}

/// Discs of `player` minus discs of its opponent.
#[derive(Clone, Copy)]
pub struct HUnit;

impl HUnit {
    pub fn new() -> (r: Box<HUnit>) {
        Box::new(HUnit)
    }
}

impl Heuristic for HUnit {
    open spec fn exact(&self) -> bool {
        true
    }

    open spec fn score(&self, b: BoardView, player: Disc) -> int {
        unit_score(b, player)
    }

    open spec fn accepts(&self, width: nat, height: nat) -> bool {
        true
    }

    proof fn lemma_score_fits(&self, b: BoardView, player: Disc)
    {
        crate::board::lemma_count_le(b, player);
        crate::board::lemma_count_le(b, player.other());
    }

    fn eval(&mut self, game: &Othello, player: Disc) -> (r: Evaluation) {
        let ghost b = game@;
        let board = game.board();
        let opponent = player.opponent();
        let height = board.height();
        let width = board.width();
        let mut sum: isize = 0;
        let mut row: usize = 0;
        while row < height
            invariant
                board.wf(),
                board@ == b,
                b.wf(),
                player.is_side(),
                opponent == player.other(),
                height == b.height,
                width == b.width,
                row <= height,
                sum == crate::board::grid_count(b.rows.take(row as int), player)
                    - crate::board::grid_count(b.rows.take(row as int), opponent),
                -(row * width) <= sum <= row * width,
            decreases height - row,
        {
            let mut col: usize = 0;
            while col < width
                invariant
                    board.wf(),
                    board@ == b,
                    b.wf(),
                    player.is_side(),
                    opponent == player.other(),
                    height == b.height,
                    width == b.width,
                    row < height,
                    col <= width,
                    sum == crate::board::grid_count(b.rows.take(row as int), player)
                        - crate::board::grid_count(b.rows.take(row as int), opponent)
                        + crate::board::row_count(b.rows[row as int].take(col as int), player)
                        - crate::board::row_count(b.rows[row as int].take(col as int), opponent),
                    -(row * width + col) <= sum <= row * width + col,
                decreases width - col,
            {
                proof {
                    crate::board::lemma_index_in_range(
                        width as int,
                        height as int,
                        row as int,
                        col as int,
                    );
                    assert(b.rows[row as int].take(col + 1).drop_last() =~= b.rows[row as int].take(
                        col as int,
                    ));
                }
                let disc = board.at(Position::new(row as isize, col as isize));
                if disc == player {
                    sum += 1;
                } else if disc == opponent {
                    sum -= 1;
                }
                col += 1;
            }
            proof {
                assert(b.rows[row as int].take(width as int) =~= b.rows[row as int]);
                assert(b.rows.take(row + 1).drop_last() =~= b.rows.take(row as int));
                assert((row + 1) * width == row * width + width) by (nonlinear_arith);
            }
            row += 1;
        }
        proof {
            assert(b.rows.take(height as int) =~= b.rows);
        }
        sum
    }
}

/// The positional weight of a cell of the 8 × 8 board: the table is
/// symmetric in both axes, so it is given for one quarter.
pub open spec fn cell_weight(r: int, c: int) -> int {
    let i = if r < 4 {
        r
    } else {
        7 - r
    };
    let j = if c < 4 {
        c
    } else {
        7 - c
    };
    if i == 0 {
        if j == 0 {
            120
        } else if j == 1 {
            -20
        } else if j == 2 {
            20
        } else {
            5
        }
    } else if i == 1 {
        if j == 0 {
            -20
        } else if j == 1 {
            -40
        } else {
            -5
        }
    } else if i == 2 {
        if j == 0 {
            20
        } else if j == 1 {
            -5
        } else if j == 2 {
            15
        } else {
            3
        }
    } else {
        if j == 0 {
            5
        } else if j == 1 {
            -5
        } else {
            3
        }
    }
}

fn weight_at(row: usize, col: usize) -> (r: isize)
    requires
        row < 8,
        col < 8,
    ensures
        r == cell_weight(row as int, col as int),
        -120 <= r <= 120,
{
    let i = if row < 4 {
        row
    } else {
        7 - row
    };
    let j = if col < 4 {
        col
    } else {
        7 - col
    };
    if i == 0 {
        if j == 0 {
            120
        } else if j == 1 {
            -20
        } else if j == 2 {
            20
        } else {
            5
        }
    } else if i == 1 {
        if j == 0 {
            -20
        } else if j == 1 {
            -40
        } else {
            -5
        }
    } else if i == 2 {
        if j == 0 {
            20
        } else if j == 1 {
            -5
        } else if j == 2 {
            15
        } else {
            3
        }
    } else {
        if j == 0 {
            5
        } else if j == 1 {
            -5
        } else {
            3
        }
    }
}

/// The signed weight that cell (r, c) contributes for `player`.
pub open spec fn weighted_cell(b: BoardView, player: Disc, r: int, c: int) -> int {
    if b.cell(r, c) == player {
        cell_weight(r, c)
    } else if b.cell(r, c) == player.other() {
        -cell_weight(r, c)
    } else {
        0
    }
}

/// Weighted sum over row `r`, columns before `c`.
pub open spec fn weighted_cols(b: BoardView, player: Disc, r: int, c: int) -> int
    decreases c,
{
    if c <= 0 {
        0
    } else {
        weighted_cols(b, player, r, c - 1) + weighted_cell(b, player, r, c - 1)
    }
}

/// Weighted sum over the rows before `r`.
pub open spec fn weighted_rows(b: BoardView, player: Disc, r: int) -> int
    decreases r,
{
    if r <= 0 {
        0
    } else {
        weighted_rows(b, player, r - 1) + weighted_cols(b, player, r - 1, b.width as int)
    }
}

/// The positional score: each disc of `player` adds its cell's weight, each
/// disc of the opponent subtracts it.
pub open spec fn weighted_score(b: BoardView, player: Disc) -> int {
    weighted_rows(b, player, b.height as int)
}

proof fn lemma_weighted_cols_bound(b: BoardView, player: Disc, r: int, c: int)
    requires
        0 <= c,
    ensures
        -120 * c <= weighted_cols(b, player, r, c) <= 120 * c,
    decreases c,
{
    if c > 0 {
        lemma_weighted_cols_bound(b, player, r, c - 1);
    }
}

proof fn lemma_weighted_rows_bound(b: BoardView, player: Disc, r: int)
    requires
        0 <= r,
        b.width == 8,
    ensures
        -960 * r <= weighted_rows(b, player, r) <= 960 * r,
    decreases r,
{
    if r > 0 {
        lemma_weighted_rows_bound(b, player, r - 1);
        lemma_weighted_cols_bound(b, player, r - 1, 8);
    }
}

fn weighted_eval(game: &Othello, player: Disc) -> (r: Evaluation)
    requires
        game.wf(),
        player.is_side(),
        game@.width == 8,
        game@.height == 8,
    ensures
        r == weighted_score(game@, player),
        -120 * 64 <= r <= 120 * 64,
{
    let ghost b = game@;
    let board = game.board();
    let opponent = player.opponent();
    let mut sum: isize = 0;
    let mut row: usize = 0;
    while row < 8
        invariant
            board.wf(),
            board@ == b,
            b.wf(),
            b.width == 8,
            b.height == 8,
            player.is_side(),
            opponent == player.other(),
            row <= 8,
            sum == weighted_rows(b, player, row as int),
            -960 * (row as int) <= sum <= 960 * (row as int),
        decreases 8 - row,
    {
        let mut col: usize = 0;
        let ghost base = sum;
        while col < 8
            invariant
                board.wf(),
                board@ == b,
                b.wf(),
                b.width == 8,
                b.height == 8,
                player.is_side(),
                opponent == player.other(),
                row < 8,
                col <= 8,
                base == weighted_rows(b, player, row as int),
                sum == base + weighted_cols(b, player, row as int, col as int),
                -960 * (row as int) - 120 * (col as int) <= sum <= 960 * (row as int) + 120 * (
                col as int),
            decreases 8 - col,
        {
            let w = weight_at(row, col);
            let disc = board.at(Position::new(row as isize, col as isize));
            if disc == player {
                sum += w;
            } else if disc == opponent {
                sum -= w;
            }
            col += 1;
        }
        row += 1;
    }
    sum
}

/// The positional score from a fixed 8 × 8 weight table.
#[derive(Clone, Copy)]
pub struct HWeighted;

impl HWeighted {
    pub fn new() -> (r: Box<HWeighted>) {
        Box::new(HWeighted)
    }
}

impl Heuristic for HWeighted {
    open spec fn exact(&self) -> bool {
        true
    }

    open spec fn score(&self, b: BoardView, player: Disc) -> int {
        weighted_score(b, player)
    }

    open spec fn accepts(&self, width: nat, height: nat) -> bool {
        width == 8 && height == 8
    }

    proof fn lemma_score_fits(&self, b: BoardView, player: Disc)
    {
        lemma_weighted_rows_bound(b, player, 8);
    }

    fn eval(&mut self, game: &Othello, player: Disc) -> (r: Evaluation)
        ensures
            -120 * 64 <= r <= 120 * 64,
    {
        weighted_eval(game, player)
    }
}

/// Number of valid moves of `player`.
pub open spec fn mobility_score(b: BoardView, player: Disc) -> int {
    valid_moves(b, player).len() as int
}

proof fn lemma_row_moves_len(b: BoardView, side: Disc, r: int, c: int)
    requires
        c >= 0,
    ensures
        row_moves(b, side, r, c).len() <= c,
    decreases c,
{
    if c > 0 {
        lemma_row_moves_len(b, side, r, c - 1);
    }
}

proof fn lemma_moves_before_len(b: BoardView, side: Disc, r: int)
    requires
        r >= 0,
    ensures
        moves_before(b, side, r).len() <= r * b.width,
    decreases r,
{
    if r > 0 {
        lemma_moves_before_len(b, side, r - 1);
        lemma_row_moves_len(b, side, r - 1, b.width as int);
        assert((r - 1) * b.width + b.width == r * b.width) by (nonlinear_arith);
    }
}

/// A side has at most one valid move per cell.
pub proof fn lemma_mobility_bound(b: BoardView, side: Disc)
    requires
        b.wf(),
    ensures
        valid_moves(b, side).len() <= b.width * b.height,
{
    lemma_moves_before_len(b, side, b.height as int);
    assert(b.height * b.width == b.width * b.height) by (nonlinear_arith);
}

fn mobility_eval(game: &Othello, player: Disc) -> (r: Evaluation)
    requires
        game.wf(),
        player.is_side(),
    ensures
        r == mobility_score(game@, player),
        0 <= r <= game@.width * game@.height,
{
    let moves = game.valid_moves(player);
    proof {
        lemma_mobility_bound(game@, player);
    }
    moves.len() as isize
}

/// The number of valid moves of the scored side.
#[derive(Clone, Copy)]
pub struct HMobility;

impl HMobility {
    pub fn new() -> (r: Box<HMobility>) {
        Box::new(HMobility)
    }
}

impl Heuristic for HMobility {
    open spec fn exact(&self) -> bool {
        true
    }

    open spec fn score(&self, b: BoardView, player: Disc) -> int {
        mobility_score(b, player)
    }

    open spec fn accepts(&self, width: nat, height: nat) -> bool {
        true
    }

    proof fn lemma_score_fits(&self, b: BoardView, player: Disc)
    {
        lemma_mobility_bound(b, player);
    }

    fn eval(&mut self, game: &Othello, player: Disc) -> (r: Evaluation)
        ensures
            0 <= r <= game@.width * game@.height,
    {
        mobility_eval(game, player)
    }
}

/// The positional score plus 5 times the mobility.
#[derive(Clone)]
pub struct HWeightedMobility {
    weight: Box<HWeighted>,
    mobility: Box<HMobility>,
}

impl HWeightedMobility {
    pub fn new() -> (r: Box<HWeightedMobility>) {
        Box::new(HWeightedMobility { weight: HWeighted::new(), mobility: HMobility::new() })
    }
}

impl Heuristic for HWeightedMobility {
    open spec fn exact(&self) -> bool {
        true
    }

    open spec fn score(&self, b: BoardView, player: Disc) -> int {
        weighted_score(b, player) + 5 * mobility_score(b, player)
    }

    open spec fn accepts(&self, width: nat, height: nat) -> bool {
        width == 8 && height == 8
    }

    proof fn lemma_score_fits(&self, b: BoardView, player: Disc)
    {
        lemma_weighted_rows_bound(b, player, 8);
        lemma_mobility_bound(b, player);
        assert(b.width * b.height == 64) by (nonlinear_arith)
            requires
                b.width == 8,
                b.height == 8,
        ;
    }

    fn eval(&mut self, game: &Othello, player: Disc) -> (r: Evaluation) {
        let w = HWeighted::eval(&mut *self.weight, game, player);
        let m = HMobility::eval(&mut *self.mobility, game, player);
        proof {
            lemma_weighted_rows_bound(game@, player, 8);
            lemma_mobility_bound(game@, player);
            assert(game@.width * game@.height == 64) by (nonlinear_arith)
                requires
                    game@.width == 8,
                    game@.height == 8,
            ;
        }
        w + 5 * m
    }
}

} // verus!
