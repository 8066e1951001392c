use vstd::prelude::*;
use crate::board::{lemma_count_with_cell, lemma_with_cell_wf, BoardView, Disc, Position};
use crate::game::{
    dir_of, flank, flipped, flipped_steps, is_dir, is_valid, lemma_dir_step, lemma_place_steps_shape,
    lemma_run_unchanged_ahead, paint, place, place_steps, run, winner_of,
};

verus! {

/// A run that starts strictly ahead of (r0, c0) along (dr, dc) reads the
/// same whatever is written on (r0, c0).
proof fn lemma_run_ahead_same(
    b: BoardView,
    r0: int,
    c0: int,
    x: Disc,
    r: int,
    c: int,
    dr: int,
    dc: int,
    side: Disc,
)
    requires
        b.wf(),
        b.in_bounds(r0, c0),
        is_dir(dr, dc),
        dr * (r - r0) + dc * (c - c0) >= 1,
    ensures
        run(b.with_cell(r0, c0, x), r, c, dr, dc, side) == run(b, r, c, dr, dc, side),
    decreases crate::game::ray_room(b, r, c, dr, dc),
{
    lemma_with_cell_wf(b, r0, c0, x);
    assert(r != r0 || c != c0) by (nonlinear_arith)
        requires
            dr * (r - r0) + dc * (c - c0) >= 1,
    ;
    if b.in_bounds(r, c) {
        lemma_dir_step(dr, dc);
        assert(dr * (r + dr - r0) + dc * (c + dc - c0) >= 1) by (nonlinear_arith)
            requires
                dr * (r - r0) + dc * (c - c0) >= 1,
                dr * dr + dc * dc >= 1,
        ;
        lemma_run_ahead_same(b, r0, c0, x, r + dr, c + dc, dr, dc, side);
    }
}

/// Turning a run of `n` opponent discs moves `n` discs from the opponent's
/// count to `side`'s and leaves the empty cells alone.
proof fn lemma_paint_counts(b: BoardView, r: int, c: int, dr: int, dc: int, side: Disc, n: nat)
    requires
        b.wf(),
        side.is_side(),
        run(b, r, c, dr, dc, side) == Some(n),
    ensures
        paint(b, r, c, dr, dc, side, n).count(side) == b.count(side) + n,
        paint(b, r, c, dr, dc, side, n).count(side.other()) == b.count(side.other()) - n,
        paint(b, r, c, dr, dc, side, n).count(Disc::Empty) == b.count(Disc::Empty),
    decreases n,
{
    if n > 0 {
        let b2 = b.with_cell(r, c, side);
        lemma_with_cell_wf(b, r, c, side);
        lemma_count_with_cell(b, r, c, side, side);
        lemma_count_with_cell(b, r, c, side, side.other());
        lemma_count_with_cell(b, r, c, side, Disc::Empty);
        lemma_run_unchanged_ahead(b, r, c, dr, dc, side, (n - 1) as nat);
        lemma_paint_counts(b2, r + dr, c + dc, dr, dc, side, (n - 1) as nat);
    }
}

pub proof fn lemma_place_steps_counts(b: BoardView, p: Position, side: Disc, k: nat)
    requires
        b.wf(),
        side.is_side(),
        b.contains(p),
        b.at(p) == Disc::Empty,
        k <= 8,
    ensures
        place_steps(b, p, side, k).count(side) == b.count(side) + 1 + flipped_steps(b, p, side, k),
        place_steps(b, p, side, k).count(side.other()) == b.count(side.other()) - flipped_steps(
            b,
            p,
            side,
            k,
        ),
        place_steps(b, p, side, k).count(Disc::Empty) == b.count(Disc::Empty) - 1,
    decreases k,
{
    if k == 0 {
        lemma_count_with_cell(b, p.row as int, p.col as int, side, side);
        lemma_count_with_cell(b, p.row as int, p.col as int, side, side.other());
        lemma_count_with_cell(b, p.row as int, p.col as int, side, Disc::Empty);
    } else {
        lemma_place_steps_counts(b, p, side, (k - 1) as nat);
        lemma_place_steps_shape(b, p, side, (k - 1) as nat);
        let prev = place_steps(b, p, side, (k - 1) as nat);
        let d = dir_of(k - 1);
        let n = flank(prev, p.row as int, p.col as int, d.0, d.1, side);
        if n > 0 {
            lemma_paint_counts(prev, p.row + d.0, p.col + d.1, d.0, d.1, side, n);
        }
    }
}

proof fn lemma_flipped_steps_grow(b: BoardView, p: Position, side: Disc, i: nat, j: nat)
    requires
        i <= j,
    ensures
        flipped_steps(b, p, side, i) <= flipped_steps(b, p, side, j),
    decreases j,
{
    if i < j {
        lemma_flipped_steps_grow(b, p, side, i, (j - 1) as nat);
    }
}

/// While no direction before `k` encloses anything, only the new disc has changed.
proof fn lemma_quiet_prefix(b: BoardView, p: Position, side: Disc, k: nat)
    requires
        b.wf(),
        b.contains(p),
        k <= 8,
        forall|j: int|
            0 <= j < k ==> #[trigger] flank(b, p.row as int, p.col as int, dir_of(j).0, dir_of(j).1, side)
                == 0,
    ensures
        place_steps(b, p, side, k) == b.with_cell(p.row as int, p.col as int, side),
        flipped_steps(b, p, side, k) == 0,
    decreases k,
{
    if k > 0 {
        lemma_quiet_prefix(b, p, side, (k - 1) as nat);
        let d = dir_of(k - 1);
        assert(flank(b, p.row as int, p.col as int, d.0, d.1, side) == 0);
        lemma_dir_step(d.0, d.1);
        assert(d.0 * (p.row + d.0 - p.row) + d.1 * (p.col + d.1 - p.col) >= 1) by (nonlinear_arith)
            requires
                d.0 * d.0 + d.1 * d.1 >= 1,
        ;
        lemma_run_ahead_same(
            b,
            p.row as int,
            p.col as int,
            side,
            p.row + d.0,
            p.col + d.1,
            d.0,
            d.1,
            side,
        );
    }
}

proof fn lemma_first_enclosing(b: BoardView, p: Position, side: Disc, k: nat)
    requires
        b.wf(),
        b.contains(p),
        k < 8,
        forall|j: int|
            0 <= j < k ==> #[trigger] flank(b, p.row as int, p.col as int, dir_of(j).0, dir_of(j).1, side)
                == 0,
        exists|j: int|
            k <= j < 8 && #[trigger] flank(b, p.row as int, p.col as int, dir_of(j).0, dir_of(j).1, side)
                > 0,
    ensures
        flipped(b, p, side) >= 1,
    decreases 8 - k,
{
    let d = dir_of(k as int);
    if flank(b, p.row as int, p.col as int, d.0, d.1, side) > 0 {
        lemma_quiet_prefix(b, p, side, k);
        lemma_dir_step(d.0, d.1);
        assert(d.0 * (p.row + d.0 - p.row) + d.1 * (p.col + d.1 - p.col) >= 1) by (nonlinear_arith)
            requires
                d.0 * d.0 + d.1 * d.1 >= 1,
        ;
        lemma_run_ahead_same(
            b,
            p.row as int,
            p.col as int,
            side,
            p.row + d.0,
            p.col + d.1,
            d.0,
            d.1,
            side,
        );
        lemma_flipped_steps_grow(b, p, side, k + 1, 8);
    } else {
        lemma_first_enclosing(b, p, side, k + 1);
    }
}

/// A valid move turns at least one disc.
pub proof fn lemma_valid_move_flips(b: BoardView, p: Position, side: Disc)
    requires
        b.wf(),
        side.is_side(),
        is_valid(b, p, side),
    ensures
        flipped(b, p, side) >= 1,
{
    lemma_first_enclosing(b, p, side, 0);
}

/// A valid move drops one disc of `side` and turns `flipped` opponent discs:
/// the mover's count grows by 1 + `flipped`, the opponent's shrinks by
/// `flipped` (at least 1), and the discs on the board grow by exactly 1.
pub proof fn law_place_counts(b: BoardView, p: Position, side: Disc)
    requires
        b.wf(),
        side.is_side(),
        is_valid(b, p, side),
    ensures
        flipped(b, p, side) >= 1,
        place(b, p, side).count(side) == b.count(side) + 1 + flipped(b, p, side),
        place(b, p, side).count(side.other()) == b.count(side.other()) - flipped(b, p, side),
        place(b, p, side).count(side) > b.count(side),
        place(b, p, side).count(side) + place(b, p, side).count(side.other()) == b.count(side)
            + b.count(side.other()) + 1,
{
    lemma_place_steps_counts(b, p, side, 8);
    lemma_valid_move_flips(b, p, side);
}

/// A move is refused on a cell off the board, on an occupied cell, and where
/// no direction holds opponent discs closed by a disc of the mover.
pub proof fn law_invalid_moves(b: BoardView, p: Position, side: Disc)
    ensures
        !b.contains(p) ==> !is_valid(b, p, side),
        b.contains(p) && b.at(p) != Disc::Empty ==> !is_valid(b, p, side),
        (forall|k: int|
            0 <= k < 8 ==> #[trigger] flank(
                b,
                p.row as int,
                p.col as int,
                dir_of(k).0,
                dir_of(k).1,
                side,
            ) == 0) ==> !is_valid(b, p, side),
{
}

/// There is no winner exactly when both colours hold as many discs;
/// otherwise the winner is the colour with more.
pub proof fn law_winner(b: BoardView)
    ensures
        winner_of(b) is None <==> b.count(Disc::Black) == b.count(Disc::White),
        b.count(Disc::Black) > b.count(Disc::White) ==> winner_of(b) == Some(Disc::Black),
        b.count(Disc::White) > b.count(Disc::Black) ==> winner_of(b) == Some(Disc::White),
{
}

} // verus!
