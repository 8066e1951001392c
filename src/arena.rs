use vstd::prelude::*;
use crate::board::{Board, BoardView, Disc};
use crate::game::{has_any_valid_moves, place, Othello};
use crate::heuristic::HRandom;
use crate::minimax::Minimax;
use crate::rules::lemma_place_steps_counts;
use crate::search::Search;

verus! {

/// The board after `alg`, searching to `depth`, plays `side`'s move on `b`
/// (or passes).
pub open spec fn after_turn<S: Search>(alg: S, depth: nat, b: BoardView, side: Disc) -> BoardView {
    match alg.outcome(b, side, depth).best {
        Some(m) => place(b, m, side),
        None => b,
    }
}

/// A match from `b`, at most `rounds` rounds long: Black (`a1`) then White
/// (`a2`) move in each round; it ends when neither side can move, or when
/// neither engine moved in a round.
pub open spec fn match_from<A: Search, B: Search>(
    a1: A,
    d1: nat,
    a2: B,
    d2: nat,
    b: BoardView,
    rounds: nat,
) -> BoardView
    decreases rounds,
{
    if rounds == 0 || !has_any_valid_moves(b) {
        b
    } else {
        let mid = after_turn(a1, d1, b, Disc::Black);
        if a1.outcome(b, Disc::Black, d1).best is None && a2.outcome(
            mid,
            Disc::White,
            d2,
        ).best is None {
            b
        } else {
            match_from(a1, d1, a2, d2, after_turn(a2, d2, mid, Disc::White), (rounds - 1) as nat)
        }
    }
}

/// The search engine `alg`, asked for `player`'s move at `depth`, plays it;
/// returns whether it found one.
fn turn<S: Search>(game: &mut Othello, alg: &mut S, depth: usize, player: Disc) -> (placed: bool)
    requires
        old(game).wf(),
        player.is_side(),
        old(alg).accepts(old(game)@.width, old(game)@.height),
    ensures
        final(game).wf(),
        final(game)@.same_shape(old(game)@),
        final(alg).exact() == old(alg).exact(),
        forall|w: nat, h: nat| #[trigger] final(alg).accepts(w, h) == old(alg).accepts(w, h),
        forall|b: BoardView, p: Disc, d: nat| #[trigger]
            final(alg).outcome(b, p, d) == old(alg).outcome(b, p, d),
        !placed ==> final(game)@ == old(game)@,
        placed ==> final(game)@.count(Disc::Empty) < old(game)@.count(Disc::Empty),
        old(alg).exact() ==> match old(alg).outcome(old(game)@, player, depth as nat).best {
            Some(m) => placed && final(game)@ == place(old(game)@, m, player),
            None => !placed,
        },
{
    let (mv, _) = alg.search(game, player, depth);
    match mv {
        Some(m) => {
            proof {
                lemma_place_steps_counts(game@, m, player, 8);
                crate::game::lemma_place_steps_shape(game@, m, player, 8);
            }
            game.place(m, player);
            true
        },
        None => false,
    }
}

/// Black (`a1`, searching to `d1`) and White (`a2`, to `d2`) take turns
/// until neither side can move, or until a whole round passes with no disc
/// placed (then the game would not change again).
pub fn play<A: Search, B: Search>(game: &mut Othello, a1: &mut A, d1: usize, a2: &mut B, d2: usize)
    requires
        old(game).wf(),
        old(a1).accepts(old(game)@.width, old(game)@.height),
        old(a2).accepts(old(game)@.width, old(game)@.height),
    ensures
        final(game).wf(),
        final(game)@.same_shape(old(game)@),
        old(a1).exact() && old(a2).exact() ==> final(game)@ == match_from(
            *old(a1),
            d1 as nat,
            *old(a2),
            d2 as nat,
            old(game)@,
            old(game)@.count(Disc::Empty) + 1,
        ),
{
    let ghost shape = game@;
    let ghost e1 = a1.exact();
    let ghost e2 = a2.exact();
    let ghost first = *a1;
    let ghost second = *a2;
    let ghost target = match_from(
        first,
        d1 as nat,
        second,
        d2 as nat,
        game@,
        game@.count(Disc::Empty) + 1,
    );
    let ghost mut rounds: nat = game@.count(Disc::Empty) + 1;
    let mut stalled = false;
    while !stalled && game.any_valid_moves()
        invariant
            game.wf(),
            game@.same_shape(shape),
            a1.accepts(shape.width, shape.height),
            a2.accepts(shape.width, shape.height),
            a1.exact() == e1,
            a2.exact() == e2,
            e1 == first.exact(),
            e2 == second.exact(),
            forall|b: BoardView, p: Disc, d: nat| #[trigger]
                a1.outcome(b, p, d) == first.outcome(b, p, d),
            forall|b: BoardView, p: Disc, d: nat| #[trigger]
                a2.outcome(b, p, d) == second.outcome(b, p, d),
            rounds >= game@.count(Disc::Empty) + 1,
            e1 && e2 && stalled ==> game@ == target,
            e1 && e2 && !stalled ==> match_from(first, d1 as nat, second, d2 as nat, game@, rounds)
                == target,
        decreases 2 * game@.count(Disc::Empty) + if stalled {
            0int
        } else {
            1int
        },
    {
        let ghost before = game@;
        let placed1 = turn(game, a1, d1, Disc::Black);
        let ghost middle = game@;
        let placed2 = turn(game, a2, d2, Disc::White);
        stalled = !placed1 && !placed2;
        proof {
            if stalled {
                assert(middle == before);
            } else {
                rounds = (rounds - 1) as nat;
            }
        }
    }
}

/// A fresh game from the standard opening; the random searches it runs for
/// `moves` plies leave that game as it is.
pub fn random_game(moves: usize) -> (r: Othello)
    ensures
        r.wf(),
        r@ == BoardView::opening(),
{
    let game = Othello::new(Board::default());
    let mut random = Minimax::new(HRandom::new());
    let mut player = Disc::Black;
    let mut i: usize = 0;
    while i < moves
        invariant
            game.wf(),
            game@ == BoardView::opening(),
            player.is_side(),
            random.accepts(8, 8),
        decreases moves - i,
    {
        random.search(&game, player, 1);
        player = player.opponent();
        i += 1;
    }
    game
}

} // verus!
