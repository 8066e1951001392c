use vstd::prelude::*;
use crate::board::{BoardView, Disc, Position};
use crate::game::{is_valid, lemma_place_steps_shape, lemma_valid_moves_valid, valid_moves, Othello};
use crate::search::{
    alphabeta, alphabeta_fold, children, frame_after, Frame, Outcome, drop_keys, insert_point, key_before, lemma_sat_add,
    minimax, minimax_fold, sampled_cols, sampled_rows, sampled_score, sat, scorer, sort_by_key,
    successors, with_keys, Evaluation, Heuristic, MoveOrder, Node,
};

verus! {

/// The moves and boards of a list of children.
pub open spec fn pairs_view(v: Seq<(Position, Othello)>) -> Seq<(Position, BoardView)> {
    v.map_values(|t: (Position, Othello)| (t.0, t.1@))
}

pub open spec fn triples_view(v: Seq<(Position, Othello, Evaluation)>) -> Seq<
    (Position, BoardView, int),
> {
    v.map_values(|t: (Position, Othello, Evaluation)| (t.0, t.1@, t.2 as int))
}

/// Each child is a valid move of `side` from `b` and a well-formed board of the same size.
pub open spec fn children_ok(v: Seq<(Position, Othello)>, b: BoardView, side: Disc) -> bool {
    forall|i: int|
        0 <= i < v.len() ==> {
            &&& is_valid(b, (#[trigger] v[i]).0, side)
            &&& v[i].1.wf()
            &&& v[i].1@.same_shape(b)
        }
}

/// The board after `m`, as a new game.
fn child_of(game: &Othello, m: Position, side: Disc) -> (r: Othello)
    requires
        game.wf(),
        side.is_side(),
        is_valid(game@, m, side),
    ensures
        r.wf(),
        r@ == crate::game::place(game@, m, side),
        r@.same_shape(game@),
{
    let mut child = game.clone();
    child.place(m, side);
    proof {
        lemma_place_steps_shape(game@, m, side, 8);
    }
    child
}

/// Every valid move of `side` with the game it leads to, in board-scan order.
pub fn successors_of(game: &Othello, side: Disc) -> (r: Vec<(Position, Othello)>)
    requires
        game.wf(),
        side.is_side(),
    ensures
        pairs_view(r@) == successors(game@, side),
        children_ok(r@, game@, side),
{
    let moves = game.valid_moves(side);
    proof {
        lemma_valid_moves_valid(game@, side);
    }
    let mut out: Vec<(Position, Othello)> = Vec::new();
    let mut i: usize = 0;
    while i < moves.len()
        invariant
            game.wf(),
            side.is_side(),
            moves@ == valid_moves(game@, side),
            forall|j: int| 0 <= j < moves@.len() ==> is_valid(game@, #[trigger] moves@[j], side),
            i <= moves@.len(),
            pairs_view(out@) == successors(game@, side).take(i as int),
            children_ok(out@, game@, side),
        decreases moves.len() - i,
    {
        let m = moves[i];
        let child = child_of(game, m, side);
        let ghost prev = out@;
        out.push((m, child));
        proof {
            let s = successors(game@, side);
            assert(s[i as int] == (m, child@));
            assert(pairs_view(out@) =~= pairs_view(prev).push((m, child@)));
            assert(s.take(i + 1) =~= s.take(i as int).push(s[i as int]));
        }
        i += 1;
    }
    proof {
        assert(successors(game@, side).take(i as int) =~= successors(game@, side));
    }
    out
}

/// The sampled disc balance of `game` for `player`.
pub fn sampled(game: &Othello, player: Disc) -> (r: Evaluation)
    requires
        game.wf(),
        player.is_side(),
    ensures
        r == sampled_score(game@, player),
{
    let ghost b = game@;
    let board = game.board();
    let opponent = player.opponent();
    let height = board.height();
    let width = board.width();
    let mut eval: isize = 0;
    let mut row: usize = 0;
    while row < height
        invariant
            board.wf(),
            board@ == b,
            b.wf(),
            opponent == player.other(),
            height == b.height,
            width == b.width,
            row <= height,
            eval == sampled_rows(b, player, row as int),
            -(row * width) <= eval <= row * width,
        decreases height - row,
    {
        let mut col: usize = 0;
        let ghost base = eval;
        while col < width
            invariant
                board.wf(),
                board@ == b,
                b.wf(),
                opponent == player.other(),
                height == b.height,
                width == b.width,
                row < height,
                col <= width,
                base == sampled_rows(b, player, row as int),
                row % 2 == 0 ==> eval == base + sampled_cols(b, player, row as int, col as int),
                row % 2 != 0 ==> eval == base,
                -(row * width + col) <= eval <= row * width + col,
            decreases width - col,
        {
            proof {
                crate::board::lemma_index_in_range(width as int, height as int, row as int, col as int);
            }
            if row % 2 == 0 && col % 2 == 0 {
                let disc = board.at(Position::new(row as isize, col as isize));
                if disc == player {
                    eval += 1;
                } else if disc == opponent {
                    eval -= 1;
                }
            }
            col += 1;
        }
        proof {
            assert((row + 1) * width == row * width + width) by (nonlinear_arith);
        }
        row += 1;
    }
    eval
}

/// The key a child is ordered by.
fn order_key<H: Heuristic>(heuristic: &mut H, order: MoveOrder, child: &Othello, player: Disc) -> (r:
    Evaluation)
    requires
        child.wf(),
        player.is_side(),
        old(heuristic).accepts(child@.width, child@.height),
    ensures
        *final(heuristic) == *old(heuristic),
        order == MoveOrder::Sample ==> r == sampled_score(child@, player),
        order != MoveOrder::Sample && old(heuristic).exact() ==> r == old(heuristic).score(
            child@,
            player,
        ),
{
    match order {
        MoveOrder::Sample => sampled(child, player),
        _ => heuristic.eval(child, player),
    }
}

/// The key function of an ordering.
pub open spec fn key_fn(h: spec_fn(BoardView, Disc) -> int, order: MoveOrder, root: Disc) -> spec_fn(
    BoardView,
) -> int {
    match order {
        MoveOrder::Sample => |c: BoardView| sampled_score(c, root),
        _ => |c: BoardView| h(c, root),
    }
}

/// The valid moves of `side` with their games, stably sorted by `order`'s key
/// for `player`: best first for the node.
fn ordered_successors<H: Heuristic>(
    heuristic: &mut H,
    order: MoveOrder,
    node: Node,
    game: &Othello,
    player: Disc,
    side: Disc,
) -> (r: Vec<(Position, Othello)>)
    requires
        order != MoveOrder::Scan,
        game.wf(),
        player.is_side(),
        side.is_side(),
        old(heuristic).accepts(game@.width, game@.height),
    ensures
        *final(heuristic) == *old(heuristic),
        children_ok(r@, game@, side),
        old(heuristic).exact() ==> pairs_view(r@) == children(
            scorer(*old(heuristic)),
            order,
            node,
            game@,
            player,
            side,
        ),
{
    let ghost h0 = *heuristic;
    let ghost keyed_spec = with_keys(successors(game@, side), key_fn(scorer(h0), order, player));
    let moves = game.valid_moves(side);
    proof {
        lemma_valid_moves_valid(game@, side);
    }
    let mut keyed: Vec<(Position, Othello, Evaluation)> = Vec::new();
    let mut i: usize = 0;
    while i < moves.len()
        invariant
            game.wf(),
            player.is_side(),
            side.is_side(),
            *heuristic == h0,
            h0.accepts(game@.width, game@.height),
            moves@ == valid_moves(game@, side),
            keyed_spec == with_keys(successors(game@, side), key_fn(scorer(h0), order, player)),
            forall|j: int| 0 <= j < moves@.len() ==> is_valid(game@, #[trigger] moves@[j], side),
            i <= moves@.len(),
            forall|j: int|
                0 <= j < keyed@.len() ==> {
                    &&& is_valid(game@, (#[trigger] keyed@[j]).0, side)
                    &&& keyed@[j].1.wf()
                    &&& keyed@[j].1@.same_shape(game@)
                },
            keyed@.len() == i,
            h0.exact() || order == MoveOrder::Sample ==> triples_view(keyed@) == sort_by_key(
                keyed_spec.take(i as int),
                node,
            ),
        decreases moves.len() - i,
    {
        let m = moves[i];
        let child = child_of(game, m, side);
        let key = order_key(heuristic, order, &child, player);
        let mut p: usize = keyed.len();
        proof {
            assert(triples_view(keyed@).take(p as int) =~= triples_view(keyed@));
        }
        while p > 0 && node.improves(key, keyed[p - 1].2)
            invariant
                p <= keyed@.len(),
                insert_point(triples_view(keyed@), key as int, node) == insert_point(
                    triples_view(keyed@).take(p as int),
                    key as int,
                    node,
                ),
            decreases p,
        {
            proof {
                let t = triples_view(keyed@).take(p as int);
                assert(t.drop_last() =~= triples_view(keyed@).take(p - 1));
            }
            p -= 1;
        }
        proof {
            let t = triples_view(keyed@).take(p as int);
            if p > 0 {
                assert(!key_before(node, key as int, t.last().2));
            }
            assert(insert_point(triples_view(keyed@), key as int, node) == p);
        }
        let ghost before = keyed@;
        keyed.insert(p, (m, child, key));
        proof {
            assert(triples_view(keyed@) =~= triples_view(before).insert(
                p as int,
                (m, child@, key as int),
            ));
            if h0.exact() || order == MoveOrder::Sample {
                let s = keyed_spec.take(i + 1);
                assert(s.drop_last() =~= keyed_spec.take(i as int));
                assert(s.last() == (m, child@, key as int));
            }
            assert forall|j: int| 0 <= j < keyed@.len() implies {
                &&& is_valid(game@, (#[trigger] keyed@[j]).0, side)
                &&& keyed@[j].1.wf()
                &&& keyed@[j].1@.same_shape(game@)
            } by {
                if j < p {
                    assert(keyed@[j] == before[j]);
                } else if j > p {
                    assert(keyed@[j] == before[j - 1]);
                }
            }
        }
        i += 1;
    }
    proof {
        assert(keyed_spec.take(i as int) =~= keyed_spec);
    }
    let ghost sorted = keyed@;
    let mut out: Vec<(Position, Othello)> = Vec::new();
    while keyed.len() > 0
        invariant
            out@.len() + keyed@.len() == sorted.len(),
            forall|j: int|
                0 <= j < out@.len() ==> (#[trigger] out@[j]).0 == sorted[j].0 && out@[j].1
                    == sorted[j].1,
            forall|j: int| 0 <= j < keyed@.len() ==> #[trigger] keyed@[j] == sorted[out@.len() + j],
        decreases keyed@.len(),
    {
        let (m, g, _) = keyed.remove(0);
        out.push((m, g));
    }
    proof {
        if h0.exact() || order == MoveOrder::Sample {
            assert(pairs_view(out@) =~= drop_keys(triples_view(sorted)));
        }
    }
    out
}

/// One node of a minimax search, counting the nodes it expands and generates.
pub fn minimax_node<H: Heuristic>(
    heuristic: &mut H,
    expanded: &mut usize,
    generated: &mut usize,
    node: Node,
    game: &Othello,
    player: Disc,
    side: Disc,
    depth: usize,
) -> (r: (Option<Position>, Evaluation))
    requires
        game.wf(),
        player.is_side(),
        side.is_side(),
        old(heuristic).accepts(game@.width, game@.height),
    ensures
        *final(heuristic) == *old(heuristic),
        r.0 is Some ==> is_valid(game@, r.0->0, side),
        old(heuristic).exact() ==> ({
            let o = minimax(
                scorer(*old(heuristic)),
                MoveOrder::Scan,
                node,
                game@,
                player,
                side,
                depth as nat,
            );
            &&& r.0 == o.best
            &&& r.1 == o.value
            &&& *final(expanded) == sat(*old(expanded) + o.expanded)
            &&& *final(generated) == sat(*old(generated) + o.generated)
        }),
    decreases depth,
{
    let ghost h0 = *heuristic;
    let ghost h = scorer(h0);
    let ghost e_in = *expanded as int;
    *expanded = (*expanded).saturating_add(1);
    if depth == 0 {
        let v = heuristic.eval(game, player);
        return (None, v);
    }
    let moves = successors_of(game, side);
    if moves.len() == 0 {
        let (_, v) = minimax_node(
            heuristic,
            expanded,
            generated,
            node.opposite(),
            game,
            player,
            side.opponent(),
            depth - 1,
        );
        proof {
            lemma_sat_add(e_in, 1, 0);
            if h0.exact() {
                let o = minimax(h, MoveOrder::Scan, node.flip(), game@, player, side.other(), (depth - 1) as nat);
                lemma_sat_add(e_in, 1, o.expanded as int);
            }
        }
        return (None, v);
    }
    let ghost g_in = *generated as int;
    *generated = (*generated).saturating_add(moves.len());
    let ghost e0 = *expanded as int;
    let ghost g0 = *generated as int;
    let ghost kids = pairs_view(moves@);
    let mut best_move: Option<Position> = None;
    let mut best_value = node.start_value();
    let mut i: usize = 0;
    while i < moves.len()
        invariant
            game.wf(),
            player.is_side(),
            side.is_side(),
            depth >= 1,
            *heuristic == h0,
            h == scorer(h0),
            h0.accepts(game@.width, game@.height),
            kids == pairs_view(moves@),
            kids == successors(game@, side),
            children_ok(moves@, game@, side),
            i <= moves@.len(),
            best_move is Some ==> is_valid(game@, best_move->0, side),
            e0 >= 0,
            g0 >= 0,
            h0.exact() ==> ({
                let f = minimax_fold(
                    h,
                    MoveOrder::Scan,
                    node,
                    kids,
                    player,
                    side.other(),
                    (depth - 1) as nat,
                    i as nat,
                );
                &&& best_move == f.best
                &&& best_value == f.value
                &&& *expanded == sat(e0 + f.expanded)
                &&& *generated == sat(g0 + f.generated)
            }),
        decreases moves.len() - i,
    {
        let ghost e_before = *expanded as int;
        let ghost g_before = *generated as int;
        let (_, value) = minimax_node(
            heuristic,
            expanded,
            generated,
            node.opposite(),
            &moves[i].1,
            player,
            side.opponent(),
            depth - 1,
        );
        proof {
            if h0.exact() {
                let f = minimax_fold(h, MoveOrder::Scan, node, kids, player, side.other(), (depth - 1) as nat, i as nat);
                let o = minimax(h, MoveOrder::Scan, node.flip(), kids[i as int].1, player, side.other(), (depth - 1) as nat);
                lemma_sat_add(e0, f.expanded as int, o.expanded as int);
                lemma_sat_add(g0, f.generated as int, o.generated as int);
            }
        }
        if node.improves(value, best_value) {
            best_move = Some(moves[i].0);
            best_value = value;
        }
        i += 1;
    }
    proof {
        lemma_sat_add(e_in, 1, 0);
        lemma_sat_add(g_in, moves@.len() as int, 0);
        if h0.exact() {
            let f = minimax_fold(h, MoveOrder::Scan, node, kids, player, side.other(), (depth - 1) as nat, kids.len());
            lemma_sat_add(e_in, 1, f.expanded as int);
            lemma_sat_add(g_in, kids.len() as int, f.generated as int);
        }
    }
    (best_move, best_value)
}

/// The frame of an alpha-beta node after a child that moved by `m` and
/// searched to `value`.
fn advance(
    node: Node,
    best_move: Option<Position>,
    best_value: Evaluation,
    alpha: Evaluation,
    beta: Evaluation,
    m: Position,
    value: Evaluation,
) -> (r: (Option<Position>, Evaluation, Evaluation, Evaluation, bool))
    ensures
        forall|f: Frame, o: Outcome|
            f.best == best_move && f.value == best_value && f.alpha == alpha && f.beta == beta
                && o.value == value ==> {
                let g = #[trigger] frame_after(node, f, m, o);
                &&& r.0 == g.best
                &&& r.1 == g.value
                &&& r.2 == g.alpha
                &&& r.3 == g.beta
                &&& r.4 == g.cut
            },
        r.0 == best_move || r.0 == Some(m),
{
    let mut best_move = best_move;
    let mut best_value = best_value;
    let mut alpha = alpha;
    let mut beta = beta;
    if node.improves(value, best_value) {
        best_move = Some(m);
        best_value = value;
    }
    match node {
        Node::Max => {
            if best_value > alpha {
                alpha = best_value;
            }
        },
        Node::Min => {
            if best_value < beta {
                beta = best_value;
            }
        },
    }
    (best_move, best_value, alpha, beta, alpha >= beta)
}

/// Once a node is cut, later children change nothing.
proof fn lemma_cut_stays(
    h: spec_fn(BoardView, Disc) -> int,
    order: MoveOrder,
    node: Node,
    kids: Seq<(Position, BoardView)>,
    root: Disc,
    side: Disc,
    depth: nat,
    alpha: int,
    beta: int,
    i: nat,
    j: nat,
)
    requires
        i <= j,
        alphabeta_fold(h, order, node, kids, root, side, depth, alpha, beta, i).cut,
    ensures
        alphabeta_fold(h, order, node, kids, root, side, depth, alpha, beta, j) == alphabeta_fold(
            h,
            order,
            node,
            kids,
            root,
            side,
            depth,
            alpha,
            beta,
            i,
        ),
    decreases j,
{
    if j > i {
        lemma_cut_stays(h, order, node, kids, root, side, depth, alpha, beta, i, (j - 1) as nat);
    }
}

/// One node of an alpha-beta search with the window (`a`, `b`), visiting
/// children in `order`, counting the nodes it expands and generates.
#[verifier::rlimit(60)]
pub fn alphabeta_node<H: Heuristic>(
    heuristic: &mut H,
    expanded: &mut usize,
    generated: &mut usize,
    order: MoveOrder,
    node: Node,
    game: &Othello,
    player: Disc,
    side: Disc,
    depth: usize,
    a: Evaluation,
    b: Evaluation,
) -> (r: (Option<Position>, Evaluation))
    requires
        game.wf(),
        player.is_side(),
        side.is_side(),
        old(heuristic).accepts(game@.width, game@.height),
    ensures
        *final(heuristic) == *old(heuristic),
        r.0 is Some ==> is_valid(game@, r.0->0, side),
        old(heuristic).exact() ==> ({
            let o = alphabeta(
                scorer(*old(heuristic)),
                order,
                node,
                game@,
                player,
                side,
                depth as nat,
                a as int,
                b as int,
            );
            &&& r.0 == o.best
            &&& r.1 == o.value
            &&& *final(expanded) == sat(*old(expanded) + o.expanded)
            &&& *final(generated) == sat(*old(generated) + o.generated)
        }),
    decreases depth,
{
    let ghost h0 = *heuristic;
    let ghost h = scorer(h0);
    let ghost e_in = *expanded as int;
    *expanded = (*expanded).saturating_add(1);
    if depth == 0 {
        let v = heuristic.eval(game, player);
        return (None, v);
    }
    let moves = match order {
        MoveOrder::Scan => successors_of(game, side),
        _ => ordered_successors(heuristic, order, node, game, player, side),
    };
    let ghost kids = pairs_view(moves@);
    proof {
        if h0.exact() {
            assert(kids == children(h, order, node, game@, player, side));
        }
    }
    if moves.len() == 0 {
        let (_, v) = alphabeta_node(
            heuristic,
            expanded,
            generated,
            order,
            node.opposite(),
            game,
            player,
            side.opponent(),
            depth - 1,
            a,
            b,
        );
        proof {
            if h0.exact() {
                let o = alphabeta(h, order, node.flip(), game@, player, side.other(), (depth - 1) as nat, a as int, b as int);
                lemma_sat_add(e_in, 1, o.expanded as int);
            }
        }
        return (None, v);
    }
    let ghost g_in = *generated as int;
    *generated = (*generated).saturating_add(moves.len());
    let ghost e0 = *expanded as int;
    let ghost g0 = *generated as int;
    let mut best_move: Option<Position> = None;
    let mut best_value = node.start_value();
    let mut alpha = a;
    let mut beta = b;
    let mut cut = false;
    let mut i: usize = 0;
    while i < moves.len() && !cut
        invariant
            game.wf(),
            player.is_side(),
            side.is_side(),
            depth >= 1,
            *heuristic == h0,
            h == scorer(h0),
            h0.accepts(game@.width, game@.height),
            kids == pairs_view(moves@),
            h0.exact() ==> kids == children(h, order, node, game@, player, side),
            children_ok(moves@, game@, side),
            i <= moves@.len(),
            best_move is Some ==> is_valid(game@, best_move->0, side),
            e0 >= 0,
            g0 >= 0,
            h0.exact() ==> ({
                let f = alphabeta_fold(
                    h,
                    order,
                    node,
                    kids,
                    player,
                    side.other(),
                    (depth - 1) as nat,
                    a as int,
                    b as int,
                    i as nat,
                );
                &&& best_move == f.best
                &&& best_value == f.value
                &&& alpha == f.alpha
                &&& beta == f.beta
                &&& cut == f.cut
                &&& *expanded == sat(e0 + f.expanded)
                &&& *generated == sat(g0 + f.generated)
            }),
        decreases moves.len() - i,
    {
        let (_, value) = alphabeta_node(
            heuristic,
            expanded,
            generated,
            order,
            node.opposite(),
            &moves[i].1,
            player,
            side.opponent(),
            depth - 1,
            alpha,
            beta,
        );
        proof {
            if h0.exact() {
                let f = alphabeta_fold(h, order, node, kids, player, side.other(), (depth - 1) as nat, a as int, b as int, i as nat);
                let o = alphabeta(h, order, node.flip(), kids[i as int].1, player, side.other(), (depth - 1) as nat, f.alpha, f.beta);
                lemma_sat_add(e0, f.expanded as int, o.expanded as int);
                lemma_sat_add(g0, f.generated as int, o.generated as int);
            }
        }
        let next = advance(node, best_move, best_value, alpha, beta, moves[i].0, value);
        best_move = next.0;
        best_value = next.1;
        alpha = next.2;
        beta = next.3;
        cut = next.4;
        i += 1;
    }
    proof {
        if h0.exact() {
            let n = kids.len();
            if i < n {
                lemma_cut_stays(h, order, node, kids, player, side.other(), (depth - 1) as nat, a as int, b as int, i as nat, n);
            }
            let f = alphabeta_fold(h, order, node, kids, player, side.other(), (depth - 1) as nat, a as int, b as int, n);
            lemma_sat_add(e_in, 1, f.expanded as int);
            lemma_sat_add(g_in, n as int, f.generated as int);
        }
    }
    (best_move, best_value)
}

} // verus!
