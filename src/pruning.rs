use vstd::prelude::*;
use crate::board::{BoardView, Disc, Position};
use crate::search::{
    alphabeta, alphabeta_fold, alphabeta_search, children, drop_keys, insert_point, minimax,
    minimax_fold, minimax_search, sampled_score, scorer, sort_by_key, successors, with_keys,
    Heuristic, MoveOrder, Node,
};
use crate::game::{lemma_place_steps_shape, lemma_valid_moves_valid, valid_moves};

verus! {

pub open spec fn fits(v: int) -> bool {
    isize::MIN <= v <= isize::MAX
}

/// Every score of `h` on a well-formed `width` × `height` board fits an `Evaluation`.
pub open spec fn in_range(h: spec_fn(BoardView, Disc) -> int, width: nat, height: nat) -> bool {
    forall|b: BoardView, p: Disc|
        b.wf() && b.width == width && b.height == height ==> fits(#[trigger] h(b, p))
}

/// Every child board is well-formed and `width` × `height`.
pub open spec fn kids_ok(kids: Seq<(Position, BoardView)>, width: nat, height: nat) -> bool {
    forall|i: int|
        0 <= i < kids.len() ==> (#[trigger] kids[i]).1.wf() && kids[i].1.width == width
            && kids[i].1.height == height
}

pub proof fn lemma_insert_point_range(s: Seq<(Position, BoardView, int)>, k: int, node: Node)
    ensures
        0 <= insert_point(s, k, node) <= s.len(),
    decreases s.len(),
{
    if s.len() > 0 {
        lemma_insert_point_range(s.drop_last(), k, node);
    }
}

/// Sorting only rearranges: each element of the result is one of the input.
pub proof fn lemma_sort_members(s: Seq<(Position, BoardView, int)>, node: Node)
    ensures
        sort_by_key(s, node).len() == s.len(),
        forall|i: int|
            0 <= i < s.len() ==> exists|j: int|
                0 <= j < s.len() && #[trigger] sort_by_key(s, node)[i] == s[j],
    decreases s.len(),
{
    if s.len() > 0 {
        let rest = s.drop_last();
        lemma_sort_members(rest, node);
        let sorted = sort_by_key(rest, node);
        let p = insert_point(sorted, s.last().2, node);
        lemma_insert_point_range(sorted, s.last().2, node);
        let r = sorted.insert(p, s.last());
        assert forall|i: int| 0 <= i < s.len() implies exists|j: int|
            0 <= j < s.len() && #[trigger] r[i] == s[j] by {
            if i < p {
                let j = choose|j: int| 0 <= j < rest.len() && sorted[i] == rest[j];
                assert(r[i] == s[j]);
            } else if i == p {
                assert(r[i] == s[s.len() - 1]);
            } else {
                let j = choose|j: int| 0 <= j < rest.len() && sorted[i - 1] == rest[j];
                assert(r[i] == s[j]);
            }
        }
    }
}

/// The children of a well-formed board are well-formed boards of its size.
pub proof fn lemma_children_ok(
    h: spec_fn(BoardView, Disc) -> int,
    order: MoveOrder,
    node: Node,
    b: BoardView,
    root: Disc,
    side: Disc,
)
    requires
        b.wf(),
    ensures
        kids_ok(children(h, order, node, b, root, side), b.width, b.height),
{
    let s = successors(b, side);
    lemma_valid_moves_valid(b, side);
    assert forall|i: int| 0 <= i < s.len() implies (#[trigger] s[i]).1.wf() && s[i].1.width
        == b.width && s[i].1.height == b.height by {
        lemma_place_steps_shape(b, valid_moves(b, side)[i], side, 8);
    }
    if order != MoveOrder::Scan {
        let f = if order == MoveOrder::Score {
            |c: BoardView| h(c, root)
        } else {
            |c: BoardView| sampled_score(c, root)
        };
        let t = with_keys(s, f);
        lemma_sort_members(t, node);
        let k = drop_keys(sort_by_key(t, node));
        assert(children(h, order, node, b, root, side) == k);
        assert forall|i: int| 0 <= i < k.len() implies (#[trigger] k[i]).1.wf() && k[i].1.width
            == b.width && k[i].1.height == b.height by {
            let j = choose|j: int| 0 <= j < t.len() && sort_by_key(t, node)[i] == t[j];
            assert(k[i].1 == s[j].1);
        }
    }
}

/// The relation between a value `r` searched with the window (`alpha`, `beta`)
/// and the true minimax value `v`: exact inside the window, a bound outside.
pub open spec fn window_agrees(r: int, v: int, alpha: int, beta: int) -> bool {
    &&& r <= alpha ==> v <= r
    &&& r >= beta ==> v >= r
    &&& alpha < r < beta ==> v == r
}

pub proof fn lemma_minimax_fits(
    h: spec_fn(BoardView, Disc) -> int,
    order: MoveOrder,
    node: Node,
    b: BoardView,
    root: Disc,
    side: Disc,
    depth: nat,
)
    requires
        b.wf(),
        in_range(h, b.width, b.height),
    ensures
        fits(minimax(h, order, node, b, root, side, depth).value),
    decreases depth, 1nat, 0nat,
{
    if depth > 0 {
        let kids = children(h, order, node, b, root, side);
        lemma_children_ok(h, order, node, b, root, side);
        if kids.len() == 0 {
            lemma_minimax_fits(h, order, node.flip(), b, root, side.other(), (depth - 1) as nat);
        } else {
            lemma_minimax_fold_fits(
                h,
                order,
                node,
                kids,
                root,
                side.other(),
                (depth - 1) as nat,
                kids.len(),
            );
        }
    }
}

proof fn lemma_minimax_fold_fits(
    h: spec_fn(BoardView, Disc) -> int,
    order: MoveOrder,
    node: Node,
    kids: Seq<(Position, BoardView)>,
    root: Disc,
    side: Disc,
    depth: nat,
    i: nat,
)
    requires
        i <= kids.len(),
        kids.len() > 0,
        in_range(h, kids[0].1.width, kids[0].1.height),
        kids_ok(kids, kids[0].1.width, kids[0].1.height),
    ensures
        fits(minimax_fold(h, order, node, kids, root, side, depth, i).value),
    decreases depth + 1, 0nat, i,
{
    if i > 0 {
        lemma_minimax_fold_fits(h, order, node, kids, root, side, depth, (i - 1) as nat);
        lemma_minimax_fits(h, order, node.flip(), kids[i - 1].1, root, side, depth);
    }
}

/// Alpha-beta searched with the window (`alpha`, `beta`) agrees with minimax
/// over the same children: exactly inside the window, as a bound outside it.
pub proof fn lemma_alphabeta_window(
    h: spec_fn(BoardView, Disc) -> int,
    order: MoveOrder,
    node: Node,
    b: BoardView,
    root: Disc,
    side: Disc,
    depth: nat,
    alpha: int,
    beta: int,
)
    requires
        b.wf(),
        in_range(h, b.width, b.height),
        isize::MIN <= alpha < beta <= isize::MAX,
    ensures
        window_agrees(
            alphabeta(h, order, node, b, root, side, depth, alpha, beta).value,
            minimax(h, order, node, b, root, side, depth).value,
            alpha,
            beta,
        ),
    decreases depth, 1nat, 0nat,
{
    if depth > 0 {
        let kids = children(h, order, node, b, root, side);
        lemma_children_ok(h, order, node, b, root, side);
        if kids.len() == 0 {
            lemma_alphabeta_window(
                h,
                order,
                node.flip(),
                b,
                root,
                side.other(),
                (depth - 1) as nat,
                alpha,
                beta,
            );
        } else {
            lemma_alphabeta_fold_window(
                h,
                order,
                node,
                kids,
                root,
                side.other(),
                (depth - 1) as nat,
                alpha,
                beta,
                kids.len(),
            );
        }
    }
}

proof fn lemma_alphabeta_fold_window(
    h: spec_fn(BoardView, Disc) -> int,
    order: MoveOrder,
    node: Node,
    kids: Seq<(Position, BoardView)>,
    root: Disc,
    side: Disc,
    depth: nat,
    alpha: int,
    beta: int,
    i: nat,
)
    requires
        i <= kids.len(),
        kids.len() > 0,
        in_range(h, kids[0].1.width, kids[0].1.height),
        kids_ok(kids, kids[0].1.width, kids[0].1.height),
        isize::MIN <= alpha < beta <= isize::MAX,
    ensures
        ({
            let f = alphabeta_fold(h, order, node, kids, root, side, depth, alpha, beta, i);
            let m = minimax_fold(h, order, node, kids, root, side, depth, i).value;
            &&& node == Node::Max ==> {
                &&& f.beta == beta
                &&& f.alpha == if f.value > alpha {
                    f.value
                } else {
                    alpha
                }
                &&& !f.cut ==> f.alpha < beta && m <= f.value && (f.value > alpha ==> m == f.value)
                &&& f.cut ==> f.value >= beta && m >= f.value
            }
            &&& node == Node::Min ==> {
                &&& f.alpha == alpha
                &&& f.beta == if f.value < beta {
                    f.value
                } else {
                    beta
                }
                &&& !f.cut ==> alpha < f.beta && m >= f.value && (f.value < beta ==> m == f.value)
                &&& f.cut ==> f.value <= alpha && m <= f.value
            }
        }),
    decreases depth + 1, 0nat, i,
{
    if i > 0 {
        let j = (i - 1) as nat;
        lemma_alphabeta_fold_window(h, order, node, kids, root, side, depth, alpha, beta, j);
        let f = alphabeta_fold(h, order, node, kids, root, side, depth, alpha, beta, j);
        let m = minimax_fold(h, order, node, kids, root, side, depth, j);
        let v = minimax(h, order, node.flip(), kids[j as int].1, root, side, depth).value;
        if !f.cut {
            lemma_alphabeta_window(
                h,
                order,
                node.flip(),
                kids[j as int].1,
                root,
                side,
                depth,
                f.alpha,
                f.beta,
            );
        } else {
            lemma_minimax_fits(h, order, node.flip(), kids[j as int].1, root, side, depth);
        }
    }
}

/// Alpha-beta from the widest window backs up exactly the minimax value,
/// whatever order it visits the children in.
pub proof fn lemma_alphabeta_exact(
    h: spec_fn(BoardView, Disc) -> int,
    order: MoveOrder,
    b: BoardView,
    player: Disc,
    depth: nat,
)
    requires
        b.wf(),
        in_range(h, b.width, b.height),
    ensures
        alphabeta_search(h, order, b, player, depth).value == minimax(
            h,
            order,
            Node::Max,
            b,
            player,
            player,
            depth,
        ).value,
{
    lemma_alphabeta_window(
        h,
        order,
        Node::Max,
        b,
        player,
        player,
        depth,
        isize::MIN as int,
        isize::MAX as int,
    );
    lemma_minimax_fits(h, order, Node::Max, b, player, player, depth);
}

/// Alpha-beta and minimax, scoring with the same heuristic, search a
/// position to the same value: pruning only skips lines that cannot change
/// the result.
pub proof fn law_alphabeta_value_equals_minimax<H: Heuristic>(
    h: H,
    b: BoardView,
    player: Disc,
    depth: nat,
)
    requires
        b.wf(),
        h.accepts(b.width, b.height),
    ensures
        alphabeta_search(scorer(h), MoveOrder::Scan, b, player, depth).value == minimax_search(
            scorer(h),
            b,
            player,
            depth,
        ).value,
{
    assert forall|c: BoardView, p: Disc|
        c.wf() && c.width == b.width && c.height == b.height implies fits(
        #[trigger] scorer(h)(c, p),
    ) by {
        h.lemma_score_fits(c, p);
    }
    lemma_alphabeta_exact(scorer(h), MoveOrder::Scan, b, player, depth);
}

/// At a `Max` node searched from the widest window, alpha-beta keeps the
/// same move as minimax after each child.
proof fn lemma_root_fold_best(
    h: spec_fn(BoardView, Disc) -> int,
    order: MoveOrder,
    kids: Seq<(Position, BoardView)>,
    root: Disc,
    side: Disc,
    depth: nat,
    i: nat,
)
    requires
        i <= kids.len(),
        kids.len() > 0,
        in_range(h, kids[0].1.width, kids[0].1.height),
        kids_ok(kids, kids[0].1.width, kids[0].1.height),
    ensures
        ({
            let f = alphabeta_fold(
                h,
                order,
                Node::Max,
                kids,
                root,
                side,
                depth,
                isize::MIN as int,
                isize::MAX as int,
                i,
            );
            let m = minimax_fold(h, order, Node::Max, kids, root, side, depth, i);
            &&& f.value >= isize::MIN
            &&& m.value >= isize::MIN
            &&& (f.best is None <==> f.value == isize::MIN)
            &&& (m.best is None <==> m.value == isize::MIN)
            &&& !f.cut ==> m.best == f.best
            &&& f.cut ==> f.value == isize::MAX && m.value == isize::MAX && m.best == f.best
        }),
    decreases i,
{
    if i > 0 {
        let j = (i - 1) as nat;
        let lo = isize::MIN as int;
        let hi = isize::MAX as int;
        lemma_root_fold_best(h, order, kids, root, side, depth, j);
        lemma_alphabeta_fold_window(h, order, Node::Max, kids, root, side, depth, lo, hi, j);
        lemma_minimax_fold_fits(h, order, Node::Max, kids, root, side, depth, j);
        let f = alphabeta_fold(h, order, Node::Max, kids, root, side, depth, lo, hi, j);
        lemma_minimax_fits(h, order, Node::Min, kids[j as int].1, root, side, depth);
        if !f.cut {
            lemma_alphabeta_window(
                h,
                order,
                Node::Min,
                kids[j as int].1,
                root,
                side,
                depth,
                f.alpha,
                f.beta,
            );
        }
    }
}

/// Alpha-beta from the widest window picks the same move as minimax over
/// the same children: the first child with the best value.
pub proof fn lemma_alphabeta_same_move(
    h: spec_fn(BoardView, Disc) -> int,
    order: MoveOrder,
    b: BoardView,
    player: Disc,
    depth: nat,
)
    requires
        b.wf(),
        in_range(h, b.width, b.height),
    ensures
        alphabeta_search(h, order, b, player, depth).best == minimax(
            h,
            order,
            Node::Max,
            b,
            player,
            player,
            depth,
        ).best,
{
    if depth > 0 {
        let kids = children(h, order, Node::Max, b, player, player);
        lemma_children_ok(h, order, Node::Max, b, player, player);
        if kids.len() > 0 {
            lemma_root_fold_best(h, order, kids, player, player.other(), (depth - 1) as nat, kids.len());
        }
    }
}

/// Alpha-beta and minimax, scoring with the same heuristic, choose the same
/// move: pruning never changes the decision.
pub proof fn law_alphabeta_move_equals_minimax<H: Heuristic>(
    h: H,
    b: BoardView,
    player: Disc,
    depth: nat,
)
    requires
        b.wf(),
        h.accepts(b.width, b.height),
    ensures
        alphabeta_search(scorer(h), MoveOrder::Scan, b, player, depth).best == minimax_search(
            scorer(h),
            b,
            player,
            depth,
        ).best,
{
    assert forall|c: BoardView, p: Disc|
        c.wf() && c.width == b.width && c.height == b.height implies fits(
        #[trigger] scorer(h)(c, p),
    ) by {
        h.lemma_score_fits(c, p);
    }
    lemma_alphabeta_same_move(scorer(h), MoveOrder::Scan, b, player, depth);
}

pub proof fn lemma_alphabeta_expands_fewer(
    h: spec_fn(BoardView, Disc) -> int,
    order: MoveOrder,
    node: Node,
    b: BoardView,
    root: Disc,
    side: Disc,
    depth: nat,
    alpha: int,
    beta: int,
)
    ensures
        alphabeta(h, order, node, b, root, side, depth, alpha, beta).expanded <= minimax(
            h,
            order,
            node,
            b,
            root,
            side,
            depth,
        ).expanded,
        alphabeta(h, order, node, b, root, side, depth, alpha, beta).generated <= minimax(
            h,
            order,
            node,
            b,
            root,
            side,
            depth,
        ).generated,
    decreases depth, 1nat, 0nat,
{
    if depth > 0 {
        let kids = children(h, order, node, b, root, side);
        if kids.len() == 0 {
            lemma_alphabeta_expands_fewer(
                h,
                order,
                node.flip(),
                b,
                root,
                side.other(),
                (depth - 1) as nat,
                alpha,
                beta,
            );
        } else {
            lemma_alphabeta_fold_expands_fewer(
                h,
                order,
                node,
                kids,
                root,
                side.other(),
                (depth - 1) as nat,
                alpha,
                beta,
                kids.len(),
            );
        }
    }
}

proof fn lemma_alphabeta_fold_expands_fewer(
    h: spec_fn(BoardView, Disc) -> int,
    order: MoveOrder,
    node: Node,
    kids: Seq<(Position, BoardView)>,
    root: Disc,
    side: Disc,
    depth: nat,
    alpha: int,
    beta: int,
    i: nat,
)
    ensures
        alphabeta_fold(h, order, node, kids, root, side, depth, alpha, beta, i).expanded
            <= minimax_fold(h, order, node, kids, root, side, depth, i).expanded,
        alphabeta_fold(h, order, node, kids, root, side, depth, alpha, beta, i).generated
            <= minimax_fold(h, order, node, kids, root, side, depth, i).generated,
    decreases depth + 1, 0nat, i,
{
    if i > 0 {
        let j = (i - 1) as nat;
        lemma_alphabeta_fold_expands_fewer(h, order, node, kids, root, side, depth, alpha, beta, j);
        let f = alphabeta_fold(h, order, node, kids, root, side, depth, alpha, beta, j);
        lemma_alphabeta_expands_fewer(
            h,
            order,
            node.flip(),
            kids[j as int].1,
            root,
            side,
            depth,
            f.alpha,
            f.beta,
        );
    }
}

/// Alpha-beta never expands more nodes than minimax on the same search.
pub proof fn law_alphabeta_expands_no_more_than_minimax(
    h: spec_fn(BoardView, Disc) -> int,
    b: BoardView,
    player: Disc,
    depth: nat,
)
    ensures
        alphabeta_search(h, MoveOrder::Scan, b, player, depth).expanded <= minimax_search(
            h,
            b,
            player,
            depth,
        ).expanded,
{
    lemma_alphabeta_expands_fewer(
        h,
        MoveOrder::Scan,
        Node::Max,
        b,
        player,
        player,
        depth,
        isize::MIN as int,
        isize::MAX as int,
    );
}

} // verus!
