use vstd::prelude::*;
use crate::board::{BoardView, Disc, Position};
use crate::pruning::{
    fits, in_range, lemma_alphabeta_exact, lemma_children_ok, lemma_insert_point_range,
    lemma_minimax_fits, lemma_sort_members,
};
use crate::search::{
    alphabeta_search, children, drop_keys, insert_point, minimax, minimax_fold, minimax_search,
    sampled_score, scorer, sort_by_key, successors, with_keys, Heuristic, MoveOrder, Node,
};

verus! {

/// Sorting keeps every element: each element of the input is in the result.
proof fn lemma_sort_keeps(s: Seq<(Position, BoardView, int)>, node: Node)
    ensures
        forall|j: int| 0 <= j < s.len() ==> sort_by_key(s, node).contains(#[trigger] s[j]),
    decreases s.len(),
{
    if s.len() > 0 {
        let rest = s.drop_last();
        lemma_sort_keeps(rest, node);
        let sorted = sort_by_key(rest, node);
        let p = insert_point(sorted, s.last().2, node);
        lemma_insert_point_range(sorted, s.last().2, node);
        let r = sorted.insert(p, s.last());
        assert(r == sort_by_key(s, node));
        assert forall|j: int| 0 <= j < s.len() implies r.contains(#[trigger] s[j]) by {
            if j == s.len() - 1 {
                assert(r[p] == s[j]);
            } else {
                assert(rest[j] == s[j]);
                assert(sorted.contains(rest[j]));
                let i = choose|i: int| 0 <= i < sorted.len() && sorted[i] == rest[j];
                if i < p {
                    assert(r[i] == s[j]);
                } else {
                    assert(r[i + 1] == s[j]);
                }
            }
        }
    }
}

/// Some child of `k` leads to the board `c`.
pub open spec fn has_board(k: Seq<(Position, BoardView)>, c: BoardView) -> bool {
    exists|i: int| 0 <= i < k.len() && k[i].1 == c
}

/// The children in any order are the successors rearranged: the same boards.
proof fn lemma_children_same_boards(
    h: spec_fn(BoardView, Disc) -> int,
    order: MoveOrder,
    node: Node,
    b: BoardView,
    root: Disc,
    side: Disc,
)
    ensures
        children(h, order, node, b, root, side).len() == successors(b, side).len(),
        forall|i: int|
            0 <= i < children(h, order, node, b, root, side).len() ==> has_board(
                successors(b, side),
                (#[trigger] children(h, order, node, b, root, side)[i]).1,
            ),
        forall|j: int|
            0 <= j < successors(b, side).len() ==> has_board(
                children(h, order, node, b, root, side),
                (#[trigger] successors(b, side)[j]).1,
            ),
{
    let k = children(h, order, node, b, root, side);
    let s = successors(b, side);
    if order == MoveOrder::Scan {
        assert forall|i: int| 0 <= i < k.len() implies has_board(s, (#[trigger] k[i]).1) by {
            assert(k[i].1 == s[i].1);
        }
        assert forall|j: int| 0 <= j < s.len() implies has_board(k, (#[trigger] s[j]).1) by {
            assert(k[j].1 == s[j].1);
        }
    } else {
        let f = if order == MoveOrder::Score {
            |c: BoardView| h(c, root)
        } else {
            |c: BoardView| sampled_score(c, root)
        };
        let t = with_keys(s, f);
        lemma_sort_members(t, node);
        lemma_sort_keeps(t, node);
        let sorted = sort_by_key(t, node);
        assert(k == drop_keys(sorted));
        assert forall|i: int| 0 <= i < k.len() implies has_board(s, (#[trigger] k[i]).1) by {
            let j = choose|j: int| 0 <= j < t.len() && sorted[i] == t[j];
            assert(k[i].1 == s[j].1);
        }
        assert forall|j: int| 0 <= j < s.len() implies has_board(k, (#[trigger] s[j]).1) by {
            assert(t[j].1 == s[j].1);
            assert(sorted.contains(t[j]));
            let i = choose|i: int| 0 <= i < sorted.len() && sorted[i] == t[j];
            assert(k[i].1 == s[j].1);
        }
    }
}

/// The values of the children `kids`, each searched by minimax.
pub open spec fn child_values(
    h: spec_fn(BoardView, Disc) -> int,
    order: MoveOrder,
    node: Node,
    kids: Seq<(Position, BoardView)>,
    root: Disc,
    side: Disc,
    depth: nat,
) -> Seq<int> {
    kids.map_values(|c: (Position, BoardView)| minimax(h, order, node, c.1, root, side, depth).value)
}

/// What a minimax node's value is: the node's starting bound or one of the
/// children's values, and no child's value is better.
pub open spec fn is_extremum(node: Node, v: int, vals: Seq<int>) -> bool {
    &&& (v == node.worst() || vals.contains(v))
    &&& forall|j: int| 0 <= j < vals.len() ==> !node.better(#[trigger] vals[j], v)
}

proof fn lemma_fold_extremum(
    h: spec_fn(BoardView, Disc) -> int,
    order: MoveOrder,
    node: Node,
    kids: Seq<(Position, BoardView)>,
    root: Disc,
    side: Disc,
    depth: nat,
    i: nat,
)
    requires
        i <= kids.len(),
    ensures
        is_extremum(
            node,
            minimax_fold(h, order, node, kids, root, side, depth, i).value,
            child_values(h, order, node.flip(), kids.take(i as int), root, side, depth),
        ),
    decreases i,
{
    let vals = child_values(h, order, node.flip(), kids.take(i as int), root, side, depth);
    if i > 0 {
        lemma_fold_extremum(h, order, node, kids, root, side, depth, (i - 1) as nat);
        let prev = child_values(h, order, node.flip(), kids.take(i - 1), root, side, depth);
        assert(vals =~= prev.push(minimax(h, order, node.flip(), kids[i - 1].1, root, side, depth).value));
        let f = minimax_fold(h, order, node, kids, root, side, depth, (i - 1) as nat);
        let v = minimax_fold(h, order, node, kids, root, side, depth, i).value;
        if f.value != node.worst() && v == f.value {
            let j = choose|j: int| 0 <= j < prev.len() && prev[j] == f.value;
            assert(vals[j] == v);
        }
        if v != f.value {
            assert(vals[i - 1] == v);
        }
        assert forall|j: int| 0 <= j < vals.len() implies !node.better(#[trigger] vals[j], v) by {
            if j < i - 1 {
                assert(vals[j] == prev[j]);
            }
        }
    } else {
        assert(vals.len() == 0);
    }
}

/// Two extrema over the same set of fitting values are equal.
proof fn lemma_extremum_unique(node: Node, v1: int, a: Seq<int>, v2: int, b: Seq<int>)
    requires
        is_extremum(node, v1, a),
        is_extremum(node, v2, b),
        forall|i: int| 0 <= i < a.len() ==> fits(#[trigger] a[i]),
        forall|i: int| 0 <= i < b.len() ==> fits(#[trigger] b[i]),
        forall|i: int| 0 <= i < a.len() ==> b.contains(#[trigger] a[i]),
        forall|j: int| 0 <= j < b.len() ==> a.contains(#[trigger] b[j]),
    ensures
        v1 == v2,
{
    if v1 != node.worst() {
        let i = choose|i: int| 0 <= i < a.len() && a[i] == v1;
        assert(b.contains(a[i]));
        let j = choose|j: int| 0 <= j < b.len() && b[j] == a[i];
        assert(!node.better(b[j], v2));
    }
    if v2 != node.worst() {
        let j = choose|j: int| 0 <= j < b.len() && b[j] == v2;
        assert(a.contains(b[j]));
        let i = choose|i: int| 0 <= i < a.len() && a[i] == b[j];
        assert(!node.better(a[i], v1));
    }
}

proof fn lemma_same_value_sets(
    h: spec_fn(BoardView, Disc) -> int,
    node: Node,
    k: Seq<(Position, BoardView)>,
    s: Seq<(Position, BoardView)>,
    root: Disc,
    side: Disc,
    depth: nat,
)
    requires
        forall|i: int| 0 <= i < k.len() ==> has_board(s, (#[trigger] k[i]).1),
        forall|j: int| 0 <= j < s.len() ==> has_board(k, (#[trigger] s[j]).1),
    ensures
        ({
            let a = child_values(h, MoveOrder::Scan, node, k, root, side, depth);
            let b = child_values(h, MoveOrder::Scan, node, s, root, side, depth);
            &&& forall|i: int| 0 <= i < a.len() ==> b.contains(#[trigger] a[i])
            &&& forall|j: int| 0 <= j < b.len() ==> a.contains(#[trigger] b[j])
        }),
{
    let a = child_values(h, MoveOrder::Scan, node, k, root, side, depth);
    let b = child_values(h, MoveOrder::Scan, node, s, root, side, depth);
    assert forall|i: int| 0 <= i < a.len() implies b.contains(#[trigger] a[i]) by {
        assert(has_board(s, k[i].1));
        let j = choose|j: int| 0 <= j < s.len() && s[j].1 == k[i].1;
        assert(b[j] == a[i]);
    }
    assert forall|j: int| 0 <= j < b.len() implies a.contains(#[trigger] b[j]) by {
        assert(has_board(k, s[j].1));
        let i = choose|i: int| 0 <= i < k.len() && k[i].1 == s[j].1;
        assert(b[j] == a[i]);
    }
}

/// The minimax value of a node does not depend on the order its children
/// are visited in.
pub proof fn lemma_order_keeps_minimax_value(
    h: spec_fn(BoardView, Disc) -> int,
    order: MoveOrder,
    node: Node,
    b: BoardView,
    root: Disc,
    side: Disc,
    depth: nat,
)
    requires
        b.wf(),
        in_range(h, b.width, b.height),
    ensures
        minimax(h, order, node, b, root, side, depth).value == minimax(
            h,
            MoveOrder::Scan,
            node,
            b,
            root,
            side,
            depth,
        ).value,
    decreases depth,
{
    if depth > 0 {
        let d = (depth - 1) as nat;
        let k = children(h, order, node, b, root, side);
        let s = successors(b, side);
        lemma_children_same_boards(h, order, node, b, root, side);
        if k.len() == 0 {
            lemma_order_keeps_minimax_value(h, order, node.flip(), b, root, side.other(), d);
        } else {
            lemma_children_ok(h, order, node, b, root, side);
            lemma_children_ok(h, MoveOrder::Scan, node, b, root, side);
            assert(children(h, MoveOrder::Scan, node, b, root, side) == s);
            let vo = child_values(h, order, node.flip(), k, root, side.other(), d);
            let vk = child_values(h, MoveOrder::Scan, node.flip(), k, root, side.other(), d);
            let vs = child_values(h, MoveOrder::Scan, node.flip(), s, root, side.other(), d);
            assert forall|j: int| 0 <= j < k.len() implies #[trigger] vo[j] == vk[j] && fits(vk[j]) by {
                lemma_order_keeps_minimax_value(h, order, node.flip(), k[j].1, root, side.other(), d);
                lemma_minimax_fits(h, MoveOrder::Scan, node.flip(), k[j].1, root, side.other(), d);
            }
            assert(vo =~= vk);
            assert forall|j: int| 0 <= j < s.len() implies fits(#[trigger] vs[j]) by {
                lemma_minimax_fits(h, MoveOrder::Scan, node.flip(), s[j].1, root, side.other(), d);
            }
            lemma_fold_extremum(h, order, node, k, root, side.other(), d, k.len());
            lemma_fold_extremum(h, MoveOrder::Scan, node, s, root, side.other(), d, s.len());
            assert(k.take(k.len() as int) =~= k);
            assert(s.take(s.len() as int) =~= s);
            lemma_same_value_sets(h, node.flip(), k, s, root, side.other(), d);
            lemma_extremum_unique(
                node,
                minimax_fold(h, order, node, k, root, side.other(), d, k.len()).value,
                vk,
                minimax_fold(h, MoveOrder::Scan, node, s, root, side.other(), d, s.len()).value,
                vs,
            );
        }
    }
}

/// Ordering the children, by the heuristic or by the sampled disc balance,
/// changes which lines are pruned but not the value that alpha-beta backs
/// up: it is the minimax value.
pub proof fn law_ordering_keeps_value<H: Heuristic>(
    h: H,
    order: MoveOrder,
    b: BoardView,
    player: Disc,
    depth: nat,
)
    requires
        b.wf(),
        h.accepts(b.width, b.height),
    ensures
        alphabeta_search(scorer(h), order, b, player, depth).value == minimax_search(
            scorer(h),
            b,
            player,
            depth,
        ).value,
{
    assert forall|c: BoardView, p: Disc|
        c.wf() && c.width == b.width && c.height == b.height implies fits(
        #[trigger] scorer(h)(c, p),
    ) by {
        h.lemma_score_fits(c, p);
    }
    lemma_alphabeta_exact(scorer(h), order, b, player, depth);
    lemma_order_keeps_minimax_value(scorer(h), order, Node::Max, b, player, player, depth);
}

} // verus!
