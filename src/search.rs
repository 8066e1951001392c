use vstd::prelude::*;
use crate::board::{BoardView, Disc, Position};
use crate::game::{is_valid, place, valid_moves, Othello};

verus! {

/// A score; the searches use `isize::MIN` and `isize::MAX` as bounds.
pub type Evaluation = isize;

/// A position scoring function.
pub trait Heuristic: Sized {
    /// `eval` is a function of the position: true of every heuristic here
    /// but the random one.
    spec fn exact(&self) -> bool;

    /// What `eval` returns when `exact`.
    spec fn score(&self, b: BoardView, player: Disc) -> int;

    /// The board sizes this heuristic can score.
    spec fn accepts(&self, width: nat, height: nat) -> bool;

    /// Every score of a board it accepts fits an `Evaluation`.
    proof fn lemma_score_fits(&self, b: BoardView, player: Disc)
        requires
            b.wf(),
            self.accepts(b.width, b.height),
        ensures
            isize::MIN <= self.score(b, player) <= isize::MAX,
    ;

    fn eval(&mut self, game: &Othello, player: Disc) -> (r: Evaluation)
        requires
            game.wf(),
            player.is_side(),
            old(self).accepts(game@.width, game@.height),
        ensures
            *final(self) == *old(self),
            old(self).exact() ==> r == old(self).score(game@, player),
    ;
}

/// The score function of `h`.
pub open spec fn scorer<H: Heuristic>(h: H) -> spec_fn(BoardView, Disc) -> int {
    |b: BoardView, p: Disc| h.score(b, p)
}

/// A counter that stops at `usize::MAX`.
pub open spec fn sat(n: int) -> int {
    if n > usize::MAX {
        usize::MAX as int
    } else {
        n
    }
}

pub proof fn lemma_sat_add(x: int, y: int, z: int)
    requires
        0 <= x,
        0 <= y,
        0 <= z,
    ensures
        sat(sat(x + y) + z) == sat(x + y + z),
{
}

/// What a search returns, and what it counts.
pub struct Outcome {
    pub best: Option<Position>,
    pub value: int,
    pub expanded: nat,
    pub generated: nat,
}

/// A tree search: given a position, the side to move and a depth, it picks a
/// move and backs up a value, counting the nodes it expanded and generated.
pub trait Search {
    /// The outcome is a function of the position (the heuristic is exact).
    spec fn exact(&self) -> bool;

    /// The board sizes the heuristic can score.
    spec fn accepts(&self, width: nat, height: nat) -> bool;

    /// What `search(b, player, depth)` returns and counts, when `exact`.
    spec fn outcome(&self, b: BoardView, player: Disc, depth: nat) -> Outcome;

    spec fn expanded(&self) -> nat;

    spec fn generated(&self) -> nat;

    fn search(&mut self, game: &Othello, player: Disc, depth: usize) -> (r: (
        Option<Position>,
        Evaluation,
    ))
        requires
            game.wf(),
            player.is_side(),
            old(self).accepts(game@.width, game@.height),
        ensures
            final(self).exact() == old(self).exact(),
            forall|w: nat, h: nat| #[trigger] final(self).accepts(w, h) == old(self).accepts(w, h),
            forall|b: BoardView, p: Disc, d: nat| #[trigger]
                final(self).outcome(b, p, d) == old(self).outcome(b, p, d),
            r.0 is Some ==> is_valid(game@, r.0->0, player),
            old(self).exact() ==> ({
                let o = old(self).outcome(game@, player, depth as nat);
                &&& r.0 == o.best
                &&& r.1 == o.value
                &&& final(self).expanded() == sat(o.expanded as int)
                &&& final(self).generated() == sat((old(self).generated() + o.generated) as int)
            }),
    ;

    /// Nodes expanded by the last search.
    fn nodes_expanded(&self) -> (r: usize)
        ensures
            r == self.expanded(),
    ;

    /// Nodes generated over every search so far.
    fn nodes_generated(&self) -> (r: usize)
        ensures
            r == self.generated(),
    ;
}

/// A node of the game tree: the root's side chooses at `Max` nodes, its
/// opponent at `Min` nodes; both read values from the root's side.
#[derive(Copy, Clone, PartialEq, Eq, Debug, Structural)]
pub enum Node {
    Max,
    Min,
}

impl Node {
    pub open spec fn flip(self) -> Node {
        match self {
            Node::Max => Node::Min,
            Node::Min => Node::Max,
        }
    }

    /// The value a node starts from before it has seen a child.
    pub open spec fn worst(self) -> int {
        match self {
            Node::Max => isize::MIN as int,
            Node::Min => isize::MAX as int,
        }
    }

    /// `v` is strictly better than `best` for this node.
    pub open spec fn better(self, v: int, best: int) -> bool {
        match self {
            Node::Max => v > best,
            Node::Min => v < best,
        }
    }

    pub fn opposite(&self) -> (r: Node)
        ensures
            r == self.flip(),
    {
        match self {
            Node::Min => Node::Max,
            Node::Max => Node::Min,
        }
    }

    pub fn start_value(&self) -> (r: Evaluation)
        ensures
            r == self.worst(),
    {
        match self {
            Node::Max => isize::MIN,
            Node::Min => isize::MAX,
        }
    }

    pub fn improves(&self, v: Evaluation, best: Evaluation) -> (r: bool)
        ensures
            r == self.better(v as int, best as int),
    {
        match self {
            Node::Max => v > best,
            Node::Min => v < best,
        }
    }
}

/// The order in which a node visits its children.
#[derive(Copy, Clone, PartialEq, Eq, Debug, Structural)]
pub enum MoveOrder {
    /// Board-scan order.
    Scan,
    /// Sorted by the heuristic's score of each child.
    Score,
    /// Sorted by the sampled disc balance of each child.
    Sample,
}

/// Each valid move of `side` with the board it leads to, in board-scan order.
pub open spec fn successors(b: BoardView, side: Disc) -> Seq<(Position, BoardView)> {
    valid_moves(b, side).map_values(|m: Position| (m, place(b, m, side)))
}

/// `k1` is visited strictly before `k2` at a node of this kind: higher keys
/// first at `Max` nodes, lower keys first at `Min` nodes.
pub open spec fn key_before(node: Node, k1: int, k2: int) -> bool {
    node.better(k1, k2)
}

/// Where a child with key `k` is inserted into the already ordered `s`: after
/// every child that it does not strictly precede.
pub open spec fn insert_point(s: Seq<(Position, BoardView, int)>, k: int, node: Node) -> int
    decreases s.len(),
{
    if s.len() == 0 {
        0
    } else if key_before(node, k, s.last().2) {
        insert_point(s.drop_last(), k, node)
    } else {
        s.len() as int
    }
}

/// `s` stably sorted by key: by the node's preference, ties in their first order.
pub open spec fn sort_by_key(s: Seq<(Position, BoardView, int)>, node: Node) -> Seq<
    (Position, BoardView, int),
>
    decreases s.len(),
{
    if s.len() == 0 {
        s
    } else {
        let sorted = sort_by_key(s.drop_last(), node);
        sorted.insert(insert_point(sorted, s.last().2, node), s.last())
    }
}

pub open spec fn with_keys(s: Seq<(Position, BoardView)>, key: spec_fn(BoardView) -> int) -> Seq<
    (Position, BoardView, int),
> {
    s.map_values(|t: (Position, BoardView)| (t.0, t.1, key(t.1)))
}

pub open spec fn drop_keys(s: Seq<(Position, BoardView, int)>) -> Seq<(Position, BoardView)> {
    s.map_values(|t: (Position, BoardView, int)| (t.0, t.1))
}

/// The cheap ordering score: over every other row and every other column,
/// +1 for each disc of `player` and −1 for each of its opponent.
pub open spec fn sampled_score(b: BoardView, player: Disc) -> int {
    sampled_rows(b, player, b.height as int)
}

/// The sampled score over the rows before `r`.
pub open spec fn sampled_rows(b: BoardView, player: Disc, r: int) -> int
    decreases r,
{
    if r <= 0 {
        0
    } else {
        sampled_rows(b, player, r - 1) + if (r - 1) % 2 == 0 {
            sampled_cols(b, player, r - 1, b.width as int)
        } else {
            0
        }
    }
}

/// The sampled score of row `r` over the columns before `c`.
pub open spec fn sampled_cols(b: BoardView, player: Disc, r: int, c: int) -> int
    decreases c,
{
    if c <= 0 {
        0
    } else {
        sampled_cols(b, player, r, c - 1) + if (c - 1) % 2 != 0 {
            0
        } else if b.cell(r, c - 1) == player {
            1
        } else if b.cell(r, c - 1) == player.other() {
            -1
        } else {
            0
        }
    }
}

/// The children of a node in the order that `order` visits them; `root` is
/// the side the values are read for, `side` the side to move.
pub open spec fn children(
    h: spec_fn(BoardView, Disc) -> int,
    order: MoveOrder,
    node: Node,
    b: BoardView,
    root: Disc,
    side: Disc,
) -> Seq<(Position, BoardView)> {
    let s = successors(b, side);
    match order {
        MoveOrder::Scan => s,
        MoveOrder::Score => drop_keys(sort_by_key(with_keys(s, |c: BoardView| h(c, root)), node)),
        MoveOrder::Sample => drop_keys(
            sort_by_key(with_keys(s, |c: BoardView| sampled_score(c, root)), node),
        ),
    }
}

/// Minimax: a leaf is scored by `h` for `root`; a side with no move passes,
/// which spends one unit of depth; otherwise every child is searched and the
/// first strictly best one is kept.
pub open spec fn minimax(
    h: spec_fn(BoardView, Disc) -> int,
    order: MoveOrder,
    node: Node,
    b: BoardView,
    root: Disc,
    side: Disc,
    depth: nat,
) -> Outcome
    decreases depth, 1nat, 0nat,
{
    if depth == 0 {
        Outcome { best: None, value: h(b, root), expanded: 1, generated: 0 }
    } else {
        let kids = children(h, order, node, b, root, side);
        if kids.len() == 0 {
            let o = minimax(h, order, node.flip(), b, root, side.other(), (depth - 1) as nat);
            Outcome { best: None, value: o.value, expanded: o.expanded + 1, generated: o.generated }
        } else {
            let f = minimax_fold(
                h,
                order,
                node,
                kids,
                root,
                side.other(),
                (depth - 1) as nat,
                kids.len(),
            );
            Outcome {
                best: f.best,
                value: f.value,
                expanded: f.expanded + 1,
                generated: f.generated + kids.len(),
            }
        }
    }
}

/// A minimax node after its first `i` children, searched at `depth` with
/// `side` to move.
pub open spec fn minimax_fold(
    h: spec_fn(BoardView, Disc) -> int,
    order: MoveOrder,
    node: Node,
    kids: Seq<(Position, BoardView)>,
    root: Disc,
    side: Disc,
    depth: nat,
    i: nat,
) -> Outcome
    decreases depth + 1, 0nat, i,
{
    if i == 0 {
        Outcome { best: None, value: node.worst(), expanded: 0, generated: 0 }
    } else {
        let f = minimax_fold(h, order, node, kids, root, side, depth, (i - 1) as nat);
        let o = minimax(h, order, node.flip(), kids[i - 1].1, root, side, depth);
        let better = node.better(o.value, f.value);
        Outcome {
            best: if better {
                Some(kids[i - 1].0)
            } else {
                f.best
            },
            value: if better {
                o.value
            } else {
                f.value
            },
            expanded: f.expanded + o.expanded,
            generated: f.generated + o.generated,
        }
    }
}

/// The state of an alpha-beta node after some of its children.
pub struct Frame {
    pub best: Option<Position>,
    pub value: int,
    pub alpha: int,
    pub beta: int,
    pub expanded: nat,
    pub generated: nat,
    pub cut: bool,
}

/// Alpha-beta: minimax in which a node stops visiting children once
/// `alpha >= beta`; `Max` nodes raise `alpha`, `Min` nodes lower `beta`.
pub open spec fn alphabeta(
    h: spec_fn(BoardView, Disc) -> int,
    order: MoveOrder,
    node: Node,
    b: BoardView,
    root: Disc,
    side: Disc,
    depth: nat,
    alpha: int,
    beta: int,
) -> Outcome
    decreases depth, 1nat, 0nat,
{
    if depth == 0 {
        Outcome { best: None, value: h(b, root), expanded: 1, generated: 0 }
    } else {
        let kids = children(h, order, node, b, root, side);
        if kids.len() == 0 {
            let o = alphabeta(
                h,
                order,
                node.flip(),
                b,
                root,
                side.other(),
                (depth - 1) as nat,
                alpha,
                beta,
            );
            Outcome { best: None, value: o.value, expanded: o.expanded + 1, generated: o.generated }
        } else {
            let f = alphabeta_fold(
                h,
                order,
                node,
                kids,
                root,
                side.other(),
                (depth - 1) as nat,
                alpha,
                beta,
                kids.len(),
            );
            Outcome {
                best: f.best,
                value: f.value,
                expanded: f.expanded + 1,
                generated: f.generated + kids.len(),
            }
        }
    }
}

/// An alpha-beta node after its first `i` children (or fewer, once cut).
pub open spec fn alphabeta_fold(
    h: spec_fn(BoardView, Disc) -> int,
    order: MoveOrder,
    node: Node,
    kids: Seq<(Position, BoardView)>,
    root: Disc,
    side: Disc,
    depth: nat,
    alpha: int,
    beta: int,
    i: nat,
) -> Frame
    decreases depth + 1, 0nat, i,
{
    if i == 0 {
        Frame {
            best: None,
            value: node.worst(),
            alpha,
            beta,
            expanded: 0,
            generated: 0,
            cut: false,
        }
    } else {
        let f = alphabeta_fold(h, order, node, kids, root, side, depth, alpha, beta, (i - 1) as nat);
        if f.cut {
            f
        } else {
            frame_after(
                node,
                f,
                kids[i - 1].0,
                alphabeta(h, order, node.flip(), kids[i - 1].1, root, side, depth, f.alpha, f.beta),
            )
        }
    }
}

/// A frame after one more child, which moved by `m` and searched to `o`.
pub open spec fn frame_after(node: Node, f: Frame, m: Position, o: Outcome) -> Frame {
    let better = node.better(o.value, f.value);
    let value = if better {
        o.value
    } else {
        f.value
    };
    let a = if node == Node::Max && value > f.alpha {
        value
    } else {
        f.alpha
    };
    let b = if node == Node::Min && value < f.beta {
        value
    } else {
        f.beta
    };
    Frame {
        best: if better {
            Some(m)
        } else {
            f.best
        },
        value,
        alpha: a,
        beta: b,
        expanded: f.expanded + o.expanded,
        generated: f.generated + o.generated,
        cut: a >= b,
    }
}

/// A whole minimax search for `player`: the root is a `Max` node.
pub open spec fn minimax_search(
    h: spec_fn(BoardView, Disc) -> int,
    b: BoardView,
    player: Disc,
    depth: nat,
) -> Outcome {
    minimax(h, MoveOrder::Scan, Node::Max, b, player, player, depth)
}

/// A whole alpha-beta search for `player`, from the widest window.
pub open spec fn alphabeta_search(
    h: spec_fn(BoardView, Disc) -> int,
    order: MoveOrder,
    b: BoardView,
    player: Disc,
    depth: nat,
) -> Outcome {
    alphabeta(h, order, Node::Max, b, player, player, depth, isize::MIN as int, isize::MAX as int)
}

} // verus!
