//! The search: quiescence, negamax with principal-variation search and
//! late-move reductions, and the search from the root.
use crate::eval::{eval_at, eval_spec, ClassicalEval};
use crate::features::{
    game_phase, game_phase_spec, insufficient_material, insufficient_material_spec,
    is_endgame_like, total_material_spec,
};
use crate::notation::{
    ascii_string, ascii_text, bytes_less, lemma_text_less_irreflexive,
    lemma_text_less_transitive, text_less, uci_bytes, uci_spec,
};
use crate::ordering::{
    history_added, killers_at, killers_recorded, mvv_lva_of, mvv_lva_spec, order_of,
    ordered_spec, sort_order, History, Killers, MoveOrdering,
};
use crate::position::{status_of, Position, Status};
use crate::stop::is_raised;
use crate::tt::{
    budget_buckets, empty_entry, entry_spec, from_tt, from_tt_spec, lemma_store_then_probe,
    table_probe, table_store, to_tt, to_tt_spec, TTEntry, Table, TT,
};
use crate::types::{
    clamp, clamp_spec, opp, opp_spec, piece_code, piece_code_spec, piece_val, piece_val_spec,
    unpack_move, unpack_spec, Color,
    Move, ALPHA, ASP_MAX_WIDEN, ASP_WINDOW, BETA, EXACT, FUTILITY_MARGIN_BASE, INF,
    LMR_BASE_REDUCTION, LMR_MIN_DEPTH, MATE, MAX_AB_DEPTH, MAX_PLY, MAX_QS_PLY, MCP_MIN_DEPTH, MCP_START_AT,
    PHASE_MAX, Q_FUTILITY_MARGIN, Q_INCLUDE_CHECKS,
};
use std::sync::atomic::AtomicBool;
use std::sync::Arc;
use vstd::prelude::*;

verus! {

/// The state of one search. `stop` is the flag that the search shares
/// with whoever may cancel it, if anyone may. `stopped` latches the flag:
/// once the search has seen it raised, or has been told to stop, it
/// stays stopped.
pub struct Search {
    pub nodes: u64,
    pub stop: Option<Arc<AtomicBool>>,
    pub stopped: bool,
    pub tt: TT,
    pub killers: Killers,
    pub history: History,
    pub eval: ClassicalEval,
}

/// The score of a position at which the game is over or drawn by rule.
pub open spec fn terminal_score(p: Position) -> Option<int> {
    match p.status_spec() {
        Status::Checkmate => Some(-30_000),
        Status::Stalemate => Some(0),
        Status::Ongoing => if insufficient_material_spec(p) || p.halfmove >= 100 {
            Some(0)
        } else {
            None
        },
    }
}

/// The score of a node that is not searched further: `beta` where the
/// static score reaches it, else the greater of `alpha` and the static score.
pub open spec fn stand_pat(p: Position, alpha: int, beta: int) -> int {
    let stand = eval_at(p, Status::Ongoing);
    if stand >= beta {
        beta
    } else if stand > alpha {
        stand
    } else {
        alpha
    }
}

/// A move that the quiescence search follows: a capture, a promotion or a check.
pub open spec fn is_noisy_spec(p: Position, m: Move) -> bool {
    p.is_capture_spec(m) || m.promo.is_some() || p.after_spec(m).in_check_spec()
}

/// The noisy moves among the first `n` legal moves, in their order.
pub open spec fn noisy_upto(p: Position, n: int) -> Seq<Move>
    decreases n,
{
    if n <= 0 {
        Seq::empty()
    } else if is_noisy_spec(p, p.legal_moves_spec()[n - 1]) {
        noisy_upto(p, n - 1).push(p.legal_moves_spec()[n - 1])
    } else {
        noisy_upto(p, n - 1)
    }
}

pub open spec fn capture_keys(p: Position, moves: Seq<Move>) -> Seq<i64> {
    Seq::new(moves.len(), |i: int| mvv_lva_spec(p, moves[i]) as i64)
}

/// The noisy moves, the most valuable victim first.
pub open spec fn noisy_sorted(p: Position) -> Seq<Move> {
    let noisy = noisy_upto(p, p.legal_moves_spec().len() as int);
    let order = order_of(capture_keys(p, noisy));
    Seq::new(order.len(), |t: int| noisy[order[t] as int])
}

/// What a search remembers, as plain values: the table, the killer pairs,
/// the history counters and the number of nodes visited.
pub struct Memo {
    pub table: Table,
    pub killers: Map<i32, (Option<Move>, Option<Move>)>,
    pub history: Map<u64, i32>,
    pub nodes: u64,
}

/// The node count after one more node; it wraps around.
pub open spec fn bump(n: u64) -> u64 {
    if n == u64::MAX {
        0
    } else {
        (n + 1) as u64
    }
}

pub open spec fn with_nodes(m: Memo, nodes: u64) -> Memo {
    Memo { table: m.table, killers: m.killers, history: m.history, nodes }
}

/// The score with which the table settles a node, if it does: the entry
/// for the key is at least as deep as asked for, its score read at this
/// ply lies in the score range, and its bound applies to the window.
pub open spec fn table_cutoff(
    t: Table,
    key: u64,
    depth: int,
    alpha: int,
    beta: int,
    ply: int,
) -> Option<int> {
    match table_probe(t, key) {
        Some(e) => {
            let s = from_tt_spec(e.score as int, ply);
            if e.depth >= depth && -INF - MAX_PLY <= e.score <= INF + MAX_PLY && -INF <= s <= INF
                && (e.flag == EXACT || (e.flag == ALPHA && s <= alpha) || (e.flag == BETA && s
                >= beta)) {
                Some(s)
            } else {
                None
            }
        },
        None => None,
    }
}

/// The best move that a table of plain values holds for a key.
pub open spec fn table_best(t: Table, key: u64) -> Option<Move> {
    match table_probe(t, key) {
        Some(e) => unpack_spec(e.best),
        None => None,
    }
}

/// What stays the same while the moves of one node are searched.
/// `alpha` is the lower bound that the node was entered with, `depth` the
/// depth to search with the check extension counted in, `path` the keys
/// of the positions from the start of the path to this node, and `moves`
/// the node's moves in the order in which they are searched.
pub struct NodeCtx {
    pub p: Position,
    pub depth: int,
    pub alpha: int,
    pub beta: int,
    pub ply: int,
    pub is_pv: bool,
    pub node_eval: i32,
    pub improving: bool,
    pub endgame_like: bool,
    pub path: Seq<u64>,
    pub moves: Seq<Move>,
}

pub open spec fn endgame_like_spec(p: Position) -> bool {
    total_material_spec(p) <= 1200 || game_phase_spec(p) <= 8
}

pub open spec fn node_ctx(
    m: Memo,
    p: Position,
    depth: int,
    alpha: int,
    beta: int,
    ply: int,
    is_pv: bool,
    parent_eval: Option<i32>,
    path: Seq<u64>,
) -> NodeCtx {
    NodeCtx {
        p,
        depth: if p.in_check_spec() {
            depth + 1
        } else {
            depth
        },
        alpha,
        beta,
        ply,
        is_pv,
        node_eval: eval_at(p, Status::Ongoing) as i32,
        improving: match parent_eval {
            Some(pe) => eval_at(p, Status::Ongoing) >= pe - 40,
            None => false,
        },
        endgame_like: endgame_like_spec(p),
        path: path.push(p.hash),
        moves: ordered_spec(p, m.history, table_best(m.table, p.hash), killers_at(m.killers, ply)),
    }
}

/// The score of a node `ply` plies from the root and what the search
/// remembers after it, for a search that is not stopped on the way.
///
/// The node counts as visited. A finished game or a rule draw gets its
/// score; a position whose key stands twice on the path is a draw; the
/// table may settle the node; at the horizon the quiescence search
/// decides. Otherwise the moves are searched in order.
pub open spec fn negamax_spec(
    m: Memo,
    p: Position,
    depth: int,
    alpha: int,
    beta: int,
    ply: int,
    is_pv: bool,
    parent_eval: Option<i32>,
    path: Seq<u64>,
) -> (int, Memo)
    decreases MAX_PLY - ply, 1int, 0int,
{
    let m1 = with_nodes(m, bump(m.nodes));
    if terminal_score(p).is_some() {
        (terminal_score(p).unwrap(), m1)
    } else if occurrences(path, p.hash, path.len() as int) >= 2 {
        (0, m1)
    } else if table_cutoff(m.table, p.hash, depth, alpha, beta, ply).is_some() {
        (table_cutoff(m.table, p.hash, depth, alpha, beta, ply).unwrap(), m1)
    } else if at_horizon(p, depth, ply) {
        let q = qsearch_spec(p, alpha, beta, MAX_QS_PLY as nat, m1.nodes);
        (q.0, with_nodes(m1, q.1))
    } else {
        moves_spec(
            m1,
            node_ctx(m1, p, depth, alpha, beta, ply, is_pv, parent_eval, path),
            0,
            alpha,
            -INF as int,
            None,
        )
    }
}

/// A late quiet move: no capture, no check, outside the principal
/// variation, in a middlegame position that is not improving.
pub open spec fn is_quiet_spec(c: NodeCtx, mv: Move) -> bool {
    !c.endgame_like && !c.is_pv && !c.improving && !c.p.is_capture_spec(mv)
        && !c.p.after_spec(mv).in_check_spec()
}

/// The move at place `idx` is passed over: at the frontier because the
/// static score lies a margin below the lower bound, or deeper in the
/// tree because enough moves have been tried.
pub open spec fn is_pruned_spec(c: NodeCtx, idx: int, a: int) -> bool {
    is_quiet_spec(c, c.moves[idx]) && ((c.depth == 1 && c.node_eval + 100 <= a) || (c.ply > 2
        && c.depth >= 3 && idx >= 6 + c.depth + (if c.beta - a <= 48 {
        2int
    } else {
        0int
    })))
}

/// The score of the move at place `idx`, as the node sees it, and what
/// the search remembers after the move has been searched: the first move
/// with the full window; a late quiet move at reduced depth first; every
/// other move with a null window first.
pub open spec fn child_spec(m: Memo, c: NodeCtx, idx: int, a: int) -> (int, Memo)
    decreases MAX_PLY - c.ply, 0int, 0int,
{
    if c.ply < 0 || c.ply >= MAX_PLY || idx < 0 || idx >= c.moves.len() {
        (0, m)
    } else {
        let mv = c.moves[idx];
        let nb = c.p.after_spec(mv);
        let pe = Some(c.node_eval);
        if is_quiet_spec(c, mv) && c.depth >= 3 && idx >= 4 {
            let reduced = c.depth - 2 - (if idx >= 6 {
                1int
            } else {
                0int
            });
            let r1 = negamax_spec(
                m,
                nb,
                if reduced < 1 {
                    1
                } else {
                    reduced
                },
                -a - 1,
                -a,
                c.ply + 1,
                false,
                pe,
                c.path,
            );
            if -r1.0 > a {
                let r2 = negamax_spec(r1.1, nb, c.depth - 1, -c.beta, -a, c.ply + 1, false, pe, c.path);
                (-r2.0, r2.1)
            } else {
                (-r1.0, r1.1)
            }
        } else if idx == 0 {
            let r = negamax_spec(m, nb, c.depth - 1, -c.beta, -a, c.ply + 1, true, pe, c.path);
            (-r.0, r.1)
        } else {
            let r1 = negamax_spec(m, nb, c.depth - 1, -a - 1, -a, c.ply + 1, false, pe, c.path);
            if -r1.0 > a && -r1.0 < c.beta {
                let r2 = negamax_spec(r1.1, nb, c.depth - 1, -c.beta, -a, c.ply + 1, true, pe, c.path);
                (-r2.0, r2.1)
            } else {
                (-r1.0, r1.1)
            }
        }
    }
}

/// What the search remembers after a quiet move has refuted the node:
/// the move is the ply's first killer and its history counter has grown
/// by the square of the depth.
pub open spec fn refuted_spec(m: Memo, c: NodeCtx, mv: Move) -> Memo {
    if c.p.is_capture_spec(mv) {
        m
    } else {
        Memo {
            table: m.table,
            killers: killers_recorded(m.killers, c.ply, mv),
            history: match c.p.piece_on_spec(mv.from) {
                Some(pc) => history_added(
                    m.history,
                    c.p.side_spec(),
                    mv.from,
                    mv.to,
                    piece_code_spec(pc) as u8,
                    c.depth * c.depth,
                ),
                None => m.history,
            },
            nodes: m.nodes,
        }
    }
}

/// The node's result once its moves are done: the best score, and the
/// table with the node's entry stored.
pub open spec fn finish_spec(m: Memo, c: NodeCtx, best_score: int, best_move: Option<Move>) -> (
    int,
    Memo,
) {
    (
        best_score,
        Memo {
            table: table_store(
                m.table,
                c.p.hash,
                entry_spec(
                    c.p.hash,
                    c.depth,
                    to_tt_spec(best_score, c.ply) as i32,
                    if best_score <= c.alpha {
                        ALPHA
                    } else if best_score >= c.beta {
                        BETA
                    } else {
                        EXACT
                    },
                    m.table.age,
                    best_move,
                ),
            ),
            killers: m.killers,
            history: m.history,
            nodes: m.nodes,
        },
    )
}

/// The node's result from the move at place `idx` on, with the lower
/// bound `a` and the best score and move so far.
pub open spec fn moves_spec(
    m: Memo,
    c: NodeCtx,
    idx: int,
    a: int,
    best_score: int,
    best_move: Option<Move>,
) -> (int, Memo)
    decreases MAX_PLY - c.ply, 0int, c.moves.len() - idx,
{
    if idx < 0 || idx >= c.moves.len() || c.ply < 0 || c.ply >= MAX_PLY {
        finish_spec(m, c, best_score, best_move)
    } else if is_pruned_spec(c, idx, a) {
        moves_spec(m, c, idx + 1, a, best_score, best_move)
    } else {
        let r = child_spec(m, c, idx, a);
        let bs = if r.0 > best_score {
            r.0
        } else {
            best_score
        };
        let bm = if r.0 > best_score {
            Some(c.moves[idx])
        } else {
            best_move
        };
        if r.0 > a && r.0 >= c.beta {
            finish_spec(refuted_spec(r.1, c, c.moves[idx]), c, bs, bm)
        } else {
            moves_spec(
                r.1,
                c,
                idx + 1,
                if r.0 > a {
                    r.0
                } else {
                    a
                },
                bs,
                bm,
            )
        }
    }
}

/// The score of one root move and what the search remembers after it.
pub open spec fn root_child_spec(
    m: Memo,
    p: Position,
    depth: int,
    beta: int,
    path: Seq<u64>,
    mv: Move,
    first: bool,
    a: int,
) -> (int, Memo) {
    let nb = p.after_spec(mv);
    let pe = Some(eval_spec(p) as i32);
    if first {
        let r = negamax_spec(m, nb, depth - 1, -beta, -a, 1, true, pe, path);
        (-r.0, r.1)
    } else {
        let r1 = negamax_spec(m, nb, depth - 1, -a - 1, -a, 1, false, pe, path);
        if -r1.0 > a && -r1.0 < beta {
            let r2 = negamax_spec(r1.1, nb, depth - 1, -beta, -a, 1, true, pe, path);
            (-r2.0, r2.1)
        } else {
            (-r1.0, r1.1)
        }
    }
}

/// The root's result from the move at place `i` on.
pub open spec fn root_moves_spec(
    m: Memo,
    p: Position,
    depth: int,
    beta: int,
    path: Seq<u64>,
    moves: Seq<Move>,
    i: int,
    a: int,
    best_score: int,
    best_move: Option<Move>,
) -> ((Option<Move>, int), Memo)
    decreases moves.len() - i,
{
    if i < 0 || i >= moves.len() {
        ((best_move, best_score), m)
    } else {
        let r = root_child_spec(m, p, depth, beta, path, moves[i], i == 0, a);
        let bs = if r.0 > best_score {
            r.0
        } else {
            best_score
        };
        let bm = if r.0 > best_score {
            Some(moves[i])
        } else {
            best_move
        };
        if r.0 > a && r.0 >= beta {
            ((bm, bs), r.1)
        } else {
            root_moves_spec(
                r.1,
                p,
                depth,
                beta,
                path,
                moves,
                i + 1,
                if r.0 > a {
                    r.0
                } else {
                    a
                },
                bs,
                bm,
            )
        }
    }
}

/// The best move of the root with its score, and what the search
/// remembers afterwards, for a search that is not stopped on the way.
/// `earlier` holds the keys of the positions that the game has gone
/// through before the root. A finished game or a rule draw has no move
/// and its score, as has a root that stands on the board for the third
/// time.
pub open spec fn root_spec(
    m: Memo,
    p: Position,
    depth: int,
    alpha: int,
    beta: int,
    earlier: Seq<u64>,
) -> ((Option<Move>, int), Memo) {
    if terminal_score(p).is_some() {
        ((None, terminal_score(p).unwrap()), m)
    } else if occurrences(earlier, p.hash, earlier.len() as int) >= 2 {
        ((None, 0), m)
    } else {
        root_moves_spec(
            m,
            p,
            depth,
            beta,
            earlier.push(p.hash),
            ordered_spec(p, m.history, table_best(m.table, p.hash), killers_at(m.killers, 0)),
            0,
            alpha,
            -INF as int,
            None,
        )
    }
}

/// The result of the searches of the root from the window `alpha` to
/// `beta` on: while the score falls on or outside the window and the
/// window is narrower than 2048, the window is doubled and centred on the
/// score.
pub open spec fn widen_spec(
    m: Memo,
    p: Position,
    depth: int,
    alpha: int,
    beta: int,
    window: int,
    earlier: Seq<u64>,
) -> ((Option<Move>, int), Memo)
    decreases 2048 - window,
{
    let r = root_spec(m, p, depth, alpha, beta, earlier);
    let score = r.0.1;
    if (score <= alpha || score >= beta) && 1 <= window < 2048 {
        let w = if window * 2 > 2048 {
            2048
        } else {
            window * 2
        };
        widen_spec(
            r.1,
            p,
            depth,
            clamp_spec(score - w, -INF as int, INF as int),
            clamp_spec(score + w, -INF as int, INF as int),
            w,
            earlier,
        )
    } else {
        r
    }
}

/// The result of one iteration of the deepening search: the node count
/// starts again, the table enters its next generation, and the root is
/// searched in a window of 24 around the last score, widened as needed.
pub open spec fn iteration_spec(
    m: Memo,
    p: Position,
    depth: int,
    last_score: int,
    earlier: Seq<u64>,
) -> ((Option<Move>, int), Memo) {
    widen_spec(
        Memo {
            table: Table {
                slots: m.table.slots,
                mask: m.table.mask,
                age: if m.table.age == 255 {
                    0
                } else {
                    (m.table.age + 1) as u8
                },
            },
            killers: m.killers,
            history: m.history,
            nodes: 0,
        },
        p,
        depth,
        clamp_spec(last_score - 24, -INF as int, INF as int),
        clamp_spec(last_score + 24, -INF as int, INF as int),
        24,
        earlier,
    )
}

/// The score of the quiescence search at a node, with `budget` plies to
/// go, and the node count after it. The node counts as visited. A
/// finished game has its score; else `beta` where the static score
/// reaches it, and the lower bound where the static score lies more than
/// the futility margin below it; else the best of the static score,
/// `alpha` and what the noisy moves lead to, cut off at `beta`.
pub open spec fn qsearch_spec(p: Position, alpha: int, beta: int, budget: nat, nodes: u64) -> (
    int,
    u64,
)
    decreases budget, 1int, 0int,
{
    match terminal_score(p) {
        Some(s) => (s, bump(nodes)),
        None => if eval_at(p, Status::Ongoing) >= beta || eval_at(p, Status::Ongoing) + 150
            < stand_pat(p, alpha, beta) || budget == 0 {
            (stand_pat(p, alpha, beta), bump(nodes))
        } else {
            qsearch_moves_spec(
                p,
                noisy_sorted(p),
                0,
                stand_pat(p, alpha, beta),
                beta,
                budget,
                bump(nodes),
            )
        },
    }
}

/// The score after the noisy moves from place `j` on have been searched
/// with the lower bound `a`, and the node count then.
pub open spec fn qsearch_moves_spec(
    p: Position,
    moves: Seq<Move>,
    j: int,
    a: int,
    beta: int,
    budget: nat,
    nodes: u64,
) -> (int, u64)
    decreases budget, 0int, moves.len() - j,
{
    if j < 0 || j >= moves.len() || budget == 0 {
        (a, nodes)
    } else {
        let r = qsearch_spec(p.after_spec(moves[j]), -beta, -a, (budget - 1) as nat, nodes);
        if -r.0 >= beta {
            (beta, r.1)
        } else {
            qsearch_moves_spec(
                p,
                moves,
                j + 1,
                if -r.0 > a {
                    -r.0
                } else {
                    a
                },
                beta,
                budget,
                r.1,
            )
        }
    }
}

/// The node is not searched by its moves: no depth is left, a check
/// counting for one ply more, or the search is as far from the root as it
/// may go.
pub open spec fn at_horizon(p: Position, depth: int, ply: int) -> bool {
    (if p.in_check_spec() {
        depth + 1
    } else {
        depth
    }) <= 0 || ply >= MAX_PLY
}

/// The entry that a node leaves in the table when its moves have been
/// searched to `depth`: the score in its stored form; `ALPHA` where the
/// score did not rise above the window, `BETA` where it reached the top
/// of it, else `EXACT`; and the best move found.
pub open spec fn node_entry(
    p: Position,
    depth: int,
    score: int,
    alpha: int,
    beta: int,
    ply: int,
    age: u8,
    best: Option<Move>,
) -> TTEntry {
    entry_spec(
        p.hash,
        depth,
        to_tt_spec(score, ply) as i32,
        if score <= alpha {
            ALPHA
        } else if score >= beta {
            BETA
        } else {
            EXACT
        },
        age,
        best,
    )
}

/// The depth to which a node is searched: a check counts for one ply more.
pub open spec fn extended_depth(p: Position, depth: int) -> int {
    if p.in_check_spec() {
        depth + 1
    } else {
        depth
    }
}

/// The node is searched by its moves: the game goes on, the position has
/// not stood on the path twice, the table does not settle the node and
/// the horizon is not reached.
pub open spec fn is_searched(
    m: Memo,
    p: Position,
    depth: int,
    alpha: int,
    beta: int,
    ply: int,
    path: Seq<u64>,
) -> bool {
    &&& terminal_score(p).is_none()
    &&& occurrences(path, p.hash, path.len() as int) < 2
    &&& table_cutoff(m.table, p.hash, depth, alpha, beta, ply).is_none()
    &&& !at_horizon(p, depth, ply)
}

/// Two searches that remember the same give the same move and score, and
/// remember the same afterwards, unless one of them is stopped.
pub proof fn lemma_runs_agree(
    a: Search,
    b: Search,
    p: Position,
    depth: int,
    last_score: int,
    earlier: Seq<u64>,
)
    requires
        a.memo() == b.memo(),
    ensures
        iteration_spec(a.memo(), p, depth, last_score, earlier) == iteration_spec(
            b.memo(),
            p,
            depth,
            last_score,
            earlier,
        ),
        forall|alpha: int, beta: int|
            root_spec(a.memo(), p, depth, alpha, beta, earlier) == root_spec(
                b.memo(),
                p,
                depth,
                alpha,
                beta,
                earlier,
            ),
{
}

/// How often `key` occurs among the first `n` keys of a path.
pub open spec fn occurrences(path: Seq<u64>, key: u64, n: int) -> int
    decreases n,
{
    if n <= 0 {
        0
    } else {
        occurrences(path, key, n - 1) + if path[n - 1] == key {
            1int
        } else {
            0int
        }
    }
}

/// Whether a key already stands twice on the path.
pub fn seen_twice(path: &Vec<u64>, key: u64) -> (r: bool)
    ensures
        r == (occurrences(path@, key, path@.len() as int) >= 2),
{
    let mut n: usize = 0;
    let mut i: usize = 0;
    while i < path.len()
        invariant
            i <= path.len(),
            n <= i,
            n == occurrences(path@, key, i as int),
        decreases path.len() - i,
    {
        if path[i] == key {
            n += 1;
        }
        i += 1;
    }
    n >= 2
}

fn is_capture_quick(b: &Position, mv: Move) -> (r: bool)
    requires
        mv.wf(),
    ensures
        r == b.is_capture_spec(mv),
{
    b.is_capture(mv)
}

fn mvv_lva_quick(b: &Position, mv: Move) -> (r: i32)
    requires
        mv.wf(),
    ensures
        r == mvv_lva_spec(*b, mv),
        0 <= r <= 19_000,
{
    mvv_lva_of(b, mv)
}

impl Search {
    pub open spec fn wf(self) -> bool {
        &&& self.tt.wf()
        &&& self.killers.wf()
        &&& self.history.wf()
    }

    /// What the search remembers, as plain values.
    pub open spec fn memo(self) -> Memo {
        Memo {
            table: self.tt.table(),
            killers: self.killers.slots@,
            history: self.history.table@,
            nodes: self.nodes,
        }
    }

    /// The search cannot stop unless it is stopped already: nobody
    /// shares a flag with it.
    pub open spec fn runs_on(self) -> bool {
        !self.stopped && self.stop.is_none()
    }

    /// A fresh search state with a table of `tt_mb` megabytes, which
    /// watches the flag `stop`.
    pub fn new(stop: Arc<AtomicBool>, tt_mb: usize) -> (s: Search)
        ensures
            s.wf(),
            s.nodes == 0,
            !s.stopped,
            s.stop == Some(stop),
            s.tt.age == 0,
            s.tt.bucket_count() <= budget_buckets(tt_mb) < 2 * s.tt.bucket_count(),
            forall|i: int| 0 <= i < s.tt.slots().len() ==> s.tt.slots()[i] == empty_entry(),
            forall|ply: int| s.killers.at(ply) == (None::<Move>, None::<Move>),
            forall|c: Color, from: u8, to: u8, code: u8| s.history.value(c, from, to, code) == 0,
    {
        Search {
            nodes: 0,
            stop: Some(stop),
            stopped: false,
            tt: TT::new_from_mb(tt_mb),
            killers: Killers::new(),
            history: History::new(),
            eval: ClassicalEval,
        }
    }

    /// A fresh search state with a table of `tt_mb` megabytes, which
    /// nobody can cancel.
    pub fn detached(tt_mb: usize) -> (s: Search)
        ensures
            s.wf(),
            s.nodes == 0,
            s.runs_on(),
            s.tt.age == 0,
            s.tt.bucket_count() <= budget_buckets(tt_mb) < 2 * s.tt.bucket_count(),
            forall|i: int| 0 <= i < s.tt.slots().len() ==> s.tt.slots()[i] == empty_entry(),
            forall|ply: int| s.killers.at(ply) == (None::<Move>, None::<Move>),
            forall|c: Color, from: u8, to: u8, code: u8| s.history.value(c, from, to, code) == 0,
    {
        Search {
            nodes: 0,
            stop: None,
            stopped: false,
            tt: TT::new_from_mb(tt_mb),
            killers: Killers::new(),
            history: History::new(),
            eval: ClassicalEval,
        }
    }

    /// Starts an iteration: the node count goes back to zero and the
    /// table enters its next generation.
    pub fn on_new_iter(&mut self)
        requires
            old(self).wf(),
        ensures
            final(self).wf(),
            final(self).nodes == 0,
            final(self).tt.age == (if old(self).tt.age == 255 {
                0int
            } else {
                old(self).tt.age + 1
            }),
            final(self).tt.slots() == old(self).tt.slots(),
            final(self).tt.mask == old(self).tt.mask,
            final(self).stopped == old(self).stopped,
            final(self).stop == old(self).stop,
            final(self).killers == old(self).killers,
            final(self).history == old(self).history,
    {
        self.nodes = 0;
        self.tt.bump_age();
    }

    pub fn evaluate(&self, b: &Position) -> (score: i32)
        ensures
            score == eval_spec(*b),
            -60_000 < score < 60_000,
    {
        self.eval.eval(b)
    }

    /// Stops the search for good.
    pub fn request_stop(&mut self)
        ensures
            final(self).stopped,
            final(self).nodes == old(self).nodes,
            final(self).tt == old(self).tt,
            final(self).killers == old(self).killers,
            final(self).history == old(self).history,
            final(self).stop == old(self).stop,
    {
        self.stopped = true;
    }

    /// Looks at the shared flag unless the search is stopped already, and
    /// says whether the search is stopped now.
    pub fn poll(&mut self) -> (r: bool)
        ensures
            r == final(self).stopped,
            old(self).stopped ==> r,
            old(self).stopped ==> *final(self) == *old(self),
            old(self).runs_on() ==> *final(self) == *old(self),
            final(self).nodes == old(self).nodes,
            final(self).tt == old(self).tt,
            final(self).killers == old(self).killers,
            final(self).history == old(self).history,
            final(self).stop == old(self).stop,
    {
        if !self.stopped {
            let raised = match &self.stop {
                Some(flag) => is_raised(flag),
                None => false,
            };
            if raised {
                self.stopped = true;
            }
        }
        self.stopped
    }

    /// Searches captures, promotions and checks until the position is
    /// quiet, at most `budget` plies deep. Fails hard: a score that
    /// reaches `beta` is returned as `beta`.
    ///
    /// The budget is what makes the search end: checks count as noisy
    /// moves, and a line of checks need not run out by itself.
    pub fn qsearch(&mut self, b: &Position, alpha: i32, beta: i32, budget: u32) -> (r: i32)
        requires
            old(self).wf(),
            -INF <= alpha <= beta <= INF,
        ensures
            final(self).wf(),
            -INF <= r <= INF,
            old(self).stopped ==> r == alpha && *final(self) == *old(self),
            old(self).stopped ==> final(self).stopped,
            old(self).runs_on() ==> final(self).runs_on(),
            final(self).stop == old(self).stop,
            final(self).tt == old(self).tt,
            final(self).killers == old(self).killers,
            final(self).history == old(self).history,
            !final(self).stopped ==> (terminal_score(*b) matches Some(s) ==> r == s),
            terminal_score(*b).is_none() ==> alpha <= r <= beta,
            !final(self).stopped && terminal_score(*b).is_none() ==> r >= stand_pat(
                *b,
                alpha as int,
                beta as int,
            ),
            !final(self).stopped ==> (r as int, final(self).nodes) == qsearch_spec(
                *b,
                alpha as int,
                beta as int,
                budget as nat,
                old(self).nodes,
            ),
        decreases budget,
    {
        if self.poll() {
            return alpha;
        }
        self.nodes = self.nodes.wrapping_add(1);
        let legal = b.legal_moves();
        let status = status_of(legal.len(), b.checkers);
        match status {
            Status::Checkmate => {
                return -MATE;
            },
            Status::Stalemate => {
                return 0;
            },
            Status::Ongoing => {},
        }
        if insufficient_material(b) {
            return 0;
        }
        if b.halfmove >= 100 {
            return 0;
        }
        let mut a: i32 = alpha;
        let stand = self.eval.eval_with_status(b, status);
        if stand >= beta {
            return beta;
        }
        if stand > a {
            a = stand;
        }
        if stand + Q_FUTILITY_MARGIN < a {
            return a;
        }
        if budget == 0 {
            return a;
        }
        let mut noisy: Vec<Move> = Vec::new();
        let mut keys: Vec<i64> = Vec::new();
        let mut i: usize = 0;
        while i < legal.len()
            invariant
                i <= legal.len(),
                legal@ == b.legal_moves_spec(),
                forall|j: int| 0 <= j < legal@.len() ==> (#[trigger] legal@[j]).wf(),
                forall|j: int| 0 <= j < legal@.len() ==> b.is_legal(#[trigger] legal@[j]),
                noisy@ == noisy_upto(*b, i as int),
                forall|j: int|
                    0 <= j < keys@.len() ==> #[trigger] keys@[j] == mvv_lva_spec(*b, noisy@[j]),
                noisy@.len() == keys@.len(),
                forall|j: int| 0 <= j < noisy@.len() ==> (#[trigger] noisy@[j]).wf(),
                forall|j: int| 0 <= j < noisy@.len() ==> b.is_legal(#[trigger] noisy@[j]),
            decreases legal.len() - i,
        {
            let m = legal[i];
            let cap = is_capture_quick(b, m);
            let promo = m.promo.is_some();
            let gives_check = if Q_INCLUDE_CHECKS {
                b.gives_check(m)
            } else {
                false
            };
            if cap || gives_check || promo {
                noisy.push(m);
                keys.push(mvv_lva_quick(b, m) as i64);
            }
            i += 1;
        }
        let order = sort_order(&keys);
        let ghost sorted = noisy_sorted(*b);
        proof {
            assert(keys@ =~= capture_keys(*b, noisy@));
        }
        let mut j: usize = 0;
        while j < order.len()
            invariant
                j <= order.len(),
                self.wf(),
                sorted == noisy_sorted(*b),
                sorted.len() == order@.len(),
                forall|t: int| 0 <= t < order@.len() ==> sorted[t] == noisy@[order@[t] as int],
                !self.stopped ==> qsearch_spec(
                    *b,
                    alpha as int,
                    beta as int,
                    budget as nat,
                    old(self).nodes,
                ) == qsearch_moves_spec(
                    *b,
                    sorted,
                    j as int,
                    a as int,
                    beta as int,
                    budget as nat,
                    self.nodes,
                ),
                order@.len() == noisy@.len(),
                forall|t: int| 0 <= t < order@.len() ==> (#[trigger] order@[t]) < noisy@.len(),
                forall|t: int| 0 <= t < noisy@.len() ==> (#[trigger] noisy@[t]).wf(),
                forall|t: int| 0 <= t < noisy@.len() ==> b.is_legal(#[trigger] noisy@[t]),
                -INF <= alpha <= a <= beta <= INF,
                budget > 0,
                !old(self).stopped,
                self.stop == old(self).stop,
                old(self).runs_on() ==> self.runs_on(),
                terminal_score(*b).is_none(),
                a >= stand_pat(*b, alpha as int, beta as int),
                self.tt == old(self).tt,
                self.killers == old(self).killers,
                self.history == old(self).history,
            decreases order.len() - j,
        {
            if self.poll() {
                return a;
            }
            let m = noisy[order[j]];
            let nb = b.make_move(m);
            let score = -self.qsearch(&nb, -beta, -a, budget - 1);
            if score >= beta {
                return beta;
            }
            if score > a {
                a = score;
            }
            j += 1;
        }
        a
    }

    /// Stores the result of a searched node and takes its key off the path.
    fn finish_node(
        &mut self,
        b: &Position,
        local_depth: i32,
        best_score: i32,
        orig_alpha: i32,
        beta: i32,
        ply: i32,
        best_move: Option<Move>,
        rep_stack: &mut Vec<u64>,
        Ghost(c): Ghost<NodeCtx>,
    ) -> (r: i32)
        requires
            old(self).wf(),
            1 <= local_depth <= 32_001,
            -INF <= best_score <= INF,
            0 <= ply <= MAX_PLY,
            c.p == *b,
            c.depth == local_depth,
            c.alpha == orig_alpha,
            c.beta == beta,
            c.ply == ply,
            old(rep_stack)@.len() > 0,
        ensures
            final(self).wf(),
            r == best_score,
            (r as int, final(self).memo()) == finish_spec(
                old(self).memo(),
                c,
                best_score as int,
                best_move,
            ),
            final(self).stop == old(self).stop,
            final(self).stopped == old(self).stopped,
            final(rep_stack)@ == old(rep_stack)@.subrange(0, old(rep_stack)@.len() - 1),
            table_probe(final(self).tt.table(), b.hash) == Some(
                node_entry(
                    *b,
                    local_depth as int,
                    best_score as int,
                    orig_alpha as int,
                    beta as int,
                    ply as int,
                    final(self).tt.age,
                    best_move,
                ),
            ),
    {
        proof {
            lemma_store_then_probe(
                old(self).tt,
                b.hash,
                node_entry(
                    *b,
                    local_depth as int,
                    best_score as int,
                    orig_alpha as int,
                    beta as int,
                    ply as int,
                    old(self).tt.age,
                    best_move,
                ),
            );
        }
        let flag = if best_score <= orig_alpha {
            ALPHA
        } else if best_score >= beta {
            BETA
        } else {
            EXACT
        };
        self.tt.store(b.hash, local_depth, to_tt(best_score, ply), flag, best_move);
        rep_stack.pop();
        best_score
    }

    /// Negamax with alpha-beta pruning at `ply` plies from the root.
    ///
    /// A stopped search returns `alpha` at once and changes nothing. A
    /// search that is not stopped on the way returns the score, and
    /// leaves the table, the killers, the history and the node count, that
    /// `negamax_spec` gives. The path is the same after the call as
    /// before it.
    ///
    /// No node is searched by its moves at ply `MAX_PLY`, whatever depth
    /// is left: check extensions could otherwise carry a line on without
    /// end.
    #[verifier::rlimit(100)]
    pub fn negamax(
        &mut self,
        b: &Position,
        depth: i32,
        alpha: i32,
        beta: i32,
        ply: i32,
        is_pv: bool,
        parent_eval: Option<i32>,
        rep_stack: &mut Vec<u64>,
    ) -> (r: i32)
        requires
            old(self).wf(),
            -INF <= alpha < beta <= INF,
            0 <= ply <= MAX_PLY,
            -32_000 <= depth <= 32_000,
        ensures
            final(self).wf(),
            final(rep_stack)@ == old(rep_stack)@,
            -INF <= r <= INF,
            old(self).stopped ==> r == alpha && *final(self) == *old(self),
            old(self).stopped ==> final(self).stopped,
            old(self).runs_on() ==> final(self).runs_on(),
            final(self).stop == old(self).stop,
            !final(self).stopped ==> (r as int, final(self).memo()) == negamax_spec(
                old(self).memo(),
                *b,
                depth as int,
                alpha as int,
                beta as int,
                ply as int,
                is_pv,
                parent_eval,
                old(rep_stack)@,
            ),
            !final(self).stopped && is_searched(
                old(self).memo(),
                *b,
                depth as int,
                alpha as int,
                beta as int,
                ply as int,
                old(rep_stack)@,
            ) ==> exists|best: Option<Move>|
                table_probe(final(self).tt.table(), b.hash) == Some(
                    #[trigger] node_entry(
                        *b,
                        extended_depth(*b, depth as int),
                        r as int,
                        alpha as int,
                        beta as int,
                        ply as int,
                        final(self).tt.age,
                        best,
                    ),
                ),
        decreases MAX_PLY - ply, 0int,
    {
        if self.poll() {
            return alpha;
        }
        self.nodes = self.nodes.wrapping_add(1);
        let status = b.status();
        match status {
            Status::Checkmate => {
                return -MATE;
            },
            Status::Stalemate => {
                return 0;
            },
            Status::Ongoing => {},
        }
        if insufficient_material(b) {
            return 0;
        }
        if b.halfmove >= 100 {
            return 0;
        }
        let k = b.hash;
        if seen_twice(rep_stack, k) {
            return 0;
        }
        let probed = self.tt.probe(k);
        match probed {
            Some(tte) => {
                if tte.depth as i32 >= depth && -INF - MAX_PLY <= tte.score && tte.score <= INF
                    + MAX_PLY {
                    let tt_score = from_tt(tte.score, ply);
                    if -INF <= tt_score && tt_score <= INF {
                        if tte.flag == EXACT {
                            return tt_score;
                        }
                        if tte.flag == ALPHA && tt_score <= alpha {
                            return tt_score;
                        }
                        if tte.flag == BETA && tt_score >= beta {
                            return tt_score;
                        }
                    }
                }
            },
            None => {},
        }
        let in_check = b.in_check();
        let local_depth: i32 = if in_check {
            depth + 1
        } else {
            depth
        };
        if local_depth <= 0 || ply >= MAX_PLY {
            return self.qsearch(b, alpha, beta, MAX_QS_PLY);
        }
        let ghost c = node_ctx(
            self.memo(),
            *b,
            depth as int,
            alpha as int,
            beta as int,
            ply as int,
            is_pv,
            parent_eval,
            rep_stack@,
        );
        rep_stack.push(k);
        let node_eval = self.eval.eval_with_status(b, status);
        let improving = match parent_eval {
            Some(pe) => node_eval as i64 >= pe as i64 - 40,
            None => false,
        };
        let mut a: i32 = alpha;
        let mut best_move: Option<Move> = None;
        let mut best_score: i32 = -INF;
        let killers = self.killers.get(ply);
        let tt_move = match probed {
            Some(e) => unpack_move(e.best),
            None => None,
        };
        let moves = {
            let ord = MoveOrdering { history: &self.history };
            ord.ordered_moves(b, tt_move, killers)
        };
        let endgame_like = is_endgame_like(b) || game_phase(b) <= PHASE_MAX / 3;
        let mut move_index: usize = 0;
        while move_index < moves.len()
            invariant
                move_index <= moves.len(),
                self.wf(),
                self.stop == old(self).stop,
                !old(self).stopped,
                old(self).runs_on() ==> self.runs_on(),
                rep_stack@ == old(rep_stack)@.push(k),
                k == b.hash,
                c.path == rep_stack@,
                c.moves == moves@,
                c.p == *b,
                c.depth == local_depth,
                local_depth == extended_depth(*b, depth as int),
                c.alpha == alpha,
                c.beta == beta,
                c.ply == ply,
                c.is_pv == is_pv,
                c.node_eval == node_eval,
                c.improving == improving,
                c.endgame_like == endgame_like,
                forall|t: int| 0 <= t < moves@.len() ==> (#[trigger] moves@[t]).wf(),
                forall|t: int| 0 <= t < moves@.len() ==> b.is_legal(#[trigger] moves@[t]),
                -INF <= alpha <= a < beta <= INF,
                -INF <= best_score <= INF,
                -60_000 < node_eval < 60_000,
                0 <= ply < MAX_PLY,
                1 <= local_depth <= 32_001,
                !self.stopped ==> negamax_spec(
                    old(self).memo(),
                    *b,
                    depth as int,
                    alpha as int,
                    beta as int,
                    ply as int,
                    is_pv,
                    parent_eval,
                    old(rep_stack)@,
                ) == moves_spec(
                    self.memo(),
                    c,
                    move_index as int,
                    a as int,
                    best_score as int,
                    best_move,
                ),
            decreases moves.len() - move_index,
        {
            if self.poll() {
                let r = self.finish_node(
                    b,
                    local_depth,
                    best_score,
                    alpha,
                    beta,
                    ply,
                    best_move,
                    rep_stack,
                    Ghost(c),
                );
                proof {
                    assert(rep_stack@ =~= old(rep_stack)@);
                }
                return r;
            }
            let m = moves[move_index];
            let is_cap = is_capture_quick(b, m);
            let nb = b.make_move(m);
            let gives_chk = nb.in_check();
            let quiet = !endgame_like && !is_pv && !improving && !is_cap && !gives_chk;
            assert(quiet == is_quiet_spec(c, m));
            if quiet && local_depth == 1 && node_eval + FUTILITY_MARGIN_BASE / 2 <= a {
                move_index += 1;
                continue ;
            }
            if quiet && ply > 2 && local_depth >= MCP_MIN_DEPTH {
                let mut dyn_start: usize = MCP_START_AT + local_depth as usize;
                if beta - a <= 2 * ASP_WINDOW {
                    dyn_start += 2;
                }
                if move_index >= dyn_start {
                    move_index += 1;
                    continue ;
                }
            }
            assert(!is_pruned_spec(c, move_index as int, a as int));
            let ghost before = self.memo();
            let score = self.search_child(
                &nb,
                local_depth,
                a,
                beta,
                ply,
                node_eval,
                quiet,
                move_index,
                rep_stack,
                Ghost(c),
            );
            if score > best_score {
                best_score = score;
                best_move = Some(m);
            }
            if score > a {
                if score >= beta {
                    if !is_cap {
                        self.killers.record(ply, m);
                        match b.piece_on(m.from) {
                            Some(pc) => {
                                assert(local_depth * local_depth <= 1_100_000_000)
                                    by (nonlinear_arith)
                                    requires
                                        1 <= local_depth <= 32_001,
                                ;
                                self.history.add(
                                    b.side_to_move(),
                                    m.from,
                                    m.to,
                                    piece_code(pc),
                                    local_depth * local_depth,
                                );
                            },
                            None => {},
                        }
                    }
                    proof {
                        if !self.stopped {
                            assert(self.memo() == refuted_spec(
                                child_spec(before, c, move_index as int, a as int).1,
                                c,
                                m,
                            ));
                        }
                    }
                    let r = self.finish_node(
                        b,
                        local_depth,
                        best_score,
                        alpha,
                        beta,
                        ply,
                        best_move,
                        rep_stack,
                        Ghost(c),
                    );
                    proof {
                        assert(rep_stack@ =~= old(rep_stack)@);
                        assert(table_probe(self.tt.table(), b.hash) == Some(
                            node_entry(
                                *b,
                                extended_depth(*b, depth as int),
                                r as int,
                                alpha as int,
                                beta as int,
                                ply as int,
                                self.tt.age,
                                best_move,
                            ),
                        ));
                    }
                    return r;
                }
                a = score;
            }
            move_index += 1;
        }
        let r = self.finish_node(
            b,
            local_depth,
            best_score,
            alpha,
            beta,
            ply,
            best_move,
            rep_stack,
            Ghost(c),
        );
        proof {
            assert(rep_stack@ =~= old(rep_stack)@);
            assert(table_probe(self.tt.table(), b.hash) == Some(
                node_entry(
                    *b,
                    extended_depth(*b, depth as int),
                    r as int,
                    alpha as int,
                    beta as int,
                    ply as int,
                    self.tt.age,
                    best_move,
                ),
            ));
        }
        r
    }

    /// Searches one move of a node: the first move with the full window,
    /// a late quiet move at reduced depth first, every other move with a
    /// null window first; a move that turns out better than expected is
    /// searched again with the full window.
    fn search_child(
        &mut self,
        nb: &Position,
        local_depth: i32,
        a: i32,
        beta: i32,
        ply: i32,
        node_eval: i32,
        quiet: bool,
        move_index: usize,
        rep_stack: &mut Vec<u64>,
        Ghost(c): Ghost<NodeCtx>,
    ) -> (score: i32)
        requires
            old(self).wf(),
            -INF <= a < beta <= INF,
            0 <= ply < MAX_PLY,
            1 <= local_depth <= 32_001,
            move_index < c.moves.len(),
            *nb == c.p.after_spec(c.moves[move_index as int]),
            quiet == is_quiet_spec(c, c.moves[move_index as int]),
            c.depth == local_depth,
            c.beta == beta,
            c.ply == ply,
            c.node_eval == node_eval,
            c.path == old(rep_stack)@,
        ensures
            final(self).wf(),
            final(rep_stack)@ == old(rep_stack)@,
            -INF <= score <= INF,
            old(self).stopped ==> final(self).stopped,
            old(self).runs_on() ==> final(self).runs_on(),
            final(self).stop == old(self).stop,
            !final(self).stopped ==> (score as int, final(self).memo()) == child_spec(
                old(self).memo(),
                c,
                move_index as int,
                a as int,
            ),
        decreases MAX_PLY - ply - 1, 1int,
    {
        let mut score: i32;
        let do_lmr = quiet && local_depth >= LMR_MIN_DEPTH && move_index >= 4;
        if do_lmr {
            let reduce: i32 = LMR_BASE_REDUCTION + if move_index >= 6 {
                1
            } else {
                0
            };
            let reduced: i32 = local_depth - 1 - reduce;
            let new_depth: i32 = if reduced < 1 {
                1
            } else {
                reduced
            };
            score =
            -self.negamax(nb, new_depth, -a - 1, -a, ply + 1, false, Some(node_eval), rep_stack);
            if score > a {
                score =
                -self.negamax(
                    nb,
                    local_depth - 1,
                    -beta,
                    -a,
                    ply + 1,
                    false,
                    Some(node_eval),
                    rep_stack,
                );
            }
        } else if move_index == 0 {
            score =
            -self.negamax(nb, local_depth - 1, -beta, -a, ply + 1, true, Some(node_eval), rep_stack);
        } else {
            score =
            -self.negamax(
                nb,
                local_depth - 1,
                -a - 1,
                -a,
                ply + 1,
                false,
                Some(node_eval),
                rep_stack,
            );
            if score > a && score < beta {
                score =
                -self.negamax(
                    nb,
                    local_depth - 1,
                    -beta,
                    -a,
                    ply + 1,
                    true,
                    Some(node_eval),
                    rep_stack,
                );
            }
        }
        score
    }
}

/// Searches the moves of the root position and returns the best of them
/// with its score. `earlier` holds the keys of the positions that the
/// game has gone through before the root.
///
/// A stopped search returns no move and `-INF` and changes nothing. A
/// search that is not stopped on the way returns what `root_spec` gives:
/// a finished game or a rule draw has no move and its score, as has a
/// root that stands on the board for the third time.
#[verifier::rlimit(100)]
pub fn root_search(
    search: &mut Search,
    b: &Position,
    depth: i32,
    alpha: i32,
    beta: i32,
    earlier: &Vec<u64>,
) -> (r: (Option<Move>, i32))
    requires
        old(search).wf(),
        -INF <= alpha < beta <= INF,
        -31_999 <= depth <= 32_000,
    ensures
        final(search).wf(),
        -INF <= r.1 <= INF,
        r.0 matches Some(m) ==> m.wf() && b.is_legal(m),
        old(search).stopped ==> r.0.is_none() && r.1 == -INF && *final(search) == *old(search),
        old(search).runs_on() ==> final(search).runs_on(),
        final(search).stop == old(search).stop,
        !final(search).stopped ==> ((r.0, r.1 as int), final(search).memo()) == root_spec(
            old(search).memo(),
            *b,
            depth as int,
            alpha as int,
            beta as int,
            earlier@,
        ),
{
    if search.stopped {
        return (None, -INF);
    }
    let status = b.status();
    match status {
        Status::Checkmate => {
            return (None, -MATE);
        },
        Status::Stalemate => {
            return (None, 0);
        },
        Status::Ongoing => {},
    }
    if insufficient_material(b) {
        return (None, 0);
    }
    if b.halfmove >= 100 {
        return (None, 0);
    }
    if seen_twice(earlier, b.hash) {
        return (None, 0);
    }
    let mut a: i32 = alpha;
    let mut best_score: i32 = -INF;
    let mut best_move: Option<Move> = None;
    let killers = search.killers.get(0);
    let tt_move = match search.tt.probe(b.hash) {
        Some(e) => unpack_move(e.best),
        None => None,
    };
    let moves = {
        let ord = MoveOrdering { history: &search.history };
        ord.ordered_moves(b, tt_move, killers)
    };
    let parent_eval = Some(search.evaluate(b));
    let mut path: Vec<u64> = Vec::new();
    let mut n: usize = 0;
    while n < earlier.len()
        invariant
            n <= earlier.len(),
            path@ == earlier@.subrange(0, n as int),
        decreases earlier.len() - n,
    {
        path.push(earlier[n]);
        proof {
            assert(path@ =~= earlier@.subrange(0, n + 1));
        }
        n += 1;
    }
    path.push(b.hash);
    proof {
        assert(earlier@.subrange(0, earlier@.len() as int) =~= earlier@);
    }
    let mut i: usize = 0;
    while i < moves.len()
        invariant
            i <= moves.len(),
            search.wf(),
            search.stop == old(search).stop,
            !old(search).stopped,
            old(search).runs_on() ==> search.runs_on(),
            path@ == earlier@.push(b.hash),
            parent_eval == Some(eval_spec(*b) as i32),
            forall|t: int| 0 <= t < moves@.len() ==> (#[trigger] moves@[t]).wf(),
            forall|t: int| 0 <= t < moves@.len() ==> b.is_legal(#[trigger] moves@[t]),
            -INF <= a < beta <= INF,
            -INF <= best_score <= INF,
            -31_999 <= depth <= 32_000,
            best_move matches Some(m) ==> m.wf() && b.is_legal(m),
            !search.stopped ==> root_spec(
                old(search).memo(),
                *b,
                depth as int,
                alpha as int,
                beta as int,
                earlier@,
            ) == root_moves_spec(
                search.memo(),
                *b,
                depth as int,
                beta as int,
                path@,
                moves@,
                i as int,
                a as int,
                best_score as int,
                best_move,
            ),
        decreases moves.len() - i,
    {
        if search.poll() {
            return (best_move, best_score);
        }
        let m = moves[i];
        let nb = b.make_move(m);
        let mut score: i32;
        if i == 0 {
            score = -search.negamax(&nb, depth - 1, -beta, -a, 1, true, parent_eval, &mut path);
        } else {
            score = -search.negamax(&nb, depth - 1, -a - 1, -a, 1, false, parent_eval, &mut path);
            if score > a && score < beta {
                score = -search.negamax(&nb, depth - 1, -beta, -a, 1, true, parent_eval, &mut path);
            }
        }
        if score > best_score {
            best_score = score;
            best_move = Some(m);
        }
        if score > a {
            if score >= beta {
                return (best_move, best_score);
            }
            a = score;
        }
        i += 1;
    }
    (best_move, best_score)
}

/// The best move that the table holds for a position, if it holds one.
pub open spec fn table_move(tt: TT, p: Position) -> Option<Move> {
    match tt.probe_spec(p.hash) {
        Some(e) => unpack_spec(e.best),
        None => None,
    }
}

/// The line that the table's best moves spell out from a position: it
/// goes on while the table has a move for the position reached and that
/// move is legal there, for at most `max_len` moves.
pub open spec fn pv_spec(p: Position, tt: TT, max_len: nat) -> Seq<Move>
    decreases max_len,
{
    if max_len == 0 {
        Seq::empty()
    } else {
        match table_move(tt, p) {
            Some(m) => if m.wf() && p.is_legal(m) {
                seq![m] + pv_spec(p.after_spec(m), tt, (max_len - 1) as nat)
            } else {
                Seq::empty()
            },
            None => Seq::empty(),
        }
    }
}

/// Reads the principal variation out of the table.
pub fn pv_line_from_tt(b: Position, tt: &TT, max_len: usize) -> (pv: Vec<Move>)
    requires
        tt.wf(),
    ensures
        pv@ == pv_spec(b, *tt, max_len as nat),
        pv@.len() <= max_len,
{
    let mut pv: Vec<Move> = Vec::new();
    let mut cur = b;
    let mut n: usize = 0;
    while n < max_len
        invariant
            n <= max_len,
            tt.wf(),
            pv@.len() == n,
            pv_spec(b, *tt, max_len as nat) == pv@ + pv_spec(cur, *tt, (max_len - n) as nat),
        decreases max_len - n,
    {
        let found = match tt.probe(cur.hash) {
            Some(tte) => unpack_move(tte.best),
            None => None,
        };
        let step = match found {
            Some(m) => match cur.try_make_move(m) {
                Some(next) => Some((m, next)),
                None => None,
            },
            None => None,
        };
        match step {
            Some((m, next)) => {
                proof {
                    let rest = pv_spec(next, *tt, (max_len - n - 1) as nat);
                    assert(pv_spec(cur, *tt, (max_len - n) as nat) == seq![m] + rest);
                    assert(pv@ + (seq![m] + rest) =~= pv@.push(m) + rest);
                }
                pv.push(m);
                cur = next;
                n += 1;
            },
            None => {
                proof {
                    assert(pv_spec(cur, *tt, (max_len - n) as nat) == Seq::<Move>::empty());
                    assert(pv@ + Seq::<Move>::empty() =~= pv@);
                }
                return pv;
            },
        }
    }
    proof {
        assert(pv@ + Seq::<Move>::empty() =~= pv@);
    }
    pv
}

/// One iteration of the deepening search: the node count starts again,
/// the table enters a new generation and the root is searched in a
/// narrow window around the last score, which is doubled and centred on
/// the new score while the score falls outside it, up to a width of 2048.
/// `earlier` holds the keys of the positions that the game has gone
/// through before the root.
///
/// A search that is not stopped on the way returns what `iteration_spec`
/// gives.
pub fn aspiration_search(
    search: &mut Search,
    b: &Position,
    depth: i32,
    last_score: i32,
    earlier: &Vec<u64>,
) -> (r: (Option<Move>, i32))
    requires
        old(search).wf(),
        -INF < last_score < INF,
        -31_999 <= depth <= 32_000,
    ensures
        final(search).wf(),
        -INF <= r.1 <= INF,
        r.0 matches Some(m) ==> m.wf() && b.is_legal(m),
        old(search).stopped ==> r.0.is_none() && final(search).stopped,
        old(search).runs_on() ==> final(search).runs_on(),
        final(search).stop == old(search).stop,
        !final(search).stopped ==> ((r.0, r.1 as int), final(search).memo()) == iteration_spec(
            old(search).memo(),
            *b,
            depth as int,
            last_score as int,
            earlier@,
        ),
{
    search.on_new_iter();
    let mut window: i32 = ASP_WINDOW;
    let mut alpha: i32 = clamp(last_score - window, -INF, INF);
    let mut beta: i32 = clamp(last_score + window, -INF, INF);
    loop
        invariant
            search.wf(),
            ASP_WINDOW <= window <= ASP_MAX_WIDEN,
            -INF <= alpha < beta <= INF,
            -31_999 <= depth <= 32_000,
            old(search).stopped ==> search.stopped,
            search.stop == old(search).stop,
            old(search).runs_on() ==> search.runs_on(),
            !search.stopped ==> iteration_spec(
                old(search).memo(),
                *b,
                depth as int,
                last_score as int,
                earlier@,
            ) == widen_spec(
                search.memo(),
                *b,
                depth as int,
                alpha as int,
                beta as int,
                window as int,
                earlier@,
            ),
        decreases ASP_MAX_WIDEN - window,
    {
        let (best_move, score) = root_search(search, b, depth, alpha, beta, earlier);
        if (score <= alpha || score >= beta) && window < ASP_MAX_WIDEN {
            window = if window * 2 > ASP_MAX_WIDEN {
                ASP_MAX_WIDEN
            } else {
                window * 2
            };
            alpha = clamp(score - window, -INF, INF);
            beta = clamp(score + window, -INF, INF);
        } else {
            return (best_move, score);
        }
    }
}

/// What the deepening search carries from one iteration to the next:
/// the last score, kept strictly inside the score range, and the best
/// move of the last iteration that found one.
#[derive(Clone, Copy, PartialEq, Eq, Structural, Debug)]
pub struct Progress {
    pub last_score: i32,
    pub best: Option<Move>,
}

/// The deepest iteration for a requested depth: at least 1, at most `MAX_AB_DEPTH`.
pub fn depth_limit(requested: i32) -> (d: i32)
    ensures
        d == clamp_spec(requested as int, 1, MAX_AB_DEPTH as int),
{
    clamp(requested, 1, MAX_AB_DEPTH)
}

/// Where the deepening search stands before its first iteration.
pub fn first_progress(static_score: i32) -> (p: Progress)
    ensures
        p.best.is_none(),
        p.last_score == clamp_spec(static_score as int, -INF + 1, INF - 1),
{
    Progress { last_score: clamp(static_score, -INF + 1, INF - 1), best: None }
}

/// Where the deepening search stands after an iteration has returned
/// `result`: the score is the new one, clamped; the best move is the new
/// one if there is one, else the one before.
pub fn next_progress(before: Progress, result: (Option<Move>, i32)) -> (p: Progress)
    ensures
        p.last_score == clamp_spec(result.1 as int, -INF + 1, INF - 1),
        p.best == if result.0.is_some() {
            result.0
        } else {
            before.best
        },
{
    Progress {
        last_score: clamp(result.1, -INF + 1, INF - 1),
        best: match result.0 {
            Some(m) => Some(m),
            None => before.best,
        },
    }
}

/// The marks by which a fallback move is chosen: whether the move takes
/// an enemy piece, whether it gives check, the value of what it takes
/// against what takes it, and its text.
pub open spec fn prefer_spec(p: Position, m: Move) -> (int, int, int, Seq<u8>) {
    (
        if p.color_on_spec(m.to) == Some(opp_spec(p.side_spec())) {
            1int
        } else {
            0int
        },
        if p.after_spec(m).in_check_spec() {
            1int
        } else {
            0int
        },
        10_000 + 10 * (match p.piece_on_spec(m.to) {
            Some(pc) => piece_val_spec(pc),
            None => 100,
        }) - (match p.piece_on_spec(m.from) {
            Some(pc) => piece_val_spec(pc),
            None => 100,
        }),
        uci_spec(m),
    )
}

/// The first tuple of marks sorts before the second.
pub open spec fn prefer_less(x: (int, int, int, Seq<u8>), y: (int, int, int, Seq<u8>)) -> bool {
    x.0 < y.0 || (x.0 == y.0 && (x.1 < y.1 || (x.1 == y.1 && (x.2 < y.2 || (x.2 == y.2
        && text_less(x.3, y.3))))))
}

pub fn prefer_cap_check_mvv_uci(b: &Position, m: Move) -> (r: (i32, i32, i32, Vec<u8>))
    requires
        m.wf(),
        b.is_legal(m),
    ensures
        (r.0 as int, r.1 as int, r.2 as int, r.3@) == prefer_spec(*b, m),
{
    let them = opp(b.side_to_move());
    let cap: i32 = if b.color_on(m.to) == Some(them) {
        1
    } else {
        0
    };
    let gives_check: i32 = if b.gives_check(m) {
        1
    } else {
        0
    };
    let victim_val = match b.piece_on(m.to) {
        Some(pc) => piece_val(pc),
        None => 100,
    };
    let attacker_val = match b.piece_on(m.from) {
        Some(pc) => piece_val(pc),
        None => 100,
    };
    (cap, gives_check, 10_000 + victim_val * 10 - attacker_val, uci_bytes(m))
}

fn prefer_before(x: &(i32, i32, i32, Vec<u8>), y: &(i32, i32, i32, Vec<u8>)) -> (r: bool)
    ensures
        r == prefer_less((x.0 as int, x.1 as int, x.2 as int, x.3@), (
            y.0 as int,
            y.1 as int,
            y.2 as int,
            y.3@,
        )),
{
    if x.0 != y.0 {
        return x.0 < y.0;
    }
    if x.1 != y.1 {
        return x.1 < y.1;
    }
    if x.2 != y.2 {
        return x.2 < y.2;
    }
    bytes_less(&x.3, &y.3)
}

/// The text `0000`, which stands for "no move".
pub open spec fn null_move_text() -> Seq<u8> {
    seq![48u8, 48u8, 48u8, 48u8]
}

/// The text of the fallback move: `0000` where there is no legal move,
/// else the text of a legal move before whose marks no other's sort.
pub open spec fn is_fallback(p: Position, text: Seq<u8>) -> bool {
    if p.legal_moves_spec().len() == 0 {
        text == null_move_text()
    } else {
        exists|i: int|
            #![auto]
            0 <= i < p.legal_moves_spec().len() && text == uci_spec(p.legal_moves_spec()[i]) && (
            forall|j: int|
                0 <= j < p.legal_moves_spec().len() ==> !prefer_less(
                    prefer_spec(p, p.legal_moves_spec()[i]),
                    #[trigger] prefer_spec(p, p.legal_moves_spec()[j]),
                ))
    }
}

/// The move to answer with when no search has finished.
pub fn current_best_or_default(b: &Position) -> (s: String)
    ensures
        exists|text: Seq<u8>| is_fallback(*b, text) && s@ == ascii_text(text),
{
    let legal = b.legal_moves();
    if legal.len() == 0 {
        let mut zeros: Vec<u8> = Vec::new();
        zeros.push(48);
        zeros.push(48);
        zeros.push(48);
        zeros.push(48);
        assert(zeros@ =~= null_move_text());
        assert(is_fallback(*b, zeros@));
        return ascii_string(zeros);
    }
    let mut best = prefer_cap_check_mvv_uci(b, legal[0]);
    let mut best_i: usize = 0;
    let mut i: usize = 1;
    while i < legal.len()
        invariant
            1 <= i <= legal.len(),
            best_i < i,
            legal@ == b.legal_moves_spec(),
            forall|j: int| 0 <= j < legal@.len() ==> (#[trigger] legal@[j]).wf(),
            forall|j: int| 0 <= j < legal@.len() ==> b.is_legal(#[trigger] legal@[j]),
            (best.0 as int, best.1 as int, best.2 as int, best.3@) == prefer_spec(
                *b,
                legal@[best_i as int],
            ),
            forall|j: int|
                0 <= j < i ==> !prefer_less(
                    prefer_spec(*b, legal@[best_i as int]),
                    #[trigger] prefer_spec(*b, legal@[j]),
                ),
        decreases legal.len() - i,
    {
        let cand = prefer_cap_check_mvv_uci(b, legal[i]);
        if prefer_before(&best, &cand) {
            proof {
                lemma_prefer_order(*b, legal@, best_i as int, i as int);
            }
            best = cand;
            best_i = i;
        }
        i += 1;
    }
    let text = best.3;
    proof {
        assert(text@ == uci_spec(legal@[best_i as int]));
        assert(is_fallback(*b, text@));
    }
    ascii_string(text)
}

/// Texts are ordered like the tuples of marks are: a tuple does not sort
/// before itself, and the order passes along a chain.
proof fn lemma_prefer_order(p: Position, legal: Seq<Move>, old_best: int, new_best: int)
    requires
        0 <= old_best < new_best < legal.len(),
        prefer_less(prefer_spec(p, legal[old_best]), prefer_spec(p, legal[new_best])),
        forall|j: int|
            0 <= j < new_best ==> !prefer_less(
                prefer_spec(p, legal[old_best]),
                #[trigger] prefer_spec(p, legal[j]),
            ),
    ensures
        forall|j: int|
            0 <= j <= new_best ==> !prefer_less(
                prefer_spec(p, legal[new_best]),
                #[trigger] prefer_spec(p, legal[j]),
            ),
{
    assert forall|j: int| 0 <= j <= new_best implies !prefer_less(
        prefer_spec(p, legal[new_best]),
        #[trigger] prefer_spec(p, legal[j]),
    ) by {
        let x = prefer_spec(p, legal[old_best]);
        let y = prefer_spec(p, legal[new_best]);
        let z = prefer_spec(p, legal[j]);
        if prefer_less(y, z) {
            lemma_text_less_irreflexive(y.3);
            if j < new_best {
                lemma_text_less_transitive(x.3, y.3, z.3);
                assert(prefer_less(x, z));
            }
        }
    }
}

} // verus!
