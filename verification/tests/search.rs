use ab_engine::board::RawBoard;
use ab_engine::notation::{parse_uci_move, to_uci};
use ab_engine::position::{board_key, fullmove_number_from_fen, halfmove_clock_from_fen, Position};
use ab_engine::search::{
    depth_limit, first_progress, next_progress, Progress, aspiration_search, current_best_or_default, prefer_cap_check_mvv_uci, pv_line_from_tt,
    root_search, seen_twice, Search,
};
use ab_engine::tt::TT;
use ab_engine::types::{Move, ALPHA, BETA, EXACT, INF, MATE};
use std::str::FromStr;
use std::sync::atomic::{AtomicBool, Ordering};
use std::sync::Arc;

fn pos(fen: &str) -> Position {
    let b = chess::Board::from_str(fen).unwrap();
    let raw = RawBoard {
        pieces: chess::ALL_PIECES.map(|p| b.pieces(p).0),
        colors: chess::ALL_COLORS.map(|c| b.color_combined(c).0),
        side: b.side_to_move().to_index(),
        castles: chess::ALL_COLORS.map(|c| b.castle_rights(c).to_index()),
        ep_pawn: b.en_passant().map(|s| s.to_int()),
        checkers: b.checkers().0,
        hash: b.get_hash(),
    };
    Position::from_raw(&raw, 0, 1)
}

fn mv(text: &str) -> Move {
    parse_uci_move(text).unwrap()
}

fn play(p: &Position, text: &str) -> Position {
    p.try_make_move(mv(text)).unwrap()
}

fn fresh() -> Search {
    Search::detached(1)
}

const START: &str = "rnbqkbnr/pppppppp/8/8/8/8/PPPPPPPP/RNBQKBNR w KQkq - 0 1";
const MATE_IN_ONE: &str = "6k1/5ppp/8/8/8/8/5PPP/R5K1 w - - 0 1";
const STALEMATE: &str = "7k/5Q2/6K1/8/8/8/8/8 b - - 0 1";

#[test]
fn a_new_search_is_empty() {
    let watched = Search::new(Arc::new(AtomicBool::new(true)), 0);
    assert!(watched.stop.is_some());
    assert!(!watched.stopped);
    assert_eq!(watched.tt.entries.len(), 4);
    let s = fresh();
    assert!(s.stop.is_none());
    assert_eq!(s.nodes, 0);
    assert!(!s.stopped);
    assert_eq!(s.tt.age, 0);
    assert_eq!(s.tt.entries.len(), 4 * 8192);
    assert_eq!(s.killers.get(0), (None, None));
    assert_eq!(s.evaluate(&pos(START)), 10);
}

#[test]
fn a_new_iteration_ages_the_table() {
    let mut s = fresh();
    s.nodes = 77;
    s.on_new_iter();
    assert_eq!(s.nodes, 0);
    assert_eq!(s.tt.age, 1);
    s.tt.age = 255;
    s.on_new_iter();
    assert_eq!(s.tt.age, 0);
}

#[test]
fn one_ply_from_the_start() {
    let p = pos(START);
    let mut s = fresh();
    let first = s.evaluate(&p);
    let (best, score) = aspiration_search(&mut s, &p, 1, first, &Vec::new());
    let best = best.unwrap();
    assert!(p.legal_moves().contains(&best));
    assert!(-INF < score && score < INF);
    assert!(s.nodes > 0);
    let pv = pv_line_from_tt(p, &s.tt, 1);
    assert!(pv.len() <= 1);
}

#[test]
fn mate_in_one_is_found() {
    let p = pos(MATE_IN_ONE);
    for depth in 1..=3 {
        let mut s = fresh();
        let first = s.evaluate(&p);
        let (best, score) = aspiration_search(&mut s, &p, depth, first, &Vec::new());
        assert_eq!(to_uci(best.unwrap()), "a1a8");
        assert!(score >= MATE - 10);
    }
    let mut s = fresh();
    let (best, score) = root_search(&mut s, &p, 2, -INF, INF, &Vec::new());
    assert_eq!(best, Some(mv("a1a8")));
    assert_eq!(score, MATE);
}

#[test]
fn stalemate_has_no_move_and_scores_zero() {
    let p = pos(STALEMATE);
    let mut s = fresh();
    assert_eq!(s.evaluate(&p), 0);
    assert_eq!(root_search(&mut s, &p, 1, -24, 24, &Vec::new()), (None, 0));
    assert_eq!(aspiration_search(&mut s, &p, 1, 0, &Vec::new()), (None, 0));
    assert_eq!(s.nodes, 0);
    assert_eq!(current_best_or_default(&p), "0000");
    let mut stack = Vec::new();
    assert_eq!(s.negamax(&p, 1, -INF, INF, 0, true, None, &mut stack), 0);
    assert_eq!(s.qsearch(&p, -INF, INF, 8), 0);
    assert!(s.tt.entries.iter().all(|e| e.depth == i16::MIN));
}

#[test]
fn a_finished_or_drawn_root_has_its_score() {
    let mut s = fresh();
    let mated = pos("R5k1/5ppp/8/8/8/8/5PPP/6K1 b - - 1 1");
    assert_eq!(root_search(&mut s, &mated, 3, -INF, INF, &Vec::new()), (None, -MATE));
    let bare = pos("8/8/8/4k3/8/8/3K4/8 w - - 0 1");
    assert_eq!(root_search(&mut s, &bare, 3, -INF, INF, &Vec::new()), (None, 0));
    let mut worn = pos(MATE_IN_ONE);
    worn.halfmove = 100;
    assert_eq!(root_search(&mut s, &worn, 3, -INF, INF, &Vec::new()), (None, 0));
}

#[test]
fn the_third_occurrence_at_the_root_is_a_draw() {
    let start = pos(START);
    let mut p = start;
    let mut earlier = Vec::new();
    for text in ["g1f3", "g8f6", "f3g1", "f6g8", "g1f3", "g8f6", "f3g1", "f6g8"] {
        earlier.push(p.hash);
        p = play(&p, text);
    }
    assert_eq!(earlier.iter().filter(|k| **k == p.hash).count(), 2);
    let mut s = fresh();
    assert_eq!(root_search(&mut s, &p, 4, -24, 24, &earlier), (None, 0));
    let (best, score) = aspiration_search(&mut s, &p, 4, 10, &earlier);
    assert_eq!((best, score), (None, 0));
    let (best, _) = root_search(&mut s, &p, 1, -INF, INF, &earlier[..4].to_vec());
    assert!(best.is_some());
}

#[test]
fn earlier_positions_reach_the_tree() {
    let start = pos(START);
    let a = play(&start, "g1f3");
    let b = play(&a, "g8f6");
    let c = play(&b, "f3g1");
    let earlier = vec![start.hash, a.hash, b.hash, start.hash, a.hash, b.hash];
    let mut plain = fresh();
    let mut with_game = fresh();
    let free = root_search(&mut plain, &c, 1, -INF, INF, &Vec::new());
    let bound = root_search(&mut with_game, &c, 1, -INF, INF, &earlier);
    assert!(free.0.is_some() && bound.0.is_some());
    let back = play(&c, "f6g8");
    assert_eq!(back.hash, start.hash);
    let mut s = fresh();
    let mut stack = earlier.clone();
    stack.push(c.hash);
    assert_eq!(s.negamax(&back, 2, -500, 500, 1, true, None, &mut stack), 0);
}

#[test]
fn a_searched_node_leaves_its_entry() {
    let p = pos("r1bqkbnr/pppp1ppp/2n5/4p3/4P3/5N2/PPPP1PPP/RNBQKB1R w KQkq - 2 3");
    let mut s = fresh();
    let mut stack = Vec::new();
    let score = s.negamax(&p, 1, -500, 500, 1, true, None, &mut stack);
    let e = s.tt.probe(p.hash).unwrap();
    assert_eq!(e.key, p.hash);
    assert_eq!(e.depth, 1);
    assert_eq!(e.score, score);
    assert_eq!(e.flag, EXACT);
    assert_eq!(e.age, s.tt.age);
    let best = ab_engine::types::unpack_move(e.best).unwrap();
    assert!(p.legal_moves().contains(&best));
    let checked = pos("4k3/8/8/8/8/8/4r3/4K3 w - - 0 1");
    let score = s.negamax(&checked, 1, -2000, 2000, 1, true, None, &mut stack);
    let e = s.tt.probe(checked.hash).unwrap();
    assert_eq!(e.depth, 2);
    assert_eq!(e.score, score);
    let low = s.negamax(&p, 2, 400, 500, 1, true, None, &mut stack);
    let e = s.tt.probe(p.hash).unwrap();
    assert_eq!((e.depth, e.flag, e.score), (2, ALPHA, low));
    let high = s.negamax(&p, 3, -500, -400, 1, true, None, &mut stack);
    let e = s.tt.probe(p.hash).unwrap();
    assert_eq!((e.depth, e.flag, e.score), (3, BETA, high));
    assert!(high >= -400 && low <= 400);
}

#[test]
fn killers_hold_no_move_twice() {
    let p = pos("r1bqkbnr/pppp1ppp/2n5/4p3/4P3/5N2/PPPP1PPP/RNBQKB1R w KQkq - 2 3");
    let mut s = fresh();
    for depth in 1..=3 {
        let first = s.evaluate(&p);
        aspiration_search(&mut s, &p, depth, first, &Vec::new());
    }
    for ply in 0..129 {
        let (k0, k1) = s.killers.get(ply);
        assert!(k0.is_none() && k1.is_none() || k0 != k1);
        if k0.is_none() {
            assert!(k1.is_none());
        }
    }
}

#[test]
fn checkmate_is_scored_at_the_node() {
    let p = pos("R5k1/5ppp/8/8/8/8/5PPP/6K1 b - - 1 1");
    let mut s = fresh();
    let mut stack = Vec::new();
    assert_eq!(s.negamax(&p, 3, -INF, INF, 1, true, None, &mut stack), -MATE);
    assert_eq!(s.qsearch(&p, -100, 100, 8), -MATE);
    assert!(stack.is_empty());
}

#[test]
fn the_third_occurrence_is_a_draw() {
    let start = pos(START);
    let mut p = start;
    for text in ["g1f3", "g8f6", "f3g1", "f6g8", "g1f3", "g8f6", "f3g1", "f6g8"] {
        p = play(&p, text);
    }
    assert_eq!(board_key(&p), board_key(&start));
    let mut s = fresh();
    let mut stack = vec![p.hash, 1, p.hash, 2];
    assert!(seen_twice(&stack, p.hash));
    assert!(!seen_twice(&stack, 1));
    assert_eq!(s.negamax(&p, 2, -500, 500, 4, true, None, &mut stack), 0);
    assert_eq!(stack, vec![p.hash, 1, p.hash, 2]);
    let mut once = vec![p.hash];
    let score = s.negamax(&p, 1, -500, 500, 1, true, None, &mut once);
    assert_eq!(once, vec![p.hash]);
    assert!(-INF <= score && score <= INF);
}

#[test]
fn a_stopped_search_returns_alpha_and_changes_nothing() {
    let p = pos(START);
    let mut s = fresh();
    s.request_stop();
    let mut stack = vec![7];
    assert_eq!(s.negamax(&p, 4, -123, 456, 0, true, None, &mut stack), -123);
    assert_eq!(s.qsearch(&p, -12, 45, 8), -12);
    assert_eq!(s.nodes, 0);
    assert_eq!(stack, vec![7]);
    assert!(s.tt.entries.iter().all(|e| e.depth == i16::MIN));
    assert_eq!(root_search(&mut s, &p, 4, -INF, INF, &Vec::new()), (None, -INF));
    let (best, _) = aspiration_search(&mut s, &p, 4, 0, &Vec::new());
    assert_eq!(best, None);
    assert_eq!(root_search(&mut s, &pos(STALEMATE), 4, -INF, INF, &Vec::new()), (None, -INF));
}

#[test]
fn the_shared_flag_stops_the_search() {
    let flag = Arc::new(AtomicBool::new(false));
    let mut s = Search::new(Arc::clone(&flag), 1);
    let p = pos(START);
    assert!(!s.poll());
    flag.store(true, Ordering::Relaxed);
    let mut stack = Vec::new();
    assert_eq!(s.negamax(&p, 6, -50, 50, 0, true, None, &mut stack), -50);
    assert!(s.stopped);
    assert_eq!(s.nodes, 0);
    flag.store(false, Ordering::Relaxed);
    assert!(s.poll());
    assert_eq!(s.qsearch(&p, -5, 5, 8), -5);
    let mut free = fresh();
    assert!(!free.poll());
    assert_eq!(free.negamax(&p, 0, -50, 50, 0, true, None, &mut stack), 10);
    assert!(!free.stopped);
}

#[test]
fn two_runs_agree() {
    let p = pos("r1bqkbnr/pppp1ppp/2n5/4p3/4P3/5N2/PPPP1PPP/RNBQKB1R w KQkq - 2 3");
    let mut runs = Vec::new();
    for _ in 0..2 {
        let mut s = fresh();
        let mut last = s.evaluate(&p);
        let mut out = Vec::new();
        for depth in 1..=2 {
            let (best, score) = aspiration_search(&mut s, &p, depth, last, &Vec::new());
            last = score.clamp(-INF + 1, INF - 1);
            out.push((best, score, s.nodes));
        }
        runs.push((out, s.tt.entries, s.tt.age, s.killers.slots, s.history.table));
    }
    assert!(runs[0] == runs[1]);
    assert!(runs[0].0[1].2 > 0);
    assert_eq!(runs[0].2, 2);
}

#[test]
fn a_hanging_queen_is_taken() {
    let p = pos("rnb1kbnr/ppp1pppp/8/3q4/4P3/2N5/PPPP1PPP/R1BQKBNR w KQkq - 0 3");
    let mut s = fresh();
    let first = s.evaluate(&p);
    let (best, score) = aspiration_search(&mut s, &p, 2, first, &Vec::new());
    let best = to_uci(best.unwrap());
    assert!(best == "e4d5" || best == "c3d5");
    assert!(score > 500);
    let after = play(&p, &best);
    let pv = pv_line_from_tt(after, &s.tt, 2);
    assert!(pv.len() <= 2);
    let mut cur = after;
    for m in pv {
        cur = cur.try_make_move(m).unwrap();
    }
}

#[test]
fn the_line_follows_the_table() {
    let p = pos(START);
    let mut t = TT::new_from_mb(1);
    assert_eq!(pv_line_from_tt(p, &t, 5), vec![]);
    t.store(p.hash, 3, 0, EXACT, Some(mv("e2e4")));
    let q = play(&p, "e2e4");
    t.store(q.hash, 2, 0, EXACT, Some(mv("e7e5")));
    let r = play(&q, "e7e5");
    t.store(r.hash, 1, 0, EXACT, Some(mv("e1e8")));
    assert_eq!(pv_line_from_tt(p, &t, 5), vec![mv("e2e4"), mv("e7e5")]);
    assert_eq!(pv_line_from_tt(p, &t, 1), vec![mv("e2e4")]);
    assert_eq!(pv_line_from_tt(p, &t, 0), vec![]);
    assert_eq!(pv_line_from_tt(r, &t, 5), vec![]);
}

#[test]
fn the_fallback_prefers_captures_then_checks() {
    assert_eq!(current_best_or_default(&pos(START)), "h2h4");
    let p = pos("rnb1kbnr/ppp1pppp/8/3q4/4P3/2N5/PPPP1PPP/R1BQKBNR w KQkq - 0 3");
    assert_eq!(current_best_or_default(&p), "e4d5");
    assert_eq!(current_best_or_default(&pos(MATE_IN_ONE)), "a1a8");
    let marks = prefer_cap_check_mvv_uci(&p, mv("e4d5"));
    assert_eq!(marks, (1, 0, 18_900, b"e4d5".to_vec()));
    let quiet = prefer_cap_check_mvv_uci(&p, mv("f1b5"));
    assert_eq!(quiet, (0, 1, 10_000 + 1_000 - 330, b"f1b5".to_vec()));
}

#[test]
fn a_quiet_node_out_of_budget_stands_pat() {
    let p = pos(START);
    let mut s = fresh();
    assert_eq!(s.qsearch(&p, -100, 100, 0), 10);
    assert_eq!(s.qsearch(&p, 50, 100, 0), 50);
    assert_eq!(s.qsearch(&p, -100, 5, 0), 5);
    assert_eq!(s.qsearch(&p, -100, 100, 3), 10);
    assert_eq!(s.nodes, 4);
}

#[test]
fn the_table_settles_a_node() {
    let p = pos(START);
    let mut s = fresh();
    let mut stack = Vec::new();
    s.tt.store(p.hash, 5, 77, EXACT, None);
    assert_eq!(s.negamax(&p, 3, -500, 500, 2, false, None, &mut stack), 77);
    assert_eq!(s.negamax(&p, 5, -500, 500, 2, false, None, &mut stack), 77);
    assert_eq!(s.nodes, 2);
    s.tt.store(p.hash, 5, -600, ALPHA, None);
    assert_eq!(s.negamax(&p, 3, -500, 500, 2, false, None, &mut stack), -600);
    s.tt.store(p.hash, 5, 600, BETA, None);
    assert_eq!(s.negamax(&p, 3, -500, 500, 2, false, None, &mut stack), 600);
    s.tt.store(p.hash, 5, MATE - 3, EXACT, None);
    assert_eq!(s.negamax(&p, 3, -INF, INF, 2, false, None, &mut stack), MATE - 5);
    s.tt.store(p.hash, 5, -MATE + 3, EXACT, None);
    assert_eq!(s.negamax(&p, 3, -INF, INF, 2, false, None, &mut stack), -MATE + 5);
    assert!(stack.is_empty());
    s.tt.store(p.hash, 0, 77, EXACT, None);
    let deeper = s.negamax(&p, 1, -500, 500, 2, false, None, &mut stack);
    assert!(deeper != 77);
    assert!(s.tt.probe(p.hash).unwrap().depth >= 1);
}

#[test]
fn the_deepening_search_keeps_its_last_good_move() {
    assert_eq!(depth_limit(0), 1);
    assert_eq!(depth_limit(-7), 1);
    assert_eq!(depth_limit(8), 8);
    assert_eq!(depth_limit(500), 64);
    let start = first_progress(10);
    assert_eq!(start, Progress { last_score: 10, best: None });
    let one = next_progress(start, (Some(mv("e2e4")), 25));
    assert_eq!(one, Progress { last_score: 25, best: Some(mv("e2e4")) });
    let two = next_progress(one, (None, -INF));
    assert_eq!(two, Progress { last_score: -INF + 1, best: Some(mv("e2e4")) });
    let three = next_progress(two, (Some(mv("d2d4")), INF));
    assert_eq!(three, Progress { last_score: INF - 1, best: Some(mv("d2d4")) });
}

#[test]
fn the_counters_are_read_from_the_position() {
    let mut p = pos(START);
    p.halfmove = 17;
    p.fullmove = 42;
    assert_eq!(halfmove_clock_from_fen(&p), 17);
    assert_eq!(fullmove_number_from_fen(&p), 42);
}
