use ab_engine::board::RawBoard;
use ab_engine::notation::parse_uci_move;
use ab_engine::ordering::{mvv_lva_of, sort_order, History, Killers, MoveOrdering};
use ab_engine::position::Position;
use ab_engine::types::{Color, Move, Piece};
use std::str::FromStr;

fn pos(fen: &str) -> Position {
    let b = chess::Board::from_str(fen).unwrap();
    let raw = RawBoard {
        pieces: chess::ALL_PIECES.map(|p| b.pieces(p).0),
        colors: chess::ALL_COLORS.map(|c| b.color_combined(c).0),
        side: b.side_to_move().to_index(),
        castles: chess::ALL_COLORS.map(|c| b.castle_rights(c).to_index()),
        ep_pawn: b.en_passant().map(|s| s.to_int()),
        checkers: b.checkers().0,
        hash: b.get_hash(),
    };
    Position::from_raw(&raw, 0, 1)
}

fn mv(text: &str) -> Move {
    parse_uci_move(text).unwrap()
}

const START: &str = "rnbqkbnr/pppppppp/8/8/8/8/PPPPPPPP/RNBQKBNR w KQkq - 0 1";
const TAKES: &str = "rnb1kbnr/ppp1pppp/8/3q4/4P3/2N5/PPPP1PPP/R1BQKBNR w KQkq - 0 3";

#[test]
fn the_sort_is_stable_and_descending() {
    assert_eq!(sort_order(&vec![3, 1, 3, 2]), vec![0, 2, 3, 1]);
    assert_eq!(sort_order(&vec![]), Vec::<usize>::new());
    assert_eq!(sort_order(&vec![5, 5, 5]), vec![0, 1, 2]);
    assert_eq!(sort_order(&vec![1, 2, 3, 4]), vec![3, 2, 1, 0]);
    assert_eq!(sort_order(&vec![i64::MIN, i64::MAX, 0]), vec![1, 2, 0]);
}

#[test]
fn killers_keep_the_two_latest_moves() {
    let mut k = Killers::new();
    let a = mv("e2e4");
    let b = mv("d2d4");
    assert_eq!(k.get(3), (None, None));
    k.record(3, a);
    assert_eq!(k.get(3), (Some(a), None));
    k.record(3, b);
    assert_eq!(k.get(3), (Some(b), Some(a)));
    k.record(3, b);
    assert_eq!(k.get(3), (Some(b), Some(a)));
    k.record(3, a);
    assert_eq!(k.get(3), (Some(a), Some(b)));
    assert_eq!(k.get(4), (None, None));
    assert_eq!(k.get(-1), (None, None));
    assert_eq!(k.get(100_000), (None, None));
    k.record(128, a);
    assert_eq!(k.get(128), (Some(a), None));
    k.record(-1, b);
    assert_eq!(k.get(-1), (Some(b), None));
    assert_eq!(k.slots.len(), 3);
}

#[test]
fn history_adds_up() {
    let mut h = History::new();
    assert_eq!(h.get(Color::White, 12, 28, 1), 0);
    h.add(Color::White, 12, 28, 1, 9);
    h.add(Color::White, 12, 28, 1, 16);
    assert_eq!(h.get(Color::White, 12, 28, 1), 25);
    assert_eq!(h.get(Color::Black, 12, 28, 1), 0);
    assert_eq!(h.get(Color::White, 28, 12, 1), 0);
    assert_eq!(h.get(Color::White, 12, 28, 2), 0);
    assert_eq!(h.get(Color::White, 64, 28, 1), 0);
    h.add(Color::Black, 63, 63, 7, i32::MAX);
    h.add(Color::Black, 63, 63, 7, 5);
    assert_eq!(h.get(Color::Black, 63, 63, 7), i32::MAX);
}

#[test]
fn victims_and_attackers() {
    let p = pos(TAKES);
    assert_eq!(mvv_lva_of(&p, mv("e4d5")), 10_000 + 9_000 - 100);
    assert_eq!(mvv_lva_of(&p, mv("c3d5")), 10_000 + 9_000 - 320);
    assert_eq!(mvv_lva_of(&p, mv("e4e5")), 0);
    let h = History::new();
    let ord = MoveOrdering { history: &h };
    assert!(ord.is_capture(&p, mv("e4d5")));
    assert!(!ord.is_capture(&p, mv("g1f3")));
    assert_eq!(ord.mvv_lva(&p, mv("c3d5")), 18_680);
    let ep = pos("rnbqkbnr/ppp1pppp/8/8/3pP3/8/PPPP1PPP/RNBQKBNR b KQkq e3 0 2");
    assert_eq!(mvv_lva_of(&ep, mv("d4e3")), 10_000 + 1_000 - 100);
}

#[test]
fn keys_add_their_terms() {
    let p = pos(TAKES);
    let mut h = History::new();
    h.add(Color::White, 6, 21, 2, 49);
    let ord = MoveOrdering { history: &h };
    let none = (None, None);
    assert_eq!(ord.key(&p, mv("e4d5"), None, none), 18_900 + 1);
    assert_eq!(ord.key(&p, mv("e4d5"), Some(mv("e4d5")), none), 10_000_000 + 18_901);
    assert_eq!(ord.key(&p, mv("g1f3"), None, none), 49);
    assert_eq!(ord.key(&p, mv("g1f3"), None, (Some(mv("g1f3")), None)), 5_000_049);
    assert_eq!(ord.key(&p, mv("g1f3"), None, (None, Some(mv("g1f3")))), 5_000_049);
    assert_eq!(ord.key(&p, mv("f1b5"), None, none), 1_000);
    assert_eq!(ord.key(&p, mv("a2a3"), None, none), 0);
    assert_eq!(ord.key_given_check(&p, mv("a2a3"), None, none, true), 1_000);
}

#[test]
fn all_legal_moves_come_out_once() {
    let p = pos(START);
    let h = History::new();
    let ord = MoveOrdering { history: &h };
    let moves = ord.ordered_moves(&p, None, (None, None));
    assert_eq!(moves, p.legal_moves());
    let mut sorted = moves.clone();
    sorted.sort_by_key(|m| (m.from, m.to));
    sorted.dedup();
    assert_eq!(sorted.len(), 20);
}

#[test]
fn the_table_move_then_captures_then_killers() {
    let p = pos(TAKES);
    let h = History::new();
    let ord = MoveOrdering { history: &h };
    let moves = ord.ordered_moves(&p, Some(mv("a2a3")), (Some(mv("h2h3")), Some(mv("h2h4"))));
    assert_eq!(moves.len(), p.legal_moves().len());
    assert_eq!(moves[0], mv("a2a3"));
    assert_eq!(moves[1], mv("h2h3"));
    assert_eq!(moves[2], mv("h2h4"));
    assert_eq!(moves[3], mv("e4d5"));
    assert_eq!(moves[4], mv("c3d5"));
    assert_eq!(moves[5], mv("f1b5"));
    let keys: Vec<i64> = moves
        .iter()
        .map(|m| ord.key(&p, *m, Some(mv("a2a3")), (Some(mv("h2h3")), Some(mv("h2h4")))))
        .collect();
    assert!(keys.windows(2).all(|w| w[0] >= w[1]));
    let legal = p.legal_moves();
    let quiet: Vec<Move> = moves[6..].to_vec();
    let expected: Vec<Move> = legal.iter().copied().filter(|m| quiet.contains(m)).collect();
    assert_eq!(quiet, expected);
}

#[test]
fn history_moves_a_quiet_move_up() {
    let p = pos(START);
    let mut h = History::new();
    h.add(Color::White, 1, 18, 2, 400);
    let ord = MoveOrdering { history: &h };
    let moves = ord.ordered_moves(&p, None, (None, None));
    assert_eq!(moves[0], Move::new(1, 18, None));
    assert_eq!(moves[0].promo, None::<Piece>);
}
