use ab_engine::board::RawBoard;
use ab_engine::features::{
    count_pieces, first_square, game_phase, insufficient_material, is_castled,
    is_doubled_pawn_on_file, is_endgame_like, is_isolated_pawn, is_passed_pawn, material,
    pawns_on_file, rook_file_bonus, total_material_excl_kings, total_piece_count,
};
use ab_engine::notation::parse_uci_move;
use ab_engine::position::{check_description, has_bit, status_of, Position, Status};
use ab_engine::types::{Color, Move, Piece};
use std::str::FromStr;

const START: &str = "rnbqkbnr/pppppppp/8/8/8/8/PPPPPPPP/RNBQKBNR w KQkq - 0 1";

fn pos_with(fen: &str, halfmove: u32, fullmove: u32) -> Position {
    let b = chess::Board::from_str(fen).unwrap();
    let raw = RawBoard {
        pieces: chess::ALL_PIECES.map(|p| b.pieces(p).0),
        colors: chess::ALL_COLORS.map(|c| b.color_combined(c).0),
        side: b.side_to_move().to_index(),
        castles: chess::ALL_COLORS.map(|c| b.castle_rights(c).to_index()),
        ep_pawn: b.en_passant().map(|s| s.to_int()),
        checkers: b.checkers().0,
        hash: b.get_hash(),
    };
    Position::from_raw(&raw, halfmove, fullmove)
}

fn pos(fen: &str) -> Position {
    pos_with(fen, 0, 1)
}

fn play(p: &Position, text: &str) -> Position {
    p.try_make_move(parse_uci_move(text).unwrap()).unwrap()
}

#[test]
fn the_starting_position_is_read() {
    let p = pos(START);
    assert_eq!(p.pawns, 0x00FF_0000_0000_FF00);
    assert_eq!(p.knights, 0x4200_0000_0000_0042);
    assert_eq!(p.kings, 0x1000_0000_0000_0010);
    assert_eq!(p.white, 0xFFFF);
    assert_eq!(p.black, 0xFFFF_0000_0000_0000);
    assert!(p.white_to_move);
    assert_eq!(p.white_castle, 3);
    assert_eq!(p.black_castle, 3);
    assert_eq!(p.en_passant, None);
    assert_eq!(p.checkers, 0);
    assert_eq!(p.halfmove, 0);
    assert_eq!(p.fullmove, 1);
    assert_eq!(p.side_to_move(), Color::White);
    assert_eq!(p.piece_on(4), Some(Piece::King));
    assert_eq!(p.color_on(4), Some(Color::White));
    assert_eq!(p.piece_on(59), Some(Piece::Queen));
    assert_eq!(p.color_on(59), Some(Color::Black));
    assert_eq!(p.piece_on(30), None);
    assert_eq!(p.color_on(30), None);
    assert!(p.occupies(Piece::Rook, Color::White, 0));
    assert!(!p.occupies(Piece::Rook, Color::Black, 0));
    assert!(has_bit(p.pawns, 8) && !has_bit(p.pawns, 16));
}

#[test]
fn a_board_without_kings_has_no_moves() {
    let start = pos(START);
    let mut p = start;
    p.kings = 0;
    assert_eq!(p.legal_moves().len(), 0);
    assert_eq!(p.try_make_move(Move::new(12, 28, None)), None);
    assert_eq!(p.status(), Status::Stalemate);
    let mut q = start;
    q.kings = 1 << 4;
    assert_eq!(q.legal_moves().len(), 0);
    let mut r = start;
    r.en_passant = Some(200);
    assert_eq!(r.legal_moves().len(), 20);
}

#[test]
fn an_army_too_large_for_the_generator_has_no_moves() {
    let mut p = pos("4k3/8/8/8/8/8/8/4K3 w - - 0 1");
    p.knights = 0x0000_0000_FFFF_FF00;
    p.white |= p.knights;
    assert!(!check_description(&p.to_text()));
    assert_eq!(p.legal_moves().len(), 0);
    assert_eq!(p.try_make_move(Move::new(8, 25, None)), None);
    let mut q = pos("4k3/8/8/8/8/8/8/4K3 w - - 0 1");
    q.knights = 0x0000_0000_0000_7F00 | 0x00FF_0000_0000_0000;
    q.white |= 0x0000_0000_0000_7F00;
    q.black |= 0x00FF_0000_0000_0000;
    q.pawns = 0x0000_0000_00FF_0000 | 0x0000_7F00_0000_0000;
    q.white |= 0x0000_0000_00FF_0000;
    q.black |= 0x0000_7F00_0000_0000;
    assert!(check_description(&q.to_text()));
    assert!(q.legal_moves().len() > 0);
    q.pawns |= 1 << 24;
    q.white |= 1 << 24;
    assert!(!check_description(&q.to_text()));
    assert_eq!(q.legal_moves().len(), 0);
}

#[test]
fn descriptions_are_checked() {
    let good = pos(START).to_text();
    assert!(check_description(&good));
    let mut short = good.clone();
    short.pop();
    assert!(!check_description(&short));
    let mut no_king = good.clone();
    no_king[4] = b'1';
    assert!(!check_description(&no_king));
    let mut bad_piece = good.clone();
    bad_piece[0] = b'x';
    assert!(!check_description(&bad_piece));
    let mut bad_side = good.clone();
    bad_side[72] = b'W';
    assert!(!check_description(&bad_side));
    let mut bad_slash = good.clone();
    bad_slash[8] = b'1';
    assert!(!check_description(&bad_slash));
    let mut bad_ep = good.clone();
    bad_ep[79] = b'e';
    assert!(!check_description(&bad_ep));
    bad_ep[80] = b'3';
    assert!(check_description(&bad_ep));
    assert!(!check_description(&Vec::new()));
}

#[test]
fn the_description_has_one_character_per_square() {
    let p = pos(START);
    let text = String::from_utf8(p.to_text()).unwrap();
    assert_eq!(
        text,
        "rnbqkbnr/pppppppp/11111111/11111111/11111111/11111111/PPPPPPPP/RNBQKBNR w KQkq --"
    );
    let q = pos("r3k2r/8/8/3pP3/8/8/8/R3K2R w Kq d6 0 1");
    let text = String::from_utf8(q.to_text()).unwrap();
    assert_eq!(
        text,
        "r111k11r/11111111/11111111/111pP111/11111111/11111111/11111111/R111K11R w K--q d6"
    );
}

#[test]
fn the_description_reads_back_as_the_same_position() {
    for fen in [
        START,
        "r3k2r/8/8/3pP3/8/8/8/R3K2R w Kq d6 0 1",
        "6k1/5ppp/8/8/8/8/5PPP/R5K1 w - - 0 1",
        "rnbqkbnr/ppp1pppp/8/8/3pP3/8/PPPP1PPP/RNBQKBNR b KQkq e3 0 2",
    ] {
        let p = pos(fen);
        let text = String::from_utf8(p.to_text()).unwrap();
        assert_eq!(pos(&text), p);
        assert_eq!(chess::Board::from_str(&text).unwrap(), chess::Board::from_str(fen).unwrap());
    }
}

#[test]
fn twenty_moves_at_the_start() {
    let p = pos(START);
    let moves = p.legal_moves();
    assert_eq!(moves.len(), 20);
    assert!(moves.contains(&Move::new(12, 28, None)));
    assert!(moves.contains(&Move::new(6, 21, None)));
    assert!(!moves.contains(&Move::new(12, 36, None)));
    assert_eq!(p.status(), Status::Ongoing);
    assert!(!p.in_check());
}

#[test]
fn a_move_is_made() {
    let p = pos(START);
    let q = p.make_move(Move::new(12, 28, None));
    assert!(!q.white_to_move);
    assert_eq!(q.piece_on(28), Some(Piece::Pawn));
    assert_eq!(q.piece_on(12), None);
    assert_eq!(q.en_passant, None);
    assert_eq!(q.halfmove, 0);
    assert_eq!(q.fullmove, 1);
    assert_ne!(q.hash, p.hash);
    let r = play(&q, "g8f6");
    assert!(r.white_to_move);
    assert_eq!(r.halfmove, 1);
    assert_eq!(r.fullmove, 2);
    let s = play(&r, "g1f3");
    assert_eq!(s.halfmove, 2);
    assert_eq!(s.fullmove, 2);
    let t = play(&s, "f6e4");
    assert_eq!(t.halfmove, 0);
    assert_eq!(t.fullmove, 3);
}

#[test]
fn an_illegal_move_is_not_made() {
    let p = pos(START);
    assert_eq!(p.try_make_move(Move::new(12, 36, None)), None);
    assert_eq!(p.try_make_move(Move::new(12, 28, Some(Piece::Queen))), None);
    assert_eq!(p.try_make_move(Move::new(12, 28, Some(Piece::King))), None);
    assert_eq!(p.try_make_move(Move::new(64, 28, None)), None);
    assert_eq!(p.try_make_move(Move::new(12, 200, None)), None);
    assert_eq!(
        p.try_make_move(Move::new(12, 28, None)),
        Some(p.make_move(Move::new(12, 28, None)))
    );
}

#[test]
fn en_passant_is_a_capture() {
    let p = pos("rnbqkbnr/ppp1pppp/8/8/3p4/8/PPPPPPPP/RNBQKBNR w KQkq - 0 1");
    let q = play(&p, "e2e4");
    assert_eq!(q.en_passant, Some(20));
    let take = parse_uci_move("d4e3").unwrap();
    assert!(q.is_capture(take));
    assert!(!q.is_capture(parse_uci_move("d4d3").unwrap()));
    let r = q.try_make_move(take).unwrap();
    assert_eq!(r.piece_on(28), None);
    assert_eq!(r.piece_on(20), Some(Piece::Pawn));
    assert_eq!(r.color_on(20), Some(Color::Black));
    assert_eq!(r.halfmove, 0);
    let black_side = pos("rnbqkbnr/pppppppp/8/4P3/8/8/PPPP1PPP/RNBQKBNR b KQkq - 0 1");
    let after = play(&black_side, "d7d5");
    assert_eq!(after.en_passant, Some(43));
    assert!(after.is_capture(parse_uci_move("e5d6").unwrap()));
}

#[test]
fn an_ordinary_capture_is_a_capture() {
    let p = pos("rnbqkbnr/ppp1pppp/8/3p4/4P3/8/PPPP1PPP/RNBQKBNR w KQkq - 0 2");
    assert!(p.is_capture(parse_uci_move("e4d5").unwrap()));
    assert!(!p.is_capture(parse_uci_move("e4e5").unwrap()));
    assert!(!p.is_capture(parse_uci_move("d2d3").unwrap()));
}

#[test]
fn the_key_does_not_depend_on_the_path() {
    let p = pos(START);
    let a = play(&play(&play(&play(&p, "g1f3"), "g8f6"), "f3g1"), "f6g8");
    assert_eq!(a.hash, p.hash);
    let b = play(&play(&play(&p, "e2e4"), "e7e5"), "g1f3");
    let c = play(&play(&play(&p, "g1f3"), "e7e5"), "e2e4");
    assert_eq!(b.hash, c.hash);
    assert_ne!(b.hash, p.hash);
}

#[test]
fn mate_and_stalemate() {
    let mated = pos("R5k1/5ppp/8/8/8/8/5PPP/6K1 b - - 1 1");
    assert_eq!(mated.status(), Status::Checkmate);
    assert!(mated.in_check());
    assert_eq!(mated.legal_moves().len(), 0);
    let stale = pos("7k/5Q2/6K1/8/8/8/8/8 b - - 0 1");
    assert_eq!(stale.status(), Status::Stalemate);
    assert!(!stale.in_check());
    assert_eq!(status_of(0, 0), Status::Stalemate);
    assert_eq!(status_of(0, 1 << 9), Status::Checkmate);
    assert_eq!(status_of(3, 1 << 9), Status::Ongoing);
}

#[test]
fn a_check_is_seen() {
    let p = pos("6k1/5ppp/8/8/8/8/5PPP/R5K1 w - - 0 1");
    assert!(p.gives_check(parse_uci_move("a1a8").unwrap()));
    assert!(!p.gives_check(parse_uci_move("a1a7").unwrap()));
}

#[test]
fn promotions_are_listed_and_made() {
    let p = pos("8/4P3/8/8/8/8/k7/4K3 w - - 0 1");
    let moves = p.legal_moves();
    for promo in [Piece::Knight, Piece::Bishop, Piece::Rook, Piece::Queen] {
        assert!(moves.contains(&Move::new(52, 60, Some(promo))));
    }
    let q = play(&p, "e7e8n");
    assert_eq!(q.piece_on(60), Some(Piece::Knight));
    assert_eq!(count_pieces(&q, Piece::Pawn, Color::White), 0);
}

#[test]
fn material_is_counted() {
    let p = pos(START);
    assert_eq!(count_pieces(&p, Piece::Pawn, Color::White), 8);
    assert_eq!(count_pieces(&p, Piece::Knight, Color::Black), 2);
    assert_eq!(count_pieces(&p, Piece::King, Color::Black), 1);
    assert_eq!(material(&p, Color::White), 800 + 640 + 660 + 1000 + 900);
    assert_eq!(total_material_excl_kings(&p), 8000);
    assert_eq!(total_piece_count(&p), 32);
    assert_eq!(game_phase(&p), 24);
    assert!(!is_endgame_like(&p));
    assert!(!insufficient_material(&p));
    let e = pos("4k3/8/8/8/8/8/4P3/R3K3 w - - 0 1");
    assert_eq!(game_phase(&e), 2);
    assert_eq!(total_material_excl_kings(&e), 600);
    assert!(is_endgame_like(&e));
    assert_eq!(total_piece_count(&e), 4);
    let mut many = p;
    many.queens = many.pawns | many.queens;
    many.pawns = 0;
    assert_eq!(game_phase(&many), 24);
    assert_eq!(count_pieces(&many, Piece::Queen, Color::White), 9);
}

#[test]
fn too_little_material_to_mate() {
    assert!(insufficient_material(&pos("8/8/8/4k3/8/8/3K4/8 w - - 0 1")));
    assert!(insufficient_material(&pos("8/8/8/4k3/8/8/3KN3/8 w - - 0 1")));
    assert!(insufficient_material(&pos("8/8/8/3bk3/8/8/3KN3/8 w - - 0 1")));
    assert!(!insufficient_material(&pos("8/8/8/4k3/8/8/3KNN2/8 w - - 0 1")));
    assert!(!insufficient_material(&pos("8/8/8/4k3/8/8/3KP3/8 w - - 0 1")));
    assert!(!insufficient_material(&pos("k7/8/8/8/8/8/3KR3/8 w - - 0 1")));
    assert!(!insufficient_material(&pos("k7/8/8/8/8/8/3KQ3/8 w - - 0 1")));
    assert!(!insufficient_material(&pos("k2q4/8/8/8/8/8/8/3K4 w - - 0 1")));
}

#[test]
fn kings_and_castling() {
    let p = pos(START);
    assert_eq!(first_square(&p, Piece::King, Color::White), Some(4));
    assert_eq!(first_square(&p, Piece::King, Color::Black), Some(60));
    assert_eq!(first_square(&p, Piece::Knight, Color::White), Some(1));
    assert!(!is_castled(&p, Color::White));
    let c = pos("r4rk1/8/8/8/8/8/8/2KR3R w - - 0 1");
    assert!(is_castled(&c, Color::White));
    assert!(is_castled(&c, Color::Black));
    let e = pos("4k3/8/8/8/8/8/8/4K3 w - - 0 1");
    assert_eq!(first_square(&e, Piece::Queen, Color::White), None);
}

#[test]
fn pawn_structure() {
    let p = pos("4k3/pp6/8/8/3P4/3P4/P5P1/4K2R w - - 0 1");
    assert_eq!(pawns_on_file(&p, Color::White, 3), 2);
    assert_eq!(pawns_on_file(&p, Color::White, 0), 1);
    assert_eq!(pawns_on_file(&p, Color::White, 4), 0);
    assert_eq!(pawns_on_file(&p, Color::White, 9), 0);
    assert!(is_doubled_pawn_on_file(&p, Color::White, 3));
    assert!(!is_doubled_pawn_on_file(&p, Color::White, 0));
    assert!(is_isolated_pawn(&p, Color::White, 3));
    assert!(is_isolated_pawn(&p, Color::White, 6));
    assert!(is_isolated_pawn(&p, Color::White, 0));
    assert!(!is_isolated_pawn(&p, Color::Black, 0));
    assert!(!is_isolated_pawn(&p, Color::White, 2));
    assert!(is_isolated_pawn(&p, Color::White, -5));
    assert_eq!(rook_file_bonus(&p, Color::White, 7), 12);
    assert_eq!(rook_file_bonus(&p, Color::White, 1), 6);
    assert_eq!(rook_file_bonus(&p, Color::White, 0), 0);
    assert!(is_passed_pawn(&p, 27, Color::White));
    assert!(is_passed_pawn(&p, 14, Color::White));
    assert!(!is_passed_pawn(&p, 8, Color::White));
    assert!(!is_passed_pawn(&p, 9, Color::White));
    assert!(!is_passed_pawn(&p, 48, Color::White));
    assert!(!is_passed_pawn(&p, 48, Color::Black));
    assert!(!is_passed_pawn(&p, 49, Color::Black));
    let q = pos("4k3/8/8/8/8/7p/1P6/4K3 b - - 0 1");
    assert!(is_passed_pawn(&q, 23, Color::Black));
    assert!(is_passed_pawn(&q, 9, Color::White));
}
