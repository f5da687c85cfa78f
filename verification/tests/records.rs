use ab_engine::board::RawBoard;
use ab_engine::fen::{describe_fen, position_from_fen, position_from_text, read_counter};
use ab_engine::position::Position;
use std::str::FromStr;

fn by_the_generator(fen: &str, halfmove: u32, fullmove: u32) -> Position {
    let b = chess::Board::from_str(fen).unwrap();
    let raw = RawBoard {
        pieces: chess::ALL_PIECES.map(|p| b.pieces(p).0),
        colors: chess::ALL_COLORS.map(|c| b.color_combined(c).0),
        side: b.side_to_move().to_index(),
        castles: chess::ALL_COLORS.map(|c| b.castle_rights(c).to_index()),
        ep_pawn: b.en_passant().map(|s| s.to_int()),
        checkers: b.checkers().0,
        hash: b.get_hash(),
    };
    Position::from_raw(&raw, halfmove, fullmove)
}

#[test]
fn records_are_read_as_the_generator_reads_them() {
    let cases = [
        ("rnbqkbnr/pppppppp/8/8/8/8/PPPPPPPP/RNBQKBNR w KQkq - 0 1", 0, 1),
        ("r3k2r/8/8/3pP3/8/8/8/R3K2R w Kq d6 3 17", 3, 17),
        ("rnbqkbnr/ppp1pppp/8/8/3pP3/8/PPPP1PPP/RNBQKBNR b KQkq e3 0 2", 0, 2),
        ("6k1/5ppp/8/8/8/8/5PPP/R5K1 w - - 99 60", 99, 60),
        ("7k/5Q2/6K1/8/8/8/8/8 b - - 0 1", 0, 1),
        ("4k3/8/8/8/8/8/4P3/4K3 B - - 12 40", 12, 40),
    ];
    for (fen, halfmove, fullmove) in cases {
        assert_eq!(position_from_text(fen), Some(by_the_generator(fen, halfmove, fullmove)));
    }
}

#[test]
fn the_start_has_twenty_moves() {
    let p = position_from_text("rnbqkbnr/pppppppp/8/8/8/8/PPPPPPPP/RNBQKBNR w KQkq - 0 1").unwrap();
    assert_eq!(p.legal_moves().len(), 20);
    assert_eq!(p.white_castle, 3);
    assert_eq!(p.halfmove, 0);
    assert_eq!(p.fullmove, 1);
}

#[test]
fn missing_counters_have_their_defaults() {
    let p = position_from_text("4k3/8/8/8/8/8/4P3/4K3 w - -").unwrap();
    assert_eq!((p.halfmove, p.fullmove), (0, 1));
    let q = position_from_text("4k3/8/8/8/8/8/4P3/4K3 w - - x y").unwrap();
    assert_eq!((q.halfmove, q.fullmove), (0, 1));
    let r = position_from_text("4k3/8/8/8/8/8/4P3/4K3 w - - 7").unwrap();
    assert_eq!((r.halfmove, r.fullmove), (7, 1));
    let s = position_from_text("4k3/8/8/8/8/8/4P3/4K3 w - - 4294967295 4294967296").unwrap();
    assert_eq!((s.halfmove, s.fullmove), (u32::MAX, 1));
}

#[test]
fn malformed_records_are_refused() {
    for fen in [
        "",
        "not a position",
        "8/8/8/8/8/8/8/8 w - - 0 1",
        "4k3/8/8/8/8/8/8/8 w - - 0 1",
        "4k3/8/8/8/8/8/8/4K3",
        "4k3/8/8/8/8/8/8/4K3 x - - 0 1",
        "4k3/8/8/8/8/8/8/4K3  w - - 0 1",
        "4k3/8/8/8/8/8/8/4K2 w - - 0 1",
        "4k3/8/8/8/8/8/8/4K4 w - - 0 1",
        "4k3/8/8/8/8/8/4K3 w - - 0 1",
        "4k3/8/8/8/8/8/8/8/4K3 w - - 0 1",
        "4k3/8/8/8/8/8/8/4K3/ w - - 0 1",
        "4k3/8/8/8/8/8/8/4X3 w - - 0 1",
        "4k3/9/8/8/8/8/8/4K3 w - - 0 1",
        "4k3/8/8/8/8/8/8/3KK3 w - - 0 1",
        "4k3/4Q3/8/8/8/8/8/4K3 w - - 0 1",
        "4k3/8/8/NNNNNNNN/NNNNNNNN/NNNNNNNN/8/4K3 w - - 0 1",
        "4k3/8/8/8/8/8/8/4K3 w KQ - 0 1",
    ] {
        assert_eq!(position_from_text(fen), None);
        assert_eq!(position_from_fen(fen.as_bytes()), None);
    }
    assert_eq!(position_from_fen(&[0xC3, 0xA9, b' ', b'w']), None);
}

#[test]
fn a_record_is_written_out_square_by_square() {
    let d = describe_fen(b"r3k2r/8/8/3pP3/8/8/8/R3K2R w Kq d6 3 17").unwrap();
    assert_eq!(
        String::from_utf8(d).unwrap(),
        "r111k11r/11111111/11111111/111pP111/11111111/11111111/11111111/R111K11R w K--q d6"
    );
    let e = describe_fen(b"8/8/8/8/8/8/8/8 W qk zz").unwrap();
    assert_eq!(
        String::from_utf8(e).unwrap(),
        "11111111/11111111/11111111/11111111/11111111/11111111/11111111/11111111 w --kq --"
    );
    assert_eq!(describe_fen(b"8/8/8/8/8/8/8/8"), None);
    assert_eq!(describe_fen(b"8/8/8/8/8/8/8/7 w - -"), None);
}

#[test]
fn counters_are_decimal_numbers() {
    let s = b"12 0 007 x1 4294967295 4294967296 99999999999999999999999";
    assert_eq!(read_counter(s, 0, 2, 5), 12);
    assert_eq!(read_counter(s, 3, 4, 5), 0);
    assert_eq!(read_counter(s, 5, 8, 5), 7);
    assert_eq!(read_counter(s, 9, 11, 5), 5);
    assert_eq!(read_counter(s, 12, 22, 5), u32::MAX);
    assert_eq!(read_counter(s, 23, 33, 5), 5);
    assert_eq!(read_counter(s, 34, 57, 5), 5);
    assert_eq!(read_counter(s, 2, 2, 5), 5);
}
