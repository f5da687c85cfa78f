use ab_engine::notation::{bytes_less, parse_uci_move, to_uci, uci_bytes};
use ab_engine::types::{
    clamp, file_idx, opp, pack_move, passed_pawn_bonus, piece_code, piece_val, pst_for,
    pst_index_for, pst_king_eg, relative_rank, unpack_move, Color, Move, Piece,
};

const PROMOS: [Option<Piece>; 5] = [
    None,
    Some(Piece::Knight),
    Some(Piece::Bishop),
    Some(Piece::Rook),
    Some(Piece::Queen),
];

#[test]
fn pack_then_unpack_gives_the_move_back() {
    for from in 0u8..64 {
        for to in 0u8..64 {
            if from == to {
                continue;
            }
            for promo in PROMOS {
                let m = Move::new(from, to, promo);
                assert_eq!(unpack_move(pack_move(m)), Some(m));
            }
        }
    }
}

#[test]
fn zero_is_no_move() {
    assert_eq!(unpack_move(0), None);
    assert_eq!(pack_move(Move::new(0, 0, None)), 0);
}

#[test]
fn pack_lays_out_the_three_fields() {
    let m = Move::new(12, 28, None);
    assert_eq!(pack_move(m), 12 | (28 << 6));
    let p = Move::new(52, 60, Some(Piece::Queen));
    assert_eq!(pack_move(p), 52 | (60 << 6) | (4 << 12));
    assert_eq!(pack_move(Move::new(1, 2, Some(Piece::Knight))), 1 | (2 << 6) | (1 << 12));
    assert_eq!(pack_move(Move::new(1, 2, Some(Piece::King))), 1 | (2 << 6));
}

#[test]
fn pack_is_injective() {
    let mut seen = std::collections::HashSet::new();
    for from in 0u8..64 {
        for to in 0u8..64 {
            for promo in PROMOS {
                assert!(seen.insert(pack_move(Move::new(from, to, promo))));
            }
        }
    }
    assert_eq!(seen.len(), 64 * 64 * 5);
}

#[test]
fn unpack_masks_its_fields() {
    let m = unpack_move(0xFFFF).unwrap();
    assert_eq!(m.from, 63);
    assert_eq!(m.to, 63);
    assert_eq!(m.promo, None);
    let k = unpack_move((3 << 12) | (9 << 6) | 1).unwrap();
    assert_eq!(k, Move::new(1, 9, Some(Piece::Rook)));
}

#[test]
fn clamp_keeps_a_value_in_its_range() {
    assert_eq!(clamp(5, 0, 10), 5);
    assert_eq!(clamp(-5, 0, 10), 0);
    assert_eq!(clamp(15, 0, 10), 10);
    assert_eq!(clamp(70_000, -59_999, 59_999), 59_999);
}

#[test]
fn piece_tables() {
    assert_eq!(piece_val(Piece::Pawn), 100);
    assert_eq!(piece_val(Piece::Knight), 320);
    assert_eq!(piece_val(Piece::Bishop), 330);
    assert_eq!(piece_val(Piece::Rook), 500);
    assert_eq!(piece_val(Piece::Queen), 900);
    assert_eq!(piece_val(Piece::King), 0);
    assert_eq!(piece_code(Piece::Pawn), 1);
    assert_eq!(piece_code(Piece::King), 6);
    assert_eq!(opp(Color::White), Color::Black);
    assert_eq!(opp(Color::Black), Color::White);
    assert_eq!(pst_for(Piece::Knight, 27), 0);
}

#[test]
fn king_endgame_table() {
    let table: [i32; 64] = [
        -50, -40, -30, -30, -30, -30, -40, -50, -40, -20, 0, 0, 0, 0, -20, -40, -30, 0, 10, 15,
        15, 10, 0, -30, -30, 0, 15, 20, 20, 15, 0, -30, -30, 0, 15, 20, 20, 15, 0, -30, -30, 0,
        10, 15, 15, 10, 0, -30, -40, -20, 0, 0, 0, 0, -20, -40, -50, -40, -30, -30, -30, -30,
        -40, -50,
    ];
    for i in 0..64 {
        assert_eq!(pst_king_eg(i), table[i]);
    }
}

#[test]
fn passed_pawn_table() {
    let table = [0, 5, 12, 24, 40, 70, 110, 0];
    for r in 0..8 {
        assert_eq!(passed_pawn_bonus(r), table[r]);
    }
}

#[test]
fn squares_seen_from_either_side() {
    assert_eq!(file_idx(12), 4);
    assert_eq!(relative_rank(Color::White, 12), 1);
    assert_eq!(relative_rank(Color::Black, 12), 6);
    assert_eq!(pst_index_for(Color::White, 12), 12);
    assert_eq!(pst_index_for(Color::Black, 12), 12 ^ 56);
    for sq in 0u8..64 {
        assert_eq!(pst_index_for(Color::Black, sq), (sq ^ 56) as usize);
    }
}

#[test]
fn move_text() {
    assert_eq!(to_uci(Move::new(12, 28, None)), "e2e4");
    assert_eq!(to_uci(Move::new(52, 60, Some(Piece::Queen))), "e7e8q");
    assert_eq!(to_uci(Move::new(0, 63, Some(Piece::Knight))), "a1h8n");
    assert_eq!(uci_bytes(Move::new(6, 21, None)), b"g1f3".to_vec());
}

#[test]
fn move_text_is_read_back() {
    assert_eq!(parse_uci_move("e2e4"), Some(Move::new(12, 28, None)));
    assert_eq!(parse_uci_move("e7e8q"), Some(Move::new(52, 60, Some(Piece::Queen))));
    assert_eq!(parse_uci_move("a7a8r"), Some(Move::new(48, 56, Some(Piece::Rook))));
    assert_eq!(parse_uci_move("a7a8b"), Some(Move::new(48, 56, Some(Piece::Bishop))));
    assert_eq!(parse_uci_move("a7a8n"), Some(Move::new(48, 56, Some(Piece::Knight))));
    assert_eq!(parse_uci_move("a7a8x"), Some(Move::new(48, 56, None)));
    assert_eq!(parse_uci_move("e2"), None);
    assert_eq!(parse_uci_move(""), None);
    assert_eq!(parse_uci_move("e9e4"), None);
    assert_eq!(parse_uci_move("i2e4"), None);
    assert_eq!(parse_uci_move("E2E4"), None);
    assert_eq!(parse_uci_move("0000"), None);
    for from in 0u8..64 {
        for to in 0u8..64 {
            for promo in PROMOS {
                let m = Move::new(from, to, promo);
                assert_eq!(parse_uci_move(&to_uci(m)), Some(m));
            }
        }
    }
}

#[test]
fn text_order_is_the_order_of_strings() {
    let words: [&str; 6] = ["", "a", "ab", "b", "e2e4", "e2e4q"];
    for a in words {
        for b in words {
            assert_eq!(bytes_less(&a.as_bytes().to_vec(), &b.as_bytes().to_vec()), a < b);
        }
    }
}
