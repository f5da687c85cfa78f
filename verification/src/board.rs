//! The boundary to the `chess` crate, which generates legal moves, makes
//! moves and hashes positions. Positions cross it as text, results come
//! back as plain numbers. The three functions that make the calls are not
//! proved: each states what the outside function is taken to return.
use chess::{Board, ChessMove, MoveGen, ALL_COLORS, ALL_PIECES, ALL_SQUARES};
use std::str::FromStr;
use vstd::prelude::*;

verus! {

/// What `chess::Board` exposes of a position, as plain numbers.
/// `pieces` holds one square set per piece kind (pawn, knight, bishop, rook,
/// queen, king), `colors` one per side (white, black); bit `i` stands for
/// square `i`. `side` is 0 for White to move and 1 for Black. `castles`
/// holds, per side, 0 for no right, 1 for king side, 2 for queen side and
/// 3 for both. `ep_pawn` is the square of a pawn that may be captured en
/// passant.
pub struct RawBoard {
    pub pieces: [u64; 6],
    pub colors: [u64; 2],
    pub side: usize,
    pub castles: [usize; 2],
    pub ep_pawn: Option<u8>,
    pub checkers: u64,
    pub hash: u64,
}

/// A move as `chess::ChessMove` holds it: two square numbers and the index
/// of the promotion piece (1 knight, 2 bishop, 3 rook, 4 queen).
pub struct RawMove {
    pub from: u8,
    pub to: u8,
    pub promo: Option<usize>,
}

/// The board that `chess::Board::from_str` reads from a text, if it
/// accepts the text.
pub uninterp spec fn board_of_text(text: Seq<u8>) -> Option<RawBoard>;

/// The legal moves that `chess::MoveGen::new_legal` enumerates on the
/// board read from a text, in its order; empty where the text is refused.
pub uninterp spec fn legal_moves_of_text(text: Seq<u8>) -> Seq<RawMove>;

/// The board that `chess::Board::make_move_new` gives for a move on the
/// board read from a text.
pub uninterp spec fn board_after_move(text: Seq<u8>, mv: RawMove) -> RawBoard;

/// A letter that stands for a piece, or `1` for an empty square.
pub open spec fn is_square_char(c: u8) -> bool {
    c == 49 || c == 80 || c == 78 || c == 66 || c == 82 || c == 81 || c == 75 || c == 112 || c
        == 110 || c == 98 || c == 114 || c == 113 || c == 107
}

/// A letter of a white piece.
pub open spec fn is_white_char(c: u8) -> bool {
    c == 80 || c == 78 || c == 66 || c == 82 || c == 81 || c == 75
}

/// A letter of a black piece.
pub open spec fn is_black_char(c: u8) -> bool {
    c == 112 || c == 110 || c == 98 || c == 114 || c == 113 || c == 107
}

/// The number of pieces of one side among the first `n` bytes of a text.
pub open spec fn side_count(s: Seq<u8>, white: bool, n: int) -> int
    decreases n,
{
    if n <= 0 {
        0
    } else {
        side_count(s, white, n - 1) + if (white && is_white_char(s[n - 1])) || (!white
            && is_black_char(s[n - 1])) {
            1int
        } else {
            0int
        }
    }
}

/// The most pieces that a side may have on a described board. The move
/// generator keeps one list entry per piece that can move and has room
/// for a full chess army, not for more.
pub const MAX_SIDE_PIECES: usize = 16;

/// The text is a board description that the move generator can take: a
/// FEN record of four fields in expanded form, 81 bytes long. The
/// placement has one character per square and `/` between ranks; then
/// come the side to move, one character per castling right and the
/// en-passant square or `--`. Each side has a king on the board and at
/// most sixteen pieces: the move generator must never be handed a board on
/// which a king is missing or an army is larger than that.
pub open spec fn is_description(s: Seq<u8>) -> bool {
    &&& s.len() == 81
    &&& forall|i: int|
        0 <= i < 71 ==> if i % 9 == 8 {
            #[trigger] s[i] == 47
        } else {
            is_square_char(s[i])
        }
    &&& s[71] == 32 && s[73] == 32 && s[78] == 32
    &&& (s[72] == 119 || s[72] == 98)
    &&& (s[74] == 75 || s[74] == 45)
    &&& (s[75] == 81 || s[75] == 45)
    &&& (s[76] == 107 || s[76] == 45)
    &&& (s[77] == 113 || s[77] == 45)
    &&& ((s[79] == 45 && s[80] == 45) || (97 <= s[79] <= 104 && 49 <= s[80] <= 56))
    &&& exists|i: int| 0 <= i < 71 && #[trigger] s[i] == 75
    &&& exists|i: int| 0 <= i < 71 && #[trigger] s[i] == 107
    &&& side_count(s, true, 71) <= MAX_SIDE_PIECES
    &&& side_count(s, false, 71) <= MAX_SIDE_PIECES
}

/// Calls `chess::Board::from_str` on a board description and reads the
/// board's fields out through its accessors; nothing where the board is
/// refused. The result is that function's and no more is claimed of it.
#[verifier::external_body]
pub(crate) fn raw_board(text: &[u8]) -> (r: Option<RawBoard>)
    requires
        is_description(text@),
    ensures
        r == board_of_text(text@),
{
    let b = Board::from_str(std::str::from_utf8(text).ok()?).ok()?;
    Some(RawBoard {
        pieces: ALL_PIECES.map(|p| b.pieces(p).0),
        colors: ALL_COLORS.map(|c| b.color_combined(c).0),
        side: b.side_to_move().to_index(),
        castles: ALL_COLORS.map(|c| b.castle_rights(c).to_index()),
        ep_pawn: b.en_passant().map(|s| s.to_int()),
        checkers: b.checkers().0,
        hash: b.get_hash(),
    })
}

/// Calls `chess::MoveGen::new_legal` on the board that
/// `chess::Board::from_str` reads from the text, and hands the moves out
/// in the generator's order; no moves where the board is refused. A
/// `chess::Square` is a number below 64 and a pawn promotes to a knight,
/// bishop, rook or queen (indices 1 to 4); no more is claimed of the moves
/// themselves.
#[verifier::external_body]
pub(crate) fn raw_legal_moves(text: &[u8]) -> (r: Vec<RawMove>)
    requires
        is_description(text@),
    ensures
        r@ == legal_moves_of_text(text@),
        forall|i: int|
            0 <= i < r@.len() ==> {
                &&& (#[trigger] r@[i]).from < 64
                &&& r@[i].to < 64
                &&& (r@[i].promo matches Some(k) ==> 1 <= k <= 4)
            },
{
    let parsed = std::str::from_utf8(text).ok().and_then(|s| Board::from_str(s).ok());
    match parsed {
        Some(b) => MoveGen::new_legal(&b).map(|m| RawMove {
            from: m.get_source().to_int(),
            to: m.get_dest().to_int(),
            promo: m.get_promotion().map(|p| p.to_index()),
        }).collect(),
        None => Vec::new(),
    }
}

/// Calls `chess::Board::make_move_new` for a move that the generator lists
/// for this text, and reads the new board's fields out. `make_move_new`
/// is only defined for legal moves, hence the precondition.
#[verifier::external_body]
pub(crate) fn raw_after_move(text: &[u8], mv: &RawMove) -> (r: RawBoard)
    requires
        is_description(text@),
        legal_moves_of_text(text@).contains(*mv),
    ensures
        r == board_after_move(text@, *mv),
{
    let b = Board::from_str(std::str::from_utf8(text).unwrap()).unwrap();
    let promo = mv.promo.map(|i| ALL_PIECES[i]);
    let m = ChessMove::new(ALL_SQUARES[mv.from as usize], ALL_SQUARES[mv.to as usize], promo);
    let n = b.make_move_new(m);
    RawBoard {
        pieces: ALL_PIECES.map(|p| n.pieces(p).0),
        colors: ALL_COLORS.map(|c| n.color_combined(c).0),
        side: n.side_to_move().to_index(),
        castles: ALL_COLORS.map(|c| n.castle_rights(c).to_index()),
        ep_pawn: n.en_passant().map(|s| s.to_int()),
        checkers: n.checkers().0,
        hash: n.get_hash(),
    }
}

} // verus!
