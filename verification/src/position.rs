//! Positions as plain values, and what the engine reads from them.
use crate::board::{
    board_after_move, is_description, is_square_char, legal_moves_of_text, raw_after_move,
    raw_legal_moves, side_count, RawBoard, RawMove, MAX_SIDE_PIECES,
};
use crate::types::{opp, opp_spec, Color, Move, Piece};
use vstd::prelude::*;

verus! {

/// Whether the game goes on, and how it ended if it does not.
#[derive(Clone, Copy, PartialEq, Eq, Structural, Debug)]
pub enum Status {
    Ongoing,
    Stalemate,
    Checkmate,
}

/// A chess position. Piece placement is held as square sets: bit `i` of a
/// set stands for square `i`, a1 = 0, b1 = 1, ..., h8 = 63. A castling
/// field is 0 for no right, 1 for king side, 2 for queen side, 3 for both.
/// `en_passant` is the square a capturing pawn would land on. `checkers`
/// is the set of pieces that attack the king of the side to move and
/// `hash` the position's 64-bit key.
#[derive(Clone, Copy, PartialEq, Eq, Structural, Debug)]
pub struct Position {
    pub pawns: u64,
    pub knights: u64,
    pub bishops: u64,
    pub rooks: u64,
    pub queens: u64,
    pub kings: u64,
    pub white: u64,
    pub black: u64,
    pub white_to_move: bool,
    pub white_castle: u8,
    pub black_castle: u8,
    pub en_passant: Option<u8>,
    pub halfmove: u32,
    pub fullmove: u32,
    pub checkers: u64,
    pub hash: u64,
}

/// Whether square `sq` belongs to the set `bb`.
pub open spec fn bit(bb: u64, sq: u8) -> bool {
    (bb >> (sq as u64)) & 1 == 1
}

pub fn has_bit(bb: u64, sq: u8) -> (r: bool)
    requires
        sq < 64,
    ensures
        r == bit(bb, sq),
{
    (bb >> (sq as u64)) & 1 == 1
}

pub open spec fn move_of_raw(r: RawMove) -> Move {
    Move {
        from: r.from,
        to: r.to,
        promo: match r.promo {
            Some(k) => if k == 1 {
                Some(Piece::Knight)
            } else if k == 2 {
                Some(Piece::Bishop)
            } else if k == 3 {
                Some(Piece::Rook)
            } else if k == 4 {
                Some(Piece::Queen)
            } else {
                None
            },
            None => None,
        },
    }
}

pub open spec fn raw_of_move(m: Move) -> RawMove {
    RawMove {
        from: m.from,
        to: m.to,
        promo: match m.promo {
            Some(Piece::Knight) => Some(1usize),
            Some(Piece::Bishop) => Some(2usize),
            Some(Piece::Rook) => Some(3usize),
            Some(Piece::Queen) => Some(4usize),
            _ => None,
        },
    }
}

fn move_from_raw(r: &RawMove) -> (m: Move)
    ensures
        m == move_of_raw(*r),
{
    let promo = match r.promo {
        Some(k) => if k == 1 {
            Some(Piece::Knight)
        } else if k == 2 {
            Some(Piece::Bishop)
        } else if k == 3 {
            Some(Piece::Rook)
        } else if k == 4 {
            Some(Piece::Queen)
        } else {
            None
        },
        None => None,
    };
    Move { from: r.from, to: r.to, promo }
}

fn move_to_raw(m: Move) -> (r: RawMove)
    ensures
        r == raw_of_move(m),
{
    let promo = match m.promo {
        Some(Piece::Knight) => Some(1usize),
        Some(Piece::Bishop) => Some(2usize),
        Some(Piece::Rook) => Some(3usize),
        Some(Piece::Queen) => Some(4usize),
        _ => None,
    };
    RawMove { from: m.from, to: m.to, promo }
}

/// The en-passant target behind a pawn that has just advanced two squares.
pub open spec fn ep_target_spec(ep_pawn: Option<u8>, white_to_move: bool) -> Option<u8> {
    match ep_pawn {
        Some(sq) => if white_to_move && 32 <= sq < 40 {
            Some((sq + 8) as u8)
        } else if !white_to_move && 24 <= sq < 32 {
            Some((sq - 8) as u8)
        } else {
            None
        },
        None => None,
    }
}

pub open spec fn castle_of_raw(c: usize) -> u8 {
    if c <= 3 {
        c as u8
    } else {
        0
    }
}

/// The position that a board of the move generator stands for, with the
/// two move counters given.
pub open spec fn position_of_raw(raw: RawBoard, halfmove: u32, fullmove: u32) -> Position {
    Position {
        pawns: raw.pieces[0],
        knights: raw.pieces[1],
        bishops: raw.pieces[2],
        rooks: raw.pieces[3],
        queens: raw.pieces[4],
        kings: raw.pieces[5],
        white: raw.colors[0],
        black: raw.colors[1],
        white_to_move: raw.side == 0,
        white_castle: castle_of_raw(raw.castles[0]),
        black_castle: castle_of_raw(raw.castles[1]),
        en_passant: ep_target_spec(raw.ep_pawn, raw.side == 0),
        halfmove,
        fullmove,
        checkers: raw.checkers,
        hash: raw.hash,
    }
}

fn castle_from_raw(c: usize) -> (r: u8)
    ensures
        r == castle_of_raw(c),
{
    if c <= 3 {
        c as u8
    } else {
        0
    }
}

impl Position {
    pub open spec fn piece_set(self, piece: Piece) -> u64 {
        match piece {
            Piece::Pawn => self.pawns,
            Piece::Knight => self.knights,
            Piece::Bishop => self.bishops,
            Piece::Rook => self.rooks,
            Piece::Queen => self.queens,
            Piece::King => self.kings,
        }
    }

    pub open spec fn color_set(self, color: Color) -> u64 {
        match color {
            Color::White => self.white,
            Color::Black => self.black,
        }
    }

    /// A piece of this kind and colour stands on `sq`.
    pub open spec fn has(self, piece: Piece, color: Color, sq: u8) -> bool {
        bit(self.piece_set(piece), sq) && bit(self.color_set(color), sq)
    }

    pub open spec fn piece_on_spec(self, sq: u8) -> Option<Piece> {
        if bit(self.pawns, sq) {
            Some(Piece::Pawn)
        } else if bit(self.knights, sq) {
            Some(Piece::Knight)
        } else if bit(self.bishops, sq) {
            Some(Piece::Bishop)
        } else if bit(self.rooks, sq) {
            Some(Piece::Rook)
        } else if bit(self.queens, sq) {
            Some(Piece::Queen)
        } else if bit(self.kings, sq) {
            Some(Piece::King)
        } else {
            None
        }
    }

    pub open spec fn color_on_spec(self, sq: u8) -> Option<Color> {
        if bit(self.white, sq) {
            Some(Color::White)
        } else if bit(self.black, sq) {
            Some(Color::Black)
        } else {
            None
        }
    }

    pub open spec fn side_spec(self) -> Color {
        if self.white_to_move {
            Color::White
        } else {
            Color::Black
        }
    }

    pub fn side_to_move(&self) -> (c: Color)
        ensures
            c == self.side_spec(),
    {
        if self.white_to_move {
            Color::White
        } else {
            Color::Black
        }
    }

    pub fn occupies(&self, piece: Piece, color: Color, sq: u8) -> (r: bool)
        requires
            sq < 64,
        ensures
            r == self.has(piece, color, sq),
    {
        let pbb = match piece {
            Piece::Pawn => self.pawns,
            Piece::Knight => self.knights,
            Piece::Bishop => self.bishops,
            Piece::Rook => self.rooks,
            Piece::Queen => self.queens,
            Piece::King => self.kings,
        };
        let cbb = match color {
            Color::White => self.white,
            Color::Black => self.black,
        };
        has_bit(pbb, sq) && has_bit(cbb, sq)
    }

    pub fn piece_on(&self, sq: u8) -> (r: Option<Piece>)
        requires
            sq < 64,
        ensures
            r == self.piece_on_spec(sq),
    {
        if has_bit(self.pawns, sq) {
            Some(Piece::Pawn)
        } else if has_bit(self.knights, sq) {
            Some(Piece::Knight)
        } else if has_bit(self.bishops, sq) {
            Some(Piece::Bishop)
        } else if has_bit(self.rooks, sq) {
            Some(Piece::Rook)
        } else if has_bit(self.queens, sq) {
            Some(Piece::Queen)
        } else if has_bit(self.kings, sq) {
            Some(Piece::King)
        } else {
            None
        }
    }

    pub fn color_on(&self, sq: u8) -> (r: Option<Color>)
        requires
            sq < 64,
        ensures
            r == self.color_on_spec(sq),
    {
        if has_bit(self.white, sq) {
            Some(Color::White)
        } else if has_bit(self.black, sq) {
            Some(Color::Black)
        } else {
            None
        }
    }

    /// The letter that stands for the content of a square: upper case for
    /// White, lower case for Black, `1` for an empty square.
    pub open spec fn square_char_spec(self, sq: u8) -> u8 {
        match (self.piece_on_spec(sq), self.color_on_spec(sq)) {
            (Some(Piece::Pawn), Some(Color::White)) => 80,
            (Some(Piece::Knight), Some(Color::White)) => 78,
            (Some(Piece::Bishop), Some(Color::White)) => 66,
            (Some(Piece::Rook), Some(Color::White)) => 82,
            (Some(Piece::Queen), Some(Color::White)) => 81,
            (Some(Piece::King), Some(Color::White)) => 75,
            (Some(Piece::Pawn), Some(Color::Black)) => 112,
            (Some(Piece::Knight), Some(Color::Black)) => 110,
            (Some(Piece::Bishop), Some(Color::Black)) => 98,
            (Some(Piece::Rook), Some(Color::Black)) => 114,
            (Some(Piece::Queen), Some(Color::Black)) => 113,
            (Some(Piece::King), Some(Color::Black)) => 107,
            _ => 49,
        }
    }

    fn square_char(&self, sq: u8) -> (c: u8)
        requires
            sq < 64,
        ensures
            c == self.square_char_spec(sq),
    {
        match (self.piece_on(sq), self.color_on(sq)) {
            (Some(Piece::Pawn), Some(Color::White)) => 80,
            (Some(Piece::Knight), Some(Color::White)) => 78,
            (Some(Piece::Bishop), Some(Color::White)) => 66,
            (Some(Piece::Rook), Some(Color::White)) => 82,
            (Some(Piece::Queen), Some(Color::White)) => 81,
            (Some(Piece::King), Some(Color::White)) => 75,
            (Some(Piece::Pawn), Some(Color::Black)) => 112,
            (Some(Piece::Knight), Some(Color::Black)) => 110,
            (Some(Piece::Bishop), Some(Color::Black)) => 98,
            (Some(Piece::Rook), Some(Color::Black)) => 114,
            (Some(Piece::Queen), Some(Color::Black)) => 113,
            (Some(Piece::King), Some(Color::Black)) => 107,
            _ => 49,
        }
    }

    /// Character `i` of the position's description. The description is a
    /// FEN record of four fields in expanded form, 81 characters long:
    /// the placement with one character per square and `/` between ranks,
    /// rank 8 first; the side to move; one character per castling right
    /// (`K`, `Q`, `k`, `q`, or `-` for a right that is gone); and the
    /// en-passant square, or `--`.
    pub open spec fn text_char_spec(self, i: int) -> u8 {
        if i < 71 {
            if i % 9 == 8 {
                47
            } else {
                self.square_char_spec(((7 - i / 9) * 8 + i % 9) as u8)
            }
        } else if i == 71 || i == 73 || i == 78 {
            32
        } else if i == 72 {
            if self.white_to_move { 119 } else { 98 }
        } else if i == 74 {
            if self.white_castle == 1 || self.white_castle == 3 { 75 } else { 45 }
        } else if i == 75 {
            if self.white_castle == 2 || self.white_castle == 3 { 81 } else { 45 }
        } else if i == 76 {
            if self.black_castle == 1 || self.black_castle == 3 { 107 } else { 45 }
        } else if i == 77 {
            if self.black_castle == 2 || self.black_castle == 3 { 113 } else { 45 }
        } else if i == 79 {
            match self.en_passant {
                Some(sq) => if sq < 64 { (97 + sq % 8) as u8 } else { 45 },
                None => 45,
            }
        } else {
            match self.en_passant {
                Some(sq) => if sq < 64 { (49 + sq / 8) as u8 } else { 45 },
                None => 45,
            }
        }
    }

    pub open spec fn text_spec(self) -> Seq<u8> {
        Seq::new(81, |i: int| self.text_char_spec(i))
    }

    fn text_char(&self, i: usize) -> (c: u8)
        requires
            i < 81,
        ensures
            c == self.text_char_spec(i as int),
    {
        if i < 71 {
            if i % 9 == 8 {
                47
            } else {
                self.square_char(((7 - i / 9) * 8 + i % 9) as u8)
            }
        } else if i == 71 || i == 73 || i == 78 {
            32
        } else if i == 72 {
            if self.white_to_move { 119 } else { 98 }
        } else if i == 74 {
            if self.white_castle == 1 || self.white_castle == 3 { 75 } else { 45 }
        } else if i == 75 {
            if self.white_castle == 2 || self.white_castle == 3 { 81 } else { 45 }
        } else if i == 76 {
            if self.black_castle == 1 || self.black_castle == 3 { 107 } else { 45 }
        } else if i == 77 {
            if self.black_castle == 2 || self.black_castle == 3 { 113 } else { 45 }
        } else if i == 79 {
            match self.en_passant {
                Some(sq) => if sq < 64 { 97 + sq % 8 } else { 45 },
                None => 45,
            }
        } else {
            match self.en_passant {
                Some(sq) => if sq < 64 { 49 + sq / 8 } else { 45 },
                None => 45,
            }
        }
    }

    /// The description of the position that the move generator reads.
    pub fn to_text(&self) -> (out: Vec<u8>)
        ensures
            out@ == self.text_spec(),
    {
        let mut out: Vec<u8> = Vec::new();
        let mut i: usize = 0;
        while i < 81
            invariant
                i <= 81,
                out@.len() == i,
                forall|j: int| 0 <= j < i ==> out@[j] == self.text_char_spec(j),
            decreases 81 - i,
        {
            let c = self.text_char(i);
            out.push(c);
            i += 1;
        }
        assert(out@ =~= self.text_spec());
        out
    }

    /// Builds a position from what the move generator reports of a board.
    pub fn from_raw(raw: &RawBoard, halfmove: u32, fullmove: u32) -> (p: Position)
        ensures
            p == position_of_raw(*raw, halfmove, fullmove),
    {
        let white_to_move = raw.side == 0;
        let en_passant = match raw.ep_pawn {
            Some(sq) => if white_to_move && 32 <= sq && sq < 40 {
                Some(sq + 8)
            } else if !white_to_move && 24 <= sq && sq < 32 {
                Some(sq - 8)
            } else {
                None
            },
            None => None,
        };
        Position {
            pawns: raw.pieces[0],
            knights: raw.pieces[1],
            bishops: raw.pieces[2],
            rooks: raw.pieces[3],
            queens: raw.pieces[4],
            kings: raw.pieces[5],
            white: raw.colors[0],
            black: raw.colors[1],
            white_to_move,
            white_castle: castle_from_raw(raw.castles[0]),
            black_castle: castle_from_raw(raw.castles[1]),
            en_passant,
            halfmove,
            fullmove,
            checkers: raw.checkers,
            hash: raw.hash,
        }
    }

    /// The legal moves, in the move generator's order.
    /// Empty where the position cannot be described to the move generator.
    pub open spec fn legal_moves_spec(self) -> Seq<Move> {
        if is_description(self.text_spec()) {
            legal_moves_of_text(self.text_spec()).map_values(|r: RawMove| move_of_raw(r))
        } else {
            Seq::empty()
        }
    }

    pub open spec fn is_legal(self, m: Move) -> bool {
        is_description(self.text_spec()) && legal_moves_of_text(self.text_spec()).contains(
            raw_of_move(m),
        )
    }

    pub fn legal_moves(&self) -> (moves: Vec<Move>)
        ensures
            moves@ == self.legal_moves_spec(),
            forall|i: int| 0 <= i < moves@.len() ==> (#[trigger] moves@[i]).wf(),
            forall|i: int| 0 <= i < moves@.len() ==> self.is_legal(#[trigger] moves@[i]),
    {
        let text = self.to_text();
        let mut moves: Vec<Move> = Vec::new();
        if !check_description(&text) {
            return moves;
        }
        let raw = raw_legal_moves(text.as_slice());
        let mut i: usize = 0;
        while i < raw.len()
            invariant
                i <= raw.len(),
                is_description(self.text_spec()),
                raw@ == legal_moves_of_text(self.text_spec()),
                forall|j: int|
                    0 <= j < raw@.len() ==> {
                        &&& (#[trigger] raw@[j]).from < 64
                        &&& raw@[j].to < 64
                        &&& (raw@[j].promo matches Some(k) ==> 1 <= k <= 4)
                    },
                moves@.len() == i,
                forall|j: int| 0 <= j < i ==> moves@[j] == move_of_raw(raw@[j]),
                forall|j: int| 0 <= j < i ==> (#[trigger] moves@[j]).wf(),
                forall|j: int| 0 <= j < i ==> self.is_legal(#[trigger] moves@[j]),
            decreases raw.len() - i,
        {
            let m = move_from_raw(&raw[i]);
            proof {
                assert(raw_of_move(m) == raw@[i as int]);
                assert(legal_moves_of_text(self.text_spec()).contains(raw@[i as int]));
            }
            moves.push(m);
            i += 1;
        }
        assert(moves@ =~= self.legal_moves_spec());
        moves
    }

    /// The move takes a piece: an enemy piece stands on its destination,
    /// or a pawn moves diagonally onto the empty en-passant square.
    pub open spec fn is_capture_spec(self, m: Move) -> bool {
        ||| self.color_on_spec(m.to) == Some(opp_spec(self.side_spec()))
        ||| {
            &&& self.en_passant == Some(m.to)
            &&& self.piece_on_spec(m.from) == Some(Piece::Pawn)
            &&& m.from % 8 != m.to % 8
            &&& self.piece_on_spec(m.to).is_none()
        }
    }

    pub fn is_capture(&self, m: Move) -> (r: bool)
        requires
            m.wf(),
        ensures
            r == self.is_capture_spec(m),
    {
        let them = opp(self.side_to_move());
        if self.color_on(m.to) == Some(them) {
            return true;
        }
        match self.en_passant {
            Some(ep) => ep == m.to && self.piece_on(m.from) == Some(Piece::Pawn) && m.from % 8
                != m.to % 8 && self.piece_on(m.to).is_none(),
            None => false,
        }
    }

    /// The halfmove clock after a move: plies since the last capture or pawn move.
    pub open spec fn next_halfmove_spec(self, m: Move) -> u32 {
        if self.is_capture_spec(m) || self.piece_on_spec(m.from) == Some(Piece::Pawn) {
            0
        } else if self.halfmove == u32::MAX {
            u32::MAX
        } else {
            (self.halfmove + 1) as u32
        }
    }

    /// The fullmove number after a move: it goes up when Black has moved.
    pub open spec fn next_fullmove_spec(self) -> u32 {
        if self.white_to_move || self.fullmove == u32::MAX {
            self.fullmove
        } else {
            (self.fullmove + 1) as u32
        }
    }

    /// The position after a legal move.
    pub open spec fn after_spec(self, m: Move) -> Position {
        position_of_raw(
            board_after_move(self.text_spec(), raw_of_move(m)),
            self.next_halfmove_spec(m),
            self.next_fullmove_spec(),
        )
    }

    /// Makes a legal move.
    pub fn make_move(&self, m: Move) -> (next: Position)
        requires
            m.wf(),
            self.is_legal(m),
        ensures
            next == self.after_spec(m),
    {
        let text = self.to_text();
        let raw_move = move_to_raw(m);
        let raw = raw_after_move(text.as_slice(), &raw_move);
        let halfmove: u32 = if self.is_capture(m) || self.piece_on(m.from) == Some(Piece::Pawn) {
            0
        } else if self.halfmove == u32::MAX {
            u32::MAX
        } else {
            self.halfmove + 1
        };
        let fullmove: u32 = if self.white_to_move || self.fullmove == u32::MAX {
            self.fullmove
        } else {
            self.fullmove + 1
        };
        Position::from_raw(&raw, halfmove, fullmove)
    }

    /// Makes a move if it is legal in this position.
    pub fn try_make_move(&self, m: Move) -> (r: Option<Position>)
        ensures
            r == if m.wf() && self.is_legal(m) {
                Some(self.after_spec(m))
            } else {
                None
            },
    {
        if !(m.from < 64 && m.to < 64 && m.promo != Some(Piece::Pawn) && m.promo != Some(
            Piece::King,
        )) {
            return None;
        }
        let text = self.to_text();
        if !check_description(&text) {
            return None;
        }
        let raw = raw_legal_moves(text.as_slice());
        let mut i: usize = 0;
        while i < raw.len()
            invariant
                i <= raw.len(),
                m.wf(),
                is_description(self.text_spec()),
                raw@ == legal_moves_of_text(self.text_spec()),
                forall|j: int|
                    0 <= j < raw@.len() ==> {
                        &&& (#[trigger] raw@[j]).from < 64
                        &&& raw@[j].to < 64
                        &&& (raw@[j].promo matches Some(k) ==> 1 <= k <= 4)
                    },
                forall|j: int| 0 <= j < i ==> raw@[j] != raw_of_move(m),
            decreases raw.len() - i,
        {
            let cand = move_from_raw(&raw[i]);
            if cand == m {
                proof {
                    assert(raw_of_move(m) == raw@[i as int]);
                    assert(legal_moves_of_text(self.text_spec()).contains(raw@[i as int]));
                }
                return Some(self.make_move(m));
            }
            proof {
                assert(move_of_raw(raw_of_move(m)) == m);
            }
            i += 1;
        }
        None
    }

    /// Whether a legal move leaves the opponent in check.
    pub fn gives_check(&self, m: Move) -> (r: bool)
        requires
            m.wf(),
            self.is_legal(m),
        ensures
            r == self.after_spec(m).in_check_spec(),
    {
        self.make_move(m).in_check()
    }

    pub open spec fn in_check_spec(self) -> bool {
        self.checkers != 0
    }

    pub fn in_check(&self) -> (r: bool)
        ensures
            r == self.in_check_spec(),
    {
        self.checkers != 0
    }

    /// No legal move and in check is checkmate; no legal move and not in
    /// check is stalemate.
    pub open spec fn status_spec(self) -> Status {
        if self.legal_moves_spec().len() > 0 {
            Status::Ongoing
        } else if self.checkers == 0 {
            Status::Stalemate
        } else {
            Status::Checkmate
        }
    }

    pub fn status(&self) -> (s: Status)
        ensures
            s == self.status_spec(),
    {
        let moves = self.legal_moves();
        status_of(moves.len(), self.checkers)
    }
}

/// Both sides have a king on the board.
pub open spec fn has_kings(p: Position) -> bool {
    &&& exists|sq: u8| sq < 64 && #[trigger] p.square_char_spec(sq) == 75
    &&& exists|sq: u8| sq < 64 && #[trigger] p.square_char_spec(sq) == 107
}

/// Neither side has more than sixteen pieces on the board.
pub open spec fn armies_fit(p: Position) -> bool {
    &&& side_count(p.text_spec(), true, 71) <= MAX_SIDE_PIECES
    &&& side_count(p.text_spec(), false, 71) <= MAX_SIDE_PIECES
}

/// A position can be described to the move generator exactly when both
/// sides have a king and neither has more than sixteen pieces.
pub proof fn lemma_described_with_kings(p: Position)
    ensures
        is_description(p.text_spec()) == (has_kings(p) && armies_fit(p)),
{
    let s = p.text_spec();
    assert forall|i: int| 0 <= i < 71 implies if i % 9 == 8 {
        #[trigger] s[i] == 47
    } else {
        is_square_char(s[i])
    } by {
        assert(s[i] == p.text_char_spec(i));
    }
    assert(s[71] == p.text_char_spec(71) && s[72] == p.text_char_spec(72) && s[73]
        == p.text_char_spec(73) && s[74] == p.text_char_spec(74) && s[75] == p.text_char_spec(75)
        && s[76] == p.text_char_spec(76) && s[77] == p.text_char_spec(77) && s[78]
        == p.text_char_spec(78) && s[79] == p.text_char_spec(79) && s[80] == p.text_char_spec(
        80,
    ));
    lemma_king_in_text(p, 75);
    lemma_king_in_text(p, 107);
}

proof fn lemma_king_in_text(p: Position, king: u8)
    requires
        king == 75 || king == 107,
    ensures
        (exists|i: int| 0 <= i < 71 && #[trigger] p.text_spec()[i] == king) == (exists|sq: u8|
            sq < 64 && #[trigger] p.square_char_spec(sq) == king),
{
    let s = p.text_spec();
    if exists|i: int| 0 <= i < 71 && #[trigger] s[i] == king {
        let i = choose|i: int| 0 <= i < 71 && #[trigger] s[i] == king;
        assert(s[i] == p.text_char_spec(i));
        let sq = ((7 - i / 9) * 8 + i % 9) as u8;
        assert(sq < 64 && p.square_char_spec(sq) == king);
    }
    if exists|sq: u8| sq < 64 && #[trigger] p.square_char_spec(sq) == king {
        let sq = choose|sq: u8| sq < 64 && #[trigger] p.square_char_spec(sq) == king;
        let i = (7 - sq as int / 8) * 9 + sq as int % 8;
        assert(0 <= i < 71 && i % 9 == sq as int % 8 && i / 9 == 7 - sq as int / 8);
        assert(s[i] == p.text_char_spec(i));
        assert(s[i] == king);
    }
}

/// Whether a text is a board description that the move generator can take.
pub fn check_description(text: &Vec<u8>) -> (r: bool)
    ensures
        r == is_description(text@),
{
    if text.len() != 81 {
        return false;
    }
    let mut white_king = false;
    let mut black_king = false;
    let mut whites: usize = 0;
    let mut blacks: usize = 0;
    let mut i: usize = 0;
    while i < 71
        invariant
            i <= 71,
            text@.len() == 81,
            whites == side_count(text@, true, i as int),
            blacks == side_count(text@, false, i as int),
            whites <= i,
            blacks <= i,
            forall|j: int|
                0 <= j < i ==> if j % 9 == 8 {
                    #[trigger] text@[j] == 47
                } else {
                    is_square_char(text@[j])
                },
            white_king == (exists|j: int| 0 <= j < i && #[trigger] text@[j] == 75),
            black_king == (exists|j: int| 0 <= j < i && #[trigger] text@[j] == 107),
        decreases 71 - i,
    {
        let c = text[i];
        if i % 9 == 8 {
            if c != 47 {
                return false;
            }
        } else {
            if !(c == 49 || c == 80 || c == 78 || c == 66 || c == 82 || c == 81 || c == 75 || c
                == 112 || c == 110 || c == 98 || c == 114 || c == 113 || c == 107) {
                return false;
            }
        }
        if c == 75 {
            white_king = true;
        }
        if c == 107 {
            black_king = true;
        }
        if c == 80 || c == 78 || c == 66 || c == 82 || c == 81 || c == 75 {
            whites += 1;
        }
        if c == 112 || c == 110 || c == 98 || c == 114 || c == 113 || c == 107 {
            blacks += 1;
        }
        i += 1;
    }
    if !(text[71] == 32 && text[73] == 32 && text[78] == 32) {
        return false;
    }
    if !(text[72] == 119 || text[72] == 98) {
        return false;
    }
    if !((text[74] == 75 || text[74] == 45) && (text[75] == 81 || text[75] == 45) && (text[76]
        == 107 || text[76] == 45) && (text[77] == 113 || text[77] == 45)) {
        return false;
    }
    if !((text[79] == 45 && text[80] == 45) || (97 <= text[79] && text[79] <= 104 && 49
        <= text[80] && text[80] <= 56)) {
        return false;
    }
    white_king && black_king && whites <= MAX_SIDE_PIECES && blacks <= MAX_SIDE_PIECES
}

/// The game status from the number of legal moves and the set of checkers.
pub fn status_of(n_legal: usize, checkers: u64) -> (s: Status)
    ensures
        s == if n_legal > 0 {
            Status::Ongoing
        } else if checkers == 0 {
            Status::Stalemate
        } else {
            Status::Checkmate
        },
{
    if n_legal > 0 {
        Status::Ongoing
    } else if checkers == 0 {
        Status::Stalemate
    } else {
        Status::Checkmate
    }
}

/// The key under which the table files a position.
pub fn board_key(b: &Position) -> (k: u64)
    ensures
        k == b.hash,
{
    b.hash
}

/// Plies since the last capture or pawn move.
pub fn halfmove_clock_from_fen(b: &Position) -> (n: u32)
    ensures
        n == b.halfmove,
{
    b.halfmove
}

/// The number of the move being played, counted from 1.
pub fn fullmove_number_from_fen(b: &Position) -> (n: u32)
    ensures
        n == b.fullmove,
{
    b.fullmove
}

} // verus!
