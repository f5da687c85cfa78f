//! Tunables, piece and move types, and the 16-bit move codec.
use vstd::prelude::*;

verus! {

pub const DEFAULT_DEPTH: i32 = 8;
pub const DEFAULT_ROLLOUTS: i32 = 0;
pub const MAX_AB_DEPTH: i32 = 64;
pub const INF: i32 = 60_000;
pub const MATE: i32 = 30_000;

/// Hard bound on the distance from the root that the search may reach,
/// check extensions included. The search needs it to end: a check extends
/// a line by a ply without using up depth, so depth alone does not bound
/// a line of checks.
pub const MAX_PLY: i32 = 128;

/// Hard bound on the length of a line of captures and checks that the
/// quiescence search follows. The search needs it to end: checks count as
/// noisy moves, and a line of checks need not run out by itself.
pub const MAX_QS_PLY: u32 = 32;

pub const Q_INCLUDE_CHECKS: bool = true;
pub const Q_FUTILITY_MARGIN: i32 = 150;

pub const LMR_MIN_DEPTH: i32 = 3;
pub const LMR_BASE_REDUCTION: i32 = 1;

pub const FUTILITY_MARGIN_BASE: i32 = 200;

pub const MCP_MIN_DEPTH: i32 = 3;
pub const MCP_START_AT: usize = 6;

pub const ASP_WINDOW: i32 = 24;
pub const ASP_MAX_WIDEN: i32 = 2048;

pub const P: i32 = 100;
pub const N: i32 = 320;
pub const B: i32 = 330;
pub const R_: i32 = 500;
pub const Q_: i32 = 900;

pub const TEMPO_BONUS: i32 = 10;
pub const BISHOP_PAIR_MG: i32 = 28;
pub const BISHOP_PAIR_EG: i32 = 12;
pub const CASTLED_BONUS_EARLY: i32 = 40;
pub const UNCASTLED_PENALTY_EARLY: i32 = 16;
pub const CENTER_PAWN_BONUS: i32 = 12;
pub const MINOR_DEV_PENALTY: i32 = 10;
pub const ROOK_OPEN_FILE_BONUS: i32 = 12;
pub const ROOK_SEMIOPEN_FILE_BONUS: i32 = 6;
pub const DOUBLED_PAWN_PENALTY_MG: i32 = 10;
pub const ISOLATED_PAWN_PENALTY_MG: i32 = 8;
pub const ROOK_ON_SEVENTH_EG: i32 = 18;
pub const ROOK_BEHIND_PASSER_EG: i32 = 20;

pub const PHASE_PAWN: i32 = 0;
pub const PHASE_KNIGHT: i32 = 1;
pub const PHASE_BISHOP: i32 = 1;
pub const PHASE_ROOK: i32 = 2;
pub const PHASE_QUEEN: i32 = 4;
pub const PHASE_MAX: i32 = 24;

pub const EXACT: i8 = 0;
pub const ALPHA: i8 = -1;
pub const BETA: i8 = 1;

#[derive(Clone, Copy, PartialEq, Eq, Structural, Debug)]
pub enum Color {
    White,
    Black,
}

#[derive(Clone, Copy, PartialEq, Eq, Structural, Debug)]
pub enum Piece {
    Pawn,
    Knight,
    Bishop,
    Rook,
    Queen,
    King,
}

/// A move: source square, destination square (both `0..64`, a1 = 0, h8 = 63)
/// and the piece promoted to, if any.
#[derive(Clone, Copy, PartialEq, Eq, Structural, Debug)]
pub struct Move {
    pub from: u8,
    pub to: u8,
    pub promo: Option<Piece>,
}

pub open spec fn clamp_spec(v: int, lo: int, hi: int) -> int {
    if v < lo {
        lo
    } else if v > hi {
        hi
    } else {
        v
    }
}

pub fn clamp(v: i32, lo: i32, hi: i32) -> (r: i32)
    ensures
        r == clamp_spec(v as int, lo as int, hi as int),
{
    if v < lo {
        lo
    } else if v > hi {
        hi
    } else {
        v
    }
}

pub open spec fn piece_val_spec(pc: Piece) -> int {
    match pc {
        Piece::Pawn => 100,
        Piece::Knight => 320,
        Piece::Bishop => 330,
        Piece::Rook => 500,
        Piece::Queen => 900,
        Piece::King => 0,
    }
}

pub fn piece_val(pc: Piece) -> (r: i32)
    ensures
        r == piece_val_spec(pc),
{
    match pc {
        Piece::Pawn => P,
        Piece::Knight => N,
        Piece::Bishop => B,
        Piece::Rook => R_,
        Piece::Queen => Q_,
        Piece::King => 0,
    }
}

pub open spec fn piece_code_spec(pc: Piece) -> int {
    match pc {
        Piece::Pawn => 1,
        Piece::Knight => 2,
        Piece::Bishop => 3,
        Piece::Rook => 4,
        Piece::Queen => 5,
        Piece::King => 6,
    }
}

pub fn piece_code(pc: Piece) -> (r: u8)
    ensures
        r == piece_code_spec(pc),
{
    match pc {
        Piece::Pawn => 1,
        Piece::Knight => 2,
        Piece::Bishop => 3,
        Piece::Rook => 4,
        Piece::Queen => 5,
        Piece::King => 6,
    }
}

pub open spec fn opp_spec(c: Color) -> Color {
    match c {
        Color::White => Color::Black,
        Color::Black => Color::White,
    }
}

pub fn opp(c: Color) -> (r: Color)
    ensures
        r == opp_spec(c),
{
    match c {
        Color::White => Color::Black,
        Color::Black => Color::White,
    }
}

/// Every midgame piece-square table is flat.
pub fn pst_for(piece: Piece, idx: usize) -> (r: i32)
    requires
        idx < 64,
    ensures
        r == 0,
{
    0
}

/// Endgame king table, rank 1 first. It only depends on how far the square
/// is from the edges, so it reads the same from either side of the board.
pub open spec fn pst_king_eg_spec(idx: int) -> int {
    let r = idx / 8;
    let f = idx % 8;
    let rd = if r < 4 { r } else { 7 - r };
    let fd = if f < 4 { f } else { 7 - f };
    if rd == 0 {
        if fd == 0 { -50 } else if fd == 1 { -40 } else { -30 }
    } else if rd == 1 {
        if fd == 0 { -40 } else if fd == 1 { -20 } else { 0 }
    } else if rd == 2 {
        if fd == 0 { -30 } else if fd == 1 { 0 } else if fd == 2 { 10 } else { 15 }
    } else {
        if fd == 0 { -30 } else if fd == 1 { 0 } else if fd == 2 { 15 } else { 20 }
    }
}

pub fn pst_king_eg(idx: usize) -> (r: i32)
    requires
        idx < 64,
    ensures
        r == pst_king_eg_spec(idx as int),
        -50 <= r <= 20,
{
    let r = idx / 8;
    let f = idx % 8;
    let rd = if r < 4 { r } else { 7 - r };
    let fd = if f < 4 { f } else { 7 - f };
    if rd == 0 {
        if fd == 0 { -50 } else if fd == 1 { -40 } else { -30 }
    } else if rd == 1 {
        if fd == 0 { -40 } else if fd == 1 { -20 } else { 0 }
    } else if rd == 2 {
        if fd == 0 { -30 } else if fd == 1 { 0 } else if fd == 2 { 10 } else { 15 }
    } else {
        if fd == 0 { -30 } else if fd == 1 { 0 } else if fd == 2 { 15 } else { 20 }
    }
}

/// Passed-pawn bonus by relative rank (0 = own back rank).
pub open spec fn passed_pawn_bonus_spec(rr: int) -> int {
    if rr == 1 {
        5
    } else if rr == 2 {
        12
    } else if rr == 3 {
        24
    } else if rr == 4 {
        40
    } else if rr == 5 {
        70
    } else if rr == 6 {
        110
    } else {
        0
    }
}

pub fn passed_pawn_bonus(rr: usize) -> (r: i32)
    ensures
        r == passed_pawn_bonus_spec(rr as int),
        0 <= r <= 110,
{
    if rr == 1 {
        5
    } else if rr == 2 {
        12
    } else if rr == 3 {
        24
    } else if rr == 4 {
        40
    } else if rr == 5 {
        70
    } else if rr == 6 {
        110
    } else {
        0
    }
}

pub open spec fn file_idx_spec(sq: u8) -> int {
    sq as int % 8
}

pub fn file_idx(sq: u8) -> (r: i32)
    ensures
        r == file_idx_spec(sq),
        0 <= r < 8,
{
    (sq % 8) as i32
}

pub open spec fn relative_rank_spec(color: Color, sq: u8) -> int {
    if color == Color::White {
        sq as int / 8
    } else {
        7 - sq as int / 8
    }
}

pub fn relative_rank(color: Color, sq: u8) -> (r: usize)
    requires
        sq < 64,
    ensures
        r == relative_rank_spec(color, sq),
        r < 8,
{
    let r: u8 = sq / 8;
    match color {
        Color::White => r as usize,
        Color::Black => (7 - r) as usize,
    }
}

/// Index into a table written from White's side: Black's squares are
/// flipped top to bottom.
pub open spec fn pst_index_spec(color: Color, sq: u8) -> int {
    if color == Color::White {
        sq as int
    } else {
        (7 - sq as int / 8) * 8 + sq as int % 8
    }
}

pub fn pst_index_for(color: Color, sq: u8) -> (r: usize)
    requires
        sq < 64,
    ensures
        r == pst_index_spec(color, sq),
        r < 64,
{
    match color {
        Color::White => sq as usize,
        Color::Black => {
            assert(sq ^ 56 == (7 - sq / 8) * 8 + sq % 8) by (bit_vector)
                requires
                    sq < 64,
            ;
            (sq ^ 56) as usize
        },
    }
}

impl Move {
    /// Both squares are on the board and the promotion, if any, is to a
    /// knight, bishop, rook or queen.
    pub open spec fn wf(self) -> bool {
        &&& self.from < 64
        &&& self.to < 64
        &&& self.promo != Some(Piece::Pawn)
        &&& self.promo != Some(Piece::King)
    }

    pub fn new(from: u8, to: u8, promo: Option<Piece>) -> (m: Move)
        ensures
            m == (Move { from, to, promo }),
    {
        Move { from, to, promo }
    }
}

pub open spec fn promo_code_spec(p: Option<Piece>) -> int {
    match p {
        Some(Piece::Knight) => 1,
        Some(Piece::Bishop) => 2,
        Some(Piece::Rook) => 3,
        Some(Piece::Queen) => 4,
        _ => 0,
    }
}

/// The packed form of a move: source in the low six bits, destination in
/// the next six, promotion code above them.
pub open spec fn pack_spec(m: Move) -> int {
    (m.from as int % 64) + 64 * (m.to as int % 64) + 4096 * promo_code_spec(m.promo)
}

pub open spec fn unpack_spec(code: u16) -> Option<Move> {
    if code == 0 {
        None
    } else {
        let pc = (code as int / 4096) % 8;
        Some(
            Move {
                from: (code as int % 64) as u8,
                to: ((code as int / 64) % 64) as u8,
                promo: if pc == 1 {
                    Some(Piece::Knight)
                } else if pc == 2 {
                    Some(Piece::Bishop)
                } else if pc == 3 {
                    Some(Piece::Rook)
                } else if pc == 4 {
                    Some(Piece::Queen)
                } else {
                    None
                },
            },
        )
    }
}

pub fn pack_move(m: Move) -> (code: u16)
    ensures
        code == pack_spec(m),
        code < 32768,
{
    let from: u16 = m.from as u16;
    let to: u16 = m.to as u16;
    let promo: u16 = match m.promo {
        Some(Piece::Knight) => 1,
        Some(Piece::Bishop) => 2,
        Some(Piece::Rook) => 3,
        Some(Piece::Queen) => 4,
        _ => 0,
    };
    assert((from & 63) | ((to & 63) << 6) | ((promo & 7) << 12) == (from % 64) + 64 * (to % 64)
        + 4096 * promo) by (bit_vector)
        requires
            promo < 8,
            from < 256,
            to < 256,
    ;
    (from & 63) | ((to & 63) << 6) | ((promo & 7) << 12)
}

pub fn unpack_move(code: u16) -> (m: Option<Move>)
    ensures
        m == unpack_spec(code),
        m.is_some() ==> m.unwrap().wf(),
        m.is_none() <==> code == 0,
{
    if code == 0 {
        return None;
    }
    assert(code & 63 == code % 64) by (bit_vector);
    assert((code >> 6) & 63 == (code / 64) % 64) by (bit_vector);
    assert((code >> 12) & 7 == (code / 4096) % 8) by (bit_vector);
    let from_idx: u8 = (code & 63) as u8;
    let to_idx: u8 = ((code >> 6) & 63) as u8;
    let pc: u16 = (code >> 12) & 7;
    let promo = if pc == 1 {
        Some(Piece::Knight)
    } else if pc == 2 {
        Some(Piece::Bishop)
    } else if pc == 3 {
        Some(Piece::Rook)
    } else if pc == 4 {
        Some(Piece::Queen)
    } else {
        None
    };
    Some(Move::new(from_idx, to_idx, promo))
}

/// Unpacking a packed move gives the move back, for every well-formed move
/// that leaves its square. (A move from a1 to a1 without promotion packs to
/// zero, the code that stands for "no move".)
pub proof fn lemma_pack_unpack(m: Move)
    requires
        m.wf(),
        m.from != m.to,
    ensures
        0 < pack_spec(m) < 32768,
        unpack_spec(pack_spec(m) as u16) == Some(m),
{
    let f = m.from as int;
    let t = m.to as int;
    let p = promo_code_spec(m.promo);
    let c = pack_spec(m);
    assert(c == f + 64 * t + 4096 * p);
    assert(c % 64 == f) by (nonlinear_arith)
        requires
            c == f + 64 * t + 4096 * p,
            0 <= f < 64,
            0 <= t < 64,
            0 <= p < 8,
    ;
    assert((c / 64) % 64 == t) by (nonlinear_arith)
        requires
            c == f + 64 * t + 4096 * p,
            0 <= f < 64,
            0 <= t < 64,
            0 <= p < 8,
    ;
    assert((c / 4096) % 8 == p) by (nonlinear_arith)
        requires
            c == f + 64 * t + 4096 * p,
            0 <= f < 64,
            0 <= t < 64,
            0 <= p < 8,
    ;
}

/// The code zero stands for "no move".
pub proof fn lemma_unpack_zero()
    ensures
        unpack_spec(0) == None::<Move>,
{
}

/// Two well-formed moves with the same code are the same move.
pub proof fn lemma_pack_injective(a: Move, b: Move)
    requires
        a.wf(),
        b.wf(),
        pack_spec(a) == pack_spec(b),
    ensures
        a == b,
{
    let c = pack_spec(a);
    let fa = a.from as int;
    let ta = a.to as int;
    let pa = promo_code_spec(a.promo);
    let fb = b.from as int;
    let tb = b.to as int;
    let pb = promo_code_spec(b.promo);
    assert(fa == fb && ta == tb && pa == pb) by (nonlinear_arith)
        requires
            fa + 64 * ta + 4096 * pa == fb + 64 * tb + 4096 * pb,
            0 <= fa < 64,
            0 <= ta < 64,
            0 <= pa < 8,
            0 <= fb < 64,
            0 <= tb < 64,
            0 <= pb < 8,
    ;
}

} // verus!
