//! Material counts and pawn-structure tests on a position.
use crate::position::Position;
use crate::types::{clamp, clamp_spec, opp, opp_spec, relative_rank_spec, Color, Piece};
use vstd::prelude::*;

verus! {

/// The number of squares below `n` that hold a piece of this kind and colour.
pub open spec fn count_upto(p: Position, piece: Piece, color: Color, n: int) -> int
    decreases n,
{
    if n <= 0 {
        0
    } else {
        count_upto(p, piece, color, n - 1) + if p.has(piece, color, (n - 1) as u8) {
            1int
        } else {
            0int
        }
    }
}

pub open spec fn count_spec(p: Position, piece: Piece, color: Color) -> int {
    count_upto(p, piece, color, 64)
}

pub fn count_pieces(b: &Position, piece: Piece, color: Color) -> (n: i32)
    ensures
        n == count_spec(*b, piece, color),
        0 <= n <= 64,
{
    let mut n: i32 = 0;
    let mut sq: u8 = 0;
    while sq < 64
        invariant
            sq <= 64,
            0 <= n <= sq,
            n == count_upto(*b, piece, color, sq as int),
        decreases 64 - sq,
    {
        if b.occupies(piece, color, sq) {
            n += 1;
        }
        sq += 1;
    }
    n
}

/// The phase weight of one side: a knight or bishop counts 1, a rook 2, a queen 4.
pub open spec fn side_phase_spec(p: Position, c: Color) -> int {
    count_spec(p, Piece::Knight, c) + count_spec(p, Piece::Bishop, c) + 2 * count_spec(
        p,
        Piece::Rook,
        c,
    ) + 4 * count_spec(p, Piece::Queen, c)
}

pub open spec fn game_phase_spec(p: Position) -> int {
    clamp_spec(side_phase_spec(p, Color::White) + side_phase_spec(p, Color::Black), 0, 24)
}

fn side_phase(b: &Position, c: Color) -> (r: i32)
    ensures
        r == side_phase_spec(*b, c),
        0 <= r <= 512,
{
    count_pieces(b, Piece::Knight, c) + count_pieces(b, Piece::Bishop, c) + 2 * count_pieces(
        b,
        Piece::Rook,
        c,
    ) + 4 * count_pieces(b, Piece::Queen, c)
}

pub fn game_phase(b: &Position) -> (r: i32)
    ensures
        r == game_phase_spec(*b),
        0 <= r <= 24,
{
    let phase: i32 = side_phase(b, Color::White) + side_phase(b, Color::Black);
    clamp(phase, 0, 24)
}

pub open spec fn minors_spec(p: Position, c: Color) -> int {
    count_spec(p, Piece::Knight, c) + count_spec(p, Piece::Bishop, c)
}

pub open spec fn both_sides(p: Position, piece: Piece) -> int {
    count_spec(p, piece, Color::White) + count_spec(p, piece, Color::Black)
}

/// Neither side has a pawn, rook or queen, and each has at most one minor piece.
pub open spec fn insufficient_material_spec(p: Position) -> bool {
    &&& both_sides(p, Piece::Pawn) == 0
    &&& both_sides(p, Piece::Rook) == 0
    &&& both_sides(p, Piece::Queen) == 0
    &&& minors_spec(p, Color::White) <= 1
    &&& minors_spec(p, Color::Black) <= 1
}

fn count_both(b: &Position, piece: Piece) -> (r: i32)
    ensures
        r == both_sides(*b, piece),
        0 <= r <= 128,
{
    count_pieces(b, piece, Color::White) + count_pieces(b, piece, Color::Black)
}

fn minors(b: &Position, c: Color) -> (r: i32)
    ensures
        r == minors_spec(*b, c),
        0 <= r <= 128,
{
    count_pieces(b, Piece::Knight, c) + count_pieces(b, Piece::Bishop, c)
}

pub fn insufficient_material(b: &Position) -> (r: bool)
    ensures
        r == insufficient_material_spec(*b),
{
    let no_pawns = count_both(b, Piece::Pawn) == 0;
    let no_rooks = count_both(b, Piece::Rook) == 0;
    let no_queens = count_both(b, Piece::Queen) == 0;
    if no_pawns && no_rooks && no_queens {
        return minors(b, Color::White) <= 1 && minors(b, Color::Black) <= 1;
    }
    false
}

/// Material of one side in centipawns, kings left out.
pub open spec fn material_spec(p: Position, c: Color) -> int {
    100 * count_spec(p, Piece::Pawn, c) + 320 * count_spec(p, Piece::Knight, c) + 330
        * count_spec(p, Piece::Bishop, c) + 500 * count_spec(p, Piece::Rook, c) + 900
        * count_spec(p, Piece::Queen, c)
}

pub fn material(b: &Position, c: Color) -> (r: i32)
    ensures
        r == material_spec(*b, c),
        0 <= r <= 137_600,
{
    100 * count_pieces(b, Piece::Pawn, c) + 320 * count_pieces(b, Piece::Knight, c) + 330
        * count_pieces(b, Piece::Bishop, c) + 500 * count_pieces(b, Piece::Rook, c) + 900
        * count_pieces(b, Piece::Queen, c)
}

pub open spec fn total_material_spec(p: Position) -> int {
    material_spec(p, Color::White) + material_spec(p, Color::Black)
}

pub fn total_material_excl_kings(b: &Position) -> (r: i32)
    ensures
        r == total_material_spec(*b),
{
    material(b, Color::White) + material(b, Color::Black)
}

pub fn is_endgame_like(b: &Position) -> (r: bool)
    ensures
        r == (total_material_spec(*b) <= 1200),
{
    total_material_excl_kings(b) <= 1200
}

pub open spec fn total_piece_count_spec(p: Position) -> int {
    both_sides(p, Piece::Pawn) + both_sides(p, Piece::Knight) + both_sides(p, Piece::Bishop)
        + both_sides(p, Piece::Rook) + both_sides(p, Piece::Queen) + both_sides(p, Piece::King)
}

pub fn total_piece_count(b: &Position) -> (n: i32)
    ensures
        n == total_piece_count_spec(*b),
{
    count_both(b, Piece::Pawn) + count_both(b, Piece::Knight) + count_both(b, Piece::Bishop)
        + count_both(b, Piece::Rook) + count_both(b, Piece::Queen) + count_both(b, Piece::King)
}

/// The lowest square at or above `start` that holds a piece of this kind and colour.
pub open spec fn first_from(p: Position, piece: Piece, color: Color, start: int) -> Option<u8>
    decreases 64 - start,
{
    if start >= 64 || start < 0 {
        None
    } else if p.has(piece, color, start as u8) {
        Some(start as u8)
    } else {
        first_from(p, piece, color, start + 1)
    }
}

pub open spec fn first_square_spec(p: Position, piece: Piece, color: Color) -> Option<u8> {
    first_from(p, piece, color, 0)
}

pub fn first_square(b: &Position, piece: Piece, color: Color) -> (r: Option<u8>)
    ensures
        r == first_square_spec(*b, piece, color),
        r matches Some(sq) ==> sq < 64 && b.has(piece, color, sq),
{
    let mut sq: u8 = 0;
    while sq < 64
        invariant
            sq <= 64,
            first_from(*b, piece, color, 0) == first_from(*b, piece, color, sq as int),
        decreases 64 - sq,
    {
        if b.occupies(piece, color, sq) {
            return Some(sq);
        }
        sq += 1;
    }
    None
}

/// The king stands where castling puts it: g1 or c1 for White, g8 or c8 for Black.
pub open spec fn is_castled_spec(p: Position, c: Color) -> bool {
    match first_square_spec(p, Piece::King, c) {
        Some(k) => if c == Color::White {
            k == 6 || k == 2
        } else {
            k == 62 || k == 58
        },
        None => false,
    }
}

pub fn is_castled(b: &Position, c: Color) -> (r: bool)
    ensures
        r == is_castled_spec(*b, c),
{
    match first_square(b, Piece::King, c) {
        Some(k) => match c {
            Color::White => k == 6 || k == 2,
            Color::Black => k == 62 || k == 58,
        },
        None => false,
    }
}

/// The number of pawns of one colour on a file, among the squares below `n`.
pub open spec fn file_pawns_upto(p: Position, c: Color, file: int, n: int) -> int
    decreases n,
{
    if n <= 0 {
        0
    } else {
        file_pawns_upto(p, c, file, n - 1) + if (n - 1) % 8 == file && p.has(
            Piece::Pawn,
            c,
            (n - 1) as u8,
        ) {
            1int
        } else {
            0int
        }
    }
}

pub open spec fn file_pawns_spec(p: Position, c: Color, file: int) -> int {
    file_pawns_upto(p, c, file, 64)
}

pub fn pawns_on_file(b: &Position, c: Color, file: i32) -> (n: i32)
    ensures
        n == file_pawns_spec(*b, c, file as int),
        0 <= n <= 64,
{
    let mut n: i32 = 0;
    let mut sq: u8 = 0;
    while sq < 64
        invariant
            sq <= 64,
            0 <= n <= sq,
            n == file_pawns_upto(*b, c, file as int, sq as int),
        decreases 64 - sq,
    {
        if (sq % 8) as i32 == file && b.occupies(Piece::Pawn, c, sq) {
            n += 1;
        }
        sq += 1;
    }
    n
}

/// 12 on a file without pawns, 6 on a file with enemy pawns only, else 0.
pub open spec fn rook_file_bonus_spec(p: Position, c: Color, sq: u8) -> int {
    if file_pawns_spec(p, c, sq as int % 8) >= 1 {
        0
    } else if file_pawns_spec(p, opp_spec(c), sq as int % 8) >= 1 {
        6
    } else {
        12
    }
}

pub fn rook_file_bonus(b: &Position, c: Color, sq: u8) -> (r: i32)
    ensures
        r == rook_file_bonus_spec(*b, c, sq),
        0 <= r <= 12,
{
    let f: i32 = (sq % 8) as i32;
    if pawns_on_file(b, c, f) >= 1 {
        return 0;
    }
    if pawns_on_file(b, opp(c), f) >= 1 {
        6
    } else {
        12
    }
}

pub fn is_doubled_pawn_on_file(b: &Position, c: Color, file: i32) -> (r: bool)
    ensures
        r == (file_pawns_spec(*b, c, file as int) >= 2),
{
    pawns_on_file(b, c, file) >= 2
}

/// No pawn of this colour stands on either neighbouring file.
pub open spec fn is_isolated_spec(p: Position, c: Color, file: int) -> bool {
    &&& !(0 <= file - 1 <= 7 && file_pawns_spec(p, c, file - 1) >= 1)
    &&& !(0 <= file + 1 <= 7 && file_pawns_spec(p, c, file + 1) >= 1)
}

pub fn is_isolated_pawn(b: &Position, c: Color, file: i32) -> (r: bool)
    ensures
        r == is_isolated_spec(*b, c, file as int),
{
    let left = 1 <= file && file <= 8 && pawns_on_file(b, c, file - 1) >= 1;
    let right = -1 <= file && file <= 6 && pawns_on_file(b, c, file + 1) >= 1;
    !(left || right)
}

/// Square `s` lies on the file of `sq` or next to it, and strictly ahead
/// of `sq` as `us` sees the board.
pub open spec fn ahead_spec(us: Color, sq: u8, s: u8) -> bool {
    &&& -1 <= (s as int % 8) - (sq as int % 8) <= 1
    &&& relative_rank_spec(us, s) > relative_rank_spec(us, sq)
}

/// A pawn of `us` stands on `sq` and no enemy pawn stands ahead of it on
/// its own or a neighbouring file.
pub open spec fn is_passed_spec(p: Position, sq: u8, us: Color) -> bool {
    &&& p.has(Piece::Pawn, us, sq)
    &&& forall|s: u8|
        s < 64 && ahead_spec(us, sq, s) ==> !#[trigger] p.has(Piece::Pawn, opp_spec(us), s)
}

fn is_ahead(us: Color, sq: u8, s: u8) -> (r: bool)
    requires
        sq < 64,
        s < 64,
    ensures
        r == ahead_spec(us, sq, s),
{
    let fs: i32 = (s % 8) as i32;
    let fq: i32 = (sq % 8) as i32;
    let rs: u8 = s / 8;
    let rq: u8 = sq / 8;
    let near = -1 <= fs - fq && fs - fq <= 1;
    match us {
        Color::White => near && rs > rq,
        Color::Black => near && 7 - rs > 7 - rq,
    }
}

pub fn is_passed_pawn(b: &Position, sq: u8, us: Color) -> (r: bool)
    requires
        sq < 64,
    ensures
        r == is_passed_spec(*b, sq, us),
{
    if !b.occupies(Piece::Pawn, us, sq) {
        return false;
    }
    let them = opp(us);
    let mut s: u8 = 0;
    while s < 64
        invariant
            s <= 64,
            sq < 64,
            them == opp_spec(us),
            b.has(Piece::Pawn, us, sq),
            forall|t: u8|
                t < s && ahead_spec(us, sq, t) ==> !#[trigger] b.has(Piece::Pawn, them, t),
        decreases 64 - s,
    {
        if is_ahead(us, sq, s) && b.occupies(Piece::Pawn, them, s) {
            return false;
        }
        s += 1;
    }
    true
}

} // verus!
