//! Tapered static evaluation, from the point of view of the side to move.
use crate::features::{
    both_sides, count_pieces, count_spec, file_pawns_spec, first_square, first_square_spec,
    game_phase, game_phase_spec, insufficient_material, insufficient_material_spec,
    is_castled, is_castled_spec, is_isolated_pawn, is_isolated_spec, is_passed_pawn,
    is_passed_spec, material, material_spec, pawns_on_file, rook_file_bonus,
    rook_file_bonus_spec,
};
use crate::position::{Position, Status};
use crate::types::{
    clamp, clamp_spec, opp, opp_spec, passed_pawn_bonus, passed_pawn_bonus_spec, pst_index_for,
    pst_index_spec, pst_king_eg, pst_king_eg_spec, relative_rank, relative_rank_spec, Color,
    Piece,
};
use vstd::prelude::*;

verus! {

/// The hand-tuned evaluator.
pub struct ClassicalEval;

/// Integer division that rounds toward zero.
pub open spec fn div_toward_zero_spec(a: int, b: int) -> int {
    if a >= 0 {
        a / b
    } else {
        -((-a) / b)
    }
}

pub fn div_toward_zero(a: i32, b: i32) -> (r: i32)
    requires
        b > 0,
        a > i32::MIN,
    ensures
        r == div_toward_zero_spec(a as int, b as int),
        a >= 0 ==> 0 <= r <= a,
        a < 0 ==> a <= r <= 0,
{
    if a >= 0 {
        let r = a / b;
        assert(0 <= r <= a) by (nonlinear_arith)
            requires
                r == a as int / b as int,
                a >= 0,
                b > 0,
        ;
        r
    } else {
        let n: i32 = -a;
        let q = n / b;
        assert(0 <= q <= n) by (nonlinear_arith)
            requires
                q == n as int / b as int,
                n >= 0,
                b > 0,
        ;
        -q
    }
}

/// +1 for the side to move, -1 for the other side.
pub open spec fn sign_spec(p: Position, c: Color) -> int {
    if c == p.side_spec() {
        1
    } else {
        -1
    }
}

/// A pawn on d4 or e4 for White, on d5 or e5 for Black.
pub open spec fn central_spec(c: Color, sq: u8) -> bool {
    if c == Color::White {
        sq == 27 || sq == 28
    } else {
        sq == 35 || sq == 36
    }
}

/// What one square adds to a side's midgame sum: for a pawn the centre
/// bonus less the penalties for a doubled and for an isolated pawn, for
/// a rook the bonus of its file.
pub open spec fn mg_square_spec(p: Position, c: Color, sq: u8) -> int {
    (if p.has(Piece::Pawn, c, sq) {
        (if central_spec(c, sq) { 12int } else { 0 }) - (if file_pawns_spec(p, c, sq as int % 8)
            >= 2 { 10int } else { 0 }) - (if is_isolated_spec(p, c, sq as int % 8) {
            8int
        } else {
            0
        })
    } else {
        0
    }) + (if p.has(Piece::Rook, c, sq) {
        rook_file_bonus_spec(p, c, sq)
    } else {
        0
    })
}

/// The number of passed pawns of `c` below square `n` that stand on the
/// file of `rook` and nearer to promotion than it.
pub open spec fn passers_ahead_upto(p: Position, c: Color, rook: u8, n: int) -> int
    decreases n,
{
    if n <= 0 {
        0
    } else {
        passers_ahead_upto(p, c, rook, n - 1) + if (n - 1) % 8 == rook as int % 8
            && relative_rank_spec(c, rook) < relative_rank_spec(c, (n - 1) as u8)
            && is_passed_spec(p, (n - 1) as u8, c) {
            1int
        } else {
            0int
        }
    }
}

/// The enemy of `c` has a pawn, or its king stands on its back rank.
pub open spec fn seventh_matters_spec(p: Position, c: Color) -> bool {
    ||| count_spec(p, Piece::Pawn, opp_spec(c)) > 0
    ||| match first_square_spec(p, Piece::King, opp_spec(c)) {
        Some(k) => if c == Color::White {
            k / 8 == 7
        } else {
            k / 8 == 0
        },
        None => false,
    }
}

/// What one square adds to a side's endgame sum: for a passed pawn the
/// bonus of its rank; for a rook 18 on the seventh rank where that
/// matters, and 20 for each own passed pawn it stands behind.
pub open spec fn eg_square_spec(p: Position, c: Color, sq: u8) -> int {
    (if is_passed_spec(p, sq, c) {
        passed_pawn_bonus_spec(relative_rank_spec(c, sq))
    } else {
        0
    }) + (if p.has(Piece::Rook, c, sq) {
        (if relative_rank_spec(c, sq) == 6 && seventh_matters_spec(p, c) {
            18int
        } else {
            0
        }) + 20 * passers_ahead_upto(p, c, sq, 64)
    } else {
        0
    })
}

pub open spec fn mg_squares_upto(p: Position, c: Color, n: int) -> int
    decreases n,
{
    if n <= 0 {
        0
    } else {
        mg_squares_upto(p, c, n - 1) + mg_square_spec(p, c, (n - 1) as u8)
    }
}

pub open spec fn eg_squares_upto(p: Position, c: Color, n: int) -> int
    decreases n,
{
    if n <= 0 {
        0
    } else {
        eg_squares_upto(p, c, n - 1) + eg_square_spec(p, c, (n - 1) as u8)
    }
}

pub open spec fn minor_on(p: Position, c: Color, sq: u8) -> int {
    if p.has(Piece::Knight, c, sq) || p.has(Piece::Bishop, c, sq) {
        1
    } else {
        0
    }
}

/// Knights and bishops still on the squares they start from.
pub open spec fn stuck_minors_spec(p: Position, c: Color) -> int {
    if c == Color::White {
        minor_on(p, c, 1) + minor_on(p, c, 2) + minor_on(p, c, 5) + minor_on(p, c, 6)
    } else {
        minor_on(p, c, 57) + minor_on(p, c, 58) + minor_on(p, c, 61) + minor_on(p, c, 62)
    }
}

/// The opening lasts while two thirds of the phase weight are on the board.
pub open spec fn opening_spec(p: Position) -> bool {
    game_phase_spec(p) >= 16
}

pub open spec fn mg_side_spec(p: Position, c: Color) -> int {
    material_spec(p, c) + (if count_spec(p, Piece::Bishop, c) >= 2 { 28int } else { 0 }) + (
    if opening_spec(p) {
        if is_castled_spec(p, c) {
            40int
        } else if p.fullmove >= 10 {
            -16int
        } else {
            0
        }
    } else {
        0
    }) + mg_squares_upto(p, c, 64) - (if opening_spec(p) {
        10 * stuck_minors_spec(p, c)
    } else {
        0
    })
}

pub open spec fn eg_side_spec(p: Position, c: Color) -> int {
    material_spec(p, c) + (if count_spec(p, Piece::Bishop, c) >= 2 { 12int } else { 0 }) + (
    match first_square_spec(p, Piece::King, c) {
        Some(k) => pst_king_eg_spec(pst_index_spec(c, k)),
        None => 0,
    }) + eg_squares_upto(p, c, 64)
}

pub open spec fn is_light_spec(sq: u8) -> bool {
    ((sq as int % 8) + (sq as int / 8)) % 2 == 0
}

/// No rooks or queens are left, each side has exactly one bishop, and
/// the two bishops stand on squares of different colour.
pub open spec fn opposite_bishops_spec(p: Position) -> bool {
    &&& both_sides(p, Piece::Rook) == 0
    &&& both_sides(p, Piece::Queen) == 0
    &&& count_spec(p, Piece::Bishop, Color::White) == 1
    &&& count_spec(p, Piece::Bishop, Color::Black) == 1
    &&& match (
        first_square_spec(p, Piece::Bishop, Color::White),
        first_square_spec(p, Piece::Bishop, Color::Black),
    ) {
        (Some(w), Some(b)) => is_light_spec(w) != is_light_spec(b),
        _ => false,
    }
}

pub open spec fn scaled_spec(p: Position, v: int) -> int {
    if opposite_bishops_spec(p) {
        div_toward_zero_spec(v * 3, 4)
    } else {
        v
    }
}

/// The midgame sum: each side's terms with the sign of that side, and
/// the tempo bonus of the side to move.
pub open spec fn mg_spec(p: Position) -> int {
    sign_spec(p, Color::White) * mg_side_spec(p, Color::White) + sign_spec(p, Color::Black)
        * mg_side_spec(p, Color::Black) + 10
}

pub open spec fn eg_spec(p: Position) -> int {
    sign_spec(p, Color::White) * eg_side_spec(p, Color::White) + sign_spec(p, Color::Black)
        * eg_side_spec(p, Color::Black)
}

/// The two sums mixed by the game phase.
pub open spec fn tapered_spec(p: Position) -> int {
    div_toward_zero_spec(
        scaled_spec(p, mg_spec(p)) * game_phase_spec(p) + scaled_spec(p, eg_spec(p)) * (24
            - game_phase_spec(p)),
        24,
    )
}

/// The score of a position whose game status is `status`.
pub open spec fn eval_at(p: Position, status: Status) -> int {
    match status {
        Status::Checkmate => -30_000,
        Status::Stalemate => 0,
        Status::Ongoing => if insufficient_material_spec(p) || p.halfmove >= 100 {
            0
        } else {
            clamp_spec(tapered_spec(p), -59_999, 59_999)
        },
    }
}

pub open spec fn eval_spec(p: Position) -> int {
    eval_at(p, p.status_spec())
}

fn is_central(c: Color, sq: u8) -> (r: bool)
    ensures
        r == central_spec(c, sq),
{
    match c {
        Color::White => sq == 27 || sq == 28,
        Color::Black => sq == 35 || sq == 36,
    }
}

fn mg_square(b: &Position, c: Color, sq: u8) -> (r: i32)
    requires
        sq < 64,
    ensures
        r == mg_square_spec(*b, c, sq),
        -18 <= r <= 24,
{
    let mut r: i32 = 0;
    if b.occupies(Piece::Pawn, c, sq) {
        let f: i32 = (sq % 8) as i32;
        if is_central(c, sq) {
            r += 12;
        }
        if pawns_on_file(b, c, f) >= 2 {
            r -= 10;
        }
        if is_isolated_pawn(b, c, f) {
            r -= 8;
        }
    }
    if b.occupies(Piece::Rook, c, sq) {
        r += rook_file_bonus(b, c, sq);
    }
    r
}

fn passers_ahead(b: &Position, c: Color, rook: u8) -> (n: i32)
    requires
        rook < 64,
    ensures
        n == passers_ahead_upto(*b, c, rook, 64),
        0 <= n <= 64,
{
    let mut n: i32 = 0;
    let mut s: u8 = 0;
    let rr = relative_rank(c, rook);
    while s < 64
        invariant
            s <= 64,
            rook < 64,
            rr == relative_rank_spec(c, rook),
            0 <= n <= s,
            n == passers_ahead_upto(*b, c, rook, s as int),
        decreases 64 - s,
    {
        if s % 8 == rook % 8 && rr < relative_rank(c, s) && is_passed_pawn(b, s, c) {
            n += 1;
        }
        s += 1;
    }
    n
}

fn seventh_matters(b: &Position, c: Color) -> (r: bool)
    ensures
        r == seventh_matters_spec(*b, c),
{
    let them = opp(c);
    if count_pieces(b, Piece::Pawn, them) > 0 {
        return true;
    }
    match first_square(b, Piece::King, them) {
        Some(k) => match c {
            Color::White => k / 8 == 7,
            Color::Black => k / 8 == 0,
        },
        None => false,
    }
}

fn eg_square(b: &Position, c: Color, sq: u8, seventh: bool) -> (r: i32)
    requires
        sq < 64,
        seventh == seventh_matters_spec(*b, c),
    ensures
        r == eg_square_spec(*b, c, sq),
        0 <= r <= 1408,
{
    let mut r: i32 = 0;
    if is_passed_pawn(b, sq, c) {
        r += passed_pawn_bonus(relative_rank(c, sq));
    }
    if b.occupies(Piece::Rook, c, sq) {
        if relative_rank(c, sq) == 6 && seventh {
            r += 18;
        }
        r += 20 * passers_ahead(b, c, sq);
    }
    r
}

fn minor_at(b: &Position, c: Color, sq: u8) -> (r: i32)
    requires
        sq < 64,
    ensures
        r == minor_on(*b, c, sq),
        0 <= r <= 1,
{
    if b.occupies(Piece::Knight, c, sq) || b.occupies(Piece::Bishop, c, sq) {
        1
    } else {
        0
    }
}

fn stuck_minors(b: &Position, c: Color) -> (r: i32)
    ensures
        r == stuck_minors_spec(*b, c),
        0 <= r <= 4,
{
    match c {
        Color::White => minor_at(b, c, 1) + minor_at(b, c, 2) + minor_at(b, c, 5) + minor_at(
            b,
            c,
            6,
        ),
        Color::Black => minor_at(b, c, 57) + minor_at(b, c, 58) + minor_at(b, c, 61) + minor_at(
            b,
            c,
            62,
        ),
    }
}

/// The midgame and the endgame sum of one side, unsigned.
fn side_sums(b: &Position, c: Color) -> (r: (i32, i32))
    ensures
        r.0 == mg_side_spec(*b, c),
        r.1 == eg_side_spec(*b, c),
        -2_000 <= r.0 <= 140_000,
        -2_000 <= r.1 <= 230_000,
{
    let mat = material(b, c);
    let mut mg: i32 = mat;
    let mut eg: i32 = mat;
    let opening = game_phase(b) >= 16;
    if count_pieces(b, Piece::Bishop, c) >= 2 {
        mg += 28;
        eg += 12;
    }
    if opening {
        if is_castled(b, c) {
            mg += 40;
        } else if b.fullmove >= 10 {
            mg -= 16;
        }
        mg -= 10 * stuck_minors(b, c);
    }
    match first_square(b, Piece::King, c) {
        Some(k) => {
            eg += pst_king_eg(pst_index_for(c, k));
        },
        None => {},
    }
    let seventh = seventh_matters(b, c);
    let mut mg_sq: i32 = 0;
    let mut eg_sq: i32 = 0;
    let mut sq: u8 = 0;
    while sq < 64
        invariant
            sq <= 64,
            seventh == seventh_matters_spec(*b, c),
            mg_sq == mg_squares_upto(*b, c, sq as int),
            eg_sq == eg_squares_upto(*b, c, sq as int),
            -18 * sq <= mg_sq <= 24 * sq,
            0 <= eg_sq <= 1408 * sq,
        decreases 64 - sq,
    {
        mg_sq += mg_square(b, c, sq);
        eg_sq += eg_square(b, c, sq, seventh);
        sq += 1;
    }
    (mg + mg_sq, eg + eg_sq)
}

fn is_light(sq: u8) -> (r: bool)
    ensures
        r == is_light_spec(sq),
{
    ((sq % 8) + (sq / 8)) % 2 == 0
}

fn opposite_bishops(b: &Position) -> (r: bool)
    ensures
        r == opposite_bishops_spec(*b),
{
    if count_pieces(b, Piece::Rook, Color::White) + count_pieces(b, Piece::Rook, Color::Black)
        != 0 {
        return false;
    }
    if count_pieces(b, Piece::Queen, Color::White) + count_pieces(b, Piece::Queen, Color::Black)
        != 0 {
        return false;
    }
    if count_pieces(b, Piece::Bishop, Color::White) != 1 || count_pieces(
        b,
        Piece::Bishop,
        Color::Black,
    ) != 1 {
        return false;
    }
    match (first_square(b, Piece::Bishop, Color::White), first_square(
        b,
        Piece::Bishop,
        Color::Black,
    )) {
        (Some(w), Some(k)) => is_light(w) != is_light(k),
        _ => false,
    }
}

impl ClassicalEval {
    /// The static score of a position whose game status is already known.
    pub fn eval_with_status(&self, b: &Position, status: Status) -> (score: i32)
        ensures
            score == eval_at(*b, status),
            -60_000 < score < 60_000,
    {
        match status {
            Status::Checkmate => {
                return -30_000;
            },
            Status::Stalemate => {
                return 0;
            },
            Status::Ongoing => {},
        }
        if insufficient_material(b) {
            return 0;
        }
        if b.halfmove >= 100 {
            return 0;
        }
        let white = side_sums(b, Color::White);
        let black = side_sums(b, Color::Black);
        let mut mg: i32;
        let mut eg: i32;
        if b.white_to_move {
            mg = white.0 - black.0 + 10;
            eg = white.1 - black.1;
        } else {
            mg = black.0 - white.0 + 10;
            eg = black.1 - white.1;
        }
        if opposite_bishops(b) {
            mg = div_toward_zero(mg * 3, 4);
            eg = div_toward_zero(eg * 3, 4);
        }
        let phase = game_phase(b);
        assert(-10_000_000 <= mg * phase <= 10_000_000) by (nonlinear_arith)
            requires
                -400_000 <= mg <= 400_000,
                0 <= phase <= 24,
        ;
        assert(-20_000_000 <= eg * (24 - phase) <= 20_000_000) by (nonlinear_arith)
            requires
                -800_000 <= eg <= 800_000,
                0 <= phase <= 24,
        ;
        let mixed = div_toward_zero(mg * phase + eg * (24 - phase), 24);
        clamp(mixed, -59_999, 59_999)
    }

    /// The static score of a position, in centipawns, as the side to move
    /// sees it.
    pub fn eval(&self, b: &Position) -> (score: i32)
        ensures
            score == eval_spec(*b),
            -60_000 < score < 60_000,
    {
        let status = b.status();
        self.eval_with_status(b, status)
    }
}

} // verus!
