//! The evaluation does not care which side is which: a position and its
//! mirror image, colours swapped and the other side to move, get the same
//! score.
use crate::eval::{
    central_spec, eg_side_spec, eg_spec, eg_square_spec, eg_squares_upto, eval_at,
    is_light_spec, mg_side_spec, mg_spec, mg_square_spec, mg_squares_upto, minor_on,
    opening_spec, opposite_bishops_spec, passers_ahead_upto, seventh_matters_spec,
    sign_spec, stuck_minors_spec, tapered_spec,
};
use crate::features::{
    ahead_spec, count_spec, count_upto, file_pawns_spec, file_pawns_upto,
    first_from, first_square_spec, game_phase_spec, insufficient_material_spec,
    is_castled_spec, is_passed_spec, material_spec, minors_spec,
    side_phase_spec,
};
use crate::position::{Position, Status};
use crate::types::{
    opp_spec, pst_index_spec, pst_king_eg_spec, relative_rank_spec, Color, Piece,
};
use vstd::prelude::*;

verus! {

/// The square that lies as far from the top of the board as `sq` lies
/// from the bottom, on the same file.
pub open spec fn flip_sq(sq: u8) -> u8 {
    ((7 - sq as int / 8) * 8 + sq as int % 8) as u8
}

/// `q` is `p` seen from the other side: every piece stands on the
/// flipped square and has the other colour, and the other side is to
/// move. The move counters are the same.
#[verifier::opaque]
pub open spec fn is_mirror(p: Position, q: Position) -> bool {
    &&& forall|piece: Piece, c: Color, sq: u8|
        sq < 64 ==> #[trigger] q.has(piece, c, sq) == p.has(piece, opp_spec(c), flip_sq(sq))
    &&& q.white_to_move == !p.white_to_move
    &&& q.halfmove == p.halfmove
    &&& q.fullmove == p.fullmove
}

proof fn lemma_mirror_at(p: Position, q: Position, piece: Piece, c: Color, sq: u8)
    requires
        is_mirror(p, q),
        sq < 64,
    ensures
        q.has(piece, c, sq) == p.has(piece, opp_spec(c), flip_sq(sq)),
{
    reveal(is_mirror);
}

proof fn lemma_mirror_state(p: Position, q: Position)
    requires
        is_mirror(p, q),
    ensures
        q.white_to_move == !p.white_to_move,
        q.halfmove == p.halfmove,
        q.fullmove == p.fullmove,
{
    reveal(is_mirror);
}

/// The sum of `f` over the squares below `n`.
pub open spec fn sum_upto(f: spec_fn(int) -> int, n: int) -> int
    decreases n,
{
    if n <= 0 {
        0
    } else {
        sum_upto(f, n - 1) + f(n - 1)
    }
}

proof fn lemma_sum_row(f: spec_fn(int) -> int, r: int)
    requires
        0 <= r < 8,
    ensures
        sum_upto(f, 8 * r + 8) == sum_upto(f, 8 * r) + f(8 * r) + f(8 * r + 1) + f(8 * r + 2) + f(
            8 * r + 3,
        ) + f(8 * r + 4) + f(8 * r + 5) + f(8 * r + 6) + f(8 * r + 7),
{
    reveal_with_fuel(sum_upto, 9);
}

/// A sum over the board does not change when the board is flipped.
proof fn lemma_sum_flip(f: spec_fn(int) -> int, g: spec_fn(int) -> int)
    requires
        forall|i: int| 0 <= i < 64 ==> #[trigger] g(i) == f((7 - i / 8) * 8 + i % 8),
    ensures
        sum_upto(g, 64) == sum_upto(f, 64),
{
    lemma_sum_row(f, 0);
    lemma_sum_row(f, 1);
    lemma_sum_row(f, 2);
    lemma_sum_row(f, 3);
    lemma_sum_row(f, 4);
    lemma_sum_row(f, 5);
    lemma_sum_row(f, 6);
    lemma_sum_row(f, 7);
    lemma_sum_row(g, 0);
    lemma_sum_row(g, 1);
    lemma_sum_row(g, 2);
    lemma_sum_row(g, 3);
    lemma_sum_row(g, 4);
    lemma_sum_row(g, 5);
    lemma_sum_row(g, 6);
    lemma_sum_row(g, 7);
    assert(sum_upto(f, 0) == 0);
    assert(sum_upto(g, 0) == 0);
}

pub open spec fn count_term(p: Position, piece: Piece, c: Color) -> spec_fn(int) -> int {
    |sq: int|
        if p.has(piece, c, sq as u8) {
            1int
        } else {
            0int
        }
}

proof fn lemma_count_is_sum(p: Position, piece: Piece, c: Color, n: int)
    requires
        0 <= n <= 64,
    ensures
        count_upto(p, piece, c, n) == sum_upto(count_term(p, piece, c), n),
    decreases n,
{
    if n > 0 {
        lemma_count_is_sum(p, piece, c, n - 1);
    }
}

/// The mirror image has as many pieces of each kind as the position has
/// of the other colour.
pub proof fn lemma_count_mirror(p: Position, q: Position, piece: Piece, c: Color)
    requires
        is_mirror(p, q),
    ensures
        count_spec(q, piece, c) == count_spec(p, piece, opp_spec(c)),
{
    let f = count_term(p, piece, opp_spec(c));
    let g = count_term(q, piece, c);
    lemma_count_is_sum(p, piece, opp_spec(c), 64);
    lemma_count_is_sum(q, piece, c, 64);
    assert forall|i: int| 0 <= i < 64 implies #[trigger] g(i) == f((7 - i / 8) * 8 + i % 8) by {
        lemma_mirror_at(p, q, piece, c, i as u8);
    }
    lemma_sum_flip(f, g);
}

pub open spec fn file_term(p: Position, c: Color, file: int) -> spec_fn(int) -> int {
    |sq: int|
        if sq % 8 == file && p.has(Piece::Pawn, c, sq as u8) {
            1int
        } else {
            0int
        }
}

proof fn lemma_file_is_sum(p: Position, c: Color, file: int, n: int)
    requires
        0 <= n <= 64,
    ensures
        file_pawns_upto(p, c, file, n) == sum_upto(file_term(p, c, file), n),
    decreases n,
{
    if n > 0 {
        lemma_file_is_sum(p, c, file, n - 1);
    }
}

proof fn lemma_file_mirror(p: Position, q: Position, c: Color, file: int)
    requires
        is_mirror(p, q),
    ensures
        file_pawns_spec(q, c, file) == file_pawns_spec(p, opp_spec(c), file),
{
    let f = file_term(p, opp_spec(c), file);
    let g = file_term(q, c, file);
    lemma_file_is_sum(p, opp_spec(c), file, 64);
    lemma_file_is_sum(q, c, file, 64);
    assert forall|i: int| 0 <= i < 64 implies #[trigger] g(i) == f((7 - i / 8) * 8 + i % 8) by {
        lemma_mirror_at(p, q, Piece::Pawn, c, i as u8);
    }
    lemma_sum_flip(f, g);
}

proof fn lemma_flip(sq: u8)
    requires
        sq < 64,
    ensures
        flip_sq(sq) < 64,
        flip_sq(flip_sq(sq)) == sq,
        flip_sq(sq) as int % 8 == sq as int % 8,
        flip_sq(sq) as int / 8 == 7 - sq as int / 8,
{
}

proof fn lemma_ahead_flip(c: Color, sq: u8, s: u8)
    requires
        sq < 64,
        s < 64,
    ensures
        ahead_spec(opp_spec(c), flip_sq(sq), flip_sq(s)) == ahead_spec(c, sq, s),
        relative_rank_spec(opp_spec(c), flip_sq(sq)) == relative_rank_spec(c, sq),
{
    lemma_flip(sq);
    lemma_flip(s);
}

proof fn lemma_passed_mirror(p: Position, q: Position, c: Color, sq: u8)
    requires
        is_mirror(p, q),
        sq < 64,
    ensures
        is_passed_spec(q, sq, c) == is_passed_spec(p, flip_sq(sq), opp_spec(c)),
{
    let d = opp_spec(c);
    let fsq = flip_sq(sq);
    lemma_flip(sq);
    lemma_mirror_at(p, q, Piece::Pawn, c, sq);
    if is_passed_spec(p, fsq, d) {
        assert forall|s: u8| s < 64 && ahead_spec(c, sq, s) implies !#[trigger] q.has(
            Piece::Pawn,
            opp_spec(c),
            s,
        ) by {
            let t = flip_sq(s);
            lemma_flip(s);
            lemma_ahead_flip(c, sq, s);
            lemma_mirror_at(p, q, Piece::Pawn, d, s);
            assert(!p.has(Piece::Pawn, opp_spec(d), t));
        }
    }
    if is_passed_spec(q, sq, c) {
        assert forall|t: u8| t < 64 && ahead_spec(d, fsq, t) implies !#[trigger] p.has(
            Piece::Pawn,
            opp_spec(d),
            t,
        ) by {
            let s = flip_sq(t);
            lemma_flip(t);
            lemma_ahead_flip(c, sq, s);
            lemma_mirror_at(p, q, Piece::Pawn, d, s);
            assert(!q.has(Piece::Pawn, opp_spec(c), s));
        }
    }
}

proof fn lemma_mg_square_mirror(p: Position, q: Position, c: Color, sq: u8)
    requires
        is_mirror(p, q),
        sq < 64,
    ensures
        mg_square_spec(q, c, sq) == mg_square_spec(p, opp_spec(c), flip_sq(sq)),
{
    let d = opp_spec(c);
    let file = sq as int % 8;
    assert(flip_sq(sq) as int % 8 == file);
    assert(opp_spec(d) == c);
    lemma_mirror_at(p, q, Piece::Pawn, c, sq);
    lemma_mirror_at(p, q, Piece::Rook, c, sq);
    assert(central_spec(c, sq) == central_spec(d, flip_sq(sq)));
    lemma_file_mirror(p, q, c, file);
    lemma_file_mirror(p, q, c, file - 1);
    lemma_file_mirror(p, q, c, file + 1);
    lemma_file_mirror(p, q, d, file);
}

pub open spec fn mg_term(p: Position, c: Color) -> spec_fn(int) -> int {
    |sq: int| mg_square_spec(p, c, sq as u8)
}

proof fn lemma_mg_is_sum(p: Position, c: Color, n: int)
    requires
        0 <= n <= 64,
    ensures
        mg_squares_upto(p, c, n) == sum_upto(mg_term(p, c), n),
    decreases n,
{
    if n > 0 {
        lemma_mg_is_sum(p, c, n - 1);
    }
}

proof fn lemma_mg_squares_mirror(p: Position, q: Position, c: Color)
    requires
        is_mirror(p, q),
    ensures
        mg_squares_upto(q, c, 64) == mg_squares_upto(p, opp_spec(c), 64),
{
    let f = mg_term(p, opp_spec(c));
    let g = mg_term(q, c);
    lemma_mg_is_sum(p, opp_spec(c), 64);
    lemma_mg_is_sum(q, c, 64);
    assert forall|i: int| 0 <= i < 64 implies #[trigger] g(i) == f((7 - i / 8) * 8 + i % 8) by {
        lemma_mg_square_mirror(p, q, c, i as u8);
    }
    lemma_sum_flip(f, g);
}

pub open spec fn passer_term(p: Position, c: Color, rook: u8) -> spec_fn(int) -> int {
    |n: int|
        if n % 8 == rook as int % 8 && relative_rank_spec(c, rook) < relative_rank_spec(
            c,
            n as u8,
        ) && is_passed_spec(p, n as u8, c) {
            1int
        } else {
            0int
        }
}

proof fn lemma_passers_is_sum(p: Position, c: Color, rook: u8, n: int)
    requires
        0 <= n <= 64,
    ensures
        passers_ahead_upto(p, c, rook, n) == sum_upto(passer_term(p, c, rook), n),
    decreases n,
{
    if n > 0 {
        lemma_passers_is_sum(p, c, rook, n - 1);
    }
}

proof fn lemma_passers_mirror(p: Position, q: Position, c: Color, rook: u8)
    requires
        is_mirror(p, q),
        rook < 64,
    ensures
        passers_ahead_upto(q, c, rook, 64) == passers_ahead_upto(
            p,
            opp_spec(c),
            flip_sq(rook),
            64,
        ),
{
    let f = passer_term(p, opp_spec(c), flip_sq(rook));
    let g = passer_term(q, c, rook);
    lemma_passers_is_sum(p, opp_spec(c), flip_sq(rook), 64);
    lemma_passers_is_sum(q, c, rook, 64);
    assert forall|i: int| 0 <= i < 64 implies #[trigger] g(i) == f((7 - i / 8) * 8 + i % 8) by {
        lemma_passed_mirror(p, q, c, i as u8);
        assert(flip_sq(i as u8) == (7 - i / 8) * 8 + i % 8);
    }
    lemma_sum_flip(f, g);
}

proof fn lemma_count_bounds(p: Position, piece: Piece, c: Color, k: int, n: int)
    requires
        0 <= k < n <= 64,
        p.has(piece, c, k as u8),
    ensures
        count_upto(p, piece, c, n) >= 1 + count_upto(p, piece, c, k),
        count_upto(p, piece, c, k) >= 0,
    decreases n,
{
    lemma_count_nonneg(p, piece, c, k);
    if n - 1 > k {
        lemma_count_bounds(p, piece, c, k, n - 1);
    }
}

proof fn lemma_count_nonneg(p: Position, piece: Piece, c: Color, n: int)
    ensures
        count_upto(p, piece, c, n) >= 0,
    decreases n,
{
    if n > 0 {
        lemma_count_nonneg(p, piece, c, n - 1);
    }
}

proof fn lemma_first_from(p: Position, piece: Piece, c: Color, start: int)
    requires
        0 <= start <= 64,
    ensures
        match first_from(p, piece, c, start) {
            Some(k) => start <= k < 64 && p.has(piece, c, k) && forall|j: u8|
                start <= j < k ==> !#[trigger] p.has(piece, c, j),
            None => forall|j: u8| start <= j < 64 ==> !#[trigger] p.has(piece, c, j),
        },
    decreases 64 - start,
{
    if start < 64 && !p.has(piece, c, start as u8) {
        lemma_first_from(p, piece, c, start + 1);
    }
}

/// Where at most one piece of a kind and colour is on the board, the
/// first square that holds one is the only one.
proof fn lemma_first_unique(p: Position, piece: Piece, c: Color)
    requires
        count_spec(p, piece, c) <= 1,
    ensures
        match first_square_spec(p, piece, c) {
            Some(k) => k < 64 && p.has(piece, c, k) && forall|j: u8|
                j < 64 && #[trigger] p.has(piece, c, j) ==> j == k,
            None => forall|j: u8| j < 64 ==> !#[trigger] p.has(piece, c, j),
        },
{
    lemma_first_from(p, piece, c, 0);
    match first_square_spec(p, piece, c) {
        Some(k) => {
            assert forall|j: u8| j < 64 && #[trigger] p.has(piece, c, j) implies j == k by {
                if j > k {
                    lemma_count_bounds(p, piece, c, k as int, j as int);
                    lemma_count_bounds(p, piece, c, j as int, 64);
                }
            }
        },
        None => {},
    }
}

pub open spec fn flipped(sq: Option<u8>) -> Option<u8> {
    match sq {
        Some(k) => Some(flip_sq(k)),
        None => None,
    }
}

proof fn lemma_first_mirror(p: Position, q: Position, piece: Piece, c: Color)
    requires
        is_mirror(p, q),
        count_spec(p, piece, opp_spec(c)) <= 1,
    ensures
        first_square_spec(q, piece, c) == flipped(first_square_spec(p, piece, opp_spec(c))),
{
    let d = opp_spec(c);
    lemma_count_mirror(p, q, piece, c);
    lemma_first_unique(p, piece, d);
    lemma_first_unique(q, piece, c);
    match first_square_spec(q, piece, c) {
        Some(k2) => {
            lemma_flip(k2);
            lemma_mirror_at(p, q, piece, c, k2);
            assert(p.has(piece, d, flip_sq(k2)));
        },
        None => {
            match first_square_spec(p, piece, d) {
                Some(k) => {
                    lemma_flip(k);
                    lemma_mirror_at(p, q, piece, c, flip_sq(k));
                    assert(q.has(piece, c, flip_sq(k)));
                },
                None => {},
            }
        },
    }
}

/// Each side has at most one king.
pub open spec fn kings_ok(p: Position) -> bool {
    count_spec(p, Piece::King, Color::White) <= 1 && count_spec(p, Piece::King, Color::Black) <= 1
}

proof fn lemma_seventh_mirror(p: Position, q: Position, c: Color)
    requires
        is_mirror(p, q),
        kings_ok(p),
    ensures
        seventh_matters_spec(q, c) == seventh_matters_spec(p, opp_spec(c)),
{
    let d = opp_spec(c);
    assert(opp_spec(d) == c);
    lemma_count_mirror(p, q, Piece::Pawn, d);
    lemma_first_mirror(p, q, Piece::King, d);
    lemma_first_unique(p, Piece::King, c);
    match first_square_spec(p, Piece::King, c) {
        Some(k) => {
            lemma_flip(k);
        },
        None => {},
    }
}

proof fn lemma_eg_square_mirror(p: Position, q: Position, c: Color, sq: u8)
    requires
        is_mirror(p, q),
        kings_ok(p),
        sq < 64,
    ensures
        eg_square_spec(q, c, sq) == eg_square_spec(p, opp_spec(c), flip_sq(sq)),
{
    let d = opp_spec(c);
    lemma_mirror_at(p, q, Piece::Rook, c, sq);
    assert(relative_rank_spec(c, sq) == relative_rank_spec(d, flip_sq(sq)));
    lemma_passed_mirror(p, q, c, sq);
    lemma_passers_mirror(p, q, c, sq);
    lemma_seventh_mirror(p, q, c);
}

pub open spec fn eg_term(p: Position, c: Color) -> spec_fn(int) -> int {
    |sq: int| eg_square_spec(p, c, sq as u8)
}

proof fn lemma_eg_is_sum(p: Position, c: Color, n: int)
    requires
        0 <= n <= 64,
    ensures
        eg_squares_upto(p, c, n) == sum_upto(eg_term(p, c), n),
    decreases n,
{
    if n > 0 {
        lemma_eg_is_sum(p, c, n - 1);
    }
}

proof fn lemma_eg_squares_mirror(p: Position, q: Position, c: Color)
    requires
        is_mirror(p, q),
        kings_ok(p),
    ensures
        eg_squares_upto(q, c, 64) == eg_squares_upto(p, opp_spec(c), 64),
{
    let f = eg_term(p, opp_spec(c));
    let g = eg_term(q, c);
    lemma_eg_is_sum(p, opp_spec(c), 64);
    lemma_eg_is_sum(q, c, 64);
    assert forall|i: int| 0 <= i < 64 implies #[trigger] g(i) == f((7 - i / 8) * 8 + i % 8) by {
        lemma_eg_square_mirror(p, q, c, i as u8);
    }
    lemma_sum_flip(f, g);
}

proof fn lemma_counts_mirror(p: Position, q: Position, c: Color)
    requires
        is_mirror(p, q),
    ensures
        count_spec(q, Piece::Pawn, c) == count_spec(p, Piece::Pawn, opp_spec(c)),
        count_spec(q, Piece::Knight, c) == count_spec(p, Piece::Knight, opp_spec(c)),
        count_spec(q, Piece::Bishop, c) == count_spec(p, Piece::Bishop, opp_spec(c)),
        count_spec(q, Piece::Rook, c) == count_spec(p, Piece::Rook, opp_spec(c)),
        count_spec(q, Piece::Queen, c) == count_spec(p, Piece::Queen, opp_spec(c)),
        count_spec(q, Piece::King, c) == count_spec(p, Piece::King, opp_spec(c)),
        material_spec(q, c) == material_spec(p, opp_spec(c)),
        side_phase_spec(q, c) == side_phase_spec(p, opp_spec(c)),
        minors_spec(q, c) == minors_spec(p, opp_spec(c)),
{
    lemma_count_mirror(p, q, Piece::Pawn, c);
    lemma_count_mirror(p, q, Piece::Knight, c);
    lemma_count_mirror(p, q, Piece::Bishop, c);
    lemma_count_mirror(p, q, Piece::Rook, c);
    lemma_count_mirror(p, q, Piece::Queen, c);
    lemma_count_mirror(p, q, Piece::King, c);
}

proof fn lemma_sides_mirror(p: Position, q: Position, c: Color)
    requires
        is_mirror(p, q),
        kings_ok(p),
    ensures
        mg_side_spec(q, c) == mg_side_spec(p, opp_spec(c)),
        eg_side_spec(q, c) == eg_side_spec(p, opp_spec(c)),
        game_phase_spec(q) == game_phase_spec(p),
{
    let d = opp_spec(c);
    assert(opp_spec(d) == c);
    lemma_counts_mirror(p, q, c);
    lemma_counts_mirror(p, q, d);
    lemma_first_mirror(p, q, Piece::King, c);
    lemma_mg_squares_mirror(p, q, c);
    lemma_eg_squares_mirror(p, q, c);
    lemma_mirror_state(p, q);
    assert(game_phase_spec(q) == game_phase_spec(p));
    assert(opening_spec(q) == opening_spec(p));
    assert(is_castled_spec(q, c) == is_castled_spec(p, d)) by {
        lemma_first_unique(p, Piece::King, d);
        match first_square_spec(p, Piece::King, d) {
            Some(k) => {
                lemma_flip(k);
            },
            None => {},
        }
    }
    assert(stuck_minors_spec(q, c) == stuck_minors_spec(p, d)) by {
        if c == Color::White {
            assert(minor_on(q, c, 1) == minor_on(p, d, 57)) by {
                lemma_mirror_at(p, q, Piece::Knight, c, 1);
                lemma_mirror_at(p, q, Piece::Bishop, c, 1);
            }
            assert(minor_on(q, c, 2) == minor_on(p, d, 58)) by {
                lemma_mirror_at(p, q, Piece::Knight, c, 2);
                lemma_mirror_at(p, q, Piece::Bishop, c, 2);
            }
            assert(minor_on(q, c, 5) == minor_on(p, d, 61)) by {
                lemma_mirror_at(p, q, Piece::Knight, c, 5);
                lemma_mirror_at(p, q, Piece::Bishop, c, 5);
            }
            assert(minor_on(q, c, 6) == minor_on(p, d, 62)) by {
                lemma_mirror_at(p, q, Piece::Knight, c, 6);
                lemma_mirror_at(p, q, Piece::Bishop, c, 6);
            }
        } else {
            assert(minor_on(q, c, 57) == minor_on(p, d, 1)) by {
                lemma_mirror_at(p, q, Piece::Knight, c, 57);
                lemma_mirror_at(p, q, Piece::Bishop, c, 57);
            }
            assert(minor_on(q, c, 58) == minor_on(p, d, 2)) by {
                lemma_mirror_at(p, q, Piece::Knight, c, 58);
                lemma_mirror_at(p, q, Piece::Bishop, c, 58);
            }
            assert(minor_on(q, c, 61) == minor_on(p, d, 5)) by {
                lemma_mirror_at(p, q, Piece::Knight, c, 61);
                lemma_mirror_at(p, q, Piece::Bishop, c, 61);
            }
            assert(minor_on(q, c, 62) == minor_on(p, d, 6)) by {
                lemma_mirror_at(p, q, Piece::Knight, c, 62);
                lemma_mirror_at(p, q, Piece::Bishop, c, 62);
            }
        }
    }
    assert(match first_square_spec(q, Piece::King, c) {
        Some(k) => pst_king_eg_spec(pst_index_spec(c, k)),
        None => 0,
    } == match first_square_spec(p, Piece::King, d) {
        Some(k) => pst_king_eg_spec(pst_index_spec(d, k)),
        None => 0,
    }) by {
        match first_square_spec(p, Piece::King, d) {
            Some(k) => {
                lemma_first_unique(p, Piece::King, d);
                assert(pst_index_spec(c, flip_sq(k)) == pst_index_spec(d, k));
            },
            None => {},
        }
    }
}

proof fn lemma_bishops_mirror(p: Position, q: Position)
    requires
        is_mirror(p, q),
    ensures
        opposite_bishops_spec(q) == opposite_bishops_spec(p),
{
    lemma_counts_mirror(p, q, Color::White);
    lemma_counts_mirror(p, q, Color::Black);
    if count_spec(p, Piece::Bishop, Color::White) == 1 && count_spec(
        p,
        Piece::Bishop,
        Color::Black,
    ) == 1 {
        lemma_first_mirror(p, q, Piece::Bishop, Color::White);
        lemma_first_mirror(p, q, Piece::Bishop, Color::Black);
        lemma_first_unique(p, Piece::Bishop, Color::White);
        lemma_first_unique(p, Piece::Bishop, Color::Black);
        match (
            first_square_spec(p, Piece::Bishop, Color::White),
            first_square_spec(p, Piece::Bishop, Color::Black),
        ) {
            (Some(w), Some(b)) => {
                assert(is_light_spec(flip_sq(w)) == !is_light_spec(w));
                assert(is_light_spec(flip_sq(b)) == !is_light_spec(b));
            },
            _ => {},
        }
    }
}

/// A position and its mirror image have the same score: what counts is
/// whose turn it is, not which colour a side plays.
pub proof fn lemma_eval_mirror(p: Position, q: Position, status: Status)
    requires
        is_mirror(p, q),
        kings_ok(p),
    ensures
        eval_at(q, status) == eval_at(p, status),
{
    lemma_counts_mirror(p, q, Color::White);
    lemma_counts_mirror(p, q, Color::Black);
    lemma_sides_mirror(p, q, Color::White);
    lemma_sides_mirror(p, q, Color::Black);
    lemma_bishops_mirror(p, q);
    lemma_mirror_state(p, q);
    assert(sign_spec(q, Color::White) == sign_spec(p, Color::Black));
    assert(sign_spec(q, Color::Black) == sign_spec(p, Color::White));
    assert(mg_spec(q) == mg_spec(p));
    assert(eg_spec(q) == eg_spec(p));
    assert(insufficient_material_spec(q) == insufficient_material_spec(p));
    assert(tapered_spec(q) == tapered_spec(p));
}

} // verus!
