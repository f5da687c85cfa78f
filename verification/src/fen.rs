//! Reading a position from a FEN record: six fields with one space
//! between them. The record is first written out as a board description,
//! one character per square, and only a description that the move
//! generator can take is handed to it.
use crate::board::{board_of_text, is_description, raw_board};
use crate::position::{check_description, position_of_raw, Position};
use vstd::prelude::*;
use vstd::string::StringSliceAdditionalSpecFns;

verus! {

/// Where the field that starts at `i` ends: at the next space or at the
/// end of the text.
pub open spec fn field_end(s: Seq<u8>, i: int) -> int
    decreases s.len() - i,
{
    if i < 0 || i >= s.len() {
        s.len() as int
    } else if s[i] == 32 {
        i
    } else {
        field_end(s, i + 1)
    }
}

/// Where the field after the one that starts at `i` starts.
pub open spec fn next_field(s: Seq<u8>, i: int) -> int {
    if field_end(s, i) < s.len() {
        field_end(s, i) + 1
    } else {
        s.len() as int
    }
}

fn find_end(s: &[u8], i: usize) -> (e: usize)
    requires
        i <= s.len(),
    ensures
        e == field_end(s@, i as int),
        i <= e <= s.len(),
{
    let mut e: usize = i;
    while e < s.len() && s[e] != 32
        invariant
            i <= e <= s.len(),
            field_end(s@, i as int) == field_end(s@, e as int),
        decreases s.len() - e,
    {
        e += 1;
    }
    e
}

pub open spec fn is_piece_letter(c: u8) -> bool {
    c == 80 || c == 78 || c == 66 || c == 82 || c == 81 || c == 75 || c == 112 || c == 110 || c
        == 98 || c == 114 || c == 113 || c == 107
}

/// `n` empty squares.
pub open spec fn empties(n: int) -> Seq<u8> {
    Seq::new(n as nat, |i: int| 49u8)
}

/// The placement field from byte `i` to byte `end`, written out with
/// one character per square behind `out`; `file` squares of the current
/// rank are written already. A letter stands for itself, a digit for so
/// many empty squares, and `/` ends a rank of eight squares. Nothing
/// where a rank is not eight squares wide or the ranks are not eight.
pub open spec fn expand_spec(s: Seq<u8>, i: int, end: int, out: Seq<u8>, file: int) -> Option<
    Seq<u8>,
>
    decreases end - i,
{
    if i >= end || i < 0 || i >= s.len() {
        if file == 8 && out.len() == 71 {
            Some(out)
        } else {
            None
        }
    } else if s[i] == 47 {
        if file == 8 && out.len() < 71 {
            expand_spec(s, i + 1, end, out.push(47), 0)
        } else {
            None
        }
    } else if is_piece_letter(s[i]) {
        if 0 <= file < 8 && out.len() < 71 {
            expand_spec(s, i + 1, end, out.push(s[i]), file + 1)
        } else {
            None
        }
    } else if 49 <= s[i] <= 56 {
        if 0 <= file && file + (s[i] - 48) <= 8 && out.len() + (s[i] - 48) <= 71 {
            expand_spec(s, i + 1, end, out + empties(s[i] - 48), file + (s[i] - 48))
        } else {
            None
        }
    } else {
        None
    }
}

fn expand(s: &[u8], end: usize) -> (r: Option<Vec<u8>>)
    requires
        end <= s.len(),
    ensures
        match expand_spec(s@, 0, end as int, Seq::empty(), 0) {
            Some(d) => r.is_some() && r.unwrap()@ == d && d.len() == 71,
            None => r.is_none(),
        },
{
    let mut out: Vec<u8> = Vec::new();
    let mut file: usize = 0;
    let mut i: usize = 0;
    while i < end
        invariant
            i <= end <= s.len(),
            file <= 8,
            out@.len() <= 71,
            expand_spec(s@, 0, end as int, Seq::empty(), 0) == expand_spec(
                s@,
                i as int,
                end as int,
                out@,
                file as int,
            ),
        decreases end - i,
    {
        let c = s[i];
        if c == 47 {
            if file == 8 && out.len() < 71 {
                out.push(47);
                file = 0;
            } else {
                return None;
            }
        } else if c == 80 || c == 78 || c == 66 || c == 82 || c == 81 || c == 75 || c == 112 || c
            == 110 || c == 98 || c == 114 || c == 113 || c == 107 {
            if file < 8 && out.len() < 71 {
                out.push(c);
                file += 1;
            } else {
                return None;
            }
        } else if 49 <= c && c <= 56 {
            let n: usize = (c - 48) as usize;
            if file + n <= 8 && out.len() + n <= 71 {
                let ghost start = out@;
                let mut k: usize = 0;
                while k < n
                    invariant
                        k <= n,
                        out@ == start + empties(k as int),
                    decreases n - k,
                {
                    out.push(49);
                    proof {
                        assert(out@ =~= start + empties(k + 1));
                    }
                    k += 1;
                }
                file += n;
            } else {
                return None;
            }
        } else {
            return None;
        }
        i += 1;
    }
    if file == 8 && out.len() == 71 {
        Some(out)
    } else {
        None
    }
}

/// The byte `c` stands in the text from `from` up to `to`.
pub open spec fn field_has(s: Seq<u8>, from: int, to: int, c: u8) -> bool {
    exists|i: int| from <= i < to && 0 <= i < s.len() && #[trigger] s[i] == c
}

fn has_byte(s: &[u8], from: usize, to: usize, c: u8) -> (r: bool)
    requires
        from <= to <= s.len(),
    ensures
        r == field_has(s@, from as int, to as int, c),
{
    let mut i: usize = from;
    while i < to
        invariant
            from <= i <= to <= s.len(),
            forall|j: int| from <= j < i ==> #[trigger] s@[j] != c,
        decreases to - i,
    {
        if s[i] == c {
            return true;
        }
        i += 1;
    }
    false
}

/// The fields behind the placement, as a description writes them: the
/// side to move (`w` or `b`, either case), a letter for each castling
/// right that the third field names, and the square of the fourth field
/// where it is one.
pub open spec fn state_text(s: Seq<u8>, side: int) -> Option<Seq<u8>> {
    let castle = next_field(s, side);
    let ep = next_field(s, castle);
    let ep_end = field_end(s, ep);
    if !(field_end(s, side) == side + 1 && side < s.len() && (s[side] == 119 || s[side] == 87
        || s[side] == 98 || s[side] == 66)) {
        None
    } else {
        Some(
            seq![
                32u8,
                if s[side] == 119 || s[side] == 87 { 119u8 } else { 98u8 },
                32u8,
                if field_has(s, castle, field_end(s, castle), 75) { 75u8 } else { 45u8 },
                if field_has(s, castle, field_end(s, castle), 81) { 81u8 } else { 45u8 },
                if field_has(s, castle, field_end(s, castle), 107) { 107u8 } else { 45u8 },
                if field_has(s, castle, field_end(s, castle), 113) { 113u8 } else { 45u8 },
                32u8,
                if is_square_field(s, ep, ep_end) { s[ep] } else { 45u8 },
                if is_square_field(s, ep, ep_end) { s[ep + 1] } else { 45u8 },
            ],
        )
    }
}

/// The field from `from` to `to` starts with a file letter and a rank digit.
pub open spec fn is_square_field(s: Seq<u8>, from: int, to: int) -> bool {
    0 <= from && from + 2 <= to <= s.len() && 97 <= s[from] <= 104 && 49 <= s[from + 1] <= 56
}

/// The description of the board that a FEN record names.
pub open spec fn description_spec(s: Seq<u8>) -> Option<Seq<u8>> {
    match (expand_spec(s, 0, field_end(s, 0), Seq::empty(), 0), state_text(s, next_field(s, 0))) {
        (Some(placement), Some(state)) => Some(placement + state),
        _ => None,
    }
}

fn after(s: &[u8], end: usize) -> (r: usize)
    requires
        end <= s.len(),
    ensures
        r == (if end < s.len() {
            end + 1
        } else {
            s.len() as int
        }),
        r <= s.len(),
{
    if end < s.len() {
        end + 1
    } else {
        s.len()
    }
}

/// Writes the board of a FEN record out as a description.
pub fn describe_fen(s: &[u8]) -> (r: Option<Vec<u8>>)
    ensures
        match description_spec(s@) {
            Some(d) => r.is_some() && r.unwrap()@ == d,
            None => r.is_none(),
        },
{
    let end0 = find_end(s, 0);
    let mut out = match expand(s, end0) {
        Some(v) => v,
        None => {
            return None;
        },
    };
    let ghost placement = out@;
    let side = after(s, end0);
    let side_end = find_end(s, side);
    if !(side < s.len() && side_end == side + 1) {
        return None;
    }
    let sc = s[side];
    if !(sc == 119 || sc == 87 || sc == 98 || sc == 66) {
        return None;
    }
    let castle = after(s, side_end);
    let castle_end = find_end(s, castle);
    let ep = after(s, castle_end);
    let ep_end = find_end(s, ep);
    out.push(32);
    out.push(if sc == 119 || sc == 87 { 119 } else { 98 });
    out.push(32);
    out.push(if has_byte(s, castle, castle_end, 75) { 75 } else { 45 });
    out.push(if has_byte(s, castle, castle_end, 81) { 81 } else { 45 });
    out.push(if has_byte(s, castle, castle_end, 107) { 107 } else { 45 });
    out.push(if has_byte(s, castle, castle_end, 113) { 113 } else { 45 });
    out.push(32);
    let is_square = ep_end - ep >= 2 && 97 <= s[ep] && s[ep] <= 104 && 49 <= s[ep + 1] && s[ep + 1]
        <= 56;
    if is_square {
        out.push(s[ep]);
        out.push(s[ep + 1]);
    } else {
        out.push(45);
        out.push(45);
    }
    proof {
        assert(out@ =~= placement + state_text(s@, side as int).unwrap());
    }
    Some(out)
}

/// The number that the digits from `from` up to `to` spell.
pub open spec fn decimal_spec(s: Seq<u8>, from: int, to: int) -> int
    decreases to - from,
{
    if to <= from {
        0
    } else {
        decimal_spec(s, from, to - 1) * 10 + (s[to - 1] - 48)
    }
}

/// The field from `from` to `to` is a number that fits 32 bits: one
/// digit at least, digits only.
pub open spec fn is_counter(s: Seq<u8>, from: int, to: int) -> bool {
    &&& 0 <= from < to <= s.len()
    &&& forall|i: int| from <= i < to ==> 48 <= #[trigger] s[i] <= 57
    &&& decimal_spec(s, from, to) <= u32::MAX
}

/// The counter that a field spells, or `default` where it spells none.
pub open spec fn counter_spec(s: Seq<u8>, from: int, to: int, default: u32) -> u32 {
    if is_counter(s, from, to) {
        decimal_spec(s, from, to) as u32
    } else {
        default
    }
}

proof fn lemma_decimal_grows(s: Seq<u8>, from: int, mid: int, to: int)
    requires
        0 <= from <= mid <= to <= s.len(),
        forall|i: int| from <= i < to ==> 48 <= #[trigger] s[i] <= 57,
    ensures
        0 <= decimal_spec(s, from, mid) <= decimal_spec(s, from, to),
    decreases to - mid,
{
    if mid == from {
        lemma_decimal_nonneg(s, from, to);
    } else if mid < to {
        lemma_decimal_grows(s, from, mid, to - 1);
        lemma_decimal_nonneg(s, from, to - 1);
    } else {
        lemma_decimal_nonneg(s, from, to);
    }
}

proof fn lemma_decimal_nonneg(s: Seq<u8>, from: int, to: int)
    requires
        0 <= from <= to <= s.len(),
        forall|i: int| from <= i < to ==> 48 <= #[trigger] s[i] <= 57,
    ensures
        0 <= decimal_spec(s, from, to),
    decreases to - from,
{
    if from < to {
        lemma_decimal_nonneg(s, from, to - 1);
    }
}

pub fn read_counter(s: &[u8], from: usize, to: usize, default: u32) -> (r: u32)
    requires
        from <= to <= s.len(),
    ensures
        r == counter_spec(s@, from as int, to as int, default),
{
    if from == to {
        return default;
    }
    let mut acc: u64 = 0;
    let mut i: usize = from;
    while i < to
        invariant
            from <= i <= to <= s.len(),
            acc == decimal_spec(s@, from as int, i as int),
            acc <= u32::MAX,
            forall|j: int| from <= j < i ==> 48 <= #[trigger] s@[j] <= 57,
        decreases to - i,
    {
        let c = s[i];
        if !(48 <= c && c <= 57) {
            return default;
        }
        let next: u64 = acc * 10 + (c - 48) as u64;
        if next > 0xFFFF_FFFF {
            proof {
                if is_counter(s@, from as int, to as int) {
                    lemma_decimal_grows(s@, from as int, i + 1, to as int);
                }
            }
            return default;
        }
        acc = next;
        i += 1;
    }
    acc as u32
}

/// The position that a FEN record names, where it names one.
pub open spec fn position_spec(s: Seq<u8>) -> Option<Position> {
    let clock = next_field(s, next_field(s, next_field(s, next_field(s, 0))));
    let number = next_field(s, clock);
    match description_spec(s) {
        Some(d) => if is_description(d) {
            match board_of_text(d) {
                Some(raw) => Some(
                    position_of_raw(
                        raw,
                        counter_spec(s, clock, field_end(s, clock), 0),
                        counter_spec(s, number, field_end(s, number), 1),
                    ),
                ),
                None => None,
            }
        } else {
            None
        },
        None => None,
    }
}

/// Reads a position from a FEN record. The halfmove clock and the move
/// number are taken from the fifth and the sixth field and are 0 and 1
/// where a field is missing or no number. Nothing where the record is
/// malformed, a king is missing, a side has more than sixteen pieces, or
/// the move generator refuses the board.
pub fn position_from_fen(fen: &[u8]) -> (r: Option<Position>)
    ensures
        r == position_spec(fen@),
{
    let d = match describe_fen(fen) {
        Some(d) => d,
        None => {
            return None;
        },
    };
    if !check_description(&d) {
        return None;
    }
    let raw = match raw_board(d.as_slice()) {
        Some(raw) => raw,
        None => {
            return None;
        },
    };
    let side = after(fen, find_end(fen, 0));
    let castle = after(fen, find_end(fen, side));
    let ep = after(fen, find_end(fen, castle));
    let clock = after(fen, find_end(fen, ep));
    let clock_end = find_end(fen, clock);
    let number = after(fen, clock_end);
    let number_end = find_end(fen, number);
    let halfmove = read_counter(fen, clock, clock_end, 0);
    let fullmove = read_counter(fen, number, number_end, 1);
    Some(Position::from_raw(&raw, halfmove, fullmove))
}

/// Reads a position from a FEN record given as text.
pub fn position_from_text(fen: &str) -> (r: Option<Position>)
    ensures
        r == position_spec(fen.spec_bytes()),
{
    position_from_fen(fen.as_bytes())
}

} // verus!
