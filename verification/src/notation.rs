//! Moves in coordinate notation: source square, destination square and,
//! for a promotion, the letter of the new piece (`e2e4`, `e7e8q`).
use crate::types::{Move, Piece};
use vstd::prelude::*;
use vstd::string::StringSliceAdditionalSpecFns;

verus! {

/// A square as a file letter `a` to `h` and a rank digit `1` to `8`.
pub open spec fn square_text(sq: u8) -> Seq<u8> {
    seq![(97 + sq % 8) as u8, (49 + sq / 8) as u8]
}

pub open spec fn promo_text(p: Option<Piece>) -> Seq<u8> {
    match p {
        Some(Piece::Pawn) => seq![112u8],
        Some(Piece::Knight) => seq![110u8],
        Some(Piece::Bishop) => seq![98u8],
        Some(Piece::Rook) => seq![114u8],
        Some(Piece::Queen) => seq![113u8],
        Some(Piece::King) => seq![107u8],
        None => seq![],
    }
}

/// The text of a move, as ASCII bytes.
pub open spec fn uci_spec(m: Move) -> Seq<u8> {
    square_text(m.from) + square_text(m.to) + promo_text(m.promo)
}

/// The characters that ASCII bytes stand for.
pub open spec fn ascii_text(bytes: Seq<u8>) -> Seq<char> {
    Seq::new(bytes.len(), |i: int| bytes[i] as char)
}

pub fn uci_bytes(m: Move) -> (out: Vec<u8>)
    requires
        m.from < 64,
        m.to < 64,
    ensures
        out@ == uci_spec(m),
        4 <= out@.len() <= 5,
        forall|i: int| 0 <= i < out@.len() ==> out@[i] < 128,
{
    let mut out: Vec<u8> = Vec::new();
    out.push(97 + m.from % 8);
    out.push(49 + m.from / 8);
    out.push(97 + m.to % 8);
    out.push(49 + m.to / 8);
    match m.promo {
        Some(Piece::Pawn) => out.push(112),
        Some(Piece::Knight) => out.push(110),
        Some(Piece::Bishop) => out.push(98),
        Some(Piece::Rook) => out.push(114),
        Some(Piece::Queen) => out.push(113),
        Some(Piece::King) => out.push(107),
        None => {},
    }
    assert(out@ =~= uci_spec(m));
    out
}

/// `String::from_utf8` on bytes that are all ASCII: the string holds one
/// character for each byte, the character with that code.
#[verifier::external_body]
pub(crate) fn ascii_string(bytes: Vec<u8>) -> (s: String)
    requires
        forall|i: int| 0 <= i < bytes@.len() ==> bytes@[i] < 128,
    ensures
        s@ == ascii_text(bytes@),
{
    String::from_utf8(bytes).unwrap()
}

/// The text of a move.
pub fn to_uci(m: Move) -> (s: String)
    requires
        m.from < 64,
        m.to < 64,
    ensures
        s@ == ascii_text(uci_spec(m)),
{
    ascii_string(uci_bytes(m))
}

/// The square that a file letter and a rank digit name.
pub open spec fn square_of_text(file: u8, rank: u8) -> Option<u8> {
    if 97 <= file <= 104 && 49 <= rank <= 56 {
        Some(((rank - 49) * 8 + (file - 97)) as u8)
    } else {
        None
    }
}

pub open spec fn promo_of_letter(c: u8) -> Option<Piece> {
    if c == 113 {
        Some(Piece::Queen)
    } else if c == 114 {
        Some(Piece::Rook)
    } else if c == 98 {
        Some(Piece::Bishop)
    } else if c == 110 {
        Some(Piece::Knight)
    } else {
        None
    }
}

/// The move that a text names: two squares, and a promotion where the
/// text is five bytes long and ends in `q`, `r`, `b` or `n`.
pub open spec fn parse_uci_spec(s: Seq<u8>) -> Option<Move> {
    if s.len() < 4 {
        None
    } else {
        match (square_of_text(s[0], s[1]), square_of_text(s[2], s[3])) {
            (Some(from), Some(to)) => Some(
                Move {
                    from,
                    to,
                    promo: if s.len() == 5 {
                        promo_of_letter(s[4])
                    } else {
                        None
                    },
                },
            ),
            _ => None,
        }
    }
}

fn parse_square(file: u8, rank: u8) -> (r: Option<u8>)
    ensures
        r == square_of_text(file, rank),
        r matches Some(sq) ==> sq < 64,
{
    if 97 <= file && file <= 104 && 49 <= rank && rank <= 56 {
        Some((rank - 49) * 8 + (file - 97))
    } else {
        None
    }
}

pub fn parse_uci_bytes(s: &[u8]) -> (r: Option<Move>)
    ensures
        r == parse_uci_spec(s@),
        r matches Some(m) ==> m.wf(),
{
    if s.len() < 4 {
        return None;
    }
    let from = match parse_square(s[0], s[1]) {
        Some(sq) => sq,
        None => {
            return None;
        },
    };
    let to = match parse_square(s[2], s[3]) {
        Some(sq) => sq,
        None => {
            return None;
        },
    };
    let promo = if s.len() == 5 {
        let c = s[4];
        if c == 113 {
            Some(Piece::Queen)
        } else if c == 114 {
            Some(Piece::Rook)
        } else if c == 98 {
            Some(Piece::Bishop)
        } else if c == 110 {
            Some(Piece::Knight)
        } else {
            None
        }
    } else {
        None
    };
    Some(Move { from, to, promo })
}

/// Reads a move in coordinate notation.
pub fn parse_uci_move(s: &str) -> (r: Option<Move>)
    ensures
        r == parse_uci_spec(s.spec_bytes()),
        r matches Some(m) ==> m.wf(),
{
    parse_uci_bytes(s.as_bytes())
}

/// Reading the text of a move gives the move back.
pub proof fn lemma_uci_round_trip(m: Move)
    requires
        m.wf(),
    ensures
        parse_uci_spec(uci_spec(m)) == Some(m),
{
    let s = uci_spec(m);
    assert(s[0] == (97 + m.from % 8) as u8);
    assert(s[1] == (49 + m.from / 8) as u8);
    assert(s[2] == (97 + m.to % 8) as u8);
    assert(s[3] == (49 + m.to / 8) as u8);
    if m.promo.is_some() {
        assert(s.len() == 5);
        assert(s[4] == promo_text(m.promo)[0]);
    } else {
        assert(s.len() == 4);
    }
}

/// `a` sorts before `b` as text: at the first place where they differ
/// `a` has the smaller byte, or `a` is a proper prefix of `b`.
pub open spec fn text_less(a: Seq<u8>, b: Seq<u8>) -> bool {
    exists|i: int|
        0 <= i <= a.len() && i <= b.len() && a.subrange(0, i) == b.subrange(0, i) && (if i
            == a.len() {
            i < b.len()
        } else {
            i < b.len() && a[i] < b[i]
        })
}

pub fn bytes_less(a: &Vec<u8>, b: &Vec<u8>) -> (r: bool)
    ensures
        r == text_less(a@, b@),
{
    let mut i: usize = 0;
    while i < a.len() && i < b.len()
        invariant
            i <= a.len(),
            i <= b.len(),
            a@.subrange(0, i as int) == b@.subrange(0, i as int),
        decreases a.len() - i,
    {
        if a[i] != b[i] {
            let r = a[i] < b[i];
            proof {
                assert forall|j: int|
                    0 <= j <= a@.len() && j <= b@.len() && j != i implies !(a@.subrange(0, j)
                    == b@.subrange(0, j) && (if j == a@.len() {
                    j < b@.len()
                } else {
                    j < b@.len() && a@[j] < b@[j]
                })) by {
                    if j > i {
                        if a@.subrange(0, j) == b@.subrange(0, j) {
                            assert(a@.subrange(0, j)[i as int] == b@.subrange(0, j)[i as int]);
                        }
                    } else {
                        if j < a@.len() && j < b@.len() {
                            assert(a@.subrange(0, i as int)[j] == b@.subrange(0, i as int)[j]);
                        }
                    }
                }
            }
            return r;
        }
        proof {
            assert(a@.subrange(0, i + 1) =~= a@.subrange(0, i as int).push(a@[i as int]));
            assert(b@.subrange(0, i + 1) =~= b@.subrange(0, i as int).push(b@[i as int]));
        }
        i += 1;
    }
    proof {
        assert forall|j: int|
            0 <= j <= a@.len() && j <= b@.len() && j != i implies !(a@.subrange(0, j)
            == b@.subrange(0, j) && (if j == a@.len() {
            j < b@.len()
        } else {
            j < b@.len() && a@[j] < b@[j]
        })) by {
            if j < i && j < a@.len() && j < b@.len() {
                assert(a@.subrange(0, i as int)[j] == b@.subrange(0, i as int)[j]);
            }
        }
    }
    i == a.len() && i < b.len()
}

/// No text sorts before itself.
pub proof fn lemma_text_less_irreflexive(a: Seq<u8>)
    ensures
        !text_less(a, a),
{
}

/// The order of texts passes along a chain.
pub proof fn lemma_text_less_transitive(a: Seq<u8>, b: Seq<u8>, c: Seq<u8>)
    requires
        text_less(a, b),
        text_less(b, c),
    ensures
        text_less(a, c),
{
    let i = choose|i: int|
        0 <= i <= a.len() && i <= b.len() && a.subrange(0, i) == b.subrange(0, i) && (if i
            == a.len() {
            i < b.len()
        } else {
            i < b.len() && a[i] < b[i]
        });
    let j = choose|j: int|
        0 <= j <= b.len() && j <= c.len() && b.subrange(0, j) == c.subrange(0, j) && (if j
            == b.len() {
            j < c.len()
        } else {
            j < c.len() && b[j] < c[j]
        });
    let k = if i < j {
        i
    } else {
        j
    };
    assert(a.subrange(0, k) =~= c.subrange(0, k)) by {
        assert forall|t: int| 0 <= t < k implies a[t] == c[t] by {
            assert(a.subrange(0, i)[t] == b.subrange(0, i)[t]);
            assert(b.subrange(0, j)[t] == c.subrange(0, j)[t]);
        }
    }
    if i < j {
        if i < a.len() {
            assert(b.subrange(0, j)[i] == c.subrange(0, j)[i]);
        }
    } else if i > j {
        assert(a.subrange(0, i)[j] == b.subrange(0, i)[j]);
    }
    assert(0 <= k <= a.len() && k <= c.len() && a.subrange(0, k) == c.subrange(0, k) && (if k
        == a.len() {
        k < c.len()
    } else {
        k < c.len() && a[k] < c[k]
    }));
}

} // verus!
