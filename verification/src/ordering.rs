//! Move ordering: killer and history tables, capture scoring, and the
//! sort that puts the most promising moves first.
use crate::position::Position;
use crate::types::{piece_code, piece_code_spec, piece_val, piece_val_spec, Color, Move};
use std::collections::HashMap;
use vstd::prelude::*;

verus! {

broadcast use vstd::std_specs::hash::group_hash_axioms;

/// The killer pair of a ply in a table of pairs; no moves where the
/// table has nothing for the ply.
pub open spec fn killers_at(slots: Map<i32, (Option<Move>, Option<Move>)>, ply: int) -> (
    Option<Move>,
    Option<Move>,
) {
    if slots.contains_key(ply as i32) {
        slots[ply as i32]
    } else {
        (None, None)
    }
}

/// The table of killer pairs after `m` has refuted a line at `ply`.
pub open spec fn killers_recorded(
    slots: Map<i32, (Option<Move>, Option<Move>)>,
    ply: int,
    m: Move,
) -> Map<i32, (Option<Move>, Option<Move>)> {
    if killers_at(slots, ply).0 == Some(m) {
        slots
    } else {
        slots.insert(ply as i32, Killers::recorded(killers_at(slots, ply), m))
    }
}

/// Per ply, the two quiet moves that most recently refuted a line there.
pub struct Killers {
    pub slots: HashMap<i32, (Option<Move>, Option<Move>)>,
}

impl Killers {
    /// No pair holds one move twice: a pair without a first move has no
    /// second one either.
    pub open spec fn wf(self) -> bool {
        forall|ply: i32| #[trigger]
            self.slots@.contains_key(ply) ==> self.slots@[ply].0 != self.slots@[ply].1
                || self.slots@[ply] == (None::<Move>, None::<Move>)
    }

    /// The pair kept for a ply; no moves where none was recorded.
    pub open spec fn at(self, ply: int) -> (Option<Move>, Option<Move>) {
        killers_at(self.slots@, ply)
    }

    pub fn new() -> (k: Killers)
        ensures
            k.wf(),
            k.slots@ == Map::<i32, (Option<Move>, Option<Move>)>::empty(),
            forall|ply: int| k.at(ply) == (None::<Move>, None::<Move>),
    {
        Killers { slots: HashMap::new() }
    }

    pub fn get(&self, ply: i32) -> (r: (Option<Move>, Option<Move>))
        ensures
            r == self.at(ply as int),
    {
        match self.slots.get(&ply) {
            Some(pair) => *pair,
            None => (None, None),
        }
    }

    /// The pair after `m` has refuted a line: `m` comes first and the
    /// former first move second, unless `m` already came first.
    pub open spec fn recorded(pair: (Option<Move>, Option<Move>), m: Move) -> (
        Option<Move>,
        Option<Move>,
    ) {
        if pair.0 == Some(m) {
            pair
        } else {
            (Some(m), pair.0)
        }
    }

    pub fn record(&mut self, ply: i32, m: Move)
        requires
            old(self).wf(),
        ensures
            final(self).wf(),
            final(self).slots@ == killers_recorded(old(self).slots@, ply as int, m),
            final(self).at(ply as int) == Self::recorded(old(self).at(ply as int), m),
    {
        let pair = self.get(ply);
        let first_is_m = match pair.0 {
            Some(k) => k == m,
            None => false,
        };
        if !first_is_m {
            self.slots.insert(ply, (Some(m), pair.0));
        }
    }
}

pub open spec fn color_index_spec(c: Color) -> int {
    match c {
        Color::White => 0,
        Color::Black => 1,
    }
}

/// The key under which the counter of (side, from, to, piece code) is kept.
pub open spec fn history_index(c: Color, from: u8, to: u8, code: u8) -> int {
    ((color_index_spec(c) * 64 + from) * 64 + to) * 8 + code
}

/// The counter of (side, from, to, piece code) in a table of counters;
/// zero where the table has none.
pub open spec fn history_value(table: Map<u64, i32>, c: Color, from: u8, to: u8, code: u8) -> int {
    if from < 64 && to < 64 && code < 8 && table.contains_key(
        history_index(c, from, to, code) as u64,
    ) {
        table[history_index(c, from, to, code) as u64] as int
    } else {
        0
    }
}

/// The counters after a bonus has been added to one of them; a counter
/// stops at the top of its range.
pub open spec fn history_added(
    table: Map<u64, i32>,
    c: Color,
    from: u8,
    to: u8,
    code: u8,
    bonus: int,
) -> Map<u64, i32> {
    table.insert(
        history_index(c, from, to, code) as u64,
        (if history_value(table, c, from, to, code) + bonus > i32::MAX {
            i32::MAX
        } else {
            (history_value(table, c, from, to, code) + bonus) as i32
        }),
    )
}

/// For each (side, from, to, piece code) the sum of the squared depths at
/// which such a quiet move refuted a line.
pub struct History {
    pub table: HashMap<u64, i32>,
}

impl History {
    pub open spec fn wf(self) -> bool {
        true
    }

    pub open spec fn value(self, c: Color, from: u8, to: u8, code: u8) -> int {
        history_value(self.table@, c, from, to, code)
    }

    pub fn new() -> (h: History)
        ensures
            h.wf(),
            h.table@ == Map::<u64, i32>::empty(),
            forall|c: Color, from: u8, to: u8, code: u8| h.value(c, from, to, code) == 0,
    {
        History { table: HashMap::new() }
    }

    fn index(c: Color, from: u8, to: u8, code: u8) -> (i: u64)
        requires
            from < 64,
            to < 64,
            code < 8,
        ensures
            i == history_index(c, from, to, code),
    {
        let ci: u64 = match c {
            Color::White => 0,
            Color::Black => 1,
        };
        ((ci * 64 + from as u64) * 64 + to as u64) * 8 + code as u64
    }

    pub fn get(&self, c: Color, from: u8, to: u8, code: u8) -> (v: i32)
        requires
            self.wf(),
        ensures
            v == self.value(c, from, to, code),
    {
        if from < 64 && to < 64 && code < 8 {
            let key = Self::index(c, from, to, code);
            match self.table.get(&key) {
                Some(v) => *v,
                None => 0,
            }
        } else {
            0
        }
    }

    /// Adds a bonus to one counter; the counter stops at the top of its
    /// range, so that the sum never overflows.
    pub fn add(&mut self, c: Color, from: u8, to: u8, code: u8, bonus: i32)
        requires
            old(self).wf(),
            from < 64,
            to < 64,
            code < 8,
            bonus >= 0,
        ensures
            final(self).wf(),
            final(self).table@ == history_added(old(self).table@, c, from, to, code, bonus as int),
    {
        let v = self.get(c, from, to, code);
        let nv: i32 = if v > i32::MAX - bonus {
            i32::MAX
        } else {
            v + bonus
        };
        let key = Self::index(c, from, to, code);
        self.table.insert(key, nv);
    }
}

/// Most valuable victim, least valuable attacker: zero for a quiet move,
/// else 10000 plus ten times the victim's value less the attacker's.
pub open spec fn mvv_lva_spec(p: Position, m: Move) -> int {
    if !p.is_capture_spec(m) {
        0
    } else {
        10_000 + 10 * (match p.piece_on_spec(m.to) {
            Some(pc) => piece_val_spec(pc),
            None => 100,
        }) - (match p.piece_on_spec(m.from) {
            Some(pc) => piece_val_spec(pc),
            None => 100,
        })
    }
}

pub open spec fn history_term_spec(p: Position, h: Map<u64, i32>, m: Move) -> int {
    match p.piece_on_spec(m.from) {
        Some(pc) => history_value(h, p.side_spec(), m.from, m.to, piece_code_spec(pc) as u8),
        None => 0,
    }
}

/// The sort key of a move; `gives_check` says whether it checks.
pub open spec fn key_with_check(
    p: Position,
    h: Map<u64, i32>,
    m: Move,
    tt_move: Option<Move>,
    killers: (Option<Move>, Option<Move>),
    gives_check: bool,
) -> int {
    (if tt_move == Some(m) { 10_000_000int } else { 0 }) + mvv_lva_spec(p, m) + (if killers.0
        == Some(m) { 5_000_000int } else { 0 }) + (if killers.1 == Some(m) {
        5_000_000int
    } else {
        0
    }) + (if gives_check { 1_000int } else { 0 }) + history_term_spec(p, h, m) + (
    if p.is_capture_spec(m) {
        1int
    } else {
        0
    })
}

/// The sort key of a legal move.
pub open spec fn key_spec(
    p: Position,
    h: Map<u64, i32>,
    m: Move,
    tt_move: Option<Move>,
    killers: (Option<Move>, Option<Move>),
) -> int {
    key_with_check(p, h, m, tt_move, killers, p.after_spec(m).in_check_spec())
}

/// Index `a` comes before index `b`: its key is greater, or the keys are
/// equal and `a` is the smaller index.
pub open spec fn comes_before(keys: Seq<i64>, a: int, b: int) -> bool {
    keys[a] > keys[b] || (keys[a] == keys[b] && a < b)
}

/// `order` lists every index of `keys` once, by descending key, equal
/// keys in their given order.
pub open spec fn is_order_of(keys: Seq<i64>, order: Seq<usize>) -> bool {
    &&& order.len() == keys.len()
    &&& forall|i: int| 0 <= i < order.len() ==> (#[trigger] order[i]) < keys.len()
    &&& forall|i: int, j: int|
        0 <= i < j < order.len() ==> comes_before(keys, order[i] as int, order[j] as int)
}

/// Where an index with key `k` goes into an order: behind the leading
/// indices whose keys are not smaller, looked at from place `pos` on.
pub open spec fn place_for(keys: Seq<i64>, order: Seq<usize>, k: i64, pos: int) -> int
    decreases order.len() - pos,
{
    if 0 <= pos < order.len() && keys[order[pos] as int] >= k {
        place_for(keys, order, k, pos + 1)
    } else {
        pos
    }
}

/// The order of the first `n` indices: each index in turn goes to its
/// place among those before it.
pub open spec fn order_upto(keys: Seq<i64>, n: int) -> Seq<usize>
    decreases n,
{
    if n <= 0 {
        Seq::empty()
    } else {
        let before = order_upto(keys, n - 1);
        before.insert(place_for(keys, before, keys[n - 1], 0), (n - 1) as usize)
    }
}

/// The order in which a stable sort by descending key visits the indices.
pub open spec fn order_of(keys: Seq<i64>) -> Seq<usize> {
    order_upto(keys, keys.len() as int)
}

/// The order in which a stable sort by descending key visits the indices.
pub fn sort_order(keys: &Vec<i64>) -> (order: Vec<usize>)
    ensures
        order@ == order_of(keys@),
        is_order_of(keys@, order@),
{
    let n = keys.len();
    let mut order: Vec<usize> = Vec::new();
    let mut i: usize = 0;
    while i < n
        invariant
            i <= n,
            n == keys@.len(),
            order@.len() == i,
            order@ == order_upto(keys@, i as int),
            forall|a: int| 0 <= a < order@.len() ==> (#[trigger] order@[a]) < i,
            forall|a: int, b: int|
                0 <= a < b < order@.len() ==> comes_before(
                    keys@,
                    order@[a] as int,
                    order@[b] as int,
                ),
        decreases n - i,
    {
        let k = keys[i];
        let mut pos: usize = 0;
        while pos < order.len() && keys[order[pos]] >= k
            invariant
                pos <= order@.len(),
                i < n,
                n == keys@.len(),
                k == keys@[i as int],
                order@.len() == i,
                forall|a: int| 0 <= a < order@.len() ==> (#[trigger] order@[a]) < i,
                forall|a: int| 0 <= a < pos ==> keys@[(#[trigger] order@[a]) as int] >= k,
                place_for(keys@, order@, k, 0) == place_for(keys@, order@, k, pos as int),
            decreases order@.len() - pos,
        {
            pos += 1;
        }
        let ghost before = order@;
        order.insert(pos, i);
        proof {
            assert forall|a: int, b: int| 0 <= a < b < order@.len() implies comes_before(
                keys@,
                order@[a] as int,
                order@[b] as int,
            ) by {
                if b < pos {
                    assert(order@[a] == before[a] && order@[b] == before[b]);
                } else if b == pos {
                    assert(order@[a] == before[a]);
                } else if a < pos {
                    assert(order@[a] == before[a] && order@[b] == before[b - 1]);
                } else if a == pos {
                    assert(order@[b] == before[b - 1]);
                    if pos < b - 1 {
                        assert(comes_before(keys@, before[pos as int] as int, before[b - 1] as int));
                    }
                } else {
                    assert(order@[a] == before[a - 1] && order@[b] == before[b - 1]);
                }
            }
            assert forall|a: int| 0 <= a < order@.len() implies (#[trigger] order@[a]) < i + 1 by {
                if a < pos {
                    assert(order@[a] == before[a]);
                } else if a > pos {
                    assert(order@[a] == before[a - 1]);
                }
            }
        }
        i += 1;
    }
    order
}

/// Orders moves with the help of a history table.
pub struct MoveOrdering<'a> {
    pub history: &'a History,
}

impl<'a> MoveOrdering<'a> {
    pub fn is_capture(&self, b: &Position, mv: Move) -> (r: bool)
        requires
            mv.wf(),
        ensures
            r == b.is_capture_spec(mv),
    {
        b.is_capture(mv)
    }

    pub fn mvv_lva(&self, b: &Position, mv: Move) -> (r: i32)
        requires
            mv.wf(),
        ensures
            r == mvv_lva_spec(*b, mv),
            0 <= r <= 19_000,
    {
        mvv_lva_of(b, mv)
    }

    /// The sort key of one legal move.
    pub fn key(
        &self,
        b: &Position,
        m: Move,
        tt_move: Option<Move>,
        killers: (Option<Move>, Option<Move>),
    ) -> (k: i64)
        requires
            self.history.wf(),
            m.wf(),
            b.is_legal(m),
        ensures
            k == key_spec(*b, self.history.table@, m, tt_move, killers),
    {
        let gives_check = b.gives_check(m);
        self.key_given_check(b, m, tt_move, killers, gives_check)
    }

    /// The sort key of a move of which it is known whether it gives check.
    pub fn key_given_check(
        &self,
        b: &Position,
        m: Move,
        tt_move: Option<Move>,
        killers: (Option<Move>, Option<Move>),
        gives_check: bool,
    ) -> (k: i64)
        requires
            self.history.wf(),
            m.wf(),
        ensures
            k == key_with_check(*b, self.history.table@, m, tt_move, killers, gives_check),
    {
        let mut k: i64 = 0;
        if tt_move == Some(m) {
            k += 10_000_000;
        }
        k += self.mvv_lva(b, m) as i64;
        if killers.0 == Some(m) {
            k += 5_000_000;
        }
        if killers.1 == Some(m) {
            k += 5_000_000;
        }
        if gives_check {
            k += 1_000;
        }
        match b.piece_on(m.from) {
            Some(pc) => {
                k += self.history.get(b.side_to_move(), m.from, m.to, piece_code(pc)) as i64;
            },
            None => {},
        }
        if b.is_capture(m) {
            k += 1;
        }
        k
    }

    /// All legal moves, best first: by descending key, moves with equal
    /// keys in the order in which the move generator lists them.
    pub fn ordered_moves(
        &self,
        b: &Position,
        tt_move: Option<Move>,
        killers: (Option<Move>, Option<Move>),
    ) -> (moves: Vec<Move>)
        requires
            self.history.wf(),
        ensures
            moves@ == ordered_spec(*b, self.history.table@, tt_move, killers),
            is_ordered(*b, self.history.table@, tt_move, killers, moves@),
            forall|i: int| 0 <= i < moves@.len() ==> (#[trigger] moves@[i]).wf(),
            forall|i: int| 0 <= i < moves@.len() ==> b.is_legal(#[trigger] moves@[i]),
    {
        let legal = b.legal_moves();
        let mut keys: Vec<i64> = Vec::new();
        let mut i: usize = 0;
        while i < legal.len()
            invariant
                i <= legal.len(),
                self.history.wf(),
                legal@ == b.legal_moves_spec(),
                forall|j: int| 0 <= j < legal@.len() ==> (#[trigger] legal@[j]).wf(),
                forall|j: int| 0 <= j < legal@.len() ==> b.is_legal(#[trigger] legal@[j]),
                keys@.len() == i,
                forall|j: int|
                    0 <= j < i ==> keys@[j] == key_spec(
                        *b,
                        self.history.table@,
                        legal@[j],
                        tt_move,
                        killers,
                    ),
            decreases legal.len() - i,
        {
            let k = self.key(b, legal[i], tt_move, killers);
            keys.push(k);
            i += 1;
        }
        let order = sort_order(&keys);
        let mut moves: Vec<Move> = Vec::new();
        let mut j: usize = 0;
        while j < order.len()
            invariant
                j <= order.len(),
                is_order_of(keys@, order@),
                order@ == order_of(keys@),
                keys@.len() == legal@.len(),
                forall|t: int| 0 <= t < legal@.len() ==> (#[trigger] legal@[t]).wf(),
                forall|t: int| 0 <= t < legal@.len() ==> b.is_legal(#[trigger] legal@[t]),
                moves@.len() == j,
                forall|t: int| 0 <= t < j ==> moves@[t] == legal@[order@[t] as int],
            decreases order.len() - j,
        {
            moves.push(legal[order[j]]);
            j += 1;
        }
        proof {
            let keys_int = keys@;
            assert(keys_of(*b, self.history.table@, tt_move, killers) =~= keys_int);
            assert(moves@ =~= Seq::new(order@.len(), |t: int| legal@[order@[t] as int]));
        }
        moves
    }
}

/// The keys of the legal moves, in the move generator's order.
pub open spec fn keys_of(
    p: Position,
    h: Map<u64, i32>,
    tt_move: Option<Move>,
    killers: (Option<Move>, Option<Move>),
) -> Seq<i64> {
    Seq::new(
        p.legal_moves_spec().len(),
        |i: int| key_spec(p, h, p.legal_moves_spec()[i], tt_move, killers) as i64,
    )
}

/// The legal moves of `p` in the order of a stable sort by descending key.
pub open spec fn ordered_spec(
    p: Position,
    h: Map<u64, i32>,
    tt_move: Option<Move>,
    killers: (Option<Move>, Option<Move>),
) -> Seq<Move> {
    let order = order_of(keys_of(p, h, tt_move, killers));
    Seq::new(order.len(), |t: int| p.legal_moves_spec()[order[t] as int])
}

/// `moves` holds the legal moves of `p` in the order of a stable sort by
/// descending key.
pub open spec fn is_ordered(
    p: Position,
    h: Map<u64, i32>,
    tt_move: Option<Move>,
    killers: (Option<Move>, Option<Move>),
    moves: Seq<Move>,
) -> bool {
    exists|order: Seq<usize>|
        #![auto]
        is_order_of(keys_of(p, h, tt_move, killers), order) && moves == Seq::new(
            order.len(),
            |t: int| p.legal_moves_spec()[order[t] as int],
        )
}

pub fn mvv_lva_of(b: &Position, mv: Move) -> (r: i32)
    requires
        mv.wf(),
    ensures
        r == mvv_lva_spec(*b, mv),
        0 <= r <= 19_000,
{
    if !b.is_capture(mv) {
        return 0;
    }
    let victim_val = match b.piece_on(mv.to) {
        Some(pc) => piece_val(pc),
        None => 100,
    };
    let attacker_val = match b.piece_on(mv.from) {
        Some(pc) => piece_val(pc),
        None => 100,
    };
    10_000 + victim_val * 10 - attacker_val
}

} // verus!
