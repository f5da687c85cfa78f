//! The transposition table: a fixed-size cache of search results, four
//! entries to a bucket, and the mate-score normalisation that goes with it.
use crate::types::{pack_move, pack_spec, Move};
use vstd::prelude::*;

verus! {

/// The stored depth that marks an empty slot.
pub const EMPTY_DEPTH: i16 = -32768;

/// Slots per bucket.
pub const TT_ASSOC: usize = 4;

/// Bytes that one entry takes in memory.
pub const ENTRY_BYTES: usize = 24;

#[derive(Clone, Copy, PartialEq, Eq, Structural, Debug)]
pub struct TTEntry {
    pub key: u64,
    pub depth: i16,
    pub score: i32,
    pub flag: i8,
    pub age: u8,
    pub best: u16,
}

pub open spec fn empty_entry() -> TTEntry {
    TTEntry { key: 0, depth: EMPTY_DEPTH, score: 0, flag: 0, age: 0, best: 0 }
}

impl Default for TTEntry {
    fn default() -> (e: TTEntry)
        ensures
            e == empty_entry(),
    {
        TTEntry { key: 0, depth: EMPTY_DEPTH, score: 0, flag: 0, age: 0, best: 0 }
    }
}

/// `n` is a power of two.
pub open spec fn is_pow2(n: int) -> bool
    decreases n,
{
    if n <= 1 {
        n == 1
    } else {
        n % 2 == 0 && is_pow2(n / 2)
    }
}

/// How many generations an entry written at `entry_age` lies behind the
/// table's current `age`; generations wrap around at 256.
pub open spec fn staleness(age: u8, entry_age: u8) -> int {
    (age as int - entry_age as int) % 256
}

/// Entry `a` is given up before entry `b`: it is shallower, or as deep and older.
pub open spec fn evict_before(a: TTEntry, b: TTEntry, age: u8) -> bool {
    a.depth < b.depth || (a.depth == b.depth && staleness(age, a.age) > staleness(age, b.age))
}

/// The number of buckets that a budget of `tt_mb` megabytes pays for.
pub open spec fn budget_buckets(tt_mb: usize) -> int {
    let bytes = if tt_mb * 1_048_576 > usize::MAX {
        usize::MAX as int
    } else {
        tt_mb * 1_048_576
    };
    let fit = bytes / 24;
    (if fit < 4 {
        4
    } else {
        fit
    }) / 4
}

pub open spec fn best_code_spec(best: Option<Move>) -> u16 {
    match best {
        Some(m) => pack_spec(m) as u16,
        None => 0,
    }
}

/// `entries` holds the slots of all buckets in one row and `mask` is the
/// number of buckets less one; `age` is the current generation.
pub struct TT {
    pub entries: Vec<TTEntry>,
    pub mask: usize,
    pub age: u8,
}

/// What a table holds, as plain values: the slots of all buckets in one
/// row, the number of buckets less one, and the current generation.
pub struct Table {
    pub slots: Seq<TTEntry>,
    pub mask: usize,
    pub age: u8,
}

/// Slot `j` of the key's bucket.
pub open spec fn table_slot(t: Table, key: u64, j: int) -> TTEntry {
    t.slots[4 * ((key & (t.mask as u64)) as int) + j]
}

/// The deepest entry for the key among the first `n` slots of its
/// bucket, the first of them if several are as deep.
pub open spec fn best_hit(t: Table, key: u64, n: int) -> Option<TTEntry>
    decreases n,
{
    if n <= 0 {
        None
    } else {
        let before = best_hit(t, key, n - 1);
        let e = table_slot(t, key, n - 1);
        if e.key == key && e.depth > EMPTY_DEPTH && (before.is_none() || e.depth
            > before.unwrap().depth) {
            Some(e)
        } else {
            before
        }
    }
}

/// What a probe for the key returns.
pub open spec fn table_probe(t: Table, key: u64) -> Option<TTEntry> {
    best_hit(t, key, 4)
}

/// The first slot from `j` on that holds the key; 4 if none does.
pub open spec fn first_match(t: Table, key: u64, j: int) -> int
    decreases 4 - j,
{
    if j < 0 || j >= 4 {
        4
    } else if table_slot(t, key, j).key == key {
        j
    } else {
        first_match(t, key, j + 1)
    }
}

/// Among the first `n` slots of the key's bucket, the first of those
/// that are given up before all others.
pub open spec fn victim(t: Table, key: u64, n: int) -> int
    decreases n,
{
    if n <= 1 {
        0
    } else {
        let v = victim(t, key, n - 1);
        if evict_before(table_slot(t, key, n - 1), table_slot(t, key, v), t.age) {
            n - 1
        } else {
            v
        }
    }
}

/// The slot that a store for the key writes.
pub open spec fn store_slot(t: Table, key: u64) -> int {
    if first_match(t, key, 0) < 4 {
        first_match(t, key, 0)
    } else {
        victim(t, key, 4)
    }
}

/// The table after an entry has been stored under a key.
pub open spec fn table_store(t: Table, key: u64, entry: TTEntry) -> Table {
    Table {
        slots: t.slots.update(4 * ((key & (t.mask as u64)) as int) + store_slot(t, key), entry),
        mask: t.mask,
        age: t.age,
    }
}

/// The entry that a store writes.
pub open spec fn entry_spec(
    key: u64,
    depth: int,
    score: i32,
    flag: i8,
    age: u8,
    best: Option<Move>,
) -> TTEntry {
    TTEntry { key, depth: depth as i16, score, flag, age, best: best_code_spec(best) }
}

impl TT {
    pub open spec fn table(self) -> Table {
        Table { slots: self.entries@, mask: self.mask, age: self.age }
    }

    pub open spec fn bucket_count(self) -> int {
        self.mask + 1
    }

    /// The slots of all buckets in one row: bucket `b` holds the slots
    /// `4 * b` to `4 * b + 3`.
    pub open spec fn slots(self) -> Seq<TTEntry> {
        self.entries@
    }

    /// The bucket of a key: its low bits, as many as index the buckets.
    pub open spec fn bucket_of(self, key: u64) -> int {
        (key & (self.mask as u64)) as int
    }

    /// Slot `j` of bucket `b`.
    pub open spec fn at(self, b: int, j: int) -> TTEntry {
        self.entries@[4 * b + j]
    }

    /// The number of buckets is a power of two, every bucket has four
    /// slots, and no bucket holds two results for one key: where two
    /// slots of a bucket have the same key, the later one is empty.
    pub open spec fn wf(self) -> bool {
        &&& is_pow2(self.mask + 1)
        &&& self.mask < usize::MAX / 4
        &&& self.entries@.len() == 4 * (self.mask + 1)
        &&& forall|b: int, i: int, j: int|
            0 <= b <= self.mask && 0 <= i < j < 4 && (#[trigger] self.at(b, i)).key == (
            #[trigger] self.at(b, j)).key ==> self.at(b, j).depth == EMPTY_DEPTH
    }

    pub open spec fn slot(self, key: u64, j: int) -> TTEntry {
        self.slots()[4 * self.bucket_of(key) + j]
    }

    /// Slot `j` of the key's bucket holds a result for this key.
    pub open spec fn hit(self, key: u64, j: int) -> bool {
        self.slot(key, j).key == key && self.slot(key, j).depth > EMPTY_DEPTH
    }

    /// What a probe for `key` returns: nothing if no slot of the bucket
    /// holds the key, else the deepest entry that does, the first of them
    /// if several are as deep.
    pub open spec fn probe_result(self, key: u64, r: Option<TTEntry>) -> bool {
        match r {
            Some(e) => exists|j: int|
                0 <= j < 4 && #[trigger] self.hit(key, j) && self.slot(key, j) == e && (forall|
                    i: int,
                |
                    0 <= i < 4 && #[trigger] self.hit(key, i) ==> self.slot(key, i).depth
                        <= e.depth) && (forall|i: int|
                    0 <= i < j && #[trigger] self.hit(key, i) ==> self.slot(key, i).depth
                        < e.depth),
            None => forall|j: int| 0 <= j < 4 ==> !#[trigger] self.hit(key, j),
        }
    }

    /// The one result that a probe for `key` can have.
    pub open spec fn probe_spec(self, key: u64) -> Option<TTEntry> {
        choose|r: Option<TTEntry>| self.probe_result(key, r)
    }

    /// Slot `j` of the key's bucket is the one a store for `key` writes:
    /// the first slot that already has the key, or else the first among
    /// those that are given up before all others.
    pub open spec fn store_target(self, key: u64, j: int) -> bool {
        &&& 0 <= j < 4
        &&& if exists|i: int| 0 <= i < 4 && (#[trigger] self.slot(key, i)).key == key {
            &&& self.slot(key, j).key == key
            &&& forall|i: int| 0 <= i < j ==> (#[trigger] self.slot(key, i)).key != key
        } else {
            &&& forall|i: int|
                0 <= i < 4 ==> !evict_before(
                    #[trigger] self.slot(key, i),
                    self.slot(key, j),
                    self.age,
                )
            &&& forall|i: int|
                0 <= i < j ==> evict_before(
                    self.slot(key, j),
                    #[trigger] self.slot(key, i),
                    self.age,
                )
        }
    }

    /// `after` is this table with `entry` stored under `key`: the target
    /// slot holds the entry and nothing else has changed.
    pub open spec fn stored(self, after: TT, key: u64, entry: TTEntry) -> bool {
        &&& after.wf()
        &&& after.age == self.age
        &&& after.bucket_count() == self.bucket_count()
        &&& after.bucket_of(key) == self.bucket_of(key)
        &&& exists|j: int|
            #[trigger] self.store_target(key, j) && after.slots() == self.slots().update(
                4 * self.bucket_of(key) + j,
                entry,
            )
    }

    /// A table of as many buckets as fit into `tt_mb` megabytes, rounded
    /// down to a power of two; at least one bucket.
    pub fn new_from_mb(tt_mb: usize) -> (t: TT)
        ensures
            t.wf(),
            t.age == 0,
            is_pow2(t.bucket_count()),
            t.slots().len() == 4 * t.bucket_count(),
            forall|i: int| 0 <= i < t.slots().len() ==> t.slots()[i] == empty_entry(),
            tt_mb >= 1 ==> t.slots().len() * 24 <= tt_mb * 1_048_576,
            t.bucket_count() <= budget_buckets(tt_mb) < 2 * t.bucket_count(),
    {
        let bytes: usize = if tt_mb > usize::MAX / 1_048_576 {
            usize::MAX
        } else {
            tt_mb * 1_048_576
        };
        let fit: usize = bytes / ENTRY_BYTES;
        let total_entries: usize = if fit < TT_ASSOC {
            TT_ASSOC
        } else {
            fit
        };
        let buckets: usize = total_entries / TT_ASSOC;
        let mut pow2: usize = 1;
        while pow2 <= buckets / 2
            invariant
                1 <= pow2 <= buckets,
                is_pow2(pow2 as int),
            decreases buckets - pow2,
        {
            pow2 = pow2 * 2;
        }
        let n: usize = pow2 * 4;
        let mut entries: Vec<TTEntry> = Vec::new();
        let mut i: usize = 0;
        while i < n
            invariant
                i <= n,
                entries@.len() == i,
                forall|j: int| 0 <= j < i ==> entries@[j] == empty_entry(),
            decreases n - i,
        {
            entries.push(TTEntry::default());
            i += 1;
        }
        TT { entries, mask: pow2 - 1, age: 0 }
    }

    fn idx(&self, key: u64) -> (b: usize)
        requires
            self.wf(),
        ensures
            b == self.bucket_of(key),
            0 <= b < self.bucket_count(),
    {
        let m: u64 = self.mask as u64;
        assert(key & m <= m) by (bit_vector);
        (key & m) as usize
    }

    /// Looks a key up in its bucket.
    pub fn probe(&self, key: u64) -> (r: Option<TTEntry>)
        requires
            self.wf(),
        ensures
            self.probe_result(key, r),
            r == self.probe_spec(key),
            r == table_probe(self.table(), key),
    {
        let base: usize = self.idx(key) * 4;
        let mut best: Option<TTEntry> = None;
        let mut found: usize = 0;
        let mut j: usize = 0;
        while j < 4
            invariant
                j <= 4,
                self.wf(),
                base == 4 * self.bucket_of(key),
                base + 4 <= self.entries@.len(),
                best == best_hit(self.table(), key, j as int),
                match best {
                    Some(e) => found < j && self.hit(key, found as int) && self.slot(
                        key,
                        found as int,
                    ) == e && (forall|i: int|
                        0 <= i < j && #[trigger] self.hit(key, i) ==> self.slot(key, i).depth
                            <= e.depth) && (forall|i: int|
                        0 <= i < found && #[trigger] self.hit(key, i) ==> self.slot(
                            key,
                            i,
                        ).depth < e.depth),
                    None => forall|i: int| 0 <= i < j ==> !#[trigger] self.hit(key, i),
                },
            decreases 4 - j,
        {
            let e = self.entries[base + j];
            assert(e == self.slot(key, j as int));
            if e.key == key && e.depth > EMPTY_DEPTH {
                let better = match best {
                    Some(b) => e.depth > b.depth,
                    None => true,
                };
                if better {
                    best = Some(e);
                    found = j;
                }
            }
            j += 1;
        }
        proof {
            assert(self.probe_result(key, best));
            lemma_probe_unique(*self, key, best, self.probe_spec(key));
        }
        best
    }

    /// Stores a search result. An entry for the same key is overwritten;
    /// otherwise the shallowest entry of the bucket makes room, the oldest
    /// of them if several are as shallow.
    pub fn store(&mut self, key: u64, depth: i32, score: i32, flag: i8, best: Option<Move>)
        requires
            old(self).wf(),
            -32768 <= depth <= 32767,
        ensures
            old(self).stored(
                *final(self),
                key,
                (TTEntry {
                    key,
                    depth: depth as i16,
                    score,
                    flag,
                    age: old(self).age,
                    best: best_code_spec(best),
                }),
            ),
            final(self).table() == table_store(
                old(self).table(),
                key,
                entry_spec(key, depth as int, score, flag, old(self).age, best),
            ),
    {
        let base: usize = self.idx(key) * 4;
        let code: u16 = match best {
            Some(m) => pack_move(m),
            None => 0,
        };
        let entry = TTEntry { key, depth: depth as i16, score, flag, age: self.age, best: code };
        let mut target: usize = 0;
        let mut matched = false;
        let mut j: usize = 0;
        while j < 4 && !matched
            invariant
                j <= 4,
                self.wf(),
                *self == *old(self),
                base == 4 * self.bucket_of(key),
                base + 4 <= self.entries@.len(),
                matched ==> target < 4 && self.slot(key, target as int).key == key,
                matched ==> forall|i: int|
                    0 <= i < target ==> (#[trigger] self.slot(key, i)).key != key,
                !matched ==> forall|i: int|
                    0 <= i < j ==> (#[trigger] self.slot(key, i)).key != key,
                matched ==> first_match(self.table(), key, 0) == target,
                !matched ==> first_match(self.table(), key, 0) == first_match(
                    self.table(),
                    key,
                    j as int,
                ),
            decreases 4 - j + (if matched { 0int } else { 1int }),
        {
            let e = self.entries[base + j];
            assert(e == self.slot(key, j as int));
            if e.key == key {
                target = j;
                matched = true;
            } else {
                j += 1;
            }
        }
        if !matched {
            target = 0;
            let mut k: usize = 1;
            while k < 4
                invariant
                    1 <= k <= 4,
                    target < k,
                    self.wf(),
                    *self == *old(self),
                    base == 4 * self.bucket_of(key),
                    base + 4 <= self.entries@.len(),
                    target == victim(self.table(), key, k as int),
                    forall|i: int|
                        0 <= i < k ==> !evict_before(
                            #[trigger] self.slot(key, i),
                            self.slot(key, target as int),
                            self.age,
                        ),
                    forall|i: int|
                        0 <= i < target ==> evict_before(
                            self.slot(key, target as int),
                            #[trigger] self.slot(key, i),
                            self.age,
                        ),
                decreases 4 - k,
            {
                let e = self.entries[base + k];
                let r = self.entries[base + target];
                assert(e == self.slot(key, k as int));
                assert(r == self.slot(key, target as int));
                let stale_e: u8 = self.age.wrapping_sub(e.age);
                let stale_r: u8 = self.age.wrapping_sub(r.age);
                assert(stale_e == staleness(self.age, e.age));
                assert(stale_r == staleness(self.age, r.age));
                if e.depth < r.depth || (e.depth == r.depth && stale_e > stale_r) {
                    target = k;
                }
                k += 1;
            }
        }
        assert(old(self).store_target(key, target as int));
        assert(target == store_slot(old(self).table(), key));
        let ghost bucket = self.bucket_of(key);
        self.entries.set(base + target, entry);
        proof {
            assert forall|b: int, i: int, j: int|
                0 <= b <= self.mask && 0 <= i < j < 4 && (#[trigger] self.at(b, i)).key == (
                #[trigger] self.at(b, j)).key implies self.at(b, j).depth == EMPTY_DEPTH by {
                if b != bucket {
                    assert(self.at(b, i) == old(self).at(b, i));
                    assert(self.at(b, j) == old(self).at(b, j));
                } else {
                    assert(old(self).at(b, i) == old(self).slot(key, i));
                    assert(old(self).at(b, j) == old(self).slot(key, j));
                    if i == target {
                        assert(self.at(b, j) == old(self).at(b, j));
                        assert(old(self).at(b, i).key == key);
                    } else if j == target {
                        assert(self.at(b, i) == old(self).at(b, i));
                    } else {
                        assert(self.at(b, i) == old(self).at(b, i));
                        assert(self.at(b, j) == old(self).at(b, j));
                    }
                }
            }
        }
        assert(self.slots() == old(self).slots().update(
            4 * old(self).bucket_of(key) + target as int,
            entry,
        ));
    }

    /// Starts a new generation.
    pub fn bump_age(&mut self)
        requires
            old(self).wf(),
        ensures
            final(self).wf(),
            final(self).age == (if old(self).age == 255 { 0int } else { old(self).age + 1 }),
            final(self).slots() == old(self).slots(),
            final(self).mask == old(self).mask,
            final(self).bucket_count() == old(self).bucket_count(),
            forall|key: u64| final(self).bucket_of(key) == old(self).bucket_of(key),
    {
        self.age = if self.age == 255 {
            0
        } else {
            self.age + 1
        };
        proof {
            assert forall|b: int, i: int, j: int|
                0 <= b <= self.mask && 0 <= i < j < 4 && (#[trigger] self.at(b, i)).key == (
                #[trigger] self.at(b, j)).key implies self.at(b, j).depth == EMPTY_DEPTH by {
                assert(self.at(b, i) == old(self).at(b, i));
                assert(self.at(b, j) == old(self).at(b, j));
            }
        }
    }
}

pub open spec fn to_tt_spec(score: int, ply: int) -> int {
    if score >= 30_000 - 64 {
        score + ply
    } else if score <= -30_000 + 64 {
        score - ply
    } else {
        score
    }
}

pub open spec fn from_tt_spec(score: int, ply: int) -> int {
    if score >= 30_000 - 64 {
        score - ply
    } else if score <= -30_000 + 64 {
        score + ply
    } else {
        score
    }
}

/// Turns a score seen `ply` plies below the root into the form that is
/// stored: a mate score then counts the distance from the node, not from the root.
pub fn to_tt(score: i32, ply: i32) -> (r: i32)
    requires
        i32::MIN <= to_tt_spec(score as int, ply as int) <= i32::MAX,
    ensures
        r == to_tt_spec(score as int, ply as int),
{
    if score >= 30_000 - 64 {
        score + ply
    } else if score <= -30_000 + 64 {
        score - ply
    } else {
        score
    }
}

/// Turns a stored score back into one seen `ply` plies below the root.
pub fn from_tt(score: i32, ply: i32) -> (r: i32)
    requires
        i32::MIN <= from_tt_spec(score as int, ply as int) <= i32::MAX,
    ensures
        r == from_tt_spec(score as int, ply as int),
{
    if score >= 30_000 - 64 {
        score - ply
    } else if score <= -30_000 + 64 {
        score + ply
    } else {
        score
    }
}

/// A score that is stored and read back at the same distance from the
/// root comes back unchanged.
pub proof fn lemma_tt_score_round_trip(score: int, ply: int)
    requires
        ply >= 0,
    ensures
        from_tt_spec(to_tt_spec(score, ply), ply) == score,
{
}

/// A probe has one result only.
pub proof fn lemma_probe_unique(t: TT, key: u64, r1: Option<TTEntry>, r2: Option<TTEntry>)
    requires
        t.probe_result(key, r1),
        t.probe_result(key, r2),
    ensures
        r1 == r2,
{
    match (r1, r2) {
        (Some(e1), Some(e2)) => {
            let j1 = choose|j: int|
                0 <= j < 4 && #[trigger] t.hit(key, j) && t.slot(key, j) == e1 && (forall|i: int|
                    0 <= i < 4 && #[trigger] t.hit(key, i) ==> t.slot(key, i).depth <= e1.depth)
                    && (forall|i: int|
                    0 <= i < j && #[trigger] t.hit(key, i) ==> t.slot(key, i).depth < e1.depth);
            let j2 = choose|j: int|
                0 <= j < 4 && #[trigger] t.hit(key, j) && t.slot(key, j) == e2 && (forall|i: int|
                    0 <= i < 4 && #[trigger] t.hit(key, i) ==> t.slot(key, i).depth <= e2.depth)
                    && (forall|i: int|
                    0 <= i < j && #[trigger] t.hit(key, i) ==> t.slot(key, i).depth < e2.depth);
            assert(e1.depth == e2.depth);
            assert(j1 == j2);
        },
        (Some(e1), None) => {
            let j1 = choose|j: int| 0 <= j < 4 && #[trigger] t.hit(key, j) && t.slot(key, j) == e1;
            assert(t.hit(key, j1));
        },
        (None, Some(e2)) => {
            let j2 = choose|j: int| 0 <= j < 4 && #[trigger] t.hit(key, j) && t.slot(key, j) == e2;
            assert(t.hit(key, j2));
        },
        (None, None) => {},
    }
}

/// After a key is stored at some depth, a probe for it finds an entry
/// for that key which is at least as deep.
pub proof fn lemma_probe_after_store(
    before: TT,
    after: TT,
    key: u64,
    entry: TTEntry,
    r: Option<TTEntry>,
)
    requires
        before.wf(),
        entry.key == key,
        entry.depth > EMPTY_DEPTH,
        before.stored(after, key, entry),
        after.probe_result(key, r),
    ensures
        r.is_some(),
        r.unwrap().key == key,
        r.unwrap().depth >= entry.depth,
{
    let m = before.mask as u64;
    assert(key & m <= m) by (bit_vector);
    let j = choose|j: int|
        #[trigger] before.store_target(key, j) && after.slots() == before.slots().update(
            4 * before.bucket_of(key) + j,
            entry,
        );
    assert(after.slot(key, j) == entry);
    assert(after.hit(key, j));
}

/// The table holds four slots for each of its buckets, and the number of
/// buckets is a power of two.
pub proof fn lemma_capacity(t: TT)
    requires
        t.wf(),
    ensures
        is_pow2(t.bucket_count()),
        t.slots().len() == 4 * t.bucket_count(),
{
}

/// Where no slot of a bucket holds the key, a store takes the first of
/// the slots that are given up before all others; else the first slot
/// that holds the key.
pub proof fn lemma_store_slot(t: Table, key: u64)
    ensures
        0 <= store_slot(t, key) < 4,
        first_match(t, key, 0) < 4 ==> table_slot(t, key, store_slot(t, key)).key == key
            && forall|i: int|
            0 <= i < store_slot(t, key) ==> (#[trigger] table_slot(t, key, i)).key != key,
        first_match(t, key, 0) >= 4 ==> forall|i: int|
            0 <= i < 4 ==> (#[trigger] table_slot(t, key, i)).key != key,
{
    reveal_with_fuel(first_match, 5);
    reveal_with_fuel(victim, 5);
}

/// A probe right after a store returns the entry stored.
pub proof fn lemma_store_then_probe(before: TT, key: u64, entry: TTEntry)
    requires
        before.wf(),
        entry.key == key,
        entry.depth > EMPTY_DEPTH,
    ensures
        table_probe(table_store(before.table(), key, entry), key) == Some(entry),
{
    let t = before.table();
    let after = table_store(t, key, entry);
    let m = before.mask as u64;
    assert(key & m <= m) by (bit_vector);
    let b = (key & m) as int;
    let target = store_slot(t, key);
    lemma_store_slot(t, key);
    reveal_with_fuel(best_hit, 5);
    assert(table_slot(t, key, 0) == before.at(b, 0));
    assert(table_slot(t, key, 1) == before.at(b, 1));
    assert(table_slot(t, key, 2) == before.at(b, 2));
    assert(table_slot(t, key, 3) == before.at(b, 3));
    assert(table_slot(after, key, target) == entry);
    assert forall|j: int| 0 <= j < 4 && j != target implies !(table_slot(after, key, j).key == key
        && table_slot(after, key, j).depth > EMPTY_DEPTH) by {
        assert(table_slot(after, key, j) == table_slot(t, key, j));
        if table_slot(t, key, j).key == key {
            assert(first_match(t, key, 0) < 4);
            assert(target < j);
            assert(before.at(b, target).key == before.at(b, j).key);
        }
    }
}

/// The table after one of a row of stores at one depth without a move.
pub open spec fn stored_plain(t: Table, key: u64, depth: int) -> Table {
    table_store(t, key, entry_spec(key, depth, 0, 0, t.age, None))
}

/// A bucket has room for four keys: where five different keys of one
/// bucket are stored in an empty bucket at one depth and in one
/// generation, the first four are all found after the fourth store;
/// after the fifth the last four are found and the first one is not.
pub proof fn lemma_five_keys(t: Table, a: u64, b: u64, c: u64, d: u64, e: u64, depth: int)
    requires
        a != b && a != c && a != d && a != e && b != c && b != d && b != e && c != d && c != e
            && d != e,
        a != 0 && b != 0 && c != 0 && d != 0 && e != 0,
        (b & (t.mask as u64)) == (a & (t.mask as u64)),
        (c & (t.mask as u64)) == (a & (t.mask as u64)),
        (d & (t.mask as u64)) == (a & (t.mask as u64)),
        (e & (t.mask as u64)) == (a & (t.mask as u64)),
        4 * ((a & (t.mask as u64)) as int) + 4 <= t.slots.len(),
        table_slot(t, a, 0) == empty_entry(),
        table_slot(t, a, 1) == empty_entry(),
        table_slot(t, a, 2) == empty_entry(),
        table_slot(t, a, 3) == empty_entry(),
        -32768 < depth <= 32767,
    ensures
        ({
            let t4 = stored_plain(
                stored_plain(stored_plain(stored_plain(t, a, depth), b, depth), c, depth),
                d,
                depth,
            );
            let t5 = stored_plain(t4, e, depth);
            &&& table_probe(t4, a).is_some() && table_probe(t4, b).is_some()
            &&& table_probe(t4, c).is_some() && table_probe(t4, d).is_some()
            &&& table_probe(t5, a).is_none()
            &&& table_probe(t5, b).is_some() && table_probe(t5, c).is_some()
            &&& table_probe(t5, d).is_some() && table_probe(t5, e).is_some()
        }),
{
    reveal_with_fuel(first_match, 5);
    reveal_with_fuel(victim, 5);
    reveal_with_fuel(best_hit, 5);
    let t1 = stored_plain(t, a, depth);
    assert(store_slot(t, a) == 0);
    let t2 = stored_plain(t1, b, depth);
    assert(store_slot(t1, b) == 1);
    let t3 = stored_plain(t2, c, depth);
    assert(store_slot(t2, c) == 2);
    let t4 = stored_plain(t3, d, depth);
    assert(store_slot(t3, d) == 3);
    let t5 = stored_plain(t4, e, depth);
    assert(store_slot(t4, e) == 0);
}

} // verus!
