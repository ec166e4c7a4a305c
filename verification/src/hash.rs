//! The transposition table: a fixed number of slots, four candidate slots per
//! position hash, and a purging policy that prefers stale and shallow
//! entries.

use crate::moves::Move;
use crate::position::Position;
use crate::score::{BoardScore, BoundedScore};
use vstd::prelude::*;

verus! {

/// What a slot of the table holds.
#[derive(Clone, Copy, PartialEq, Eq, Structural, Debug)]
pub enum HashEntryKind {
    Unused,
    Deficient,
    Full,
}

/// Which kind of bound a stored score is.
#[derive(Clone, Copy, PartialEq, Eq, Structural, Debug)]
pub enum BoardScoreType {
    Exact,
    LowerBound,
    UpperBound,
}

impl BoardScoreType {
    /// The bound kind of a bounded score.
    pub open spec fn of(score: BoundedScore) -> BoardScoreType {
        match score {
            BoundedScore::Exact(_) => BoardScoreType::Exact,
            BoundedScore::LowerBound(_) => BoardScoreType::LowerBound,
            BoundedScore::UpperBound(_) => BoardScoreType::UpperBound,
        }
    }

    /// The bounded score of this kind around `score`.
    pub open spec fn around(self, score: BoardScore) -> BoundedScore {
        match self {
            BoardScoreType::Exact => BoundedScore::Exact(score),
            BoardScoreType::LowerBound => BoundedScore::LowerBound(score),
            BoardScoreType::UpperBound => BoundedScore::UpperBound(score),
        }
    }

    pub fn from_score(score: BoundedScore) -> (r: BoardScoreType)
        ensures
            r == BoardScoreType::of(score),
    {
        match score {
            BoundedScore::Exact(_) => BoardScoreType::Exact,
            BoundedScore::LowerBound(_) => BoardScoreType::LowerBound,
            BoundedScore::UpperBound(_) => BoardScoreType::UpperBound,
        }
    }
}

/// The code of an entry kind in the two lowest bits of the info byte.
/// `Unused` is 0, so that a zeroed slot is unused.
pub open spec fn kind_code(kind: HashEntryKind) -> int {
    match kind {
        HashEntryKind::Unused => 0,
        HashEntryKind::Deficient => 1,
        HashEntryKind::Full => 2,
    }
}

/// The code of a bound kind in bits 2 and 3 of the info byte.
pub open spec fn bound_code(bound: BoardScoreType) -> int {
    match bound {
        BoardScoreType::Exact => 0,
        BoardScoreType::LowerBound => 1,
        BoardScoreType::UpperBound => 2,
    }
}

/// The info byte that packs an entry kind and a bound kind; the upper four
/// bits are reserved and zero.
pub open spec fn pack_info(kind: HashEntryKind, bound: BoardScoreType) -> int {
    kind_code(kind) + 4 * bound_code(bound)
}

/// Entry kind and bound kind of an entry, packed into one byte.
#[derive(Clone, Copy, PartialEq, Eq, Structural, Debug)]
pub struct HashEntryInfo(u8);

impl HashEntryInfo {
    /// The packed byte.
    pub closed spec fn byte(self) -> u8 {
        self.0
    }

    /// The byte decodes to an entry kind and a bound kind, and its reserved
    /// bits are zero.
    pub open spec fn wf(self) -> bool {
        self.byte() < 16 && self.byte() % 4 != 3 && self.byte() / 4 != 3
    }

    pub open spec fn kind_spec(self) -> HashEntryKind {
        if self.byte() % 4 == 0 {
            HashEntryKind::Unused
        } else if self.byte() % 4 == 1 {
            HashEntryKind::Deficient
        } else {
            HashEntryKind::Full
        }
    }

    pub open spec fn bound_spec(self) -> BoardScoreType {
        if self.byte() / 4 == 0 {
            BoardScoreType::Exact
        } else if self.byte() / 4 == 1 {
            BoardScoreType::LowerBound
        } else {
            BoardScoreType::UpperBound
        }
    }

    pub fn new(entry_kind: HashEntryKind, score_type: BoardScoreType) -> (r: HashEntryInfo)
        ensures
            r.wf(),
            r.byte() == pack_info(entry_kind, score_type),
            r.kind_spec() == entry_kind,
            r.bound_spec() == score_type,
    {
        let mut result = HashEntryInfo(0);
        result.set_entry_kind(entry_kind);
        result.set_score_type(score_type);
        result
    }

    pub fn entry_kind(&self) -> (r: HashEntryKind)
        requires
            self.wf(),
        ensures
            r == self.kind_spec(),
    {
        let byte = self.0;
        let bits = byte & 0b11;
        assert(bits == byte % 4) by (bit_vector)
            requires
                bits == byte & 0b11,
        ;
        if bits == 0 {
            HashEntryKind::Unused
        } else if bits == 1 {
            HashEntryKind::Deficient
        } else {
            HashEntryKind::Full
        }
    }

    pub fn set_entry_kind(&mut self, entry_kind: HashEntryKind)
        requires
            old(self).wf(),
        ensures
            final(self).wf(),
            final(self).kind_spec() == entry_kind,
            final(self).bound_spec() == old(self).bound_spec(),
            final(self).byte() == pack_info(entry_kind, old(self).bound_spec()),
    {
        let byte = self.0;
        let code: u8 = match entry_kind {
            HashEntryKind::Unused => 0,
            HashEntryKind::Deficient => 1,
            HashEntryKind::Full => 2,
        };
        let packed = (byte & !0b11) | code;
        assert(packed == (byte / 4) * 4 + code) by (bit_vector)
            requires
                packed == (byte & !0b11) | code,
                code < 3,
                byte < 16,
        ;
        self.0 = packed;
    }

    pub fn score_type(&self) -> (r: BoardScoreType)
        requires
            self.wf(),
        ensures
            r == self.bound_spec(),
    {
        let byte = self.0;
        let bits = byte & 0b1100;
        assert(bits == (byte / 4) * 4) by (bit_vector)
            requires
                bits == byte & 0b1100,
                byte < 16,
        ;
        if bits == 0b0000 {
            BoardScoreType::Exact
        } else if bits == 0b0100 {
            BoardScoreType::LowerBound
        } else {
            BoardScoreType::UpperBound
        }
    }

    pub fn set_score_type(&mut self, score_type: BoardScoreType)
        requires
            old(self).wf(),
        ensures
            final(self).wf(),
            final(self).bound_spec() == score_type,
            final(self).kind_spec() == old(self).kind_spec(),
            final(self).byte() == pack_info(old(self).kind_spec(), score_type),
    {
        let byte = self.0;
        let code: u8 = match score_type {
            BoardScoreType::Exact => 0b0000,
            BoardScoreType::LowerBound => 0b0100,
            BoardScoreType::UpperBound => 0b1000,
        };
        let packed = (byte & !0b1100) | code;
        assert(packed == byte % 4 + code) by (bit_vector)
            requires
                packed == (byte & !0b1100) | code,
                code == 0 || code == 4 || code == 8,
                byte < 16,
        ;
        self.0 = packed;
    }

    pub fn is_used(&self) -> (r: bool)
        requires
            self.wf(),
        ensures
            r == (self.kind_spec() != HashEntryKind::Unused),
    {
        match self.entry_kind() {
            HashEntryKind::Unused => false,
            _ => true,
        }
    }
}

/// One slot of the table: the hash of a position and what the search found
/// out about it.
#[derive(Clone, Copy, Debug)]
pub struct HashEntry {
    entry_type: HashEntryInfo,
    hash: u64,
    best_move: Option<Move>,
    score: BoardScore,
    depth: u8,
    generation: u8,
}

impl HashEntry {
    pub closed spec fn info_spec(self) -> HashEntryInfo {
        self.entry_type
    }

    pub closed spec fn hash_spec(self) -> u64 {
        self.hash
    }

    pub closed spec fn best_move_spec(self) -> Option<Move> {
        self.best_move
    }

    /// The stored score without its bound kind.
    pub closed spec fn raw_score_spec(self) -> BoardScore {
        self.score
    }

    pub closed spec fn depth_spec(self) -> u8 {
        self.depth
    }

    pub closed spec fn generation_spec(self) -> u8 {
        self.generation
    }

    /// The entry with the given fields.
    pub closed spec fn from_fields(
        info: HashEntryInfo,
        hash: u64,
        best_move: Option<Move>,
        score: BoardScore,
        depth: u8,
        generation: u8,
    ) -> HashEntry {
        HashEntry { entry_type: info, hash, best_move, score, depth, generation }
    }

    pub open spec fn wf(self) -> bool {
        self.info_spec().wf()
    }

    pub open spec fn kind_spec(self) -> HashEntryKind {
        self.info_spec().kind_spec()
    }

    pub open spec fn is_used_spec(self) -> bool {
        self.kind_spec() != HashEntryKind::Unused
    }

    /// The stored score with its bound kind.
    pub open spec fn score_spec(self) -> BoundedScore {
        self.info_spec().bound_spec().around(self.raw_score_spec())
    }

    /// The entry as the table stores it under `hash` in generation
    /// `generation`: those two fields replaced, the others kept.
    pub open spec fn stored_as(self, hash: u64, generation: u8) -> HashEntry {
        HashEntry::from_fields(
            self.info_spec(),
            hash,
            self.best_move_spec(),
            self.raw_score_spec(),
            self.depth_spec(),
            generation,
        )
    }

    /// An entry is its six fields.
    pub broadcast proof fn lemma_fields(self)
        ensures
            #![trigger self.info_spec()]
            #![trigger self.hash_spec()]
            #![trigger self.best_move_spec()]
            #![trigger self.raw_score_spec()]
            #![trigger self.depth_spec()]
            #![trigger self.generation_spec()]
            self == HashEntry::from_fields(
                self.info_spec(),
                self.hash_spec(),
                self.best_move_spec(),
                self.raw_score_spec(),
                self.depth_spec(),
                self.generation_spec(),
            ),
    {
    }

    /// The fields of `from_fields` are its arguments.
    pub broadcast proof fn lemma_from_fields(
        info: HashEntryInfo,
        hash: u64,
        best_move: Option<Move>,
        score: BoardScore,
        depth: u8,
        generation: u8,
    )
        ensures
            ({
                let e = #[trigger] HashEntry::from_fields(
                    info,
                    hash,
                    best_move,
                    score,
                    depth,
                    generation,
                );
                &&& e.info_spec() == info
                &&& e.hash_spec() == hash
                &&& e.best_move_spec() == best_move
                &&& e.raw_score_spec() == score
                &&& e.depth_spec() == depth
                &&& e.generation_spec() == generation
            }),
    {
    }

    /// A full entry with the given contents, in generation 0.
    pub fn with_contents(hash: u64, best_move: Option<Move>, score: BoundedScore, depth: u8) -> (r:
        HashEntry)
        ensures
            r.wf(),
            r.kind_spec() == HashEntryKind::Full,
            r.hash_spec() == hash,
            r.best_move_spec() == best_move,
            r.score_spec() == score,
            r.depth_spec() == depth,
            r.generation_spec() == 0,
    {
        HashEntry {
            entry_type: HashEntryInfo::new(HashEntryKind::Full, BoardScoreType::from_score(score)),
            hash,
            best_move,
            score: score.unwrap(),
            depth,
            generation: 0,
        }
    }

    /// The all-zero entry that an empty slot holds.
    pub fn unused() -> (r: HashEntry)
        ensures
            r.wf(),
            r.kind_spec() == HashEntryKind::Unused,
            r.hash_spec() == 0,
            r.best_move_spec() is None,
            r.raw_score_spec()@ == 0,
            r.depth_spec() == 0,
            r.generation_spec() == 0,
    {
        HashEntry {
            entry_type: HashEntryInfo::new(HashEntryKind::Unused, BoardScoreType::Exact),
            hash: 0,
            best_move: None,
            score: BoardScore::even(),
            depth: 0,
            generation: 0,
        }
    }

    pub fn hash(&self) -> (r: u64)
        ensures
            r == self.hash_spec(),
    {
        self.hash
    }

    pub fn score(&self) -> (r: BoundedScore)
        requires
            self.wf(),
        ensures
            r == self.score_spec(),
    {
        match self.entry_type.score_type() {
            BoardScoreType::Exact => BoundedScore::Exact(self.score),
            BoardScoreType::LowerBound => BoundedScore::LowerBound(self.score),
            BoardScoreType::UpperBound => BoundedScore::UpperBound(self.score),
        }
    }

    pub fn depth(&self) -> (r: u8)
        ensures
            r == self.depth_spec(),
    {
        self.depth
    }

    pub fn best_move(&self) -> (r: Option<Move>)
        ensures
            r == self.best_move_spec(),
    {
        self.best_move
    }

    pub fn generation(&self) -> (r: u8)
        ensures
            r == self.generation_spec(),
    {
        self.generation
    }

    pub fn is_used(&self) -> (r: bool)
        requires
            self.wf(),
        ensures
            r == self.is_used_spec(),
    {
        self.entry_type.is_used()
    }
}

/// Number of slots in which an entry for a given hash may be stored.
pub const NUM_SLOTS_PER_HASH: usize = 4;

/// Number of table entries in one megabyte, at sixteen bytes an entry.
pub const ENTRIES_PER_MEGABYTE: usize = 65536;

/// Added to the hash after every full cycle of rotations. It touches one bit
/// in each 16-bit lane of the hash.
pub const PROBE_INCREMENT: u64 = 0x1000100010005;

/// Number of probes after which four distinct slots are certain to have come
/// up.
pub const PROBE_LIMIT: usize = 256;

/// A table can have this many entries: a whole number of megabytes, at
/// least one.
pub open spec fn valid_capacity(capacity: nat) -> bool {
    capacity > 0 && capacity % (ENTRIES_PER_MEGABYTE as nat) == 0
}

/// `x` with its bits rotated left by `amount` places, `amount` below 64.
#[verifier::opaque]
pub open spec fn rotate_left_spec(x: u64, amount: u64) -> u64 {
    if amount == 0 {
        x
    } else {
        (x << amount) | (x >> ((64 - amount) as u64))
    }
}

/// The hash as it stands at the start of round `round` of probing: the
/// constant has been added `round` times, wrapping around.
pub open spec fn probe_base(hash: u64, round: nat) -> u64 {
    ((hash + round * PROBE_INCREMENT) % 0x1_0000_0000_0000_0000) as u64
}

/// The value from which probe number `k` takes its slot. A round has 64
/// probes; within a round each probe rotates the previous value left by 11
/// bits, so that every rotation of the round's hash comes up once.
#[verifier::opaque]
pub open spec fn probe(hash: u64, k: nat) -> u64 {
    rotate_left_spec(probe_base(hash, k / 64), ((11 * (k % 64)) % 64) as u64)
}

/// The slot that probe number `k` points at.
pub open spec fn probe_slot(hash: u64, capacity: nat, k: nat) -> usize {
    (probe(hash, k) as nat % capacity) as usize
}

/// The distinct slots that the first `k` probes have pointed at, in the order
/// in which they came up, four at most.
pub open spec fn slots_found(hash: u64, capacity: nat, k: nat) -> Seq<usize>
    decreases k,
{
    if k == 0 {
        Seq::empty()
    } else {
        let earlier = slots_found(hash, capacity, (k - 1) as nat);
        let slot = probe_slot(hash, capacity, (k - 1) as nat);
        if earlier.len() >= NUM_SLOTS_PER_HASH || earlier.contains(slot) {
            earlier
        } else {
            earlier.push(slot)
        }
    }
}

/// The four candidate slots of a hash: the first four distinct slots that
/// its probes point at.
pub open spec fn candidate_slots(hash: u64, capacity: nat) -> Seq<usize> {
    slots_found(hash, capacity, PROBE_LIMIT as nat)
}

/// Four pairwise distinct slots of a table with `capacity` entries.
pub open spec fn distinct_slots(slots: Seq<usize>, capacity: nat) -> bool {
    &&& slots.len() == NUM_SLOTS_PER_HASH
    &&& forall|i: int| 0 <= i < slots.len() ==> (#[trigger] slots[i]) < capacity
    &&& forall|i: int, j: int| 0 <= i < j < slots.len() ==> slots[i] != slots[j]
}

/// What has been found after `k` probes are at most four distinct slots of
/// the table.
pub proof fn lemma_slots_found_distinct(hash: u64, capacity: nat, k: nat)
    requires
        capacity > 0,
        capacity <= usize::MAX,
    ensures
        slots_found(hash, capacity, k).len() <= NUM_SLOTS_PER_HASH,
        slots_found(hash, capacity, k).len() <= k,
        forall|i: int|
            0 <= i < slots_found(hash, capacity, k).len() ==> (#[trigger] slots_found(
                hash,
                capacity,
                k,
            )[i]) < capacity,
        forall|i: int, j: int|
            0 <= i < j < slots_found(hash, capacity, k).len() ==> slots_found(hash, capacity, k)[i]
                != slots_found(hash, capacity, k)[j],
    decreases k,
{
    if k > 0 {
        lemma_slots_found_distinct(hash, capacity, (k - 1) as nat);
    }
}

/// Once four slots are found, further probes change nothing; before that,
/// every probed slot is among those found.
pub proof fn lemma_slots_found_grow(hash: u64, capacity: nat, k: nat, later: nat)
    requires
        k <= later,
    ensures
        slots_found(hash, capacity, later).len() <= NUM_SLOTS_PER_HASH,
        slots_found(hash, capacity, k).len() <= slots_found(hash, capacity, later).len(),
        slots_found(hash, capacity, k).len() == NUM_SLOTS_PER_HASH ==> slots_found(
            hash,
            capacity,
            later,
        ) == slots_found(hash, capacity, k),
        forall|i: nat|
            i < k ==> slots_found(hash, capacity, later).len() == NUM_SLOTS_PER_HASH
                || slots_found(hash, capacity, later).contains(
                #[trigger] probe_slot(hash, capacity, i),
            ),
    decreases later,
{
    if later > 0 {
        let before = (later - 1) as nat;
        let earlier = slots_found(hash, capacity, before);
        let now = slots_found(hash, capacity, later);
        let last = probe_slot(hash, capacity, before);
        if k < later {
            lemma_slots_found_grow(hash, capacity, k, before);
        } else {
            lemma_slots_found_grow(hash, capacity, before, before);
        }
        assert forall|i: nat| i < k implies now.len() == NUM_SLOTS_PER_HASH || now.contains(
            #[trigger] probe_slot(hash, capacity, i),
        ) by {
            let slot = probe_slot(hash, capacity, i);
            if now.len() != NUM_SLOTS_PER_HASH {
                assert(earlier.len() < NUM_SLOTS_PER_HASH);
                if i < before {
                    assert(earlier.contains(slot));
                    let w = choose|w: int| 0 <= w < earlier.len() && earlier[w] == slot;
                    assert(now[w] == slot);
                } else if earlier.contains(last) {
                    let w = choose|w: int| 0 <= w < earlier.len() && earlier[w] == last;
                    assert(now[w] == slot);
                } else {
                    assert(now == earlier.push(last));
                    assert(now[earlier.len() as int] == slot);
                }
            }
        }
    }
}

/// Probe number `64 * round + step` is the hash of the round, rotated
/// `step` times by eleven bits.
proof fn lemma_probe_in_round(hash: u64, round: nat, step: nat)
    requires
        step < 64,
    ensures
        probe(hash, 64 * round + step) == rotate_left_spec(
            probe_base(hash, round),
            ((11 * step) % 64) as u64,
        ),
{
    reveal(probe);
    assert((64 * round + step) / 64 == round);
    assert((64 * round + step) % 64 == step);
}

/// Adding the constant `round` times, wrapping around, adds `round` to the
/// two lowest bits.
proof fn lemma_base_low_bits(hash: u64, round: nat)
    requires
        round < NUM_SLOTS_PER_HASH,
    ensures
        probe_base(hash, round) as int % 4 == (hash + round) % 4,
{
    let total: int = hash + round * PROBE_INCREMENT;
    assert(round * PROBE_INCREMENT == if round == 0 {
        0
    } else if round == 1 {
        PROBE_INCREMENT as int
    } else if round == 2 {
        2 * PROBE_INCREMENT
    } else {
        3 * PROBE_INCREMENT
    });
    if total < 0x1_0000_0000_0000_0000 {
        assert(total % 0x1_0000_0000_0000_0000 == total);
    } else {
        assert(total % 0x1_0000_0000_0000_0000 == total - 0x1_0000_0000_0000_0000);
    }
}

/// A slot number has the two lowest bits of the value it was taken from,
/// the capacity being a multiple of four.
proof fn lemma_slot_low_bits(x: int, capacity: int)
    requires
        capacity > 0,
        capacity % 4 == 0,
    ensures
        (x % capacity) % 4 == x % 4,
{
    let quarter = capacity / 4;
    assert(4 * quarter == capacity);
    vstd::arithmetic::div_mod::lemma_mod_mod(x, 4, quarter);
}

/// The first probes of the first four rounds point at four different
/// slots: their hashes differ in the two lowest bits, and the capacity is a
/// multiple of four.
pub proof fn lemma_round_starts_differ(hash: u64, capacity: nat, a: nat, b: nat)
    requires
        valid_capacity(capacity),
        capacity <= usize::MAX,
        a < b < NUM_SLOTS_PER_HASH,
    ensures
        probe_slot(hash, capacity, 64 * a) != probe_slot(hash, capacity, 64 * b),
{
    let pa = probe_base(hash, a);
    let pb = probe_base(hash, b);
    lemma_probe_in_round(hash, a, 0);
    lemma_probe_in_round(hash, b, 0);
    assert(probe(hash, 64 * a) == pa && probe(hash, 64 * b) == pb) by {
        reveal(rotate_left_spec);
    }
    lemma_base_low_bits(hash, a);
    lemma_base_low_bits(hash, b);
    lemma_slot_low_bits(pa as int, capacity as int);
    lemma_slot_low_bits(pb as int, capacity as int);
    assert(probe_slot(hash, capacity, 64 * a) as int == pa as int % (capacity as int));
    assert(probe_slot(hash, capacity, 64 * b) as int == pb as int % (capacity as int));
}

/// Every hash has four candidate slots, pairwise distinct and inside the
/// table, and they have all come up before the fourth round of probing is
/// under way.
pub proof fn lemma_candidate_slots(hash: u64, capacity: nat)
    requires
        valid_capacity(capacity),
        capacity <= usize::MAX,
    ensures
        distinct_slots(candidate_slots(hash, capacity), capacity),
        candidate_slots(hash, capacity) == slots_found(hash, capacity, 193),
{
    let found = slots_found(hash, capacity, 193);
    lemma_slots_found_distinct(hash, capacity, 193);
    lemma_slots_found_grow(hash, capacity, 193, 193);
    if found.len() != NUM_SLOTS_PER_HASH {
        let s0 = probe_slot(hash, capacity, 0);
        let s1 = probe_slot(hash, capacity, 64);
        let s2 = probe_slot(hash, capacity, 128);
        let s3 = probe_slot(hash, capacity, 192);
        lemma_round_starts_differ(hash, capacity, 0, 1);
        lemma_round_starts_differ(hash, capacity, 0, 2);
        lemma_round_starts_differ(hash, capacity, 0, 3);
        lemma_round_starts_differ(hash, capacity, 1, 2);
        lemma_round_starts_differ(hash, capacity, 1, 3);
        lemma_round_starts_differ(hash, capacity, 2, 3);
        assert(found.contains(s0));
        assert(found.contains(s1));
        assert(found.contains(s2));
        assert(found.contains(s3));
        let w0 = choose|w: int| 0 <= w < found.len() && found[w] == s0;
        let w1 = choose|w: int| 0 <= w < found.len() && found[w] == s1;
        let w2 = choose|w: int| 0 <= w < found.len() && found[w] == s2;
        let w3 = choose|w: int| 0 <= w < found.len() && found[w] == s3;
        assert(false);
    }
    lemma_slots_found_grow(hash, capacity, 193, PROBE_LIMIT as nat);
}

/// Rotating left by eleven bits.
pub fn rotate_left_11(x: u64) -> (r: u64)
    ensures
        r == rotate_left_spec(x, 11),
{
    reveal(rotate_left_spec);
    (x << 11) | (x >> 53)
}

/// Rotating by eleven more bits adds eleven to the amount, modulo 64.
proof fn lemma_rotate_step(x: u64, amount: u64)
    requires
        amount < 64,
    ensures
        rotate_left_spec(rotate_left_spec(x, amount), 11) == rotate_left_spec(
            x,
            ((amount + 11) % 64) as u64,
        ),
{
    reveal(rotate_left_spec);
    let next: u64 = ((amount + 11) % 64) as u64;
    assert(({
        let y = if amount == 0 {
            x
        } else {
            (x << amount) | (x >> ((64 - amount) as u64))
        };
        (y << 11) | (y >> 53)
    }) == (if next == 0 {
        x
    } else {
        (x << next) | (x >> ((64 - next) as u64))
    })) by (bit_vector)
        requires
            amount < 64,
            next == (amount + 11) % 64,
    ;
}

/// How far the hash of a round has been rotated after `step` rotations by
/// eleven bits.
proof fn lemma_rotation_amount(step: nat)
    requires
        step < 64,
    ensures
        0 <= (11 * step) % 64 < 64,
        step < 63 ==> (11 * (step + 1)) % 64 == ((11 * step) % 64 + 11) % 64,
        step == 63 ==> (11 * step) % 64 == 53,
{
}

/// Within a round, the next probe value is the last one rotated by eleven
/// bits; after 64 rotations the hash of the round is back.
proof fn lemma_probe_rotation(hash: u64, round: nat, step: nat)
    requires
        step < 64,
    ensures
        step < 63 ==> probe(hash, 64 * round + step + 1) == rotate_left_spec(
            probe(hash, 64 * round + step),
            11,
        ),
        step == 63 ==> probe_base(hash, round) == rotate_left_spec(
            probe(hash, 64 * round + step),
            11,
        ),
{
    let base = probe_base(hash, round);
    lemma_rotation_amount(step);
    let amount: u64 = ((11 * step) % 64) as u64;
    lemma_probe_in_round(hash, round, step);
    lemma_rotate_step(base, amount);
    if step < 63 {
        lemma_probe_in_round(hash, round, step + 1);
    } else {
        assert(rotate_left_spec(base, 0) == base) by {
            reveal(rotate_left_spec);
        }
    }
}

/// The hash of the next round is the hash of this round plus the constant,
/// wrapping around.
proof fn lemma_next_round(hash: u64, round: nat)
    requires
        round < NUM_SLOTS_PER_HASH,
    ensures
        probe_base(hash, round + 1) == probe_base(hash, round).wrapping_add(PROBE_INCREMENT),
{
    assert(round * PROBE_INCREMENT == if round == 0 {
        0
    } else if round == 1 {
        PROBE_INCREMENT as int
    } else if round == 2 {
        2 * PROBE_INCREMENT
    } else {
        3 * PROBE_INCREMENT
    });
    assert((round + 1) * PROBE_INCREMENT == round * PROBE_INCREMENT + PROBE_INCREMENT)
        by (nonlinear_arith);
}

/// Whether `slot` is among the first `found` entries of `result`.
fn already_listed(result: &[usize; 4], found: usize, slot: usize) -> (r: bool)
    requires
        found <= NUM_SLOTS_PER_HASH,
    ensures
        r == result@.subrange(0, found as int).contains(slot),
{
    let mut i: usize = 0;
    while i < found
        invariant
            i <= found <= NUM_SLOTS_PER_HASH,
            forall|j: int| 0 <= j < i ==> result@[j] != slot,
        decreases found - i,
    {
        if result[i] == slot {
            assert(result@.subrange(0, found as int)[i as int] == slot);
            return true;
        }
        i += 1;
    }
    false
}

/// The four candidate slots of `hash` in a table with `capacity` entries.
///
/// Each probe takes the hash modulo the capacity; the hash is then rotated
/// left by 11 bits for the next probe. Probing goes on until four distinct
/// slots have come up. After 64 rotations, when the hash is back where the
/// round began, `PROBE_INCREMENT` is added to it.
pub fn slot_indices(hash: u64, capacity: usize) -> (r: [usize; 4])
    requires
        valid_capacity(capacity as nat),
    ensures
        r@ == candidate_slots(hash, capacity as nat),
        distinct_slots(r@, capacity as nat),
{
    let mut result: [usize; 4] = [0;4];
    let mut found: usize = 0;
    let mut x: u64 = hash;
    let mut round: usize = 0;
    proof {
        lemma_candidate_slots(hash, capacity as nat);
        assert(result@.subrange(0, 0) =~= slots_found(hash, capacity as nat, 0));
    }
    loop
        invariant
            valid_capacity(capacity as nat),
            round < NUM_SLOTS_PER_HASH,
            found < NUM_SLOTS_PER_HASH,
            x == probe_base(hash, round as nat),
            result@.subrange(0, found as int) == slots_found(
                hash,
                capacity as nat,
                (64 * round) as nat,
            ),
            distinct_slots(candidate_slots(hash, capacity as nat), capacity as nat),
            candidate_slots(hash, capacity as nat) == slots_found(hash, capacity as nat, 193),
        decreases NUM_SLOTS_PER_HASH - round,
    {
        let mut step: usize = 0;
        proof {
            lemma_probe_in_round(hash, round as nat, 0);
            assert(rotate_left_spec(x, 0) == x) by {
                reveal(rotate_left_spec);
            }
        }
        while step < 64
            invariant
                valid_capacity(capacity as nat),
                round < NUM_SLOTS_PER_HASH,
                found < NUM_SLOTS_PER_HASH,
                step <= 64,
                step < 64 ==> x == probe(hash, (64 * round + step) as nat),
                step == 64 ==> x == probe_base(hash, round as nat),
                result@.subrange(0, found as int) == slots_found(
                    hash,
                    capacity as nat,
                    (64 * round + step) as nat,
                ),
                distinct_slots(candidate_slots(hash, capacity as nat), capacity as nat),
                candidate_slots(hash, capacity as nat) == slots_found(hash, capacity as nat, 193),
            decreases 64 - step,
        {
            let ghost k = (64 * round + step) as nat;
            let ghost earlier = slots_found(hash, capacity as nat, k);
            let next_slot = (x % (capacity as u64)) as usize;
            assert(next_slot == probe_slot(hash, capacity as nat, k));
            if !already_listed(&result, found, next_slot) {
                result[found] = next_slot;
                found += 1;
                assert(result@.subrange(0, found as int) =~= earlier.push(next_slot));
                if found >= NUM_SLOTS_PER_HASH {
                    proof {
                        assert(result@ =~= result@.subrange(0, found as int));
                        if k + 1 <= 193 {
                            lemma_slots_found_grow(hash, capacity as nat, k + 1, 193);
                        } else {
                            lemma_slots_found_grow(hash, capacity as nat, 193, k + 1);
                        }
                    }
                    return result;
                }
            } else {
                assert(result@.subrange(0, found as int) =~= earlier);
            }
            proof {
                lemma_probe_rotation(hash, round as nat, step as nat);
            }
            x = rotate_left_11(x);
            step += 1;
        }
        proof {
            // Fewer than four slots so far: the fourth round has not begun.
            if round + 1 >= NUM_SLOTS_PER_HASH {
                lemma_slots_found_grow(hash, capacity as nat, 193, (64 * round + 64) as nat);
                assert(false);
            }
            lemma_next_round(hash, round as nat);
        }
        x = x.wrapping_add(PROBE_INCREMENT);
        round += 1;
    }
}

/// How many generations ago an entry was written, counting modulo 256.
pub open spec fn generation_age(generation: u8, written: u8) -> int {
    if generation >= written {
        generation - written
    } else {
        generation - written + 256
    }
}

/// The entry is in use and stands for `hash`.
pub open spec fn holds(entry: HashEntry, hash: u64) -> bool {
    entry.is_used_spec() && entry.hash_spec() == hash
}

/// The slot holds an entry for `hash`.
pub open spec fn holding(slots: Seq<HashEntry>, hash: u64) -> spec_fn(usize) -> bool {
    |slot: usize| holds(slots[slot as int], hash)
}

/// The slot is unused.
pub open spec fn vacant(slots: Seq<HashEntry>) -> spec_fn(usize) -> bool {
    |slot: usize| !slots[slot as int].is_used_spec()
}

/// The slot was written at least `age` generations ago.
pub open spec fn aged(slots: Seq<HashEntry>, generation: u8, age: int) -> spec_fn(usize) -> bool {
    |slot: usize| generation_age(generation, slots[slot as int].generation_spec()) >= age
}

/// The first of the candidates from position `from` on that satisfies
/// `wanted`.
pub open spec fn first_where(candidates: Seq<usize>, wanted: spec_fn(usize) -> bool, from: nat)
    -> Option<usize>
    decreases candidates.len() - from,
{
    if from >= candidates.len() {
        None
    } else if wanted(candidates[from as int]) {
        Some(candidates[from as int])
    } else {
        first_where(candidates, wanted, from + 1)
    }
}

/// Among the first `upto` candidates that satisfy `wanted`, the one whose
/// entry has the lowest depth; of several with that depth, the first.
pub open spec fn shallowest_where(
    slots: Seq<HashEntry>,
    candidates: Seq<usize>,
    wanted: spec_fn(usize) -> bool,
    upto: nat,
) -> Option<usize>
    decreases upto,
{
    if upto == 0 {
        None
    } else {
        let earlier = shallowest_where(slots, candidates, wanted, (upto - 1) as nat);
        let slot = candidates[upto - 1];
        if wanted(slot) && (earlier is None || slots[slot as int].depth_spec()
            < slots[earlier.unwrap() as int].depth_spec()) {
            Some(slot)
        } else {
            earlier
        }
    }
}

/// The slot that an entry for `hash` is written to. In order of preference:
/// the candidate that already holds the hash; the first unused candidate;
/// the first candidate written two or more generations ago; the shallowest
/// candidate of an earlier generation; the shallowest candidate.
pub open spec fn target_slot(
    slots: Seq<HashEntry>,
    candidates: Seq<usize>,
    generation: u8,
    hash: u64,
) -> usize {
    if let Some(slot) = first_where(candidates, holding(slots, hash), 0) {
        slot
    } else if let Some(slot) = first_where(candidates, vacant(slots), 0) {
        slot
    } else if let Some(slot) = first_where(candidates, aged(slots, generation, 2), 0) {
        slot
    } else if let Some(slot) = shallowest_where(
        slots,
        candidates,
        aged(slots, generation, 1),
        candidates.len(),
    ) {
        slot
    } else {
        shallowest_where(slots, candidates, aged(slots, generation, 0), candidates.len()).unwrap()
    }
}

/// Whether writing an entry for `hash` adds to the entries of the current
/// generation: it does unless the hash is overwritten in place or an entry
/// of the current generation has to give way.
pub open spec fn target_is_new(
    slots: Seq<HashEntry>,
    candidates: Seq<usize>,
    generation: u8,
    hash: u64,
) -> bool {
    &&& first_where(candidates, holding(slots, hash), 0) is None
    &&& (first_where(candidates, vacant(slots), 0) is Some || shallowest_where(
        slots,
        candidates,
        aged(slots, generation, 1),
        candidates.len(),
    ) is Some)
}

/// The entry is in use and was written in generation `generation`.
pub open spec fn is_fresh(entry: HashEntry, generation: u8) -> bool {
    entry.is_used_spec() && entry.generation_spec() == generation
}

/// Number of entries in use that were written in generation `generation`.
pub open spec fn fresh_count(slots: Seq<HashEntry>, generation: u8) -> nat
    decreases slots.len(),
{
    if slots.len() == 0 {
        0
    } else {
        fresh_count(slots.drop_last(), generation) + if is_fresh(slots.last(), generation) {
            1nat
        } else {
            0nat
        }
    }
}

/// What `first_where` finds satisfies `wanted` and is the first to do so;
/// it finds nothing only where no candidate satisfies it.
pub proof fn lemma_first_where(candidates: Seq<usize>, wanted: spec_fn(usize) -> bool, from: nat)
    ensures
        match first_where(candidates, wanted, from) {
            Some(slot) => exists|j: int|
                {
                    &&& from <= j < candidates.len()
                    &&& #[trigger] candidates[j] == slot
                    &&& wanted(slot)
                    &&& forall|i: int| from <= i < j ==> !wanted(#[trigger] candidates[i])
                },
            None => forall|i: int| from <= i < candidates.len() ==> !wanted(#[trigger] candidates[i]),
        },
    decreases candidates.len() - from,
{
    if from < candidates.len() {
        if wanted(candidates[from as int]) {
            assert(candidates[from as int] == candidates[from as int]);
        } else {
            lemma_first_where(candidates, wanted, from + 1);
            match first_where(candidates, wanted, from + 1) {
                Some(slot) => {
                    let j = choose|j: int|
                        {
                            &&& from + 1 <= j < candidates.len()
                            &&& #[trigger] candidates[j] == slot
                            &&& wanted(slot)
                            &&& forall|i: int|
                                from + 1 <= i < j ==> !wanted(#[trigger] candidates[i])
                        };
                    assert(candidates[j] == slot);
                },
                None => {},
            }
        }
    }
}

/// What `shallowest_where` finds satisfies `wanted` and no candidate that
/// does is shallower; it finds nothing only where no candidate satisfies it.
pub proof fn lemma_shallowest_where(
    slots: Seq<HashEntry>,
    candidates: Seq<usize>,
    wanted: spec_fn(usize) -> bool,
    upto: nat,
)
    requires
        upto <= candidates.len(),
    ensures
        match shallowest_where(slots, candidates, wanted, upto) {
            Some(slot) => {
                &&& wanted(slot)
                &&& exists|j: int| 0 <= j < upto && #[trigger] candidates[j] == slot
                &&& forall|i: int|
                    0 <= i < upto && wanted(#[trigger] candidates[i]) ==> slots[slot as int].depth_spec()
                        <= slots[candidates[i] as int].depth_spec()
            },
            None => forall|i: int| 0 <= i < upto ==> !wanted(#[trigger] candidates[i]),
        },
    decreases upto,
{
    if upto > 0 {
        lemma_shallowest_where(slots, candidates, wanted, (upto - 1) as nat);
        let earlier = shallowest_where(slots, candidates, wanted, (upto - 1) as nat);
        let now = shallowest_where(slots, candidates, wanted, upto);
        match now {
            Some(slot) => {
                if earlier == now {
                    let j = choose|j: int| 0 <= j < upto - 1 && #[trigger] candidates[j] == slot;
                    assert(candidates[j] == slot);
                } else {
                    assert(candidates[upto - 1] == slot);
                }
            },
            None => {},
        }
    }
}

/// The number of fresh entries is at most the number of slots.
pub proof fn lemma_fresh_count_bound(slots: Seq<HashEntry>, generation: u8)
    ensures
        fresh_count(slots, generation) <= slots.len(),
    decreases slots.len(),
{
    if slots.len() > 0 {
        lemma_fresh_count_bound(slots.drop_last(), generation);
    }
}

/// Replacing one entry changes the number of fresh entries by what the old
/// and the new entry count for.
pub proof fn lemma_fresh_count_update(
    slots: Seq<HashEntry>,
    generation: u8,
    index: int,
    entry: HashEntry,
)
    requires
        0 <= index < slots.len(),
    ensures
        fresh_count(slots.update(index, entry), generation) + (if is_fresh(
            slots[index],
            generation,
        ) {
            1nat
        } else {
            0nat
        }) == fresh_count(slots, generation) + (if is_fresh(entry, generation) {
            1nat
        } else {
            0nat
        }),
    decreases slots.len(),
{
    let updated = slots.update(index, entry);
    if index == slots.len() - 1 {
        assert(updated.drop_last() =~= slots.drop_last());
    } else {
        lemma_fresh_count_update(slots.drop_last(), generation, index, entry);
        assert(updated.drop_last() =~= slots.drop_last().update(index, entry));
    }
}

/// A special purpose hash map for storing chess positions.
///
/// Every entry is mapped from a Zobrist hash to a `HashEntry`. The map has a
/// fixed size chosen at creation time. When new entries are inserted, old
/// entries will be purged.
///
/// Every hash has four slots in which it can be stored. If all of them are
/// taken by other hashes, one of them is purged: preferably an entry of an
/// old generation, else an entry of low depth, which is cheap to compute
/// again.
///
/// Two positions with the same hash are not told apart: the entry of one is
/// returned for the other.
pub struct HashMap {
    slots: Vec<HashEntry>,
    count: usize,
    generation: u8,
}

impl HashMap {
    /// The slots of the table, in order.
    pub closed spec fn slots(&self) -> Seq<HashEntry> {
        self.slots@
    }

    /// Number of entries that this generation has added.
    pub closed spec fn count_spec(&self) -> usize {
        self.count
    }

    pub closed spec fn generation_spec(&self) -> u8 {
        self.generation
    }

    pub open spec fn capacity_spec(&self) -> nat {
        self.slots().len()
    }

    /// The candidate slots of `hash` in this table.
    pub open spec fn candidates(&self, hash: u64) -> Seq<usize> {
        candidate_slots(hash, self.capacity_spec())
    }

    /// The table is well formed: its capacity is a whole number of
    /// megabytes; every slot decodes; every entry sits in one of the
    /// candidate slots of its hash; no hash is stored twice; and the count
    /// does not exceed the number of entries of the current generation.
    pub open spec fn wf(&self) -> bool {
        &&& valid_capacity(self.capacity_spec())
        &&& self.capacity_spec() <= usize::MAX
        &&& forall|i: int| 0 <= i < self.slots().len() ==> (#[trigger] self.slots()[i]).wf()
        &&& forall|i: int|
            0 <= i < self.slots().len() && (#[trigger] self.slots()[i]).is_used_spec()
                ==> self.candidates(self.slots()[i].hash_spec()).contains(i as usize)
        &&& forall|i: int, j: int|
            0 <= i < self.slots().len() && 0 <= j < self.slots().len() && (
            #[trigger] self.slots()[i]).is_used_spec() && (#[trigger] self.slots()[j]).is_used_spec()
                && self.slots()[i].hash_spec() == self.slots()[j].hash_spec() ==> i == j
        &&& self.count_spec() <= fresh_count(self.slots(), self.generation_spec())
    }

    /// The entry stored for `hash`, if there is one.
    pub open spec fn lookup(&self, hash: u64) -> Option<HashEntry> {
        match first_where(self.candidates(hash), holding(self.slots(), hash), 0) {
            Some(slot) => Some(self.slots()[slot as int]),
            None => None,
        }
    }

    /// The slot that `insert_entry` writes an entry for `hash` to.
    pub open spec fn target_of(&self, hash: u64) -> usize {
        target_slot(self.slots(), self.candidates(hash), self.generation_spec(), hash)
    }

    /// Whether `insert_entry` for `hash` raises the count.
    pub open spec fn adds_entry(&self, hash: u64) -> bool {
        target_is_new(self.slots(), self.candidates(hash), self.generation_spec(), hash)
    }

    /// In a well-formed table the count is at most the capacity.
    pub proof fn lemma_count_bound(&self)
        requires
            self.wf(),
        ensures
            self.count_spec() <= self.capacity_spec(),
    {
        lemma_fresh_count_bound(self.slots(), self.generation_spec());
    }

    /// In a well-formed table a hash is looked up with success exactly when
    /// some slot in use holds it, and the entry found is the entry of that
    /// slot.
    pub proof fn lemma_lookup(&self, hash: u64)
        requires
            self.wf(),
        ensures
            self.lookup(hash) is Some <==> exists|i: int|
                0 <= i < self.slots().len() && holds(#[trigger] self.slots()[i], hash),
            forall|i: int|
                0 <= i < self.slots().len() && holds(#[trigger] self.slots()[i], hash)
                    ==> self.lookup(hash) == Some(self.slots()[i]),
            self.lookup(hash) matches Some(entry) ==> entry.is_used_spec() && entry.hash_spec()
                == hash && entry.wf(),
    {
        let candidates = self.candidates(hash);
        lemma_candidate_slots(hash, self.capacity_spec());
        lemma_first_where(candidates, holding(self.slots(), hash), 0);
        assert forall|i: int|
            0 <= i < self.slots().len() && holds(
                #[trigger] self.slots()[i],
                hash,
            ) implies self.lookup(hash) == Some(self.slots()[i]) by {
            assert(self.slots()[i].is_used_spec());
            assert(candidates.contains(i as usize));
            let j = choose|j: int| 0 <= j < candidates.len() && candidates[j] == i as usize;
            assert(holding(self.slots(), hash)(candidates[j]));
        }
        match first_where(candidates, holding(self.slots(), hash), 0) {
            Some(slot) => {
                assert(holding(self.slots(), hash)(slot));
                assert(0 <= slot < self.slots().len());
                assert(holds(self.slots()[slot as int], hash));
            },
            None => {},
        }
    }

    /// `after` is this table with `entry` stored for `hash`: the entry has
    /// gone to the target slot under the current generation, and the count
    /// has gone up if the entry adds to this generation.
    pub open spec fn inserted(&self, after: &HashMap, hash: u64, entry: HashEntry) -> bool {
        &&& after.slots() == self.slots().update(
            self.target_of(hash) as int,
            entry.stored_as(hash, self.generation_spec()),
        )
        &&& after.generation_spec() == self.generation_spec()
        &&& after.count_spec() == self.count_spec() + (if self.adds_entry(hash) {
            1int
        } else {
            0int
        })
    }

    /// The target slot of a hash is one of its candidates. It is the slot
    /// that holds the hash where there is one. Where the entry adds to this
    /// generation, the target does not hold an entry of this generation.
    pub proof fn lemma_target(&self, hash: u64)
        requires
            self.wf(),
        ensures
            self.target_of(hash) < self.capacity_spec(),
            self.candidates(hash).contains(self.target_of(hash)),
            self.lookup(hash) is Some ==> holds(self.slots()[self.target_of(hash) as int], hash),
            self.adds_entry(hash) ==> !is_fresh(
                self.slots()[self.target_of(hash) as int],
                self.generation_spec(),
            ),
            self.adds_entry(hash) ==> self.lookup(hash) is None,
    {
        let candidates = self.candidates(hash);
        let slots = self.slots();
        let generation = self.generation_spec();
        lemma_candidate_slots(hash, self.capacity_spec());
        lemma_first_where(candidates, holding(slots, hash), 0);
        lemma_first_where(candidates, vacant(slots), 0);
        lemma_first_where(candidates, aged(slots, generation, 2), 0);
        lemma_shallowest_where(slots, candidates, aged(slots, generation, 1), candidates.len());
        lemma_shallowest_where(slots, candidates, aged(slots, generation, 0), candidates.len());
        assert(aged(slots, generation, 0)(candidates[0]));
        if first_where(candidates, holding(slots, hash), 0) is None && first_where(
            candidates,
            vacant(slots),
            0,
        ) is None {
            if let Some(slot) = first_where(candidates, aged(slots, generation, 2), 0) {
                let j = choose|j: int|
                    0 <= j < candidates.len() && #[trigger] candidates[j] == slot && aged(
                        slots,
                        generation,
                        2,
                    )(slot);
                assert(aged(slots, generation, 1)(candidates[j]));
            }
        }
    }

    /// Storing an entry keeps the table well formed. Afterwards the hash is
    /// found with that entry. Every other hash is found as before, but for
    /// the one whose entry had to give way, which is gone.
    pub proof fn lemma_insert(&self, after: &HashMap, hash: u64, entry: HashEntry)
        requires
            self.wf(),
            entry.wf(),
            entry.is_used_spec(),
            self.inserted(after, hash, entry),
        ensures
            after.wf(),
            after.capacity_spec() == self.capacity_spec(),
            after.lookup(hash) == Some(entry.stored_as(hash, self.generation_spec())),
            forall|other: u64|
                other != hash ==> #[trigger] after.lookup(other) == (if holds(
                    self.slots()[self.target_of(hash) as int],
                    other,
                ) {
                    None
                } else {
                    self.lookup(other)
                }),
    {
        broadcast use HashEntry::lemma_fields, HashEntry::lemma_from_fields;

        let before = self.slots();
        let slots = after.slots();
        let slot = self.target_of(hash);
        let generation = self.generation_spec();
        let stored = entry.stored_as(hash, generation);
        self.lemma_target(hash);
        self.lemma_lookup(hash);
        lemma_fresh_count_update(before, generation, slot as int, stored);
        lemma_fresh_count_bound(slots, generation);
        assert forall|i: int|
            0 <= i < slots.len() && (#[trigger] slots[i]).is_used_spec() implies after.candidates(
            slots[i].hash_spec(),
        ).contains(i as usize) by {
            if i != slot {
                assert(before[i].is_used_spec());
            }
        }
        assert forall|i: int, j: int|
            0 <= i < slots.len() && 0 <= j < slots.len() && (#[trigger] slots[i]).is_used_spec() && (
            #[trigger] slots[j]).is_used_spec() && slots[i].hash_spec()
                == slots[j].hash_spec() implies i == j by {
            if i != slot && j != slot {
                assert(before[i].is_used_spec() && before[j].is_used_spec());
            } else if i != j {
                let other = if i == slot {
                    j
                } else {
                    i
                };
                assert(holds(before[other], hash));
                assert(holds(before[slot as int], hash));
            }
        }
        assert(after.wf());
        after.lemma_lookup(hash);
        assert(holds(slots[slot as int], hash));
        assert forall|other: u64| other != hash implies #[trigger] after.lookup(other) == (if holds(
            before[slot as int],
            other,
        ) {
            None
        } else {
            self.lookup(other)
        }) by {
            self.lemma_lookup(other);
            after.lemma_lookup(other);
            if after.lookup(other) is Some {
                let i = choose|i: int| 0 <= i < slots.len() && holds(#[trigger] slots[i], other);
                assert(i != slot);
                assert(holds(before[i], other));
            }
            if self.lookup(other) is Some && !holds(before[slot as int], other) {
                let i = choose|i: int| 0 <= i < before.len() && holds(#[trigger] before[i], other);
                assert(i != slot);
                assert(holds(slots[i], other));
            }
        }
    }

    /// An entry is stored with its move, score, depth and kind unchanged,
    /// under the hash and the generation that it is stored for.
    pub proof fn lemma_stored_as(entry: HashEntry, hash: u64, generation: u8)
        ensures
            entry.stored_as(hash, generation).hash_spec() == hash,
            entry.stored_as(hash, generation).generation_spec() == generation,
            entry.stored_as(hash, generation).best_move_spec() == entry.best_move_spec(),
            entry.stored_as(hash, generation).score_spec() == entry.score_spec(),
            entry.stored_as(hash, generation).depth_spec() == entry.depth_spec(),
            entry.stored_as(hash, generation).kind_spec() == entry.kind_spec(),
            entry.stored_as(hash, generation).wf() == entry.wf(),
    {
        broadcast use HashEntry::lemma_fields, HashEntry::lemma_from_fields;

    }

    /// However many hashes share one list of candidate slots, at most four
    /// of them have an entry in the table at any time: every entry sits in
    /// one of the candidate slots of its hash.
    pub proof fn lemma_shared_candidates(&self, candidates: Seq<usize>)
        requires
            self.wf(),
            candidates.len() == NUM_SLOTS_PER_HASH,
        ensures
            self.entries_placed_by(candidates).finite(),
            self.entries_placed_by(candidates).len() <= NUM_SLOTS_PER_HASH,
            forall|i: int|
                self.entries_placed_by(candidates).contains(i) ==> 0 <= i < self.capacity_spec(),
    {
        let placed = self.entries_placed_by(candidates);
        let listed = candidates.map_values(|slot: usize| slot as int).to_set();
        assert forall|i: int| placed.contains(i) implies listed.contains(i) by {
            assert(self.slots()[i].is_used_spec());
            assert(candidates.contains(i as usize));
            let j = choose|j: int| 0 <= j < candidates.len() && candidates[j] == i as usize;
            assert(candidates.map_values(|slot: usize| slot as int)[j] == i);
        }
        vstd::seq_lib::seq_to_set_is_finite(candidates.map_values(|slot: usize| slot as int));
        candidates.map_values(|slot: usize| slot as int).lemma_cardinality_of_set();
        vstd::set_lib::lemma_len_subset(placed, listed);
    }

    /// The slots in use whose hash has exactly the given list of candidate
    /// slots.
    pub open spec fn entries_placed_by(&self, candidates: Seq<usize>) -> Set<int> {
        Set::new(
            |i: int|
                0 <= i < self.slots().len() && self.slots()[i].is_used_spec() && self.candidates(
                    self.slots()[i].hash_spec(),
                ) == candidates,
        )
    }

    /// Entries of old generations go first. Where no candidate slot holds
    /// the hash and none is unused, but some were written two or more
    /// generations ago, the target is the first of these; failing that, no
    /// entry of the current generation is purged as long as one of the
    /// generation before is there.
    pub proof fn lemma_stale_purged_first(&self, hash: u64)
        requires
            self.wf(),
            self.lookup(hash) is None,
            first_where(self.candidates(hash), vacant(self.slots()), 0) is None,
        ensures
            first_where(
                self.candidates(hash),
                aged(self.slots(), self.generation_spec(), 2),
                0,
            ) matches Some(slot) ==> self.target_of(hash) == slot && generation_age(
                self.generation_spec(),
                self.slots()[slot as int].generation_spec(),
            ) >= 2,
            (exists|j: int|
                0 <= j < NUM_SLOTS_PER_HASH && generation_age(
                    self.generation_spec(),
                    self.slots()[(#[trigger] self.candidates(hash)[j]) as int].generation_spec(),
                ) >= 2) ==> generation_age(
                self.generation_spec(),
                self.slots()[self.target_of(hash) as int].generation_spec(),
            ) >= 2,
            (exists|j: int|
                0 <= j < NUM_SLOTS_PER_HASH && generation_age(
                    self.generation_spec(),
                    self.slots()[(#[trigger] self.candidates(hash)[j]) as int].generation_spec(),
                ) >= 1) ==> generation_age(
                self.generation_spec(),
                self.slots()[self.target_of(hash) as int].generation_spec(),
            ) >= 1,
    {
        let candidates = self.candidates(hash);
        let slots = self.slots();
        let generation = self.generation_spec();
        lemma_candidate_slots(hash, self.capacity_spec());
        lemma_first_where(candidates, aged(slots, generation, 2), 0);
        lemma_shallowest_where(slots, candidates, aged(slots, generation, 1), candidates.len());
        if exists|j: int|
            0 <= j < NUM_SLOTS_PER_HASH && generation_age(
                generation,
                slots[(#[trigger] candidates[j]) as int].generation_spec(),
            ) >= 2 {
            let j = choose|j: int|
                0 <= j < NUM_SLOTS_PER_HASH && generation_age(
                    generation,
                    slots[(#[trigger] candidates[j]) as int].generation_spec(),
                ) >= 2;
            assert(aged(slots, generation, 2)(candidates[j]));
        }
        if exists|j: int|
            0 <= j < NUM_SLOTS_PER_HASH && generation_age(
                generation,
                slots[(#[trigger] candidates[j]) as int].generation_spec(),
            ) >= 1 {
            let j = choose|j: int|
                0 <= j < NUM_SLOTS_PER_HASH && generation_age(
                    generation,
                    slots[(#[trigger] candidates[j]) as int].generation_spec(),
                ) >= 1;
            assert(aged(slots, generation, 1)(candidates[j]));
            if let Some(slot) = first_where(candidates, aged(slots, generation, 2), 0) {
                assert(aged(slots, generation, 2)(slot));
            }
        }
    }

    /// Every new generation makes each entry one generation older, modulo
    /// 256: what was written in the generation before the last is two
    /// generations old.
    pub proof fn lemma_generations_age(generation: u8, written: u8)
        ensures
            generation_age(((generation + 1) % 256) as u8, written) == (generation_age(
                generation,
                written,
            ) + 1) % 256,
            generation_age(generation, generation) == 0,
    {
    }

    /// Create a new hash map of a specific size. All its slots are unused.
    pub fn new(megabytes: usize) -> (r: HashMap)
        requires
            megabytes > 0,
            megabytes * 1024 * 1024 <= usize::MAX,
        ensures
            r.wf(),
            r.capacity_spec() == megabytes * ENTRIES_PER_MEGABYTE,
            r.count_spec() == 0,
            r.generation_spec() == 0,
            forall|i: int| 0 <= i < r.slots().len() ==> !(#[trigger] r.slots()[i]).is_used_spec(),
    {
        let nbr_entries = megabytes * ENTRIES_PER_MEGABYTE;
        let mut slots: Vec<HashEntry> = Vec::new();
        let unused = HashEntry::unused();
        let mut i: usize = 0;
        while i < nbr_entries
            invariant
                i <= nbr_entries,
                slots@.len() == i,
                unused.wf(),
                !unused.is_used_spec(),
                forall|j: int| 0 <= j < i ==> (#[trigger] slots@[j]) == unused,
            decreases nbr_entries - i,
        {
            slots.push(unused);
            i += 1;
        }
        let r = HashMap { slots, count: 0, generation: 0 };
        proof {
            assert(nbr_entries % ENTRIES_PER_MEGABYTE == 0) by (nonlinear_arith)
                requires
                    nbr_entries == megabytes * ENTRIES_PER_MEGABYTE,
            ;
        }
        r
    }

    /// The capacity of the hash map, in number of entries.
    pub fn capacity(&self) -> (r: usize)
        ensures
            r == self.capacity_spec(),
    {
        self.slots.len()
    }

    /// The number of entries that were added to the hash map in this
    /// generation.
    pub fn filled(&self) -> (r: usize)
        ensures
            r == self.count_spec(),
    {
        self.count
    }

    /// The generation that entries are written in.
    pub fn generation(&self) -> (r: u8)
        ensures
            r == self.generation_spec(),
    {
        self.generation
    }

    /// Starts a new generation: the generation number goes up by one,
    /// wrapping around, and the count starts again at zero. No slot changes.
    pub fn new_generation(&mut self)
        requires
            old(self).wf(),
        ensures
            final(self).wf(),
            final(self).slots() == old(self).slots(),
            final(self).generation_spec() == (old(self).generation_spec() + 1) % 256,
            final(self).count_spec() == 0,
    {
        self.generation = self.generation.wrapping_add(1);
        self.count = 0;
    }

    /// Get the slots where this hash can be stored.
    pub fn get_slot_idx_for_hash(&self, hash: u64) -> (r: [usize; 4])
        requires
            self.wf(),
        ensures
            r@ == self.candidates(hash),
            distinct_slots(r@, self.capacity_spec()),
    {
        slot_indices(hash, self.slots.len())
    }

    /// Get the entry at a particular location.
    pub fn get_slot(&self, idx: usize) -> (r: &HashEntry)
        requires
            idx < self.capacity_spec(),
        ensures
            *r == self.slots()[idx as int],
    {
        &self.slots[idx]
    }

    /// The candidate slot that holds an entry for this hash.
    fn get_existing_slot(&self, hash: u64, slot_idx: &[usize; 4]) -> (r: Option<usize>)
        requires
            self.wf(),
            distinct_slots(slot_idx@, self.capacity_spec()),
        ensures
            r == first_where(slot_idx@, holding(self.slots(), hash), 0),
    {
        let mut j: usize = 0;
        while j < NUM_SLOTS_PER_HASH
            invariant
                self.wf(),
                distinct_slots(slot_idx@, self.capacity_spec()),
                j <= NUM_SLOTS_PER_HASH,
                first_where(slot_idx@, holding(self.slots(), hash), 0) == first_where(
                    slot_idx@,
                    holding(self.slots(), hash),
                    j as nat,
                ),
            decreases NUM_SLOTS_PER_HASH - j,
        {
            let idx = slot_idx[j];
            let entry = &self.slots[idx];
            if entry.hash == hash && entry.entry_type.is_used() {
                return Some(idx);
            }
            j += 1;
        }
        None
    }

    /// The first candidate slot that is unused.
    fn get_empty_slot(&self, slot_idx: &[usize; 4]) -> (r: Option<usize>)
        requires
            self.wf(),
            distinct_slots(slot_idx@, self.capacity_spec()),
        ensures
            r == first_where(slot_idx@, vacant(self.slots()), 0),
    {
        let mut j: usize = 0;
        while j < NUM_SLOTS_PER_HASH
            invariant
                self.wf(),
                distinct_slots(slot_idx@, self.capacity_spec()),
                j <= NUM_SLOTS_PER_HASH,
                first_where(slot_idx@, vacant(self.slots()), 0) == first_where(
                    slot_idx@,
                    vacant(self.slots()),
                    j as nat,
                ),
            decreases NUM_SLOTS_PER_HASH - j,
        {
            let idx = slot_idx[j];
            if !self.slots[idx].entry_type.is_used() {
                return Some(idx);
            }
            j += 1;
        }
        None
    }

    /// The candidate slot with the entry of lowest depth among those written
    /// at least `age` generations ago.
    fn get_shallowest_slot(&self, slot_idx: &[usize; 4], age: u8) -> (r: Option<usize>)
        requires
            self.wf(),
            distinct_slots(slot_idx@, self.capacity_spec()),
        ensures
            r == shallowest_where(
                self.slots(),
                slot_idx@,
                aged(self.slots(), self.generation_spec(), age as int),
                NUM_SLOTS_PER_HASH as nat,
            ),
    {
        let mut best: Option<usize> = None;
        let mut best_depth: u8 = 0;
        let mut j: usize = 0;
        while j < NUM_SLOTS_PER_HASH
            invariant
                self.wf(),
                distinct_slots(slot_idx@, self.capacity_spec()),
                j <= NUM_SLOTS_PER_HASH,
                best == shallowest_where(
                    self.slots(),
                    slot_idx@,
                    aged(self.slots(), self.generation_spec(), age as int),
                    j as nat,
                ),
                best matches Some(slot) ==> slot < self.capacity_spec() && best_depth
                    == self.slots()[slot as int].depth_spec(),
            decreases NUM_SLOTS_PER_HASH - j,
        {
            let idx = slot_idx[j];
            let entry = &self.slots[idx];
            if self.generation.wrapping_sub(entry.generation) >= age && (best.is_none()
                || entry.depth < best_depth) {
                best = Some(idx);
                best_depth = entry.depth;
            }
            j += 1;
        }
        best
    }

    /// The candidate slot to purge when none holds the hash and none is
    /// unused, and whether the purge makes room for this generation at the
    /// expense of an earlier one.
    fn get_purgeable_slot(&self, slot_idx: &[usize; 4]) -> (r: (usize, bool))
        requires
            self.wf(),
            distinct_slots(slot_idx@, self.capacity_spec()),
        ensures
            r.0 == (if let Some(slot) = first_where(
                slot_idx@,
                aged(self.slots(), self.generation_spec(), 2),
                0,
            ) {
                slot
            } else if let Some(slot) = shallowest_where(
                self.slots(),
                slot_idx@,
                aged(self.slots(), self.generation_spec(), 1),
                NUM_SLOTS_PER_HASH as nat,
            ) {
                slot
            } else {
                shallowest_where(
                    self.slots(),
                    slot_idx@,
                    aged(self.slots(), self.generation_spec(), 0),
                    NUM_SLOTS_PER_HASH as nat,
                ).unwrap()
            }),
            r.1 == shallowest_where(
                self.slots(),
                slot_idx@,
                aged(self.slots(), self.generation_spec(), 1),
                NUM_SLOTS_PER_HASH as nat,
            ) is Some,
            r.0 < self.capacity_spec(),
            r.1 ==> !is_fresh(self.slots()[r.0 as int], self.generation_spec()),
    {
        let ghost stale = aged(self.slots(), self.generation_spec(), 2);
        let ghost older = aged(self.slots(), self.generation_spec(), 1);
        let ghost any = aged(self.slots(), self.generation_spec(), 0);
        proof {
            lemma_first_where(slot_idx@, stale, 0);
            lemma_shallowest_where(self.slots(), slot_idx@, older, NUM_SLOTS_PER_HASH as nat);
            lemma_shallowest_where(self.slots(), slot_idx@, any, NUM_SLOTS_PER_HASH as nat);
            assert(any(slot_idx@[0]));
        }
        // Entries that are neither from this generation nor from the one
        // before: purge the first that comes up.
        let mut j: usize = 0;
        while j < NUM_SLOTS_PER_HASH
            invariant
                self.wf(),
                distinct_slots(slot_idx@, self.capacity_spec()),
                j <= NUM_SLOTS_PER_HASH,
                stale == aged(self.slots(), self.generation_spec(), 2),
                first_where(slot_idx@, stale, 0) == first_where(slot_idx@, stale, j as nat),
            decreases NUM_SLOTS_PER_HASH - j,
        {
            let idx = slot_idx[j];
            if self.generation.wrapping_sub(self.slots[idx].generation) >= 2 {
                proof {
                    let older = aged(self.slots(), self.generation_spec(), 1);
                    assert(stale(idx));
                    assert(older(slot_idx@[j as int]));
                    lemma_first_where(slot_idx@, stale, j as nat);
                    lemma_shallowest_where(
                        self.slots(),
                        slot_idx@,
                        older,
                        NUM_SLOTS_PER_HASH as nat,
                    );
                }
                return (idx, true);
            }
            j += 1;
        }
        // The entry of lowest depth from the generation before.
        if let Some(idx) = self.get_shallowest_slot(slot_idx, 1) {
            return (idx, true);
        }
        // The entry of lowest depth from this generation. It may be one that
        // is still of use, so this hurts the search.

        match self.get_shallowest_slot(slot_idx, 0) {
            Some(idx) => (idx, false),
            None => (slot_idx[0], false),
        }
    }

    /// The slot to write an entry for this hash to, and whether the entry
    /// adds to those of the current generation.
    fn get_mut_or_new_slot(&self, hash: u64) -> (r: (usize, bool))
        requires
            self.wf(),
        ensures
            r.0 == self.target_of(hash),
            r.1 == self.adds_entry(hash),
            r.0 < self.capacity_spec(),
            self.candidates(hash).contains(r.0),
            r.1 ==> !is_fresh(self.slots()[r.0 as int], self.generation_spec()),
    {
        let slot_idx = self.get_slot_idx_for_hash(hash);
        proof {
            lemma_first_where(slot_idx@, holding(self.slots(), hash), 0);
            lemma_first_where(slot_idx@, vacant(self.slots()), 0);
            lemma_first_where(slot_idx@, aged(self.slots(), self.generation_spec(), 2), 0);
            lemma_shallowest_where(
                self.slots(),
                slot_idx@,
                aged(self.slots(), self.generation_spec(), 1),
                NUM_SLOTS_PER_HASH as nat,
            );
            lemma_shallowest_where(
                self.slots(),
                slot_idx@,
                aged(self.slots(), self.generation_spec(), 0),
                NUM_SLOTS_PER_HASH as nat,
            );
        }
        // Find the slot that holds this same hash
        if let Some(slot) = self.get_existing_slot(hash, &slot_idx) {
            (slot, false)
        }
        // No such slot, find an empty slot to use instead
         else if let Some(slot) = self.get_empty_slot(&slot_idx) {
            (slot, true)
        }
        // No such slot, and no free slots. Time to purge!
         else {
            self.get_purgeable_slot(&slot_idx)
        }
    }

    /// The entry stored for this hash, if there is one.
    pub fn get_entry(&self, hash: u64) -> (r: Option<&HashEntry>)
        requires
            self.wf(),
        ensures
            match r {
                Some(entry) => self.lookup(hash) == Some(*entry),
                None => self.lookup(hash) is None,
            },
            r matches Some(entry) ==> entry.wf() && entry.is_used_spec() && entry.hash_spec()
                == hash,
    {
        let slot_idx = self.get_slot_idx_for_hash(hash);
        proof {
            self.lemma_lookup(hash);
        }
        proof {
            lemma_first_where(slot_idx@, holding(self.slots(), hash), 0);
        }
        match self.get_existing_slot(hash, &slot_idx) {
            Some(slot) => Some(&self.slots[slot]),
            None => None,
        }
    }

    /// Stores `entry` for this hash, in the current generation. The entry
    /// goes to the slot that `target_of` names; whatever that slot held is
    /// gone. The count goes up where `adds_entry` says so.
    pub fn insert_entry(&mut self, hash: u64, entry: HashEntry)
        requires
            old(self).wf(),
            entry.wf(),
            entry.is_used_spec(),
        ensures
            final(self).wf(),
            old(self).inserted(final(self), hash, entry),
            final(self).capacity_spec() == old(self).capacity_spec(),
            final(self).lookup(hash) == Some(entry.stored_as(hash, old(self).generation_spec())),
    {
        broadcast use HashEntry::lemma_fields, HashEntry::lemma_from_fields;

        let current_generation = self.generation;
        let (slot, is_new) = self.get_mut_or_new_slot(hash);
        let mut stored = entry;
        stored.hash = hash;
        stored.generation = current_generation;
        assert(stored == entry.stored_as(hash, current_generation));
        proof {
            lemma_fresh_count_update(self.slots(), current_generation, slot as int, stored);
            lemma_fresh_count_bound(self.slots().update(slot as int, stored), current_generation);
        }
        if is_new {
            self.count += 1;
        }
        self.slots.set(slot, stored);
        proof {
            old(self).lemma_insert(self, hash, entry);
        }
    }

    /// The entry stored for the position, if there is one.
    pub fn get<'a>(&'a self, position: &Position) -> (r: Option<&'a HashEntry>)
        requires
            self.wf(),
        ensures
            match r {
                Some(entry) => self.lookup(position.hash_spec()) == Some(*entry),
                None => self.lookup(position.hash_spec()) is None,
            },
            r matches Some(entry) ==> entry.wf() && entry.is_used_spec() && entry.hash_spec()
                == position.hash_spec(),
    {
        self.get_entry(position.hash())
    }

    /// Stores `entry` for the position, in the current generation.
    pub fn insert(&mut self, position: &Position, entry: HashEntry)
        requires
            old(self).wf(),
            entry.wf(),
            entry.is_used_spec(),
        ensures
            final(self).wf(),
            old(self).inserted(final(self), position.hash_spec(), entry),
            final(self).capacity_spec() == old(self).capacity_spec(),
            final(self).lookup(position.hash_spec()) == Some(
                entry.stored_as(position.hash_spec(), old(self).generation_spec()),
            ),
    {
        self.insert_entry(position.hash(), entry)
    }
}

} // verus!
