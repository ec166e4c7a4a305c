use chess_search::hash::{
    rotate_left_11, slot_indices, BoardScoreType, HashEntry, HashEntryInfo, HashEntryKind,
    HashMap,
};
use chess_search::moves::Move;
use chess_search::position::Position;
use chess_search::score::{BoardScore, BoundedScore};

const CAPACITY: usize = 65536;

// In a table of 65536 entries the first four probes read the bits 0 to 15
// and 31 to 63 of a hash. Hashes that differ in the bits 16 to 30 alone
// have the same candidate slots.
const BASE: u64 = 0x1234_5678_0000_9abc;

fn sibling(n: u64) -> u64 {
    assert!(n < (1 << 15));
    BASE | (n << 16)
}

fn entry(depth: u8) -> HashEntry {
    HashEntry::with_contents(
        0,
        Move::new(12, 28, None),
        BoundedScore::Exact(BoardScore::evaluation(depth as i16)),
        depth,
    )
}

fn pairwise_distinct(slots: &[usize; 4]) -> bool {
    for i in 0..4 {
        for j in (i + 1)..4 {
            if slots[i] == slots[j] {
                return false;
            }
        }
    }
    true
}

#[test]
fn info_byte_packs_kind_and_bound() {
    let kinds = [HashEntryKind::Unused, HashEntryKind::Deficient, HashEntryKind::Full];
    let bounds = [
        BoardScoreType::Exact,
        BoardScoreType::LowerBound,
        BoardScoreType::UpperBound,
    ];
    for kind in kinds {
        for bound in bounds {
            let info = HashEntryInfo::new(kind, bound);
            assert_eq!(info.entry_kind(), kind);
            assert_eq!(info.score_type(), bound);
            assert_eq!(info.is_used(), kind != HashEntryKind::Unused);
        }
    }
}

#[test]
fn info_byte_setters_leave_the_other_part() {
    let mut info = HashEntryInfo::new(HashEntryKind::Full, BoardScoreType::UpperBound);
    info.set_entry_kind(HashEntryKind::Deficient);
    assert_eq!(info.entry_kind(), HashEntryKind::Deficient);
    assert_eq!(info.score_type(), BoardScoreType::UpperBound);
    info.set_score_type(BoardScoreType::LowerBound);
    assert_eq!(info.entry_kind(), HashEntryKind::Deficient);
    assert_eq!(info.score_type(), BoardScoreType::LowerBound);
    info.set_entry_kind(HashEntryKind::Unused);
    info.set_score_type(BoardScoreType::Exact);
    assert_eq!(info, HashEntryInfo::new(HashEntryKind::Unused, BoardScoreType::Exact));
}

#[test]
fn score_types_follow_the_bounded_score() {
    let s = BoardScore::evaluation(3);
    assert_eq!(BoardScoreType::from_score(BoundedScore::Exact(s)), BoardScoreType::Exact);
    assert_eq!(
        BoardScoreType::from_score(BoundedScore::LowerBound(s)),
        BoardScoreType::LowerBound
    );
    assert_eq!(
        BoardScoreType::from_score(BoundedScore::UpperBound(s)),
        BoardScoreType::UpperBound
    );
}

#[test]
fn entries_keep_their_contents() {
    let best_move = Move::new(6, 21, None);
    let score = BoundedScore::LowerBound(BoardScore::evaluation(-77));
    let entry = HashEntry::with_contents(0xdead_beef, best_move, score, 9);
    assert_eq!(entry.hash(), 0xdead_beef);
    assert_eq!(entry.best_move(), best_move);
    assert_eq!(entry.score(), score);
    assert_eq!(entry.depth(), 9);
    assert_eq!(entry.generation(), 0);
    assert!(entry.is_used());
    let unused = HashEntry::unused();
    assert!(!unused.is_used());
    assert_eq!(unused.hash(), 0);
    assert_eq!(unused.best_move(), None);
}

#[test]
fn entries_take_sixteen_bytes() {
    assert_eq!(std::mem::size_of::<HashEntry>(), 16);
    assert_eq!(std::mem::size_of::<HashEntryInfo>(), 1);
}

#[test]
fn rotation_by_eleven_bits() {
    assert_eq!(rotate_left_11(1), 1 << 11);
    assert_eq!(rotate_left_11(1 << 63), 1 << 10);
    assert_eq!(rotate_left_11(0), 0);
    assert_eq!(rotate_left_11(u64::MAX), u64::MAX);
    for x in [0x0123_4567_89ab_cdefu64, 0x8000_0000_0000_0001, 42] {
        assert_eq!(rotate_left_11(x), x.rotate_left(11));
    }
}

#[test]
fn new_table_is_empty() {
    let table = HashMap::new(1);
    assert_eq!(table.capacity(), CAPACITY);
    assert_eq!(table.filled(), 0);
    assert_eq!(table.generation(), 0);
    assert!(table.get_entry(0).is_none());
    assert!(table.get_entry(BASE).is_none());
    assert_eq!(HashMap::new(2).capacity(), 2 * CAPACITY);
}

#[test]
fn slot_indices_are_four_distinct_slots() {
    let hashes = [
        0u64,
        1,
        u64::MAX,
        BASE,
        0x8000_0000_0000_0000,
        0x5555_5555_5555_5555,
        0xaaaa_aaaa_aaaa_aaaa,
        0x0001_0001_0001_0001,
        0xffff_0000_ffff_0000,
    ];
    for capacity in [CAPACITY, 2 * CAPACITY, 3 * CAPACITY, 128 * CAPACITY] {
        for hash in hashes {
            let slots = slot_indices(hash, capacity);
            assert!(pairwise_distinct(&slots));
            assert!(slots.iter().all(|slot| *slot < capacity));
            assert_eq!(slots[0], (hash % capacity as u64) as usize);
        }
    }
    let table = HashMap::new(1);
    for hash in hashes {
        assert_eq!(table.get_slot_idx_for_hash(hash), slot_indices(hash, CAPACITY));
    }
}

#[test]
fn slot_indices_follow_the_rotations() {
    let slots = slot_indices(BASE, CAPACITY);
    let mut x = BASE;
    for slot in slots {
        assert_eq!(slot, (x % CAPACITY as u64) as usize);
        x = x.rotate_left(11);
    }
}

#[test]
fn slot_indices_add_the_constant_after_a_round() {
    // Every rotation of 0 is 0: the other slots come from later rounds.
    let slots = slot_indices(0, CAPACITY);
    assert_eq!(slots[0], 0);
    let increment: u64 = 0x1000100010005;
    assert_eq!(slots[1], (increment % CAPACITY as u64) as usize);
    assert_eq!(slots[2], (increment.rotate_left(11) % CAPACITY as u64) as usize);
    assert_eq!(slots[3], (increment.rotate_left(22) % CAPACITY as u64) as usize);
}

#[test]
fn siblings_share_their_slots() {
    let slots = slot_indices(BASE, CAPACITY);
    for n in [1u64, 2, 77, 32767] {
        assert_eq!(slot_indices(sibling(n), CAPACITY), slots);
    }
}

#[test]
fn inserted_entry_is_fetched() {
    let mut table = HashMap::new(1);
    let best_move = Move::new(1, 18, None);
    let score = BoundedScore::UpperBound(BoardScore::evaluation(321));
    table.insert_entry(BASE, HashEntry::with_contents(7, best_move, score, 5));
    let fetched = table.get_entry(BASE).unwrap();
    assert_eq!(fetched.hash(), BASE);
    assert_eq!(fetched.best_move(), best_move);
    assert_eq!(fetched.score(), score);
    assert_eq!(fetched.depth(), 5);
    assert_eq!(fetched.generation(), 0);
    assert_eq!(table.filled(), 1);
    assert!(table.get_entry(BASE + 1).is_none());
    assert!(table.get_entry(7).is_none());
}

#[test]
fn inserted_entry_takes_the_generation_of_the_table() {
    let mut table = HashMap::new(1);
    table.new_generation();
    table.new_generation();
    table.new_generation();
    table.insert_entry(5, entry(1));
    assert_eq!(table.get_entry(5).unwrap().generation(), 3);
}

#[test]
fn hash_zero_is_stored_like_any_other() {
    let mut table = HashMap::new(1);
    assert!(table.get_entry(0).is_none());
    table.insert_entry(0, entry(4));
    assert_eq!(table.filled(), 1);
    assert_eq!(table.get_entry(0).unwrap().depth(), 4);
    table.insert_entry(0, entry(6));
    assert_eq!(table.filled(), 1);
    assert_eq!(table.get_entry(0).unwrap().depth(), 6);
}

#[test]
fn same_hash_is_overwritten_in_place() {
    let mut table = HashMap::new(1);
    table.insert_entry(BASE, entry(3));
    table.insert_entry(BASE, entry(8));
    assert_eq!(table.filled(), 1);
    assert_eq!(table.get_entry(BASE).unwrap().depth(), 8);
    let slots = table.get_slot_idx_for_hash(BASE);
    assert_eq!(table.get_slot(slots[0]).hash(), BASE);
    assert!(!table.get_slot(slots[1]).is_used());
}

#[test]
fn unused_slots_are_filled_in_order() {
    let mut table = HashMap::new(1);
    let slots = table.get_slot_idx_for_hash(BASE);
    for n in 0..4u64 {
        table.insert_entry(sibling(n), entry(n as u8));
        assert_eq!(table.filled(), n as usize + 1);
        assert_eq!(table.get_slot(slots[n as usize]).hash(), sibling(n));
    }
    for n in 0..4u64 {
        assert_eq!(table.get_entry(sibling(n)).unwrap().depth(), n as u8);
    }
}

#[test]
fn full_slots_of_this_generation_lose_the_shallowest() {
    let mut table = HashMap::new(1);
    let depths = [9u8, 4, 7, 4];
    for n in 0..4u64 {
        table.insert_entry(sibling(n), entry(depths[n as usize]));
    }
    assert_eq!(table.filled(), 4);
    table.insert_entry(sibling(10), entry(1));
    // The first of the two entries of depth 4 has gone, and the count stays
    assert_eq!(table.filled(), 4);
    assert!(table.get_entry(sibling(1)).is_none());
    assert!(table.get_entry(sibling(0)).is_some());
    assert!(table.get_entry(sibling(2)).is_some());
    assert!(table.get_entry(sibling(3)).is_some());
    assert_eq!(table.get_entry(sibling(10)).unwrap().depth(), 1);
}

#[test]
fn many_siblings_leave_four_entries() {
    let mut table = HashMap::new(1);
    let slots = table.get_slot_idx_for_hash(BASE);
    let count: u64 = 1 << 15;
    for n in 0..count {
        table.insert_entry(sibling(n), entry((n % 200) as u8));
        assert!(table.filled() <= 4);
    }
    let mut remaining = 0;
    for n in 0..count {
        if let Some(found) = table.get_entry(sibling(n)) {
            assert_eq!(found.hash(), sibling(n));
            remaining += 1;
        }
    }
    assert_eq!(remaining, 4);
    for slot in 0..table.capacity() {
        assert_eq!(table.get_slot(slot).is_used(), slots.contains(&slot));
    }
}

#[test]
fn more_inserts_than_capacity_stay_inside_the_table() {
    let mut table = HashMap::new(1);
    let mut hash: u64 = 0x9e37_79b9_7f4a_7c15;
    for n in 0..(2 * CAPACITY) {
        hash = hash.wrapping_mul(0x2545_f491_4f6c_dd1d).wrapping_add(n as u64);
        table.insert_entry(hash, entry((n % 256) as u8));
        assert!(table.filled() <= table.capacity());
        assert_eq!(table.get_entry(hash).unwrap().hash(), hash);
    }
    for slot in 0..table.capacity() {
        let found = table.get_slot(slot);
        if found.is_used() {
            assert!(table.get_slot_idx_for_hash(found.hash()).contains(&slot));
        }
    }
}

#[test]
fn new_generation_starts_the_count_again() {
    let mut table = HashMap::new(1);
    table.insert_entry(sibling(0), entry(1));
    table.insert_entry(sibling(1), entry(2));
    assert_eq!(table.filled(), 2);
    table.new_generation();
    assert_eq!(table.filled(), 0);
    assert_eq!(table.generation(), 1);
    assert_eq!(table.get_entry(sibling(0)).unwrap().depth(), 1);
    assert_eq!(table.get_entry(sibling(1)).unwrap().depth(), 2);
    // Overwriting an old entry in place does not count
    table.insert_entry(sibling(0), entry(3));
    assert_eq!(table.filled(), 0);
    assert_eq!(table.get_entry(sibling(0)).unwrap().generation(), 1);
    table.insert_entry(sibling(2), entry(3));
    assert_eq!(table.filled(), 1);
}

#[test]
fn generation_wraps_around() {
    let mut table = HashMap::new(1);
    for _ in 0..256 {
        table.new_generation();
    }
    assert_eq!(table.generation(), 0);
    table.new_generation();
    assert_eq!(table.generation(), 1);
}

#[test]
fn stale_entries_are_purged_first() {
    let mut table = HashMap::new(1);
    // Deepest entry first: depth does not save an entry that is stale
    table.insert_entry(sibling(0), entry(200));
    table.insert_entry(sibling(1), entry(1));
    table.insert_entry(sibling(2), entry(2));
    table.insert_entry(sibling(3), entry(3));
    table.new_generation();
    table.new_generation();
    assert_eq!(table.filled(), 0);
    // Three of them are brought up to the current generation
    table.insert_entry(sibling(1), entry(1));
    table.insert_entry(sibling(2), entry(2));
    table.insert_entry(sibling(3), entry(3));
    table.insert_entry(sibling(4), entry(0));
    assert!(table.get_entry(sibling(0)).is_none());
    assert!(table.get_entry(sibling(1)).is_some());
    assert!(table.get_entry(sibling(2)).is_some());
    assert!(table.get_entry(sibling(3)).is_some());
    assert!(table.get_entry(sibling(4)).is_some());
    assert_eq!(table.filled(), 1);
}

#[test]
fn first_stale_entry_goes_whatever_its_depth() {
    let mut table = HashMap::new(1);
    table.insert_entry(sibling(0), entry(50));
    table.insert_entry(sibling(1), entry(1));
    table.insert_entry(sibling(2), entry(60));
    table.insert_entry(sibling(3), entry(70));
    table.new_generation();
    table.new_generation();
    table.insert_entry(sibling(4), entry(0));
    assert!(table.get_entry(sibling(0)).is_none());
    assert!(table.get_entry(sibling(1)).is_some());
}

#[test]
fn entries_of_the_generation_before_lose_the_shallowest() {
    let mut table = HashMap::new(1);
    table.insert_entry(sibling(0), entry(5));
    table.insert_entry(sibling(1), entry(3));
    table.insert_entry(sibling(2), entry(1));
    table.insert_entry(sibling(3), entry(9));
    table.new_generation();
    // The shallowest entry is brought up to date, so the next one goes
    table.insert_entry(sibling(2), entry(1));
    assert_eq!(table.filled(), 0);
    table.insert_entry(sibling(4), entry(0));
    assert_eq!(table.filled(), 1);
    assert!(table.get_entry(sibling(1)).is_none());
    assert!(table.get_entry(sibling(0)).is_some());
    assert!(table.get_entry(sibling(2)).is_some());
    assert!(table.get_entry(sibling(3)).is_some());
    assert!(table.get_entry(sibling(4)).is_some());
}

#[test]
fn wrapped_generations_count_as_old() {
    let mut table = HashMap::new(1);
    for _ in 0..255 {
        table.new_generation();
    }
    for n in 0..4u64 {
        table.insert_entry(sibling(n), entry(10 + n as u8));
    }
    // From generation 255 to generation 1: two generations, around the corner
    table.new_generation();
    table.new_generation();
    assert_eq!(table.generation(), 1);
    table.insert_entry(sibling(1), entry(11));
    table.insert_entry(sibling(2), entry(12));
    table.insert_entry(sibling(3), entry(13));
    table.insert_entry(sibling(4), entry(99));
    assert!(table.get_entry(sibling(0)).is_none());
    assert_eq!(table.get_entry(sibling(4)).unwrap().generation(), 1);
}

#[test]
fn positions_are_stored_under_their_hash() {
    let mut table = HashMap::new(1);
    let position = Position::startpos();
    assert!(table.get(&position).is_none());
    table.insert(&position, entry(2));
    let fetched = table.get(&position).unwrap();
    assert_eq!(fetched.hash(), position.hash());
    assert_eq!(fetched.depth(), 2);
    assert_eq!(table.get_entry(position.hash()).unwrap().depth(), 2);
    let other = position.play(Move::new(12, 28, None).unwrap()).unwrap();
    assert!(table.get(&other).is_none());
}
