use ab_engine::tt::{from_tt, to_tt, TTEntry, TT};
use ab_engine::types::{pack_move, Move, Piece, ALPHA, BETA, EXACT, INF, MATE, MAX_AB_DEPTH};

#[test]
fn capacity_follows_the_budget() {
    let t = TT::new_from_mb(1);
    assert_eq!(t.entries.len(), 4 * 8192);
    assert_eq!(t.mask, 8191);
    assert_eq!(t.age, 0);
    for mb in 1usize..=4 {
        let t = TT::new_from_mb(mb);
        let buckets = t.mask + 1;
        assert!(buckets.is_power_of_two());
        assert_eq!(t.entries.len(), 4 * buckets);
        assert!(t.entries.len() * 24 <= mb * 1_048_576);
        assert!(2 * t.entries.len() * 24 > mb * 1_048_576);
    }
}

#[test]
fn an_empty_budget_still_gives_one_bucket() {
    let t = TT::new_from_mb(0);
    assert_eq!(t.entries.len(), 4);
    assert_eq!(t.mask, 0);
    assert!(t.entries.iter().all(|e| *e == TTEntry::default()));
    assert_eq!(TTEntry::default().depth, i16::MIN);
}

#[test]
fn probe_finds_what_was_stored() {
    let mut t = TT::new_from_mb(1);
    let m = Move::new(12, 28, None);
    assert_eq!(t.probe(0xDEAD_BEEF), None);
    t.store(0xDEAD_BEEF, 5, 123, BETA, Some(m));
    let e = t.probe(0xDEAD_BEEF).unwrap();
    assert_eq!(e.key, 0xDEAD_BEEF);
    assert_eq!(e.depth, 5);
    assert_eq!(e.score, 123);
    assert_eq!(e.flag, BETA);
    assert_eq!(e.age, 0);
    assert_eq!(e.best, pack_move(m));
    assert_eq!(t.probe(0xDEAD_BEEF + 1), None);
}

#[test]
fn a_store_without_a_move_keeps_code_zero() {
    let mut t = TT::new_from_mb(1);
    t.store(42, 1, -7, ALPHA, None);
    assert_eq!(t.probe(42).unwrap().best, 0);
}

#[test]
fn the_same_key_is_overwritten() {
    let mut t = TT::new_from_mb(0);
    t.store(7, 9, 50, EXACT, None);
    t.store(7, 2, 60, ALPHA, Some(Move::new(1, 18, None)));
    let e = t.probe(7).unwrap();
    assert_eq!(e.depth, 2);
    assert_eq!(e.score, 60);
    assert_eq!(t.entries.iter().filter(|e| e.key == 7).count(), 1);
}

#[test]
fn the_shallowest_entry_makes_room_and_of_those_the_oldest() {
    let mut t = TT::new_from_mb(0);
    t.store(1, 5, 0, EXACT, None);
    t.store(2, 3, 0, EXACT, None);
    t.bump_age();
    t.store(3, 7, 0, EXACT, None);
    t.store(4, 3, 0, EXACT, None);
    assert!(t.probe(1).is_some() && t.probe(2).is_some());
    assert!(t.probe(3).is_some() && t.probe(4).is_some());
    t.store(5, 1, 0, EXACT, None);
    assert_eq!(t.probe(2), None);
    assert_eq!(t.probe(5).unwrap().age, 1);
    assert!(t.probe(1).is_some() && t.probe(3).is_some() && t.probe(4).is_some());
    t.store(6, 9, 0, EXACT, None);
    assert_eq!(t.probe(5), None);
    assert!(t.probe(6).is_some());
}

#[test]
fn ages_wrap_around() {
    let mut t = TT::new_from_mb(0);
    for _ in 0..255 {
        t.bump_age();
    }
    assert_eq!(t.age, 255);
    t.store(1, 3, 0, EXACT, None);
    t.store(2, 3, 0, EXACT, None);
    t.store(3, 3, 0, EXACT, None);
    t.bump_age();
    assert_eq!(t.age, 0);
    t.store(4, 3, 0, EXACT, None);
    t.store(5, 3, 0, EXACT, None);
    assert_eq!(t.probe(1), None);
    assert!(t.probe(4).is_some() && t.probe(5).is_some());
}

#[test]
fn a_probe_after_a_store_is_at_least_as_deep() {
    let mut t = TT::new_from_mb(0);
    for (i, d) in [4, 9, 1, 6, 2, 8, 3, 7, 5].iter().enumerate() {
        let key = (i as u64 % 6) * 16;
        t.store(key, *d, 0, EXACT, None);
        let e = t.probe(key).unwrap();
        assert_eq!(e.key, key);
        assert!(e.depth as i32 >= *d);
    }
}

#[test]
fn mate_scores_are_stored_by_distance_from_the_node() {
    assert_eq!(to_tt(MATE - 10, 5), MATE - 5);
    assert_eq!(to_tt(-MATE + 10, 5), -MATE + 5);
    assert_eq!(to_tt(100, 5), 100);
    assert_eq!(to_tt(MATE - MAX_AB_DEPTH, 3), MATE - MAX_AB_DEPTH + 3);
    assert_eq!(to_tt(MATE - MAX_AB_DEPTH - 1, 3), MATE - MAX_AB_DEPTH - 1);
    assert_eq!(from_tt(MATE - 5, 5), MATE - 10);
    assert_eq!(from_tt(-MATE + 5, 5), -MATE + 10);
    assert_eq!(from_tt(-100, 5), -100);
}

#[test]
fn scores_come_back_unchanged() {
    for p in [0, 1, 2, 17, 64, 128] {
        for s in [-INF, -MATE, -MATE + 10, -MATE + 64, -MATE + 65, -1, 0, 1, 250, MATE - 65,
            MATE - 64, MATE - 1, MATE, INF]
        {
            assert_eq!(from_tt(to_tt(s, p), p), s);
        }
    }
}

#[test]
fn promotions_survive_the_table() {
    let mut t = TT::new_from_mb(1);
    let m = Move::new(52, 60, Some(Piece::Queen));
    t.store(99, 3, 0, EXACT, Some(m));
    assert_eq!(ab_engine::types::unpack_move(t.probe(99).unwrap().best), Some(m));
}

#[test]
fn a_bucket_has_room_for_four_keys() {
    for mb in [0usize, 1] {
        let mut t = TT::new_from_mb(mb);
        let step = (t.mask as u64 + 1) * 3;
        let keys: Vec<u64> = (1..=5).map(|i| 5 + i * step).collect();
        for k in &keys[..4] {
            t.store(*k, 6, 0, EXACT, None);
        }
        assert!(keys[..4].iter().all(|k| t.probe(*k).is_some()));
        t.store(keys[4], 6, 0, EXACT, None);
        assert_eq!(keys.iter().filter(|k| t.probe(**k).is_some()).count(), 4);
        assert!(t.probe(keys[4]).is_some());
        assert_eq!(t.probe(keys[0]), None);
    }
}

#[test]
fn a_probe_right_after_a_store_returns_the_entry() {
    let mut t = TT::new_from_mb(0);
    for (i, k) in [9u64, 0, 4, 9, 7, 0, 11, 4, 13, 9].iter().enumerate() {
        let m = Move::new(i as u8, 63 - i as u8, None);
        t.store(*k, 1 + (i as i32 * 7) % 5, i as i32, BETA, Some(m));
        let e = t.probe(*k).unwrap();
        assert_eq!((e.key, e.depth as i32, e.score), (*k, 1 + (i as i32 * 7) % 5, i as i32));
        assert_eq!(e.best, pack_move(m));
    }
}
