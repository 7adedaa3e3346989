use rend3::arena::RangeArena;
use rend3::math::IndexRange;

#[test]
fn allocations_follow_each_other_from_zero() {
    let mut arena = RangeArena::new(10);
    assert_eq!(arena.allocate(4), Some(IndexRange { start: 0, end: 4 }));
    assert_eq!(arena.allocate(3), Some(IndexRange { start: 4, end: 7 }));
    assert_eq!(arena.allocate(3), Some(IndexRange { start: 7, end: 10 }));
}

#[test]
fn full_arena_hands_out_nothing() {
    let mut arena = RangeArena::new(10);
    assert_eq!(arena.allocate(11), None);
    assert_eq!(arena.allocate(10), Some(IndexRange { start: 0, end: 10 }));
    assert!(!arena.has_room(1));
    assert_eq!(arena.allocate(1), None);
    assert!(arena.has_room(0));
}

#[test]
fn lowest_free_range_that_fits_is_taken() {
    let mut arena = RangeArena::new(100);
    let a = arena.allocate(10).unwrap();
    let _b = arena.allocate(10).unwrap();
    let c = arena.allocate(20).unwrap();
    let _d = arena.allocate(10).unwrap();
    arena.release(c);
    arena.release(a);
    assert_eq!(arena.allocate(12), Some(IndexRange { start: 20, end: 32 }));
    assert_eq!(arena.allocate(4), Some(IndexRange { start: 0, end: 4 }));
    assert_eq!(arena.allocate(8), Some(IndexRange { start: 32, end: 40 }));
    assert_eq!(arena.allocate(6), Some(IndexRange { start: 4, end: 10 }));
    assert_eq!(arena.allocate(1), Some(IndexRange { start: 50, end: 51 }));
}

#[test]
fn free_ranges_that_touch_are_joined() {
    let mut arena = RangeArena::new(100);
    let a = arena.allocate(10).unwrap();
    let b = arena.allocate(10).unwrap();
    let c = arena.allocate(10).unwrap();
    let _d = arena.allocate(10).unwrap();
    arena.release(a);
    arena.release(c);
    assert!(arena.has_room(10));
    arena.release(b);
    assert_eq!(arena.allocate(30), Some(IndexRange { start: 0, end: 30 }));
}

#[test]
fn free_range_joins_the_one_below_or_the_one_above() {
    let mut arena = RangeArena::new(40);
    let a = arena.allocate(10).unwrap();
    let b = arena.allocate(10).unwrap();
    let c = arena.allocate(10).unwrap();
    let _d = arena.allocate(10).unwrap();
    arena.release(a);
    arena.release(b);
    assert_eq!(arena.allocate(20), Some(IndexRange { start: 0, end: 20 }));
    arena.release(c);
    arena.release(IndexRange { start: 10, end: 20 });
    assert_eq!(arena.allocate(20), Some(IndexRange { start: 10, end: 30 }));
    assert_eq!(arena.allocate(1), None);
}

#[test]
fn release_at_the_frontier_lowers_it() {
    let mut arena = RangeArena::new(10);
    let a = arena.allocate(6).unwrap();
    assert!(!arena.has_room(5));
    arena.release(a);
    assert_eq!(arena.allocate(10), Some(IndexRange { start: 0, end: 10 }));
}

#[test]
fn arena_that_got_everything_back_is_whole_again() {
    let mut arena = RangeArena::new(10);
    let a = arena.allocate(5).unwrap();
    let b = arena.allocate(5).unwrap();
    arena.release(a);
    assert_eq!(arena.allocate(6), None);
    arena.release(b);
    assert_eq!(arena.allocate(10), Some(IndexRange { start: 0, end: 10 }));
}

#[test]
fn empty_range_takes_no_room() {
    let mut arena = RangeArena::new(2);
    let empty = arena.allocate(0).unwrap();
    assert_eq!(empty, IndexRange { start: 0, end: 0 });
    assert_eq!(empty.len(), 0);
    assert_eq!(arena.allocate(2), Some(IndexRange { start: 0, end: 2 }));
    arena.release(empty);
    assert_eq!(arena.allocate(1), None);
}

#[test]
fn index_range_len() {
    assert_eq!(IndexRange { start: 3, end: 39 }.len(), 36);
}
