use chat_router::collection::Cursor;

#[test]
fn cycles_in_insertion_order() {
    let mut pool: Cursor<i32> = Cursor::new(Vec::new());
    pool.push(1);
    pool.push(2);
    pool.push(3);
    // Two full cycles: insertion order, nothing skipped, nothing repeated
    // within one cycle.
    assert_eq!(pool.next().copied(), Some(1));
    assert_eq!(pool.next().copied(), Some(2));
    assert_eq!(pool.next().copied(), Some(3));
    assert_eq!(pool.next().copied(), Some(1));
    assert_eq!(pool.next().copied(), Some(2));
    assert_eq!(pool.next().copied(), Some(3));
}

#[test]
fn empty_pool_yields_none() {
    let mut pool: Cursor<String> = Cursor::new(Vec::new());
    assert!(pool.next().is_none());
    assert!(pool.is_empty());
    assert_eq!(pool.len(), 0);
}

#[test]
fn new_takes_initial_items() {
    let mut pool: Cursor<i32> = Cursor::new(vec![7, 8]);
    assert_eq!(pool.len(), 2);
    assert!(!pool.is_empty());
    assert_eq!(pool.next().copied(), Some(7));
    assert_eq!(pool.next().copied(), Some(8));
    assert_eq!(pool.next().copied(), Some(7));
}

#[test]
fn push_while_cycling_recomputes_modulo() {
    let mut pool: Cursor<i32> = Cursor::new(vec![1, 2]);
    assert_eq!(pool.next().copied(), Some(1));
    assert_eq!(pool.next().copied(), Some(2));
    // The cursor wrapped to 0; growth is picked up on later rounds.
    pool.push(3);
    assert_eq!(pool.next().copied(), Some(1));
    assert_eq!(pool.next().copied(), Some(2));
    assert_eq!(pool.next().copied(), Some(3));
    assert_eq!(pool.next().copied(), Some(1));
}
