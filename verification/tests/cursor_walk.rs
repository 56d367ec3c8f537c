use splinterdb::{
    key_cmp, CompareResult, ConcatSdb, DBConfig, DefaultSdb, LookupResult, SplinterCursor,
    SplinterDB,
};

fn config() -> DBConfig {
    DBConfig {
        cache_size_bytes: 1024 * 1024,
        disk_size_bytes: 16 * 1024 * 1024,
        max_key_size: 24,
        max_value_size: 64,
    }
}

fn abc_db() -> SplinterDB<DefaultSdb> {
    let mut db = SplinterDB::<DefaultSdb>::new();
    db.db_create("/tmp/cursor_db", &config()).unwrap();
    // inserted out of order on purpose: the cursor must sort them out
    db.insert(b"b", &[2]).unwrap();
    db.insert(b"c", &[3]).unwrap();
    db.insert(b"a", &[1]).unwrap();
    db
}

fn collect_forward(cursor: &mut SplinterCursor<'_>) -> Vec<(Vec<u8>, Vec<u8>)> {
    let mut visited = Vec::new();
    loop {
        match cursor.get_curr() {
            None => break,
            Some(ir) => visited.push((ir.key.to_vec(), ir.value.to_vec())),
        }
        cursor.next().unwrap();
    }
    visited
}

#[test]
fn forward_walk_visits_all_keys_ascending_then_stops_without_error() {
    let db = abc_db();
    let mut cursor = db.range(None).unwrap();
    let visited = collect_forward(&mut cursor);
    assert_eq!(
        visited,
        vec![
            (b"a".to_vec(), vec![1]),
            (b"b".to_vec(), vec![2]),
            (b"c".to_vec(), vec![3]),
        ]
    );
    // exhausted: stepping further reports false, with no error
    assert_eq!(cursor.next().unwrap(), false);
    assert!(cursor.get_curr().is_none());
}

#[test]
fn backward_walk_from_end_visits_all_keys_descending() {
    let db = abc_db();
    let mut cursor = db.range(None).unwrap();
    collect_forward(&mut cursor);
    let mut back = Vec::new();
    while cursor.prev().unwrap() {
        let ir = cursor.get_curr().unwrap();
        back.push((ir.key.to_vec(), ir.value.to_vec()));
    }
    assert_eq!(
        back,
        vec![
            (b"c".to_vec(), vec![3]),
            (b"b".to_vec(), vec![2]),
            (b"a".to_vec(), vec![1]),
        ]
    );
    // on the first entry there is no previous position
    assert_eq!(cursor.prev().unwrap(), false);
    let ir = cursor.get_curr().unwrap();
    assert_eq!(ir.key, b"a");
}

#[test]
fn next_then_prev_returns_to_the_previous_position() {
    let db = abc_db();
    let mut cursor = db.range(None).unwrap();
    assert_eq!(cursor.get_curr().unwrap().key, b"a");
    assert!(cursor.next().unwrap());
    assert_eq!(cursor.get_curr().unwrap().key, b"b");
    assert!(cursor.prev().unwrap());
    assert_eq!(cursor.get_curr().unwrap().key, b"a");
}

#[test]
fn cursor_with_start_key_begins_at_first_key_not_below_it() {
    let db = abc_db();
    let mut cursor = db.range(Some(b"b")).unwrap();
    let visited = collect_forward(&mut cursor);
    assert_eq!(
        visited,
        vec![(b"b".to_vec(), vec![2]), (b"c".to_vec(), vec![3])]
    );
    // a start key between stored keys seeks to the next stored one
    let mut cursor = db.range(Some(b"bb")).unwrap();
    assert_eq!(cursor.get_curr().unwrap().key, b"c");
    // a start key past every stored key gives an exhausted cursor
    let cursor = db.range(Some(b"zz")).unwrap();
    assert!(cursor.get_curr().is_none());
}

#[test]
fn cursor_over_empty_database_is_exhausted_at_once() {
    let mut db = SplinterDB::<DefaultSdb>::new();
    db.db_create("/tmp/empty_db", &config()).unwrap();
    let mut cursor = db.range(None).unwrap();
    assert!(cursor.get_curr().is_none());
    assert_eq!(cursor.next().unwrap(), false);
    assert_eq!(cursor.prev().unwrap(), false);
}

#[test]
fn get_curr_is_stable_and_borrows_are_rescoped_by_copying() {
    let db = abc_db();
    let mut cursor = db.range(None).unwrap();
    let first = cursor.get_curr().unwrap();
    let second = cursor.get_curr().unwrap();
    assert_eq!(first.key, second.key);
    // a caller who wants to keep the pair past the next step copies it out:
    // the borrow itself cannot survive the `&mut self` of `next`
    let kept_key = first.key.to_vec();
    let kept_value = first.value.to_vec();
    cursor.next().unwrap();
    assert_eq!(kept_key, b"a".to_vec());
    assert_eq!(kept_value, vec![1]);
}

#[test]
fn update_combines_with_registered_merge_function() {
    let mut db = SplinterDB::<ConcatSdb>::new();
    db.db_create("/tmp/merge_db", &config()).unwrap();
    db.insert(b"a", &[1]).unwrap();
    db.update(b"a", &[2, 3]).unwrap();
    // the registered merge appends the delta to the stored value
    assert_eq!(db.lookup(b"a").unwrap(), LookupResult::Found(vec![1, 2, 3]));
    // on an absent key the delta's final form is stored
    db.update(b"b", &[9]).unwrap();
    assert_eq!(db.lookup(b"b").unwrap(), LookupResult::Found(vec![9]));
}

#[test]
fn key_comparison_is_lexicographic() {
    assert_eq!(key_cmp(b"a", b"b"), CompareResult::Less);
    assert_eq!(key_cmp(b"b", b"a"), CompareResult::Greater);
    assert_eq!(key_cmp(b"ab", b"ab"), CompareResult::Equal);
    assert_eq!(key_cmp(b"a", b"ab"), CompareResult::Less);
    assert_eq!(key_cmp(b"", b"a"), CompareResult::Less);
    assert_eq!(key_cmp(b"", b""), CompareResult::Equal);
    assert_eq!(key_cmp(&[0xff], &[1, 2]), CompareResult::Greater);
}
