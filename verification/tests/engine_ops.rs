use splinterdb::{
    as_result, DBConfig, DefaultSdb, EngineStatusError, LookupResult, SplinterDB, STATUS_INVALID,
    STATUS_NOT_FOUND,
};

fn small_config() -> DBConfig {
    DBConfig {
        cache_size_bytes: 1024 * 1024,
        disk_size_bytes: 16 * 1024 * 1024,
        max_key_size: 24,
        max_value_size: 64,
    }
}

fn open_db() -> SplinterDB<DefaultSdb> {
    let mut db = SplinterDB::<DefaultSdb>::new();
    db.db_create("/tmp/unit_test_db", &small_config()).unwrap();
    db
}

#[test]
fn insert_then_lookup_finds_value() {
    let mut db = open_db();
    db.insert(b"hello", b"world").unwrap();
    let r = db.lookup(b"hello").unwrap();
    assert_eq!(r, LookupResult::Found(b"world".to_vec()));
}

#[test]
fn insert_overwrites_existing_value() {
    let mut db = open_db();
    db.insert(b"k", &[1, 2, 3]).unwrap();
    db.insert(b"k", &[9]).unwrap();
    assert_eq!(db.lookup(b"k").unwrap(), LookupResult::Found(vec![9]));
}

#[test]
fn delete_then_lookup_is_not_found() {
    let mut db = open_db();
    db.insert(b"gone", &[1]).unwrap();
    db.delete(b"gone").unwrap();
    assert_eq!(db.lookup(b"gone").unwrap(), LookupResult::NotFound);
}

#[test]
fn delete_of_absent_key_is_ok_and_changes_nothing() {
    let mut db = open_db();
    db.insert(b"stay", &[7]).unwrap();
    db.delete(b"never-there").unwrap();
    assert_eq!(db.lookup(b"stay").unwrap(), LookupResult::Found(vec![7]));
}

#[test]
fn lookup_of_never_inserted_key_is_not_found() {
    let mut db = open_db();
    db.insert(b"a", &[1]).unwrap();
    db.insert(b"c", &[3]).unwrap();
    assert_eq!(db.lookup(b"b").unwrap(), LookupResult::NotFound);
    assert_eq!(db.lookup(b"").unwrap(), LookupResult::NotFound);
}

#[test]
fn update_with_default_funcs_replaces_value() {
    let mut db = open_db();
    db.insert(b"k", &[1]).unwrap();
    db.update(b"k", &[2, 3]).unwrap();
    assert_eq!(db.lookup(b"k").unwrap(), LookupResult::Found(vec![2, 3]));
}

#[test]
fn update_of_absent_key_stores_delta_final_form() {
    let mut db = open_db();
    db.update(b"fresh", &[5]).unwrap();
    assert_eq!(db.lookup(b"fresh").unwrap(), LookupResult::Found(vec![5]));
}

#[test]
fn open_of_nonexistent_database_fails_and_handle_stays_unusable() {
    let mut db = SplinterDB::<DefaultSdb>::new();
    let err = db
        .db_open("/tmp/no_such_database_anywhere", &small_config())
        .unwrap_err();
    assert_eq!(err, EngineStatusError { code: STATUS_NOT_FOUND });
    // the handle never opened: every operation now fails
    assert_eq!(
        db.insert(b"k", b"v").unwrap_err(),
        EngineStatusError { code: STATUS_INVALID }
    );
    assert!(db.lookup(b"k").is_err());
    assert!(db.range(None).is_err());
}

#[test]
fn operations_before_create_fail() {
    let mut db = SplinterDB::<DefaultSdb>::new();
    assert_eq!(db.insert(b"k", b"v").unwrap_err().code, STATUS_INVALID);
    assert_eq!(db.update(b"k", b"v").unwrap_err().code, STATUS_INVALID);
    assert_eq!(db.delete(b"k").unwrap_err().code, STATUS_INVALID);
    assert_eq!(db.lookup(b"k").unwrap_err().code, STATUS_INVALID);
}

#[test]
fn create_on_open_handle_fails_and_keeps_contents() {
    let mut db = open_db();
    db.insert(b"kept", &[4]).unwrap();
    let err = db.db_create("/tmp/another", &small_config()).unwrap_err();
    assert_eq!(err.code, STATUS_INVALID);
    assert_eq!(db.lookup(b"kept").unwrap(), LookupResult::Found(vec![4]));
}

#[test]
fn oversize_key_or_value_is_rejected() {
    let mut db = SplinterDB::<DefaultSdb>::new();
    db.db_create(
        "/tmp/tiny",
        &DBConfig {
            cache_size_bytes: 0,
            disk_size_bytes: 0,
            max_key_size: 2,
            max_value_size: 2,
        },
    )
    .unwrap();
    assert_eq!(db.insert(b"abc", b"v").unwrap_err().code, STATUS_INVALID);
    assert_eq!(db.insert(b"k", b"vvv").unwrap_err().code, STATUS_INVALID);
    assert_eq!(db.update(b"abc", b"v").unwrap_err().code, STATUS_INVALID);
    assert_eq!(db.delete(b"abc").unwrap_err().code, STATUS_INVALID);
    // within bounds everything works
    db.insert(b"ab", b"cd").unwrap();
    assert_eq!(db.lookup(b"ab").unwrap(), LookupResult::Found(b"cd".to_vec()));
}

#[test]
fn close_is_idempotent_and_disables_operations() {
    let mut db = open_db();
    db.insert(b"k", &[1]).unwrap();
    db.close();
    db.close();
    assert_eq!(db.insert(b"k", &[1]).unwrap_err().code, STATUS_INVALID);
    assert_eq!(db.lookup(b"k").unwrap_err().code, STATUS_INVALID);
}

#[test]
fn thread_registration_calls_are_accepted() {
    let db = open_db();
    db.register_thread();
    db.deregister_thread();
}

#[test]
fn status_translation_maps_zero_to_ok_and_codes_to_errors() {
    assert!(as_result(0).is_ok());
    assert_eq!(as_result(5).unwrap_err(), EngineStatusError { code: 5 });
    assert_eq!(as_result(-7).unwrap_err().code, -7);
}

#[test]
fn empty_key_and_empty_value_round_trip() {
    let mut db = open_db();
    db.insert(b"", b"").unwrap();
    assert_eq!(db.lookup(b"").unwrap(), LookupResult::Found(Vec::new()));
}
