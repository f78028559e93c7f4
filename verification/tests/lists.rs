use ttl_store::config::temporary_db;
use ttl_store::db::StorageDB;
use ttl_store::error::StorageError;
use ttl_store::keys::{encode_list_entry_key, Namespace};
use ttl_store::meta::Cursors;

fn fresh_db() -> StorageDB {
    temporary_db().unwrap()
}

fn put_raw(db: &mut StorageDB, key: &[u8], value: &[u8]) {
    match db {
        StorageDB::Sled(store) => store.put(key, value).unwrap(),
    }
}

fn get_raw(db: &StorageDB, key: &[u8]) -> Option<Vec<u8>> {
    match db {
        StorageDB::Sled(store) => store.get(key).unwrap(),
    }
}

fn remove_raw(db: &mut StorageDB, key: &[u8]) {
    match db {
        StorageDB::Sled(store) => {
            store.remove(key).unwrap();
        }
    }
}

fn num(i: i32) -> Vec<u8> {
    i.to_string().into_bytes()
}

fn nums(from: i32, to: i32) -> Vec<Vec<u8>> {
    (from..to).map(num).collect()
}

#[test]
fn test_insert_list() {
    let mut db = fresh_db();
    let array_a = db.list(b"array_a", None);
    let array_b = db.list(b"array_b", None);
    let array_c = db.list(b"array_c", None);

    array_a.clear(&mut db).unwrap();
    array_b.clear(&mut db).unwrap();
    array_c.clear(&mut db).unwrap();

    db.insert(b"key_001", &num(1)).unwrap();
    db.insert(b"key_002", &num(2)).unwrap();
    db.insert(b"key_003", &num(3)).unwrap();

    for i in 0..5 {
        array_a.push(&mut db, &num(i), 0).unwrap();
    }
    assert_eq!(array_a.len(&db, 0).unwrap(), 5);
    let vals = array_a.all(&db, 0).unwrap();
    assert_eq!(vals, nums(0, 5));

    let val_1 = array_a.get_index(&db, 1, 0).unwrap();
    assert_eq!(val_1, Some(num(1)));

    let val_0 = array_a.pop(&mut db, 0).unwrap();
    assert_eq!(val_0, Some(num(0)));
    assert_eq!(array_a.len(&db, 0).unwrap(), 4);

    let val_1 = array_a.pop(&mut db, 0).unwrap();
    assert_eq!(val_1, Some(num(1)));

    let vals = array_a.all(&db, 0).unwrap();
    assert_eq!(vals, nums(2, 5));

    for i in 0..20 {
        array_a.push_limit(&mut db, &num(i), 5, true, 0).unwrap();
    }
    assert_eq!(array_a.len(&db, 0).unwrap(), 5);
    let vals = array_a.all(&db, 0).unwrap();
    assert_eq!(vals, nums(15, 20));

    for i in 0..4 {
        array_b.push(&mut db, &num(i), 0).unwrap();
    }
    for i in 0..3 {
        array_c.push(&mut db, &num(i), 0).unwrap();
    }

    let mut seen = Vec::new();
    for val in array_c.iter(&db, 0).unwrap() {
        seen.push(val);
    }
    assert_eq!(seen, nums(0, 3));

    let mut seen = Vec::new();
    for val in array_c.iter(&db, 0).unwrap() {
        seen.push(val);
    }
    assert_eq!(seen, nums(0, 3));
    assert_eq!(array_b.all(&db, 0).unwrap(), nums(0, 4));
    assert_eq!(db.get(b"key_002", 0).unwrap(), Some(num(2)));
}

#[test]
fn test_list_iter() {
    let mut db = fresh_db();
    let array_a = db.list(b"array_a", None);
    let array_b = db.list(b"array_b", None);
    for i in 0..5 {
        array_a.push(&mut db, &num(i), 0).unwrap();
    }
    for i in 0..5 {
        array_b.push(&mut db, &num(i), 0).unwrap();
    }

    let lists = db.list_iter(0).unwrap();
    let mut names = Vec::new();
    for list in lists.iter() {
        names.push(list.name().to_vec());
        let mut vals = Vec::new();
        for item in list.iter(&db, 0).unwrap() {
            vals.push(item);
        }
        assert_eq!(vals, nums(0, 5));
    }
    assert_eq!(names, vec![b"array_a".to_vec(), b"array_b".to_vec()]);
}

#[test]
fn test_clear() {
    let mut db = fresh_db();
    let one = db.list(b"one", None);
    let two = db.list(b"two", Some(1000));
    one.pushs(&mut db, nums(0, 3), 0).unwrap();
    two.pushs(&mut db, nums(0, 3), 0).unwrap();
    for list in db.list_iter(0).unwrap() {
        list.clear(&mut db).unwrap();
    }
    assert_eq!(db.list_iter(0).unwrap().len(), 0);
    assert!(one.is_empty(&db, 0).unwrap());
    assert_eq!(two.all(&db, 0).unwrap(), Vec::<Vec<u8>>::new());
    assert!(!db.list_contains_key(b"one", 0).unwrap());
    assert_eq!(get_raw(&db, b"list@one"), None);
    assert_eq!(get_raw(&db, b"list_meta@one"), None);
    assert_eq!(get_raw(&db, &encode_list_entry_key(b"one", 0)), None);
}

#[test]
fn list_limit_scenario() {
    let mut db = fresh_db();
    let list = db.list(b"limited", None);
    for i in 0..20 {
        let back = list.push_limit(&mut db, &num(i), 5, true, 0).unwrap();
        if i < 5 {
            assert_eq!(back, None);
        } else {
            assert_eq!(back, Some(num(i - 5)));
        }
    }
    assert_eq!(list.len(&db, 0).unwrap(), 5);
    assert_eq!(list.all(&db, 0).unwrap(), nums(15, 20));
}

#[test]
fn push_limit_without_pop_hands_the_value_back() {
    let mut db = fresh_db();
    let list = db.list(b"l", None);
    assert_eq!(list.push_limit(&mut db, b"a", 2, false, 0).unwrap(), None);
    assert_eq!(list.push_limit(&mut db, b"b", 2, false, 0).unwrap(), None);
    assert_eq!(
        list.push_limit(&mut db, b"c", 2, false, 0).unwrap(),
        Some(b"c".to_vec())
    );
    assert_eq!(
        list.all(&db, 0).unwrap(),
        vec![b"a".to_vec(), b"b".to_vec()]
    );
    assert_eq!(
        list.push_limit(&mut db, b"c", 0, false, 0).unwrap(),
        Some(b"c".to_vec())
    );
}

#[test]
fn push_limit_of_zero_still_pushes() {
    let mut db = fresh_db();
    let list = db.list(b"l", None);
    assert_eq!(list.push_limit(&mut db, b"a", 0, true, 0).unwrap(), None);
    assert_eq!(list.all(&db, 0).unwrap(), vec![b"a".to_vec()]);
    assert_eq!(
        list.push_limit(&mut db, b"b", 0, true, 0).unwrap(),
        Some(b"a".to_vec())
    );
    assert_eq!(list.all(&db, 0).unwrap(), vec![b"b".to_vec()]);
}

#[test]
fn first_in_first_out() {
    let mut db = fresh_db();
    let list = db.list(b"fifo", None);
    let values = nums(0, 50);
    for v in values.iter() {
        list.push(&mut db, v, 0).unwrap();
    }
    for v in values.iter() {
        assert_eq!(list.pop(&mut db, 0).unwrap().as_ref(), Some(v));
    }
    assert_eq!(list.pop(&mut db, 0).unwrap(), None);
    assert_eq!(list.pop(&mut db, 0).unwrap(), None);
    assert_eq!(list.len(&db, 0).unwrap(), 0);
    // the cursors have moved on and do not move back
    assert_eq!(
        get_raw(&db, b"list_meta@fifo"),
        Some((Cursors { head: 50, tail: 50 }).encode())
    );
    list.push(&mut db, b"next", 0).unwrap();
    assert_eq!(get_raw(&db, &encode_list_entry_key(b"fifo", 50)), Some(b"next".to_vec()));
    assert_eq!(list.get_index(&db, 0, 0).unwrap(), Some(b"next".to_vec()));
}

#[test]
fn length_is_pushes_less_pops() {
    let mut db = fresh_db();
    let list = db.list(b"l", None);
    let mut pushes = 0;
    let mut pops = 0;
    for round in 0..30 {
        list.push(&mut db, &num(round), 0).unwrap();
        pushes += 1;
        if round % 2 == 0 {
            list.push(&mut db, &num(round), 0).unwrap();
            pushes += 1;
        }
        if round % 3 == 0 {
            assert!(list.pop(&mut db, 0).unwrap().is_some());
            pops += 1;
        }
        assert_eq!(list.len(&db, 0).unwrap(), pushes - pops);
        assert_eq!(list.all(&db, 0).unwrap().len(), pushes - pops);
        assert_eq!(list.is_empty(&db, 0).unwrap(), pushes == pops);
    }
}

#[test]
fn pushs_is_one_push_after_another() {
    let mut db = fresh_db();
    let batch = db.list(b"batch", None);
    let single = db.list(b"single", None);
    batch.pushs(&mut db, nums(0, 3), 0).unwrap();
    batch.pushs(&mut db, Vec::new(), 0).unwrap();
    batch.pushs(&mut db, nums(3, 7), 0).unwrap();
    for v in nums(0, 7) {
        single.push(&mut db, &v, 0).unwrap();
    }
    assert_eq!(batch.all(&db, 0).unwrap(), nums(0, 7));
    assert_eq!(single.all(&db, 0).unwrap(), nums(0, 7));
    assert_eq!(
        get_raw(&db, b"list_meta@batch"),
        get_raw(&db, b"list_meta@single")
    );
    // an empty batch makes no list
    let none = db.list(b"none", None);
    none.pushs(&mut db, Vec::new(), 0).unwrap();
    assert!(!db.list_contains_key(b"none", 0).unwrap());
}

#[test]
fn get_index_counts_from_the_head() {
    let mut db = fresh_db();
    let list = db.list(b"l", None);
    list.pushs(&mut db, nums(0, 4), 0).unwrap();
    list.pop(&mut db, 0).unwrap();
    assert_eq!(list.get_index(&db, 0, 0).unwrap(), Some(num(1)));
    assert_eq!(list.get_index(&db, 2, 0).unwrap(), Some(num(3)));
    assert_eq!(list.get_index(&db, 3, 0).unwrap(), None);
    assert_eq!(list.get_index(&db, usize::MAX, 0).unwrap(), None);
    let absent = db.list(b"absent", None);
    assert_eq!(absent.get_index(&db, 0, 0).unwrap(), None);
    assert_eq!(absent.len(&db, 0).unwrap(), 0);
    assert!(absent.is_empty(&db, 0).unwrap());
    assert_eq!(absent.pop(&mut db, 0).unwrap(), None);
    assert_eq!(get_raw(&db, b"list_meta@absent"), None);
}

#[test]
fn entries_are_stored_under_their_positions() {
    let mut db = fresh_db();
    let list = db.list(b"l", None);
    list.push(&mut db, b"a", 77).unwrap();
    list.push(&mut db, b"b", 78).unwrap();
    assert_eq!(
        encode_list_entry_key(b"l", 1),
        b"list_e@\x00\x00\x00\x00\x00\x00\x00\x01l@\x00\x00\x00\x00\x00\x00\x00\x01".to_vec()
    );
    assert_eq!(get_raw(&db, &encode_list_entry_key(b"l", 0)), Some(b"a".to_vec()));
    assert_eq!(get_raw(&db, &encode_list_entry_key(b"l", 1)), Some(b"b".to_vec()));
    assert_eq!(
        get_raw(&db, b"list_meta@l"),
        Some(vec![0, 0, 0, 0, 0, 0, 0, 0, 0, 0, 0, 0, 0, 0, 0, 2])
    );
    // the marker holds the time of the first write
    assert_eq!(get_raw(&db, b"list@l"), Some(77i64.to_be_bytes().to_vec()));
}

#[test]
fn list_expiry_is_lazy() {
    let mut db = fresh_db();
    let list = db.list(b"l", None);
    assert!(!list.expire(&mut db, 100, 0).unwrap());
    list.pushs(&mut db, nums(0, 3), 0).unwrap();
    assert_eq!(list.ttl(&db, 0).unwrap(), None);
    assert!(list.expire(&mut db, 100, 1_000).unwrap());
    assert_eq!(list.ttl(&db, 1_000).unwrap(), Some(100));
    assert_eq!(list.all(&db, 1_099).unwrap(), nums(0, 3));
    assert!(db.list_contains_key(b"l", 1_099).unwrap());
    assert_eq!(list.all(&db, 1_100).unwrap(), Vec::<Vec<u8>>::new());
    assert_eq!(list.len(&db, 1_100).unwrap(), 0);
    assert!(list.is_empty(&db, 1_100).unwrap());
    assert_eq!(list.get_index(&db, 0, 1_100).unwrap(), None);
    assert_eq!(list.ttl(&db, 1_100).unwrap(), None);
    assert!(!db.list_contains_key(b"l", 1_100).unwrap());
    assert_eq!(db.list_iter(1_100).unwrap().len(), 0);
    assert_eq!(db.list_iter(1_099).unwrap().len(), 1);
    // nothing has been deleted
    assert_eq!(get_raw(&db, &encode_list_entry_key(b"l", 0)), Some(num(0)));
    // a pop sees no list and leaves everything as it is
    assert_eq!(list.pop(&mut db, 1_100).unwrap(), None);
    assert_eq!(get_raw(&db, &encode_list_entry_key(b"l", 0)), Some(num(0)));
    // an expired marker is still there to be told a new time
    assert!(list.expire_at(&mut db, 5_000).unwrap());
    assert_eq!(list.all(&db, 1_100).unwrap(), nums(0, 3));
}

#[test]
fn a_push_to_an_expired_list_starts_anew() {
    let mut db = fresh_db();
    let list = db.list(b"l", None);
    list.pushs(&mut db, nums(0, 3), 0).unwrap();
    list.expire_at(&mut db, 100).unwrap();
    list.push(&mut db, b"new", 200).unwrap();
    assert_eq!(list.all(&db, 200).unwrap(), vec![b"new".to_vec()]);
    assert_eq!(list.ttl(&db, 200).unwrap(), None);
    assert_eq!(get_raw(&db, &encode_list_entry_key(b"l", 1)), None);
    assert_eq!(get_raw(&db, &encode_list_entry_key(b"l", 2)), None);
    assert_eq!(
        get_raw(&db, b"list_meta@l"),
        Some((Cursors { head: 0, tail: 1 }).encode())
    );
}

#[test]
fn a_list_opened_with_a_lifetime_expires_after_its_first_write() {
    let mut db = fresh_db();
    let list = db.list(b"l", Some(1_000));
    list.push(&mut db, b"a", 5_000).unwrap();
    list.push(&mut db, b"b", 5_500).unwrap();
    assert_eq!(list.ttl(&db, 5_500).unwrap(), Some(500));
    assert_eq!(list.len(&db, 5_999).unwrap(), 2);
    assert_eq!(list.len(&db, 6_000).unwrap(), 0);
    list.push(&mut db, b"c", 6_000).unwrap();
    assert_eq!(list.all(&db, 6_000).unwrap(), vec![b"c".to_vec()]);
    assert_eq!(list.ttl(&db, 6_000).unwrap(), Some(1_000));
}

#[test]
fn lists_do_not_see_each_other() {
    let mut db = fresh_db();
    let a = db.list(b"a", None);
    let b = db.list(b"b", None);
    let ab = db.list(b"ab", None);
    a.pushs(&mut db, nums(0, 3), 0).unwrap();
    b.pushs(&mut db, nums(10, 13), 0).unwrap();
    ab.pushs(&mut db, nums(20, 23), 0).unwrap();
    a.pop(&mut db, 0).unwrap();
    a.expire_at(&mut db, 50).unwrap();
    assert_eq!(b.all(&db, 100).unwrap(), nums(10, 13));
    assert_eq!(ab.all(&db, 100).unwrap(), nums(20, 23));
    a.clear(&mut db).unwrap();
    db.list_remove(b"b").unwrap();
    assert_eq!(b.all(&db, 100).unwrap(), Vec::<Vec<u8>>::new());
    assert_eq!(ab.all(&db, 100).unwrap(), nums(20, 23));
    assert_eq!(ab.len(&db, 100).unwrap(), 3);
}

#[test]
fn a_list_reads_past_keys_that_are_no_entries() {
    let mut db = fresh_db();
    let list = db.list(b"l", None);
    list.pushs(&mut db, nums(0, 400), 0).unwrap();
    // keys that lie between two entries of the list, but are none
    let mut longer = encode_list_entry_key(b"l", 320);
    longer.push(0);
    let mut shorter = encode_list_entry_key(b"l", 7);
    shorter.pop();
    put_raw(&mut db, &longer, b"stray");
    put_raw(&mut db, &shorter, b"stray");
    assert!(encode_list_entry_key(b"l", 320) < longer);
    assert!(longer < encode_list_entry_key(b"l", 321));
    assert_eq!(list.all(&db, 0).unwrap(), nums(0, 400));
    assert_eq!(list.len(&db, 0).unwrap(), 400);
    assert_eq!(list.get_index(&db, 321, 0).unwrap(), Some(num(321)));
}

#[test]
fn lists_with_a_separator_in_their_names_do_not_meet() {
    let mut db = fresh_db();
    let long = db.list(b"a@b", None);
    long.pushs(&mut db, nums(0, 3), 0).unwrap();
    assert!(long.expire_at(&mut db, 500).unwrap());
    // the first push to list `a` leaves list `a@b` as it is
    let short = db.list(b"a", None);
    short.push(&mut db, b"x", 0).unwrap();
    assert_eq!(long.all(&db, 0).unwrap(), nums(0, 3));
    assert_eq!(long.len(&db, 0).unwrap(), 3);
    assert_eq!(long.ttl(&db, 0).unwrap(), Some(500));
    assert_eq!(long.pop(&mut db, 0).unwrap(), Some(num(0)));
    assert_eq!(short.all(&db, 0).unwrap(), vec![b"x".to_vec()]);
    // nor does a clear, a removal or an expiry of the one touch the other
    short.clear(&mut db).unwrap();
    db.list_remove(b"a").unwrap();
    assert_eq!(long.all(&db, 0).unwrap(), nums(1, 3));
    let other = db.list(b"a@", Some(1));
    other.push(&mut db, b"y", 0).unwrap();
    assert_eq!(db.cleanup(10, 5).unwrap(), 1);
    assert_eq!(long.all(&db, 5).unwrap(), nums(1, 3));
    long.clear(&mut db).unwrap();
    short.push(&mut db, b"z", 0).unwrap();
    assert_eq!(short.all(&db, 0).unwrap(), vec![b"z".to_vec()]);
}

#[test]
fn malformed_cursors_are_corrupt() {
    let mut db = fresh_db();
    let list = db.list(b"l", None);
    list.pushs(&mut db, nums(0, 3), 0).unwrap();
    // head behind tail
    put_raw(
        &mut db,
        b"list_meta@l",
        &[0, 0, 0, 0, 0, 0, 0, 9, 0, 0, 0, 0, 0, 0, 0, 3],
    );
    assert!(matches!(list.len(&db, 0), Err(StorageError::Corruption)));
    assert!(matches!(list.all(&db, 0), Err(StorageError::Corruption)));
    assert!(matches!(list.iter(&db, 0), Err(StorageError::Corruption)));
    assert!(matches!(list.is_empty(&db, 0), Err(StorageError::Corruption)));
    assert!(matches!(
        list.get_index(&db, 0, 0),
        Err(StorageError::Corruption)
    ));
    assert!(matches!(list.pop(&mut db, 0), Err(StorageError::Corruption)));
    assert!(matches!(
        list.push(&mut db, b"x", 0),
        Err(StorageError::Corruption)
    ));
    assert!(matches!(
        list.pushs(&mut db, nums(0, 1), 0),
        Err(StorageError::Corruption)
    ));
    assert!(matches!(
        list.push_limit(&mut db, b"x", 5, true, 0),
        Err(StorageError::Corruption)
    ));
    // wrong length
    put_raw(&mut db, b"list_meta@l", b"short");
    assert!(matches!(list.len(&db, 0), Err(StorageError::Corruption)));
    // nothing was repaired on the way
    assert_eq!(get_raw(&db, b"list_meta@l"), Some(b"short".to_vec()));
    // a clear drops the list, malformed or not
    list.clear(&mut db).unwrap();
    assert_eq!(list.len(&db, 0).unwrap(), 0);
    list.push(&mut db, b"x", 0).unwrap();
    assert_eq!(list.all(&db, 0).unwrap(), vec![b"x".to_vec()]);
}

#[test]
fn a_malformed_marker_is_corrupt() {
    let mut db = fresh_db();
    let list = db.list(b"l", None);
    list.push(&mut db, b"x", 0).unwrap();
    put_raw(&mut db, b"list@l", b"???");
    assert!(matches!(list.len(&db, 0), Err(StorageError::Corruption)));
    assert!(matches!(list.ttl(&db, 0), Err(StorageError::Corruption)));
    assert!(matches!(
        list.expire(&mut db, 10, 0),
        Err(StorageError::Corruption)
    ));
    assert!(matches!(
        list.expire_at(&mut db, 10),
        Err(StorageError::Corruption)
    ));
    assert!(matches!(
        db.list_contains_key(b"l", 0),
        Err(StorageError::Corruption)
    ));
    // listing leaves malformed markers out
    assert_eq!(db.list_iter(0).unwrap().len(), 0);
}

#[test]
fn a_missing_entry_is_corrupt() {
    let mut db = fresh_db();
    let list = db.list(b"l", None);
    list.pushs(&mut db, nums(0, 3), 0).unwrap();
    remove_raw(&mut db, &encode_list_entry_key(b"l", 1));
    assert_eq!(list.len(&db, 0).unwrap(), 3);
    assert_eq!(list.get_index(&db, 0, 0).unwrap(), Some(num(0)));
    assert!(matches!(
        list.get_index(&db, 1, 0),
        Err(StorageError::Corruption)
    ));
    assert!(matches!(list.all(&db, 0), Err(StorageError::Corruption)));
    assert_eq!(list.pop(&mut db, 0).unwrap(), Some(num(0)));
    assert!(matches!(list.pop(&mut db, 0), Err(StorageError::Corruption)));
    assert!(matches!(
        list.push_limit(&mut db, b"x", 2, true, 0),
        Err(StorageError::Corruption)
    ));
    assert_eq!(list.len(&db, 0).unwrap(), 2);
}

#[test]
fn a_tail_at_the_end_of_the_range_takes_no_more() {
    let mut db = fresh_db();
    let list = db.list(b"l", None);
    list.push(&mut db, b"x", 0).unwrap();
    let at = Cursors {
        head: u64::MAX - 1,
        tail: u64::MAX - 1,
    };
    put_raw(&mut db, b"list_meta@l", &at.encode());
    list.push(&mut db, b"last", 0).unwrap();
    assert_eq!(list.all(&db, 0).unwrap(), vec![b"last".to_vec()]);
    assert!(matches!(
        list.push(&mut db, b"more", 0),
        Err(StorageError::ListFull)
    ));
    assert!(matches!(
        list.pushs(&mut db, nums(0, 1), 0),
        Err(StorageError::ListFull)
    ));
    assert!(matches!(
        list.push_limit(&mut db, b"more", 1, true, 0),
        Err(StorageError::ListFull)
    ));
    assert_eq!(list.all(&db, 0).unwrap(), vec![b"last".to_vec()]);
    assert_eq!(list.name(), b"l");
    assert_eq!(Namespace::ListMarker.encode_key(list.name()), b"list@l".to_vec());
}
