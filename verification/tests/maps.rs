use ttl_store::config::temporary_db;
use ttl_store::db::StorageDB;
use ttl_store::error::StorageError;
use ttl_store::keys::encode_map_entry_key;
use ttl_store::meta::Meta;

fn fresh_db() -> StorageDB {
    temporary_db().unwrap()
}

fn put_raw(db: &mut StorageDB, key: &[u8], value: &[u8]) {
    match db {
        StorageDB::Sled(store) => store.put(key, value).unwrap(),
    }
}

fn get_raw(db: &StorageDB, key: &[u8]) -> Option<Vec<u8>> {
    match db {
        StorageDB::Sled(store) => store.get(key).unwrap(),
    }
}

fn num(i: i32) -> Vec<u8> {
    i.to_string().into_bytes()
}

fn pair(key: &str, i: i32) -> (Vec<u8>, Vec<u8>) {
    (key.as_bytes().to_vec(), num(i))
}

#[test]
fn test_map_insert() {
    let mut db = fresh_db();

    let map001 = db.map(b"001", None);
    map001.clear(&mut db).unwrap();

    map001.insert(&mut db, b"key_1", &num(1), 0).unwrap();
    map001.insert(&mut db, b"key_2", &num(2), 0).unwrap();
    assert_eq!(map001.len(&db, 0).unwrap(), 2);

    let val = map001.get(&db, b"key_1", 0).unwrap();
    assert_eq!(val, Some(num(1)));

    map001.remove(&mut db, b"key_1", 0).unwrap();
    let val = map001.get(&db, b"key_1", 0).unwrap();
    assert_eq!(val, None);

    assert_eq!(map001.len(&db, 0).unwrap(), 1);
}

#[test]
fn test_map_contains_key() {
    let mut db = fresh_db();

    let map001 = db.map(b"m001", None);
    map001.clear(&mut db).unwrap();

    assert_eq!(map001.len(&db, 0).unwrap(), 0);

    map001.insert(&mut db, b"k001", b"val_001", 0).unwrap();
    assert!(map001.contains_key(&db, b"k001", 0).unwrap());

    map001.remove(&mut db, b"k001", 0).unwrap();
    assert!(!map001.contains_key(&db, b"k001", 0).unwrap());
}

#[test]
fn test_map_expire() {
    let mut db = fresh_db();
    let start: i64 = 50_000;

    let map1 = db.map(b"map1", Some(1000));
    assert_eq!(map1.ttl(&db, start).unwrap(), None);

    map1.insert(&mut db, b"k1", &num(1), start).unwrap();
    map1.insert(&mut db, b"k2", &num(2), start).unwrap();

    assert_eq!(map1.ttl(&db, start).unwrap(), Some(1000));
    assert!(!map1.is_empty(&db, start).unwrap());
    assert_eq!(map1.len(&db, start).unwrap(), 2);

    let later = start + 1200;
    assert_eq!(map1.ttl(&db, later).unwrap(), None);
    assert_eq!(map1.len(&db, later).unwrap(), 0);
    assert!(map1.is_empty(&db, later).unwrap());
}

#[test]
fn test_map_expire2() {
    let mut db = fresh_db();
    let start: i64 = 1_000_000;
    let mut now = start;
    for x in 0..5 {
        for i in 0..100 {
            now += 1;
            let map = db.map(format!("map_{}_{}", x, i).as_bytes(), Some(1000 * 60));
            map.insert(&mut db, format!("k1_{}", i).as_bytes(), &num(i), now)
                .unwrap();
            map.insert(&mut db, format!("k2_{}", i).as_bytes(), &num(i), now)
                .unwrap();
            map.insert(&mut db, format!("k3_{}", i).as_bytes(), &num(i), now)
                .unwrap();
        }
    }
    let limit = 10;
    let mut c = 0;
    for map in db.map_iter(now).unwrap() {
        assert!(!map.is_empty(&db, now).unwrap());
        assert_eq!(map.len(&db, now).unwrap(), 3);
        c += 1;
        if c > limit {
            break;
        }
    }
    assert_eq!(c, 11);
    assert_eq!(db.map_iter(now).unwrap().len(), 500);
    // a minute after the first map was made, it is gone and the others are not
    assert_eq!(db.map_iter(start + 1 + 1000 * 60).unwrap().len(), 499);
    assert_eq!(db.map_iter(now + 1000 * 60).unwrap().len(), 0);
}

#[test]
fn test_map_iter() {
    let mut db = fresh_db();
    for map in db.map_iter(0).unwrap() {
        map.clear(&mut db).unwrap();
    }

    let map1 = db.map(b"map-1", None);
    for i in 0..10 {
        map1.insert(&mut db, format!("map-val-{}", i).as_bytes(), &num(i), 0)
            .unwrap();
    }
    let map_val_5 = map1.get(&db, b"map-val-5", 0).unwrap();
    assert_eq!(map_val_5, Some(num(5)));

    let mut count = 0;
    for (key, val) in map1.iter(&db, 0).unwrap() {
        assert_eq!(key, format!("map-val-{}", count).into_bytes());
        assert_eq!(val, num(count));
        count += 1;
    }
    assert_eq!(count, 10);
}

#[test]
fn test_map_iter_all() {
    let mut db = fresh_db();
    for map in db.map_iter(0).unwrap() {
        map.clear(&mut db).unwrap();
    }

    let max = 10;
    for i in 0..max {
        let map1 = db.map(format!("map-{}", i).as_bytes(), None);
        for k in 0..3 {
            map1.insert(&mut db, format!("map-{}-{}", i, k).as_bytes(), &num(k), 0)
                .unwrap();
        }
    }

    let maps = db.map_iter(0).unwrap();
    assert_eq!(maps.len(), 10);
    for (i, map) in maps.iter().enumerate() {
        assert_eq!(map.name(), format!("map-{}", i).as_bytes());
        let items = map.iter(&db, 0).unwrap();
        assert_eq!(items.len(), 3);
        for (k, (key, val)) in items.iter().enumerate() {
            assert_eq!(key, &format!("map-{}-{}", i, k).into_bytes());
            assert_eq!(val, &num(k as i32));
        }
    }
}

#[test]
fn test_iter() {
    let mut db = fresh_db();
    let skv = db.map(b"iter_kv002", None);
    skv.clear(&mut db).unwrap();

    for i in 0..10 {
        skv.insert(&mut db, format!("key_{}", i).as_bytes(), &num(i), 0)
            .unwrap();
    }

    let mut vals = Vec::new();
    for item in skv.iter(&db, 0).unwrap() {
        vals.push(item)
    }

    assert_eq!(
        vals,
        vec![
            pair("key_0", 0),
            pair("key_1", 1),
            pair("key_2", 2),
            pair("key_3", 3),
            pair("key_4", 4),
            pair("key_5", 5),
            pair("key_6", 6),
            pair("key_7", 7),
            pair("key_8", 8),
            pair("key_9", 9),
        ]
    );

    let mut keys = Vec::new();
    for item in skv.key_iter(&db, 0).unwrap() {
        keys.push(String::from_utf8(item).unwrap())
    }

    assert_eq!(
        keys,
        vec![
            "key_0", "key_1", "key_2", "key_3", "key_4", "key_5", "key_6", "key_7", "key_8",
            "key_9"
        ]
    );

    for i in 0..5 {
        skv.insert(&mut db, format!("key2_{}", i).as_bytes(), &num(i), 0)
            .unwrap();
    }

    let mut vals = Vec::new();
    for item in skv.prefix_iter(&db, b"key2_", 0).unwrap() {
        vals.push(item)
    }

    assert_eq!(
        vals,
        vec![
            pair("key2_0", 0),
            pair("key2_1", 1),
            pair("key2_2", 2),
            pair("key2_3", 3),
            pair("key2_4", 4)
        ]
    );
}

#[test]
fn test_batch() {
    let mut db = fresh_db();

    let skv = db.map(b"batch_kv001", None);

    let mut kvs = Vec::new();
    for i in 0..100 {
        kvs.push((format!("key_{}", i).as_bytes().to_vec(), num(i)));
    }
    skv.batch_insert(&mut db, kvs.clone(), 0).unwrap();
    assert_eq!(skv.len(&db, 0).unwrap(), 100);

    let mut ks = Vec::new();
    for i in 0..50 {
        ks.push(format!("key_{}", i).as_bytes().to_vec());
    }
    skv.batch_remove(&mut db, ks, 0).unwrap();
    assert_eq!(skv.len(&db, 0).unwrap(), 50);
    assert_eq!(skv.get(&db, b"key_49", 0).unwrap(), None);
    assert_eq!(skv.get(&db, b"key_50", 0).unwrap(), Some(num(50)));
}

#[test]
fn map_entry_round_trip() {
    let mut db = fresh_db();
    let map = db.map(b"m", None);
    map.insert(&mut db, b"k", b"v1", 0).unwrap();
    assert_eq!(map.get(&db, b"k", 0).unwrap(), Some(b"v1".to_vec()));
    map.insert(&mut db, b"k", b"v2", 0).unwrap();
    assert_eq!(map.get(&db, b"k", i64::MAX).unwrap(), Some(b"v2".to_vec()));
    assert_eq!(map.len(&db, 0).unwrap(), 1);
    map.insert(&mut db, b"", b"empty key", 0).unwrap();
    assert_eq!(map.get(&db, b"", 0).unwrap(), Some(b"empty key".to_vec()));
    assert_eq!(
        encode_map_entry_key(b"m", b"k"),
        b"map_e@\x00\x00\x00\x00\x00\x00\x00\x01m@k".to_vec()
    );
    assert_eq!(get_raw(&db, &encode_map_entry_key(b"m", b"k")), Some(b"v2".to_vec()));
    assert_eq!(
        get_raw(&db, b"map@m"),
        Some(
            (Meta {
                created: 0,
                expiry: None
            })
            .encode()
        )
    );
}

#[test]
fn remove_and_fetch_hands_back_what_was_there() {
    let mut db = fresh_db();
    let map = db.map(b"m", None);
    assert_eq!(map.remove_and_fetch(&mut db, b"k", 0).unwrap(), None);
    map.insert(&mut db, b"k", b"v", 0).unwrap();
    assert_eq!(
        map.remove_and_fetch(&mut db, b"k", 0).unwrap(),
        Some(b"v".to_vec())
    );
    assert_eq!(map.remove_and_fetch(&mut db, b"k", 0).unwrap(), None);
    assert_eq!(map.get(&db, b"k", 0).unwrap(), None);
    // the map is still there, without entries
    assert!(db.map_contains_key(b"m", 0).unwrap());
    assert!(map.is_empty(&db, 0).unwrap());
}

#[test]
fn remove_with_prefix_removes_what_lies_under_it() {
    let mut db = fresh_db();
    let map = db.map(b"m", None);
    map.batch_insert(
        &mut db,
        vec![
            pair("a/1", 1),
            pair("a/2", 2),
            pair("ab", 3),
            pair("b/1", 4),
            pair("a", 5),
        ],
        0,
    )
    .unwrap();
    map.remove_with_prefix(&mut db, b"a/", 0).unwrap();
    assert_eq!(
        map.key_iter(&db, 0).unwrap(),
        vec![b"a".to_vec(), b"ab".to_vec(), b"b/1".to_vec()]
    );
    map.remove_with_prefix(&mut db, b"a", 0).unwrap();
    assert_eq!(map.key_iter(&db, 0).unwrap(), vec![b"b/1".to_vec()]);
    map.remove_with_prefix(&mut db, b"", 0).unwrap();
    assert!(map.is_empty(&db, 0).unwrap());
    assert!(db.map_contains_key(b"m", 0).unwrap());
}

#[test]
fn prefix_iter_yields_the_entries_under_the_prefix() {
    let mut db = fresh_db();
    let map = db.map(b"M", None);
    for i in 0..10 {
        map.insert(&mut db, format!("key_{}", i).as_bytes(), &num(i), 0)
            .unwrap();
    }
    for i in 0..5 {
        map.insert(&mut db, format!("key2_{}", i).as_bytes(), &num(i), 0)
            .unwrap();
    }
    assert_eq!(
        map.prefix_iter(&db, b"key2_", 0).unwrap(),
        vec![
            pair("key2_0", 0),
            pair("key2_1", 1),
            pair("key2_2", 2),
            pair("key2_3", 3),
            pair("key2_4", 4)
        ]
    );
    assert_eq!(map.prefix_iter(&db, b"key", 0).unwrap().len(), 15);
    assert_eq!(map.prefix_iter(&db, b"nothing", 0).unwrap().len(), 0);
    assert_eq!(map.iter(&db, 0).unwrap().len(), 15);
}

#[test]
fn a_write_to_an_expired_map_starts_anew() {
    let mut db = fresh_db();
    let map = db.map(b"m", None);
    map.batch_insert(&mut db, vec![pair("a", 1), pair("b", 2)], 0)
        .unwrap();
    assert!(map.expire_at(&mut db, 100).unwrap());
    assert_eq!(map.get(&db, b"a", 99).unwrap(), Some(num(1)));
    assert_eq!(map.get(&db, b"a", 100).unwrap(), None);
    // lazy: still stored
    assert_eq!(get_raw(&db, &encode_map_entry_key(b"m", b"a")), Some(num(1)));
    // removals leave an expired map alone
    map.remove(&mut db, b"a", 100).unwrap();
    map.batch_remove(&mut db, vec![b"a".to_vec()], 100).unwrap();
    map.remove_with_prefix(&mut db, b"", 100).unwrap();
    assert_eq!(get_raw(&db, &encode_map_entry_key(b"m", b"a")), Some(num(1)));
    // a write makes the map anew, without what was left behind
    map.insert(&mut db, b"c", &num(3), 100).unwrap();
    assert_eq!(map.iter(&db, 100).unwrap(), vec![pair("c", 3)]);
    assert_eq!(map.ttl(&db, 100).unwrap(), None);
    assert_eq!(get_raw(&db, &encode_map_entry_key(b"m", b"a")), None);
    assert_eq!(get_raw(&db, &encode_map_entry_key(b"m", b"b")), None);
}

#[test]
fn map_expiry_reports_whether_the_map_was_there() {
    let mut db = fresh_db();
    let map = db.map(b"m", None);
    assert!(!map.expire(&mut db, 10, 0).unwrap());
    assert!(!map.expire_at(&mut db, 10).unwrap());
    assert_eq!(get_raw(&db, b"map@m"), None);
    map.insert(&mut db, b"k", b"v", 0).unwrap();
    assert!(map.expire(&mut db, 10, 0).unwrap());
    assert_eq!(map.ttl(&db, 4).unwrap(), Some(6));
    // expired already, and still reported as there
    assert!(map.expire(&mut db, 10, 1_000).unwrap());
    assert_eq!(map.get(&db, b"k", 1_005).unwrap(), Some(b"v".to_vec()));
}

#[test]
fn maps_do_not_see_each_other() {
    let mut db = fresh_db();
    let a = db.map(b"a", None);
    let b = db.map(b"b", None);
    let ab = db.map(b"ab", None);
    a.insert(&mut db, b"k", b"in a", 0).unwrap();
    b.insert(&mut db, b"k", b"in b", 0).unwrap();
    ab.insert(&mut db, b"k", b"in ab", 0).unwrap();
    a.insert(&mut db, b"b", b"sub-key b of a", 0).unwrap();
    a.expire_at(&mut db, 10).unwrap();
    assert_eq!(b.get(&db, b"k", 20).unwrap(), Some(b"in b".to_vec()));
    assert_eq!(b.ttl(&db, 0).unwrap(), None);
    a.remove_with_prefix(&mut db, b"", 0).unwrap();
    a.clear(&mut db).unwrap();
    assert_eq!(b.iter(&db, 20).unwrap(), vec![(b"k".to_vec(), b"in b".to_vec())]);
    assert_eq!(ab.iter(&db, 20).unwrap(), vec![(b"k".to_vec(), b"in ab".to_vec())]);
    db.map_remove(b"b").unwrap();
    assert!(!db.map_contains_key(b"b", 20).unwrap());
    assert_eq!(ab.get(&db, b"k", 20).unwrap(), Some(b"in ab".to_vec()));
    assert_eq!(db.map_iter(20).unwrap().len(), 1);
}

#[test]
fn maps_with_a_separator_in_their_names_do_not_meet() {
    let mut db = fresh_db();
    let odd = db.map(b"a@b", None);
    odd.insert(&mut db, b"k", b"v", 0).unwrap();
    assert!(odd.expire_at(&mut db, 500).unwrap());
    // the first insert into map `a` leaves map `a@b` as it is
    let plain = db.map(b"a", None);
    plain.insert(&mut db, b"x", b"y", 0).unwrap();
    assert_eq!(odd.iter(&db, 0).unwrap(), vec![(b"k".to_vec(), b"v".to_vec())]);
    assert_eq!(odd.ttl(&db, 0).unwrap(), Some(500));
    // entry `k` of map `a@b` does not lie where entry `b@k` of map `a` lies
    assert_ne!(
        encode_map_entry_key(b"a@b", b"k"),
        encode_map_entry_key(b"a", b"b@k")
    );
    assert_eq!(plain.get(&db, b"b@k", 0).unwrap(), None);
    plain.insert(&mut db, b"b@k", b"w", 0).unwrap();
    assert_eq!(odd.get(&db, b"k", 0).unwrap(), Some(b"v".to_vec()));
    // nor does a removal by prefix, a clear or a sweep of the one touch the other
    plain.remove_with_prefix(&mut db, b"", 0).unwrap();
    plain.clear(&mut db).unwrap();
    db.map_remove(b"a").unwrap();
    let other = db.map(b"a@", Some(1));
    other.insert(&mut db, b"b@k", b"u", 0).unwrap();
    assert_eq!(db.cleanup(10, 5).unwrap(), 1);
    assert_eq!(odd.iter(&db, 5).unwrap(), vec![(b"k".to_vec(), b"v".to_vec())]);
    assert_eq!(odd.len(&db, 5).unwrap(), 1);
}

#[test]
fn a_malformed_map_marker_is_corrupt() {
    let mut db = fresh_db();
    let map = db.map(b"m", None);
    map.insert(&mut db, b"k", b"v", 0).unwrap();
    put_raw(&mut db, b"map@m", b"12345");
    assert!(matches!(map.get(&db, b"k", 0), Err(StorageError::Corruption)));
    assert!(matches!(
        map.contains_key(&db, b"k", 0),
        Err(StorageError::Corruption)
    ));
    assert!(matches!(map.len(&db, 0), Err(StorageError::Corruption)));
    assert!(matches!(map.is_empty(&db, 0), Err(StorageError::Corruption)));
    assert!(matches!(map.iter(&db, 0), Err(StorageError::Corruption)));
    assert!(matches!(map.key_iter(&db, 0), Err(StorageError::Corruption)));
    assert!(matches!(
        map.prefix_iter(&db, b"k", 0),
        Err(StorageError::Corruption)
    ));
    assert!(matches!(map.ttl(&db, 0), Err(StorageError::Corruption)));
    assert!(matches!(
        map.insert(&mut db, b"k", b"w", 0),
        Err(StorageError::Corruption)
    ));
    assert!(matches!(
        map.remove(&mut db, b"k", 0),
        Err(StorageError::Corruption)
    ));
    assert!(matches!(
        map.remove_and_fetch(&mut db, b"k", 0),
        Err(StorageError::Corruption)
    ));
    assert!(matches!(
        map.batch_insert(&mut db, vec![pair("a", 1)], 0),
        Err(StorageError::Corruption)
    ));
    assert!(matches!(
        map.batch_remove(&mut db, vec![b"a".to_vec()], 0),
        Err(StorageError::Corruption)
    ));
    assert!(matches!(
        map.remove_with_prefix(&mut db, b"", 0),
        Err(StorageError::Corruption)
    ));
    assert!(matches!(
        map.expire(&mut db, 5, 0),
        Err(StorageError::Corruption)
    ));
    assert!(matches!(
        db.map_contains_key(b"m", 0),
        Err(StorageError::Corruption)
    ));
    assert_eq!(get_raw(&db, &encode_map_entry_key(b"m", b"k")), Some(b"v".to_vec()));
    // an empty batch touches nothing, and a clear drops the map
    map.batch_insert(&mut db, Vec::new(), 0).unwrap();
    map.clear(&mut db).unwrap();
    assert_eq!(map.get(&db, b"k", 0).unwrap(), None);
    assert_eq!(get_raw(&db, &encode_map_entry_key(b"m", b"k")), None);
}
