use ttl_store::config::{init_db, temporary_db, Config, Mode};
use ttl_store::db::StorageDB;
use ttl_store::error::StorageError;
use ttl_store::keys::Namespace;

fn fresh_db() -> StorageDB {
    temporary_db().unwrap()
}

fn put_raw(db: &mut StorageDB, key: &[u8], value: &[u8]) {
    match db {
        StorageDB::Sled(store) => store.put(key, value).unwrap(),
    }
}

fn get_raw(db: &StorageDB, key: &[u8]) -> Option<Vec<u8>> {
    match db {
        StorageDB::Sled(store) => store.get(key).unwrap(),
    }
}

fn num(i: usize) -> Vec<u8> {
    i.to_string().into_bytes()
}

fn format_topic(t: &str) -> String {
    if t.len() == 1 {
        if t == "#" || t == "+" {
            return "*".to_string();
        }
    }
    let t = t.replace("*", "\\*").replace("?", "\\?").replace("+", "*");
    if t.len() > 1 && t.ends_with("/#") {
        [&t[0..(t.len() - 2)], "*"].concat()
    } else {
        t
    }
}

#[test]
fn test_db_batch() {
    let mut db = fresh_db();

    let mut key_vals = Vec::new();
    for i in 0..100 {
        key_vals.push((format!("key_{}", i).as_bytes().to_vec(), num(i)));
    }

    db.batch_insert(key_vals).unwrap();

    assert_eq!(db.get(b"key_99", 0).unwrap(), Some(num(99)));
    assert_eq!(db.get(b"key_100", 0).unwrap(), None);

    let mut keys = Vec::new();
    for i in 0..50 {
        keys.push(format!("key_{}", i).as_bytes().to_vec());
    }
    db.batch_remove(keys).unwrap();

    assert_eq!(db.get(b"key_0", 0).unwrap(), None);
    assert_eq!(db.get(b"key_49", 0).unwrap(), None);
    assert_eq!(db.get(b"key_50", 0).unwrap(), Some(num(50)));

    let mut keys = Vec::new();
    for i in 50..100 {
        keys.push(format!("key_{}", i).as_bytes().to_vec());
    }
    db.batch_remove(keys).unwrap();
    assert_eq!(db.len(0).unwrap(), 0);
}

#[test]
fn test_session_iter() {
    let db = fresh_db();
    let maps = db.map_iter(0).unwrap();
    let mut count = 0;
    for m in maps.iter() {
        let _m = m.name();
        count += 1;
    }
    println!("count: {}", count);
    assert_eq!(count, 0);
}

#[test]
fn test_db_size() {
    let mut db = fresh_db();
    for item in db.scan(b"*", 0).unwrap() {
        db.remove(&item).unwrap();
    }
    println!("test_db_size db_size: {:?}", db.db_size());
    db.insert(b"k1", &num(1)).unwrap();
    db.insert(b"k2", &num(2)).unwrap();
    db.insert(b"k3", &num(3)).unwrap();
    println!("test_db_size db_size: {:?}", db.db_size());
    let m = db.map(b"map1", None);
    m.insert(&mut db, b"mk1", &num(1), 0).unwrap();
    m.insert(&mut db, b"mk2", &num(2), 0).unwrap();
    println!("test_db_size db_size: {:?}", db.db_size());

    db.batch_insert(vec![
        (Vec::from("batch/len/1"), num(11)),
        (Vec::from("batch/len/2"), num(22)),
        (Vec::from("batch/len/3"), num(33)),
    ])
    .unwrap();
    println!("test_db_size db_size: {:?}", db.db_size());
    assert!(db.db_size().is_ok());
    assert_eq!(db.len(0).unwrap(), 6);
}

#[test]
fn test_kv_insert() {
    let mut db = fresh_db();
    let db_key_1 = b"key_1";
    let db_key_2 = b"key_2";
    let db_val_1 = String::from("val_001");
    let db_val_2 = String::from("val_002");
    db.insert(db_key_1, db_val_1.as_bytes()).unwrap();
    db.insert(db_key_2, db_val_2.as_bytes()).unwrap();
    assert!(db.contains_key(db_key_1, 0).unwrap());

    let val = db.get(db_key_1, 0).unwrap();
    let val2 = db.get(db_key_2, 0).unwrap();
    assert_eq!(val, Some(b"val_001".to_vec()));
    assert_eq!(val2, Some(b"val_002".to_vec()));

    db.remove(db_key_1).unwrap();
    let val = db.get(db_key_1, 0).unwrap();
    assert_eq!(val, None);
    assert!(!db.contains_key(db_key_1, 0).unwrap());

    let k2 = db.contains_key(db_key_2, 0).unwrap();
    assert!(k2);

    let val2 = db.get(db_key_2, 0).unwrap();
    let k2 = db.contains_key(db_key_2, 0).unwrap();
    assert_eq!(val2, Some(b"val_002".to_vec()));
    assert!(k2);
}

#[test]
fn test_expiration_cleaning() {
    let mut db = fresh_db();
    let start: i64 = 1_000_000;
    for i in 0..3usize {
        let key = format!("k_{}", i);
        db.insert(key.as_bytes(), format!("v_{}", i * 10).as_bytes())
            .unwrap();
        assert!(db.expire(key.as_bytes(), 1500, start).unwrap());
    }
    assert_eq!(db.len(start).unwrap(), 3);

    let map_db = db.map(b"m_1", None);
    map_db.insert(&mut db, b"m_k_1", &num(1), start).unwrap();
    map_db.insert(&mut db, b"m_k_2", &num(2), start).unwrap();
    assert!(map_db.expire(&mut db, 1500, start).unwrap());

    let list_db = db.list(b"l_1", None);
    list_db.clear(&mut db).unwrap();
    list_db.push(&mut db, &num(11), start).unwrap();
    list_db.push(&mut db, &num(22), start).unwrap();
    assert!(list_db.expire(&mut db, 1500, start).unwrap());

    let size_before = db.db_size().unwrap();
    assert_eq!(db.len(start).unwrap(), 3);

    let later = start + 1700;

    let k_0_val = db.get(b"k_0", later).unwrap();
    assert_eq!(k_0_val, None);

    let m_k_2 = map_db.get(&db, b"m_k_2", later).unwrap();
    assert_eq!(m_k_2, None);

    let l_all = list_db.all(&db, later).unwrap();
    assert_eq!(l_all, Vec::<Vec<u8>>::new());

    assert_eq!(db.len(later).unwrap(), 0);
    println!("db size: {} then {}", size_before, db.db_size().unwrap());

    // nothing has been deleted yet: the records are still stored
    assert!(get_raw(&db, &Namespace::Kv.encode_key(b"k_0")).is_some());
    assert!(get_raw(&db, &Namespace::MapMarker.encode_key(b"m_1")).is_some());
    assert!(get_raw(&db, &Namespace::ListMarker.encode_key(b"l_1")).is_some());

    // the sweep deletes the two collections and the three flat keys
    assert_eq!(db.cleanup(200, later + 25_000).unwrap(), 5);
    assert!(get_raw(&db, &Namespace::MapMarker.encode_key(b"m_1")).is_none());
    assert!(get_raw(&db, &Namespace::ListMarker.encode_key(b"l_1")).is_none());
    assert!(get_raw(&db, &Namespace::Kv.encode_key(b"k_0")).is_none());
    assert!(get_raw(&db, &Namespace::KvTtl.encode_key(b"k_0")).is_none());
    assert_eq!(db.cleanup(200, later + 25_000).unwrap(), 0);
}

#[test]
fn test_stress() {
    let mut db = fresh_db();
    for i in 0..10_000usize {
        db.insert(&i.to_be_bytes(), &num(i)).unwrap();
    }
    let k_9999_val = db.get(&9999usize.to_be_bytes(), 0).unwrap();
    assert_eq!(k_9999_val, Some(num(9999)));

    let s_m_1 = db.map(b"s_m_1", None);
    s_m_1.clear(&mut db).unwrap();
    for i in 0..10_000usize {
        s_m_1.insert(&mut db, &i.to_be_bytes(), &num(i), 0).unwrap();
    }
    assert_eq!(s_m_1.len(&db, 0).unwrap(), 10_000);
    let k_9999_val = s_m_1.get(&db, &9999usize.to_be_bytes(), 0).unwrap();
    assert_eq!(k_9999_val, Some(num(9999)));

    let s_l_1 = db.list(b"s_l_1", None);
    s_l_1.clear(&mut db).unwrap();
    for i in 0..10_000usize {
        s_l_1.push(&mut db, &num(i), 0).unwrap();
    }
    assert_eq!(s_l_1.len(&db, 0).unwrap(), 10_000);
    let l_9999_val = s_l_1.get_index(&db, 9999, 0).unwrap();
    assert_eq!(l_9999_val, Some(num(9999)));

    for i in 0..10_000usize {
        let s_m = db.map(format!("s_m_{}", i).as_bytes(), None);
        s_m.insert(&mut db, &i.to_be_bytes(), &num(i), 0).unwrap();
    }

    for i in 0..10_000usize {
        let s_l = db.list(format!("s_l_{}", i).as_bytes(), None);
        s_l.push(&mut db, &num(i), 0).unwrap();
    }
    println!("$$$ test_stress db_size: {:?}", db.db_size());
}

#[test]
fn test_scan() {
    let mut db = fresh_db();
    for item in db.scan(b"*", 0).unwrap() {
        db.remove(&item).unwrap();
    }
    db.insert(b"foo/abcd/1", &num(1)).unwrap();
    db.insert(b"foo/abcd/2", &num(2)).unwrap();
    db.insert(b"foo/abcd/3", &num(3)).unwrap();
    db.insert(b"foo/abcd/**/4", &num(11)).unwrap();
    db.insert(b"foo/abcd/*/4", &num(22)).unwrap();
    db.insert(b"foo/abcd/*", &num(33)).unwrap();
    db.insert(b"iot/abcd/5/a", &num(5)).unwrap();
    db.insert(b"iot/abcd/6/b", &num(6)).unwrap();
    db.insert(b"iot/abcd/7/c", &num(7)).unwrap();
    db.insert(b"iot/abcd/", &num(8)).unwrap();
    db.insert(b"iot/abcd", &num(9)).unwrap();

    //foo/abcd*
    let topic = format_topic("foo/abcd/#");
    let items = db.scan(topic.as_bytes(), 0).unwrap();
    assert_eq!(items.len(), 6);

    //"foo/abcd/\\**"
    let topic = format_topic("foo/abcd/*/#");
    assert_eq!(topic, "foo/abcd/\\**");
    assert_eq!(db.scan(topic.as_bytes(), 0).unwrap().len(), 3);

    //"foo/abcd/\\*"
    let topic = format_topic("foo/abcd/*");
    assert_eq!(topic, "foo/abcd/\\*");
    assert_eq!(db.scan(topic.as_bytes(), 0).unwrap().len(), 1);

    //foo/abcd/*/*
    let topic = format_topic("foo/abcd/+/#");
    assert_eq!(db.scan(topic.as_bytes(), 0).unwrap().len(), 6);

    //iot/abcd*
    let topic = format_topic("iot/abcd/#");
    assert_eq!(db.scan(topic.as_bytes(), 0).unwrap().len(), 5);

    //iot/abcd/+
    let topic = format_topic("iot/abcd/+");
    assert_eq!(db.scan(topic.as_bytes(), 0).unwrap().len(), 4);
}

#[test]
fn scan_returns_the_matching_keys_in_order() {
    let mut db = fresh_db();
    for key in ["b/2", "a/1", "b/1", "c", "b/10", "b"] {
        db.insert(key.as_bytes(), b"v").unwrap();
    }
    db.counter_set(b"b/counter", 5).unwrap();
    let m = db.map(b"b/map", None);
    m.insert(&mut db, b"k", b"v", 0).unwrap();
    assert_eq!(
        db.scan(b"b/*", 0).unwrap(),
        vec![b"b/1".to_vec(), b"b/10".to_vec(), b"b/2".to_vec()]
    );
    assert_eq!(
        db.scan(b"b/?", 0).unwrap(),
        vec![b"b/1".to_vec(), b"b/2".to_vec()]
    );
    assert_eq!(
        db.scan(b"?/1", 0).unwrap(),
        vec![b"a/1".to_vec(), b"b/1".to_vec()]
    );
    assert_eq!(db.scan(b"c", 0).unwrap(), vec![b"c".to_vec()]);
    assert_eq!(db.scan(b"d*", 0).unwrap(), Vec::<Vec<u8>>::new());
    assert_eq!(db.scan(b"*", 0).unwrap().len(), 6);
}

#[test]
fn scan_leaves_out_expired_keys() {
    let mut db = fresh_db();
    db.insert(b"k/1", b"v").unwrap();
    db.insert(b"k/2", b"v").unwrap();
    db.expire_at(b"k/1", 500).unwrap();
    assert_eq!(
        db.scan(b"k/*", 499).unwrap(),
        vec![b"k/1".to_vec(), b"k/2".to_vec()]
    );
    assert_eq!(db.scan(b"k/*", 500).unwrap(), vec![b"k/2".to_vec()]);
    assert_eq!(db.len(499).unwrap(), 2);
    assert_eq!(db.len(500).unwrap(), 1);
}

#[test]
fn scan_with_a_malformed_expiry_record_is_corrupt() {
    let mut db = fresh_db();
    db.insert(b"k/1", b"v").unwrap();
    db.insert(b"z", b"v").unwrap();
    put_raw(&mut db, &Namespace::KvTtl.encode_key(b"k/1"), b"soon");
    assert!(matches!(
        db.scan(b"k/*", 0),
        Err(StorageError::Corruption)
    ));
    assert!(matches!(db.len(0), Err(StorageError::Corruption)));
    assert!(matches!(db.get(b"k/1", 0), Err(StorageError::Corruption)));
    assert!(matches!(db.ttl(b"k/1", 0), Err(StorageError::Corruption)));
    assert!(matches!(
        db.contains_key(b"k/1", 0),
        Err(StorageError::Corruption)
    ));
    // a scan that does not meet the key is not disturbed
    assert_eq!(db.scan(b"z*", 0).unwrap(), vec![b"z".to_vec()]);
    // setting the key again repairs it
    db.insert(b"k/1", b"w").unwrap();
    assert_eq!(db.get(b"k/1", 0).unwrap(), Some(b"w".to_vec()));
}

#[test]
fn value_round_trip() {
    let mut db = fresh_db();
    db.insert(b"k", b"v1").unwrap();
    assert_eq!(db.get(b"k", i64::MIN).unwrap(), Some(b"v1".to_vec()));
    db.insert(b"k", b"v2").unwrap();
    assert_eq!(db.get(b"k", i64::MAX).unwrap(), Some(b"v2".to_vec()));
    db.insert(b"", b"").unwrap();
    assert_eq!(db.get(b"", 0).unwrap(), Some(Vec::new()));
    assert_eq!(get_raw(&db, b"kv@k"), Some(b"v2".to_vec()));
}

#[test]
fn remove_semantics() {
    let mut db = fresh_db();
    db.insert(b"k", b"v").unwrap();
    db.remove(b"k").unwrap();
    assert_eq!(db.get(b"k", 0).unwrap(), None);
    assert!(!db.contains_key(b"k", 0).unwrap());
    db.remove(b"never").unwrap();
    assert_eq!(db.get(b"never", 0).unwrap(), None);
}

#[test]
fn ttl_is_lazy() {
    let mut db = fresh_db();
    db.insert(b"k", b"v").unwrap();
    assert!(db.expire(b"k", 1500, 10_000).unwrap());
    // at t = 0 the key is read
    assert_eq!(db.get(b"k", 10_000).unwrap(), Some(b"v".to_vec()));
    assert_eq!(db.ttl(b"k", 10_000).unwrap(), Some(1500));
    assert_eq!(db.ttl(b"k", 11_000).unwrap(), Some(500));
    assert_eq!(db.get(b"k", 11_499).unwrap(), Some(b"v".to_vec()));
    // from its expiry time on it is not
    assert_eq!(db.get(b"k", 11_500).unwrap(), None);
    assert_eq!(db.get(b"k", 11_700).unwrap(), None);
    assert_eq!(db.ttl(b"k", 11_700).unwrap(), None);
    assert!(!db.contains_key(b"k", 11_700).unwrap());
    // though no sweep has run and the value is still stored
    assert_eq!(get_raw(&db, b"kv@k"), Some(b"v".to_vec()));
    assert_eq!(
        get_raw(&db, b"kv_ttl@k"),
        Some(11_500i64.to_be_bytes().to_vec())
    );
}

#[test]
fn expire_reports_whether_the_key_was_there() {
    let mut db = fresh_db();
    assert!(!db.expire_at(b"absent", 100).unwrap());
    assert_eq!(get_raw(&db, b"kv_ttl@absent"), None);
    db.insert(b"k", b"v").unwrap();
    assert!(db.expire_at(b"k", 100).unwrap());
    // a key that has expired already is still reported as there
    assert_eq!(db.get(b"k", 200).unwrap(), None);
    assert!(db.expire_at(b"k", 150).unwrap());
    assert!(db.expire(b"k", 50, 200).unwrap());
    assert_eq!(db.get(b"k", 200).unwrap(), Some(b"v".to_vec()));
    assert_eq!(db.ttl(b"k", 200).unwrap(), Some(50));
}

#[test]
fn a_key_without_expiry_has_no_ttl() {
    let mut db = fresh_db();
    db.insert(b"k", b"v").unwrap();
    assert_eq!(db.ttl(b"k", 0).unwrap(), None);
    assert_eq!(db.ttl(b"absent", 0).unwrap(), None);
}

#[test]
fn setting_a_key_clears_its_expiry() {
    let mut db = fresh_db();
    db.insert(b"k", b"v").unwrap();
    db.expire_at(b"k", 100).unwrap();
    db.insert(b"k", b"w").unwrap();
    assert_eq!(db.get(b"k", 1_000).unwrap(), Some(b"w".to_vec()));
    assert_eq!(db.ttl(b"k", 0).unwrap(), None);
    db.expire_at(b"k", 100).unwrap();
    db.batch_insert(vec![(b"k".to_vec(), b"x".to_vec())]).unwrap();
    assert_eq!(db.get(b"k", 1_000).unwrap(), Some(b"x".to_vec()));
}

#[test]
fn expiry_times_stop_at_the_end_of_the_range() {
    let mut db = fresh_db();
    db.insert(b"k", b"v").unwrap();
    assert!(db.expire(b"k", i64::MAX, 10).unwrap());
    assert_eq!(
        get_raw(&db, b"kv_ttl@k"),
        Some(i64::MAX.to_be_bytes().to_vec())
    );
    assert_eq!(db.ttl(b"k", -10).unwrap(), Some(i64::MAX));
    assert_eq!(db.get(b"k", i64::MAX - 1).unwrap(), Some(b"v".to_vec()));
    assert_eq!(db.get(b"k", i64::MAX).unwrap(), None);
}

#[test]
fn later_writes_of_a_batch_win() {
    let mut db = fresh_db();
    db.batch_insert(vec![
        (b"k".to_vec(), b"1".to_vec()),
        (b"j".to_vec(), b"2".to_vec()),
        (b"k".to_vec(), b"3".to_vec()),
    ])
    .unwrap();
    assert_eq!(db.get(b"k", 0).unwrap(), Some(b"3".to_vec()));
    assert_eq!(db.get(b"j", 0).unwrap(), Some(b"2".to_vec()));
    db.batch_insert(Vec::new()).unwrap();
    db.batch_remove(Vec::new()).unwrap();
    db.batch_remove(vec![b"k".to_vec(), b"k".to_vec(), b"nope".to_vec()])
        .unwrap();
    assert_eq!(db.get(b"k", 0).unwrap(), None);
    assert_eq!(db.len(0).unwrap(), 1);
}

#[test]
fn flat_keys_counters_maps_and_lists_do_not_meet() {
    let mut db = fresh_db();
    let map = db.map(b"k", None);
    let list = db.list(b"k", None);
    db.insert(b"k", b"flat").unwrap();
    db.counter_set(b"k", 7).unwrap();
    map.insert(&mut db, b"k", b"in map", 0).unwrap();
    list.push(&mut db, b"in list", 0).unwrap();
    assert_eq!(db.get(b"k", 0).unwrap(), Some(b"flat".to_vec()));
    assert_eq!(db.counter_get(b"k").unwrap(), Some(7));
    assert_eq!(map.get(&db, b"k", 0).unwrap(), Some(b"in map".to_vec()));
    assert_eq!(list.all(&db, 0).unwrap(), vec![b"in list".to_vec()]);
    map.clear(&mut db).unwrap();
    list.clear(&mut db).unwrap();
    assert_eq!(db.get(b"k", 0).unwrap(), Some(b"flat".to_vec()));
    assert_eq!(db.counter_get(b"k").unwrap(), Some(7));
    db.remove(b"k").unwrap();
    map.insert(&mut db, b"k", b"again", 0).unwrap();
    assert_eq!(db.get(b"k", 0).unwrap(), None);
    assert_eq!(map.get(&db, b"k", 0).unwrap(), Some(b"again".to_vec()));
    assert_eq!(db.scan(b"*", 0).unwrap(), Vec::<Vec<u8>>::new());
}

#[test]
fn info_counts_what_exists() {
    let mut db = fresh_db();
    db.insert(b"a", b"1").unwrap();
    db.insert(b"b", b"2").unwrap();
    db.expire_at(b"b", 100).unwrap();
    db.counter_set(b"c", 3).unwrap();
    for name in ["m1", "m2", "m3"] {
        let map = db.map(name.as_bytes(), Some(50));
        map.insert(&mut db, b"k", b"v", 0).unwrap();
    }
    let list = db.list(b"l", None);
    list.push(&mut db, b"v", 0).unwrap();
    let info = db.info(0).unwrap();
    assert_eq!((info.kv_count, info.map_count, info.list_count), (2, 3, 1));
    let info = db.info(100).unwrap();
    assert_eq!((info.kv_count, info.map_count, info.list_count), (1, 0, 1));
}

#[test]
fn a_blank_path_is_no_directory() {
    let cfg = Config::default();
    assert_eq!(cfg.path, "");
    assert_eq!(cfg.cache_capacity, 1024 * 1024 * 1024);
    assert_eq!(cfg.flush_interval_ms, 3000);
    assert!(matches!(init_db(&cfg), Err(StorageError::Config)));
    let cfg = Config {
        path: " \t \n".to_string(),
        ..Config::default()
    };
    assert!(matches!(init_db(&cfg), Err(StorageError::Config)));
    assert!(matches!(cfg.to_sled_config(), Err(StorageError::Config)));
    assert!(matches!(cfg.storage_dir(), Err(StorageError::Config)));
}

#[test]
fn a_cache_too_small_for_the_engine_is_refused() {
    let stamp = std::time::SystemTime::now()
        .duration_since(std::time::UNIX_EPOCH)
        .unwrap()
        .as_nanos();
    for capacity in [0u64, 1, 255] {
        let cfg = Config {
            path: format!("/tmp/ttl_store_small_{}", stamp),
            cache_capacity: capacity,
            ..Config::default()
        };
        // the settings are given as they stand; opening is what is refused
        let settings = cfg.to_sled_config().unwrap();
        assert_eq!(settings.path, cfg.path);
        assert_eq!(settings.cache_capacity, capacity);
        assert_eq!(settings.flush_every_ms, Some(3000));
        assert_eq!(settings.mode, Mode::LowSpace);
        assert!(matches!(init_db(&cfg), Err(StorageError::Config)));
    }
    let cfg = Config {
        path: format!("/tmp/ttl_store_small_{}", stamp),
        cache_capacity: 256,
        ..Config::default()
    };
    assert_eq!(cfg.to_sled_config().unwrap().cache_capacity, 256);
    let mut db = init_db(&cfg).unwrap();
    db.insert(b"k", b"v").unwrap();
    assert_eq!(db.get(b"k", 0).unwrap(), Some(b"v".to_vec()));
}

#[test]
fn a_database_keeps_what_it_was_given() {
    let stamp = std::time::SystemTime::now()
        .duration_since(std::time::UNIX_EPOCH)
        .unwrap()
        .as_nanos();
    let cfg = Config {
        path: format!("  /tmp/ttl_store_test_{}  ", stamp),
        ..Config::default()
    };
    let settings = cfg.to_sled_config().unwrap();
    assert_eq!(settings.path, format!("/tmp/ttl_store_test_{}", stamp));
    assert_eq!(settings.cache_capacity, 1024 * 1024 * 1024);
    assert_eq!(settings.flush_every_ms, Some(3000));
    {
        let mut db = init_db(&cfg).unwrap();
        db.insert(b"k", b"v").unwrap();
        db.counter_incr(b"c", 4).unwrap();
    }
    let db = init_db(&cfg).unwrap();
    assert_eq!(db.get(b"k", 0).unwrap(), Some(b"v".to_vec()));
    assert_eq!(db.counter_get(b"c").unwrap(), Some(4));
}

#[test]
fn a_database_opens_in_either_mode() {
    let stamp = std::time::SystemTime::now()
        .duration_since(std::time::UNIX_EPOCH)
        .unwrap()
        .as_nanos();
    for (mode, tag) in [(Mode::LowSpace, "low"), (Mode::HighThroughput, "high")] {
        let cfg = Config {
            path: format!("/tmp/ttl_store_mode_{}_{}", tag, stamp),
            cache_capacity: 1024 * 1024,
            flush_interval_ms: 100,
            mode,
        };
        let mut db = init_db(&cfg).unwrap();
        assert_eq!(db.len(0).unwrap(), 0);
        db.insert(b"k", b"v").unwrap();
        assert_eq!(db.scan(b"*", 0).unwrap(), vec![b"k".to_vec()]);
    }
}

#[test]
fn an_unusable_directory_is_an_engine_error() {
    let cfg = Config {
        path: "/proc/no/such/place".to_string(),
        ..Config::default()
    };
    assert!(matches!(init_db(&cfg), Err(StorageError::Io(_))));
}
