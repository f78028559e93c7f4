use ttl_store::config::temporary_db;
use ttl_store::db::StorageDB;
use ttl_store::keys::{encode_entries_prefix, Namespace};
use ttl_store::reaper::{after_sweep, ReaperStep};

fn fresh_db() -> StorageDB {
    temporary_db().unwrap()
}

fn get_raw(db: &StorageDB, key: &[u8]) -> Option<Vec<u8>> {
    match db {
        StorageDB::Sled(store) => store.get(key).unwrap(),
    }
}

fn count_raw(db: &StorageDB, prefix: &[u8]) -> usize {
    match db {
        StorageDB::Sled(store) => store.scan_prefix(prefix).unwrap().len(),
    }
}

#[test]
fn test_sled_cleanup() {
    let mut db = fresh_db();
    let max = 3000;
    let start: i64 = 0;

    for i in 0..max {
        let map = db.map(format!("map_{}", i).as_bytes(), None);
        map.insert(&mut db, b"k_1", b"1", start).unwrap();
        map.insert(&mut db, b"k_2", b"2", start).unwrap();
        map.expire(&mut db, 100, start).unwrap();
    }

    for i in 0..max {
        let list = db.list(format!("list_{}", i).as_bytes(), None);
        list.push(&mut db, b"1", start).unwrap();
        list.push(&mut db, b"2", start).unwrap();
        list.expire(&mut db, 100, start).unwrap();
    }

    let now = start + 120;
    println!("1. db_size: {:?}", db.db_size());
    assert_eq!(count_raw(&db, b"map"), 3 * max);
    assert_eq!(count_raw(&db, b"list"), 4 * max);

    // one tick of the reaper: sweeps of at most 200 until one falls short
    let limit = 200;
    let mut total = 0;
    let mut sweeps = 0;
    loop {
        let count = db.cleanup(limit, now).unwrap();
        assert!(count <= limit);
        total += count;
        sweeps += 1;
        if after_sweep(count, limit, 0) == ReaperStep::Done {
            break;
        }
    }
    assert_eq!(total, 2 * max);
    assert_eq!(sweeps, 31);
    println!("2. db_size: {:?}", db.db_size());
    assert_eq!(count_raw(&db, b""), 0);
}

#[test]
fn a_sweep_drops_what_has_expired_and_nothing_else() {
    let mut db = fresh_db();
    db.insert(b"flat", b"v").unwrap();
    db.expire_at(b"flat", 10).unwrap();
    let gone_map = db.map(b"gone", Some(10));
    let kept_map = db.map(b"kept", Some(1_000));
    let eternal = db.map(b"eternal", None);
    let gone_list = db.list(b"gone", Some(10));
    let kept_list = db.list(b"kept", None);
    gone_map.insert(&mut db, b"k", b"v", 0).unwrap();
    kept_map.insert(&mut db, b"k", b"v", 0).unwrap();
    eternal.insert(&mut db, b"k", b"v", 0).unwrap();
    gone_list.push(&mut db, b"v", 0).unwrap();
    kept_list.push(&mut db, b"v", 0).unwrap();

    db.insert(b"kept", b"v").unwrap();
    db.expire_at(b"kept", 1_000).unwrap();
    db.insert(b"eternal", b"v").unwrap();
    db.counter_set(b"flat", 7).unwrap();

    assert_eq!(db.cleanup(200, 9).unwrap(), 0);
    assert_eq!(db.cleanup(200, 10).unwrap(), 3);
    assert_eq!(get_raw(&db, b"map@gone"), None);
    assert_eq!(count_raw(&db, &encode_entries_prefix(Namespace::MapEntry, b"gone")), 0);
    assert_eq!(get_raw(&db, b"list@gone"), None);
    assert_eq!(get_raw(&db, b"list_meta@gone"), None);
    assert_eq!(count_raw(&db, &encode_entries_prefix(Namespace::ListEntry, b"gone")), 0);
    assert_eq!(count_raw(&db, b"map_e@"), 2);
    assert_eq!(count_raw(&db, b"list_e@"), 1);
    assert_eq!(kept_map.get(&db, b"k", 10).unwrap(), Some(b"v".to_vec()));
    assert_eq!(eternal.get(&db, b"k", 10).unwrap(), Some(b"v".to_vec()));
    assert_eq!(kept_list.all(&db, 10).unwrap(), vec![b"v".to_vec()]);
    // the expired flat key is gone with its expiry time; its counter stays
    assert_eq!(get_raw(&db, b"kv@flat"), None);
    assert_eq!(get_raw(&db, b"kv_ttl@flat"), None);
    assert_eq!(db.counter_get(b"flat").unwrap(), Some(7));
    assert_eq!(db.get(b"kept", 10).unwrap(), Some(b"v".to_vec()));
    assert_eq!(db.cleanup(200, 10).unwrap(), 0);
    assert_eq!(db.cleanup(200, 1_000).unwrap(), 2);
    assert_eq!(get_raw(&db, b"kv@kept"), None);
    assert_eq!(db.cleanup(200, i64::MAX).unwrap(), 0);
    assert_eq!(eternal.len(&db, i64::MAX).unwrap(), 1);
    assert_eq!(db.get(b"eternal", i64::MAX).unwrap(), Some(b"v".to_vec()));
}

#[test]
fn a_sweep_stops_at_its_limit() {
    let mut db = fresh_db();
    for i in 0..5 {
        let list = db.list(format!("l{}", i).as_bytes(), Some(1));
        list.push(&mut db, b"v", 0).unwrap();
        let map = db.map(format!("m{}", i).as_bytes(), Some(1));
        map.insert(&mut db, b"k", b"v", 0).unwrap();
    }
    for i in 0..4 {
        let key = format!("f{}", i);
        db.insert(key.as_bytes(), b"v").unwrap();
        db.expire_at(key.as_bytes(), 1).unwrap();
    }
    assert_eq!(db.cleanup(0, 5).unwrap(), 0);
    // lists come first, in the order of their names
    assert_eq!(db.cleanup(3, 5).unwrap(), 3);
    assert_eq!(count_raw(&db, b"list@"), 2);
    assert_eq!(get_raw(&db, b"list@l2"), None);
    assert!(get_raw(&db, b"list@l3").is_some());
    assert_eq!(count_raw(&db, b"map@"), 5);
    // then maps take what the lists leave of the limit
    assert_eq!(db.cleanup(3, 5).unwrap(), 3);
    assert_eq!(count_raw(&db, b"list@"), 0);
    assert_eq!(count_raw(&db, b"map@"), 4);
    assert_eq!(get_raw(&db, b"map@m0"), None);
    assert_eq!(db.cleanup(3, 5).unwrap(), 3);
    // flat keys take what the maps leave
    assert_eq!(count_raw(&db, b"kv@"), 4);
    assert_eq!(db.cleanup(3, 5).unwrap(), 3);
    assert_eq!(count_raw(&db, b"map@"), 0);
    assert_eq!(count_raw(&db, b"kv@"), 2);
    assert_eq!(get_raw(&db, b"kv@f0"), None);
    assert_eq!(get_raw(&db, b"kv@f2"), Some(b"v".to_vec()));
    assert_eq!(db.cleanup(3, 5).unwrap(), 2);
    assert_eq!(db.cleanup(3, 5).unwrap(), 0);
    assert_eq!(count_raw(&db, b""), 0);
}
