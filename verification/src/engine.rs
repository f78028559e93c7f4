//! The storage engine: one ordered tree of byte keys and byte values, kept
//! by `sled`. Nothing in this file is proved. Each declaration states what
//! the engine's documentation promises of one of its functions, over the
//! tree's contents as a map from keys to values.
//!
//! The contents are spoken of as a value that changes only through the
//! handle. That holds because the handle is held by one store alone: it is
//! made by opening a database, which the engine allows once at a time for
//! a directory, and it is never copied nor handed out.

use vstd::prelude::*;

verus! {

/// The engine's handle to an open database and its default tree.
#[verifier::external_type_specification]
#[verifier::external_body]
pub struct ExDb(sled::Db);

/// The engine's error.
#[verifier::external_type_specification]
#[verifier::external_body]
pub struct ExEngineError(sled::Error);

/// The engine's set of pending writes.
#[verifier::external_type_specification]
#[verifier::external_body]
pub struct ExBatch(sled::Batch);

/// What the tree holds: every stored key with its value.
pub uninterp spec fn tree_entries(db: sled::Db) -> Map<Seq<u8>, Seq<u8>>;

/// What a database was asked to open with: the directory, the cache
/// capacity, the flush interval, and whether the mode is `LowSpace`. The
/// engine may run with a smaller cache where the system allows it less
/// memory.
pub uninterp spec fn made_with(db: sled::Db) -> (Seq<char>, u64, Option<u64>, bool);

/// What a batch will do: for each key it names, the value to store, or
/// `None` to delete the key.
pub uninterp spec fn batch_writes(batch: sled::Batch) -> Map<Seq<u8>, Option<Seq<u8>>>;

/// The value stored under `key`, if any.
pub open spec fn lookup(entries: Map<Seq<u8>, Seq<u8>>, key: Seq<u8>) -> Option<Seq<u8>> {
    if entries.contains_key(key) {
        Some(entries[key])
    } else {
        None
    }
}

/// The view of an optional byte string.
pub open spec fn opt_view(bytes: Option<Vec<u8>>) -> Option<Seq<u8>> {
    match bytes {
        Some(v) => Some(v@),
        None => None,
    }
}

/// The view of an optional borrowed byte string.
pub open spec fn opt_slice_view(bytes: Option<&[u8]>) -> Option<Seq<u8>> {
    match bytes {
        Some(v) => Some(v@),
        None => None,
    }
}

/// The contents after `key` has been set to `value`, or deleted for `None`.
pub open spec fn with_write(
    entries: Map<Seq<u8>, Seq<u8>>,
    key: Seq<u8>,
    value: Option<Seq<u8>>,
) -> Map<Seq<u8>, Seq<u8>> {
    match value {
        Some(v) => entries.insert(key, v),
        None => entries.remove(key),
    }
}

/// The writes of a batch that names no key.
pub open spec fn no_writes() -> Map<Seq<u8>, Option<Seq<u8>>> {
    Map::empty()
}

/// The contents after every write of a batch: a key that the batch names
/// takes the batch's word, every other key stays as it was.
pub open spec fn with_writes(
    entries: Map<Seq<u8>, Seq<u8>>,
    writes: Map<Seq<u8>, Option<Seq<u8>>>,
) -> Map<Seq<u8>, Seq<u8>> {
    Map::new(
        |k: Seq<u8>|
            if writes.contains_key(k) {
                writes[k] is Some
            } else {
                entries.contains_key(k)
            },
        |k: Seq<u8>|
            if writes.contains_key(k) {
                writes[k]->Some_0
            } else {
                entries[k]
            },
    )
}

/// The keys and values of a scan result as plain byte strings.
pub open spec fn pairs_view(found: Seq<(Vec<u8>, Vec<u8>)>) -> Seq<(Seq<u8>, Seq<u8>)> {
    Seq::new(found.len(), |i: int| (found[i].0@, found[i].1@))
}

/// `found` lists exactly the entries whose key begins with `prefix`, each
/// once, in ascending byte-wise order of the keys.
pub open spec fn is_prefix_scan(
    found: Seq<(Seq<u8>, Seq<u8>)>,
    entries: Map<Seq<u8>, Seq<u8>>,
    prefix: Seq<u8>,
) -> bool {
    &&& forall|i: int, j: int|
        0 <= i < j < found.len() ==> crate::bytes::lex_lt(
            #[trigger] found[i].0,
            #[trigger] found[j].0,
        )
    &&& forall|i: int|
        0 <= i < found.len() ==> {
            &&& prefix.is_prefix_of(#[trigger] found[i].0)
            &&& entries.contains_key(found[i].0)
            &&& entries[found[i].0] == found[i].1
        }
    &&& forall|k: Seq<u8>|
        entries.contains_key(k) && prefix.is_prefix_of(k) ==> exists|i: int|
            0 <= i < found.len() && #[trigger] found[i].0 == k
}

/// `key` sorts at or behind `lo` and before `hi`.
pub open spec fn in_range(key: Seq<u8>, lo: Seq<u8>, hi: Seq<u8>) -> bool {
    !crate::bytes::lex_lt(key, lo) && crate::bytes::lex_lt(key, hi)
}

/// `found` lists exactly the entries whose key sorts at or behind `lo` and
/// before `hi`, each once, in ascending byte-wise order of the keys.
pub open spec fn is_range_scan(
    found: Seq<(Seq<u8>, Seq<u8>)>,
    entries: Map<Seq<u8>, Seq<u8>>,
    lo: Seq<u8>,
    hi: Seq<u8>,
) -> bool {
    &&& forall|i: int, j: int|
        0 <= i < j < found.len() ==> crate::bytes::lex_lt(
            #[trigger] found[i].0,
            #[trigger] found[j].0,
        )
    &&& forall|i: int|
        0 <= i < found.len() ==> {
            &&& in_range(#[trigger] found[i].0, lo, hi)
            &&& entries.contains_key(found[i].0)
            &&& entries[found[i].0] == found[i].1
        }
    &&& forall|k: Seq<u8>|
        entries.contains_key(k) && in_range(k, lo, hi) ==> exists|i: int|
            0 <= i < found.len() && #[trigger] found[i].0 == k
}

/// `sled::Tree::get` on the default tree: on success, the value stored
/// under `key`, or `None` if the tree holds no such key.
#[verifier::external_body]
pub(crate) fn tree_get(db: &sled::Db, key: &[u8]) -> (r: Result<Option<Vec<u8>>, sled::Error>)
    ensures
        r matches Ok(found) ==> opt_view(found) == lookup(tree_entries(*db), key@),
{
    db.get(key).map(|found| found.map(|v| v.to_vec()))
}

/// `sled::Tree::insert` on the default tree: on success the key holds the
/// new value, every other key is as before, and the result is the value
/// that the key held before, if any.
#[verifier::external_body]
pub(crate) fn tree_insert(db: &mut sled::Db, key: &[u8], value: &[u8]) -> (r: Result<
    Option<Vec<u8>>,
    sled::Error,
>)
    ensures
        r matches Ok(previous) ==> {
            &&& tree_entries(*final(db)) == tree_entries(*old(db)).insert(key@, value@)
            &&& opt_view(previous) == lookup(tree_entries(*old(db)), key@)
        },
{
    db.insert(key, value).map(|previous| previous.map(|v| v.to_vec()))
}

/// `sled::Tree::remove` on the default tree: on success the key is gone,
/// every other key is as before, and the result is the value that the key
/// held before, if any.
#[verifier::external_body]
pub(crate) fn tree_remove(db: &mut sled::Db, key: &[u8]) -> (r: Result<
    Option<Vec<u8>>,
    sled::Error,
>)
    ensures
        r matches Ok(previous) ==> {
            &&& tree_entries(*final(db)) == tree_entries(*old(db)).remove(key@)
            &&& opt_view(previous) == lookup(tree_entries(*old(db)), key@)
        },
{
    db.remove(key).map(|previous| previous.map(|v| v.to_vec()))
}

/// `sled::Tree::compare_and_swap` on the default tree. On success the
/// result tells whether the key held `expected` (`None`: held nothing); if
/// it did, the key now holds `proposed` (`None`: is deleted); if it did
/// not, the tree is unchanged.
#[verifier::external_body]
pub(crate) fn tree_compare_and_swap(
    db: &mut sled::Db,
    key: &[u8],
    expected: Option<&[u8]>,
    proposed: Option<&[u8]>,
) -> (r: Result<bool, sled::Error>)
    ensures
        r matches Ok(swapped) ==> {
            &&& swapped == (lookup(tree_entries(*old(db)), key@) == opt_slice_view(expected))
            &&& swapped ==> tree_entries(*final(db)) == with_write(
                tree_entries(*old(db)),
                key@,
                opt_slice_view(proposed),
            )
            &&& !swapped ==> tree_entries(*final(db)) == tree_entries(*old(db))
        },
{
    db.compare_and_swap(key, expected, proposed).map(|outcome| outcome.is_ok())
}

/// `sled::Tree::scan_prefix` on the default tree, read to its end: on
/// success, every entry whose key begins with `prefix`, in ascending
/// byte-wise order of the keys.
#[verifier::external_body]
pub(crate) fn tree_scan_prefix(db: &sled::Db, prefix: &[u8]) -> (r: Result<
    Vec<(Vec<u8>, Vec<u8>)>,
    sled::Error,
>)
    ensures
        r matches Ok(found) ==> is_prefix_scan(pairs_view(found@), tree_entries(*db), prefix@),
{
    db.scan_prefix(prefix).map(|item| item.map(|(k, v)| (k.to_vec(), v.to_vec()))).collect()
}

/// `sled::Tree::range` on the default tree, from `lo` up to but not
/// including `hi`, read to its end: on success, every entry whose key lies
/// in that range, in ascending byte-wise order of the keys.
#[verifier::external_body]
pub(crate) fn tree_range(db: &sled::Db, lo: &[u8], hi: &[u8]) -> (r: Result<
    Vec<(Vec<u8>, Vec<u8>)>,
    sled::Error,
>)
    ensures
        r matches Ok(found) ==> is_range_scan(pairs_view(found@), tree_entries(*db), lo@, hi@),
{
    db.range(lo..hi).map(|item| item.map(|(k, v)| (k.to_vec(), v.to_vec()))).collect()
}

/// `sled::Batch::default`: a batch that writes nothing.
#[verifier::external_body]
pub(crate) fn batch_new() -> (r: sled::Batch)
    ensures
        batch_writes(r) == no_writes(),
{
    sled::Batch::default()
}

/// `sled::Batch::insert`: the batch now sets `key` to `value`, whatever it
/// said of that key before.
#[verifier::external_body]
pub(crate) fn batch_insert(batch: &mut sled::Batch, key: &[u8], value: &[u8])
    ensures
        batch_writes(*final(batch)) == batch_writes(*old(batch)).insert(key@, Some(value@)),
{
    batch.insert(key, value)
}

/// `sled::Batch::remove`: the batch now deletes `key`, whatever it said of
/// that key before.
#[verifier::external_body]
pub(crate) fn batch_remove(batch: &mut sled::Batch, key: &[u8])
    ensures
        batch_writes(*final(batch)) == batch_writes(*old(batch)).insert(key@, None),
{
    batch.remove(key)
}

/// `sled::Tree::apply_batch` on the default tree: on success every write
/// of the batch has been made and every key that the batch does not name
/// is as before.
#[verifier::external_body]
pub(crate) fn tree_apply_batch(db: &mut sled::Db, batch: sled::Batch) -> (r: Result<
    (),
    sled::Error,
>)
    ensures
        r is Ok ==> tree_entries(*final(db)) == with_writes(
            tree_entries(*old(db)),
            batch_writes(batch),
        ),
{
    db.apply_batch(batch)
}

/// `sled::Db::size_on_disk`: the size of the database's files in bytes, as
/// the file system reports it when asked.
#[verifier::external_body]
pub(crate) fn db_size_on_disk(db: &sled::Db) -> (r: Result<u64, sled::Error>)
{
    db.size_on_disk()
}

/// `sled::Config::open`, on `sled::Config::default` with `path`,
/// `cache_capacity` and `flush_every_ms` set and the mode `LowSpace`: opens
/// the database in the directory `path`, and creates it if it is not
/// there. What the tree holds then is what the disk held; what the
/// database was asked to open with is what was handed in. The engine
/// panics on a cache of less than 256 bytes, so none is let through.
#[verifier::external_body]
pub(crate) fn open_low_space(path: &str, cache_capacity: u64, flush_every_ms: Option<u64>) -> (r:
    Result<sled::Db, sled::Error>)
    requires
        cache_capacity >= 256,
    ensures
        r matches Ok(db) ==> made_with(db) == (path@, cache_capacity, flush_every_ms, true),
{
    sled::Config::default().path(path).cache_capacity(cache_capacity).flush_every_ms(
        flush_every_ms,
    ).mode(sled::Mode::LowSpace).open()
}

/// `sled::Config::open`, on `sled::Config::default` with `path`,
/// `cache_capacity` and `flush_every_ms` set and the mode
/// `HighThroughput`: as `open_low_space`, for the other mode.
#[verifier::external_body]
pub(crate) fn open_high_throughput(
    path: &str,
    cache_capacity: u64,
    flush_every_ms: Option<u64>,
) -> (r: Result<sled::Db, sled::Error>)
    requires
        cache_capacity >= 256,
    ensures
        r matches Ok(db) ==> made_with(db) == (path@, cache_capacity, flush_every_ms, false),
{
    sled::Config::default().path(path).cache_capacity(cache_capacity).flush_every_ms(
        flush_every_ms,
    ).mode(sled::Mode::HighThroughput).open()
}

/// `sled::Config::open`, on `sled::Config::default` with `temporary` set:
/// opens a new database in a directory of its own, which is removed when
/// the database is dropped.
#[verifier::external_body]
pub(crate) fn open_temporary() -> (r: Result<sled::Db, sled::Error>) {
    sled::Config::default().temporary(true).open()
}

} // verus!
