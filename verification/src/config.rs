//! The settings of a database, and opening one.

use vstd::prelude::*;
use vstd::string::StrSliceExecFns;
use vstd::string::StringExecFns;
use crate::db::StorageDB;
use crate::engine::{open_high_throughput, open_low_space, open_temporary};
use crate::error::StorageError;
use crate::store::SledStorageDB;

verus! {

/// The page cache that a database gets unless told otherwise: one
/// gibibyte.
pub const DEFAULT_CACHE_CAPACITY: u64 = 0x4000_0000;

/// The smallest page cache that the engine works with, in bytes.
pub const MIN_CACHE_CAPACITY: u64 = 256;

/// The milliseconds between two flushes to disk unless told otherwise.
pub const DEFAULT_FLUSH_INTERVAL_MS: u64 = 3000;

/// What the engine favours.
#[derive(Clone, Copy, Debug, PartialEq, Eq, Structural)]
pub enum Mode {
    /// Less space on disk.
    LowSpace,
    /// More writes per second.
    HighThroughput,
}

/// The settings of a database.
#[derive(Clone, Debug)]
pub struct Config {
    /// The directory of the database's files. White space around it does
    /// not count.
    pub path: String,
    /// The size of the page cache in bytes.
    pub cache_capacity: u64,
    /// The milliseconds between two flushes to disk.
    pub flush_interval_ms: u64,
    /// What the engine favours.
    pub mode: Mode,
}

/// What the engine is opened with: the settings of a [`Config`], checked
/// and in the engine's terms.
#[derive(Clone, Debug)]
pub struct SledSettings {
    /// The directory of the database's files.
    pub path: String,
    /// The size of the page cache in bytes.
    pub cache_capacity: u64,
    /// The milliseconds between two flushes to disk; `None`: the engine
    /// never flushes by itself.
    pub flush_every_ms: Option<u64>,
    /// What the engine favours.
    pub mode: Mode,
}

/// A configuration can be opened: its path names a directory and its
/// cache is no smaller than the engine needs.
pub open spec fn is_usable(cfg: Config) -> bool {
    !is_blank(cfg.path@) && cfg.cache_capacity >= MIN_CACHE_CAPACITY
}

/// `c` is white space.
pub open spec fn is_space(c: char) -> bool {
    let u = c as u32;
    ||| 0x09 <= u <= 0x0d
    ||| u == 0x20
    ||| u == 0x85
    ||| u == 0xa0
    ||| u == 0x1680
    ||| 0x2000 <= u <= 0x200a
    ||| u == 0x2028
    ||| u == 0x2029
    ||| u == 0x202f
    ||| u == 0x205f
    ||| u == 0x3000
}

/// `s` holds nothing but white space.
pub open spec fn is_blank(s: Seq<char>) -> bool {
    forall|i: int| 0 <= i < s.len() ==> is_space(#[trigger] s[i])
}

/// `s` without the white space at its start.
pub open spec fn trim_start(s: Seq<char>) -> Seq<char>
    decreases s.len(),
{
    if s.len() > 0 && is_space(s[0]) {
        trim_start(s.drop_first())
    } else {
        s
    }
}

/// `s` without the white space at its end.
pub open spec fn trim_end(s: Seq<char>) -> Seq<char>
    decreases s.len(),
{
    if s.len() > 0 && is_space(s.last()) {
        trim_end(s.drop_last())
    } else {
        s
    }
}

/// `s` without the white space at its start and at its end.
pub open spec fn trimmed(s: Seq<char>) -> Seq<char> {
    trim_end(trim_start(s))
}

/// Whether `c` is white space.
pub fn space(c: char) -> (r: bool)
    ensures
        r == is_space(c),
{
    let u: u32 = c as u32;
    (0x09 <= u && u <= 0x0d) || u == 0x20 || u == 0x85 || u == 0xa0 || u == 0x1680 || (0x2000 <= u
        && u <= 0x200a) || u == 0x2028 || u == 0x2029 || u == 0x202f || u == 0x205f || u == 0x3000
}

/// Cutting white space off the start leaves the part from the first
/// character that is none.
proof fn lemma_trim_start(s: Seq<char>, from: int)
    requires
        0 <= from <= s.len(),
        forall|i: int| 0 <= i < from ==> is_space(#[trigger] s[i]),
        from < s.len() ==> !is_space(s[from]),
    ensures
        trim_start(s) == s.subrange(from, s.len() as int),
    decreases from,
{
    if from == 0 {
        assert(s.subrange(0, s.len() as int) =~= s);
    } else {
        assert(is_space(s[0]));
        let rest = s.drop_first();
        assert forall|i: int| 0 <= i < from - 1 implies is_space(#[trigger] rest[i]) by {
            assert(rest[i] == s[i + 1]);
        }
        lemma_trim_start(rest, from - 1);
        assert(rest.subrange(from - 1, rest.len() as int) =~= s.subrange(from, s.len() as int));
    }
}

/// Cutting white space off the end leaves the part up to the last
/// character that is none.
proof fn lemma_trim_end(s: Seq<char>, to: int)
    requires
        0 <= to <= s.len(),
        forall|i: int| to <= i < s.len() ==> is_space(#[trigger] s[i]),
        to > 0 ==> !is_space(s[to - 1]),
    ensures
        trim_end(s) == s.subrange(0, to),
    decreases s.len() - to,
{
    if to == s.len() {
        assert(s.subrange(0, to) =~= s);
    } else {
        assert(is_space(s.last()));
        let rest = s.drop_last();
        lemma_trim_end(rest, to);
        assert(rest.subrange(0, to) =~= s.subrange(0, to));
    }
}

/// `text` without the white space at its start and at its end.
pub fn trim(text: &str) -> (r: &str)
    ensures
        r@ == trimmed(text@),
        r@.len() == 0 <==> is_blank(text@),
{
    let n: usize = text.unicode_len();
    let mut from: usize = 0;
    while from < n && space(text.get_char(from))
        invariant
            n == text@.len(),
            from <= n,
            forall|i: int| 0 <= i < from ==> is_space(#[trigger] text@[i]),
        decreases n - from,
    {
        from += 1;
    }
    let mut to: usize = n;
    while to > from && space(text.get_char(to - 1))
        invariant
            n == text@.len(),
            from <= to <= n,
            forall|i: int| to <= i < n ==> is_space(#[trigger] text@[i]),
        decreases to,
    {
        to -= 1;
    }
    proof {
        lemma_trim_start(text@, from as int);
        let rest = text@.subrange(from as int, n as int);
        assert forall|i: int| to - from <= i < rest.len() implies is_space(#[trigger] rest[i]) by {
            assert(rest[i] == text@[from + i]);
        }
        lemma_trim_end(rest, to - from);
        assert(rest.subrange(0, to - from) =~= text@.subrange(from as int, to as int));
        if from < to {
            assert(!is_space(text@[from as int]));
        }
    }
    text.substring_char(from, to)
}

impl Default for Config {
    /// No directory yet, a cache of one gibibyte, a flush every three
    /// seconds, and less space rather than more writes.
    fn default() -> (r: Config)
        ensures
            r.path@.len() == 0,
            r.cache_capacity == DEFAULT_CACHE_CAPACITY,
            r.flush_interval_ms == DEFAULT_FLUSH_INTERVAL_MS,
            r.mode == Mode::LowSpace,
    {
        Config {
            path: String::new(),
            cache_capacity: DEFAULT_CACHE_CAPACITY,
            flush_interval_ms: DEFAULT_FLUSH_INTERVAL_MS,
            mode: Mode::LowSpace,
        }
    }
}

impl Config {
    /// The directory of the database's files: the path without the white
    /// space around it. A path of white space alone names no directory.
    pub fn storage_dir(&self) -> (r: Result<&str, StorageError>)
        ensures
            match r {
                Ok(dir) => !is_blank(self.path@) && dir@ == trimmed(self.path@),
                Err(e) => is_blank(self.path@) && e is Config,
            },
    {
        let dir = trim(self.path.as_str());
        if dir.unicode_len() == 0 {
            Err(StorageError::Config)
        } else {
            Ok(dir)
        }
    }

    /// The engine's settings for this configuration: the directory
    /// without the white space around it, and the rest as it stands. An
    /// error if and only if the path names no directory.
    pub fn to_sled_config(&self) -> (r: Result<SledSettings, StorageError>)
        ensures
            match r {
                Ok(settings) => {
                    &&& !is_blank(self.path@)
                    &&& settings.path@ == trimmed(self.path@)
                    &&& settings.cache_capacity == self.cache_capacity
                    &&& settings.flush_every_ms == Some(self.flush_interval_ms)
                    &&& settings.mode == self.mode
                },
                Err(e) => is_blank(self.path@) && e is Config,
            },
    {
        let dir = self.storage_dir()?;
        Ok(
            SledSettings {
                path: String::from_str(dir),
                cache_capacity: self.cache_capacity,
                flush_every_ms: Some(self.flush_interval_ms),
                mode: self.mode,
            },
        )
    }
}

/// Opens the database that `cfg` names, and creates it if it is not
/// there. A configuration that cannot be opened is refused before the
/// engine is asked: one whose path names no directory, and one whose cache
/// is smaller than `MIN_CACHE_CAPACITY`, on which the engine would panic.
/// The engine is asked for the directory without the white space around
/// it, and for the cache, the flush interval and the mode as they stand.
pub fn init_db(cfg: &Config) -> (r: Result<StorageDB, StorageError>)
    ensures
        match r {
            Ok(db) => is_usable(*cfg) && db.opened_with() == (
                trimmed(cfg.path@),
                cfg.cache_capacity,
                Some(cfg.flush_interval_ms),
                cfg.mode == Mode::LowSpace,
            ),
            Err(StorageError::Config) => !is_usable(*cfg),
            Err(e) => is_usable(*cfg) && e is Io,
        },
{
    let settings = cfg.to_sled_config()?;
    if settings.cache_capacity < MIN_CACHE_CAPACITY {
        return Err(StorageError::Config);
    }
    let opened = match settings.mode {
        Mode::LowSpace => open_low_space(
            settings.path.as_str(),
            settings.cache_capacity,
            settings.flush_every_ms,
        ),
        Mode::HighThroughput => open_high_throughput(
            settings.path.as_str(),
            settings.cache_capacity,
            settings.flush_every_ms,
        ),
    };
    match opened {
        Ok(db) => Ok(StorageDB::Sled(SledStorageDB::hold(db))),
        Err(e) => Err(StorageError::Io(e)),
    }
}

/// Opens a database in a new directory of its own, which is removed when
/// the database is dropped.
pub fn temporary_db() -> (r: Result<StorageDB, StorageError>)
    ensures
        r matches Err(e) ==> e is Io,
{
    match open_temporary() {
        Ok(db) => Ok(StorageDB::Sled(SledStorageDB::hold(db))),
        Err(e) => Err(StorageError::Io(e)),
    }
}

} // verus!
