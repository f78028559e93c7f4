//! The key space. Flat keys, counters, maps and lists share one ordered
//! tree; each kind of record lives under a tag of its own, closed by the
//! separator `@`:
//!
//! | record | key |
//! |---|---|
//! | flat value | `kv@` key |
//! | flat expiry | `kv_ttl@` key |
//! | counter | `ctr@` key |
//! | map marker | `map@` name |
//! | map entry | `map_e@` length of name (eight bytes) name `@` sub-key |
//! | list marker | `list@` name |
//! | list entry | `list_e@` length of name (eight bytes) name `@` index (eight bytes) |
//! | list cursors | `list_meta@` name |
//!
//! No tag is a prefix of another, so a scan under one tag never meets a
//! record of another kind. Lengths and indexes are big-endian. The length
//! in front of a collection's name keeps its entries apart from those of
//! every other collection: a scan under one collection's entry prefix
//! never meets an entry of another, whatever bytes the names hold.

use vstd::prelude::*;
use vstd::slice::slice_subrange;
use vstd::slice::slice_to_vec;
use crate::bytes::{
    append, decode_u64, encode_u64, lemma_lex_common_prefix, lemma_prefix_byte,
    lemma_prefix_transitive, lemma_u64_be_injective, lemma_u64_be_order, lemma_u64_be_roundtrip,
    lex_lt, occurs_at, starts_with, tail_from, u64_be, u64_from_be, SplitSubslice,
};

verus! {

/// The byte that closes a tag and parts a collection's name from what
/// follows it: `@`.
pub const SEPARATOR: u8 = 0x40;

/// The kinds of record that the tree holds.
#[derive(Clone, Copy, Debug, PartialEq, Eq, Structural)]
pub enum Namespace {
    /// Values of flat keys.
    Kv,
    /// Expiry times of flat keys.
    KvTtl,
    /// Counters.
    Counter,
    /// One marker for each map that exists.
    MapMarker,
    /// The entries of all maps.
    MapEntry,
    /// One marker for each list that exists.
    ListMarker,
    /// The entries of all lists.
    ListEntry,
    /// The head and tail cursors of each list.
    ListCursors,
}

impl Namespace {
    /// The tag that every key of this kind begins with, separator included.
    pub open spec fn prefix(self) -> Seq<u8> {
        match self {
            Namespace::Kv => seq![0x6bu8, 0x76, 0x40],
            Namespace::KvTtl => seq![0x6bu8, 0x76, 0x5f, 0x74, 0x74, 0x6c, 0x40],
            Namespace::Counter => seq![0x63u8, 0x74, 0x72, 0x40],
            Namespace::MapMarker => seq![0x6du8, 0x61, 0x70, 0x40],
            Namespace::MapEntry => seq![0x6du8, 0x61, 0x70, 0x5f, 0x65, 0x40],
            Namespace::ListMarker => seq![0x6cu8, 0x69, 0x73, 0x74, 0x40],
            Namespace::ListEntry => seq![0x6cu8, 0x69, 0x73, 0x74, 0x5f, 0x65, 0x40],
            Namespace::ListCursors => seq![
                0x6cu8,
                0x69,
                0x73,
                0x74,
                0x5f,
                0x6d,
                0x65,
                0x74,
                0x61,
                0x40,
            ],
        }
    }

    /// The tag as bytes.
    pub fn prefix_bytes(self) -> (out: Vec<u8>)
        ensures
            out@ == self.prefix(),
    {
        let out = match self {
            Namespace::Kv => vec![0x6bu8, 0x76, 0x40],
            Namespace::KvTtl => vec![0x6bu8, 0x76, 0x5f, 0x74, 0x74, 0x6c, 0x40],
            Namespace::Counter => vec![0x63u8, 0x74, 0x72, 0x40],
            Namespace::MapMarker => vec![0x6du8, 0x61, 0x70, 0x40],
            Namespace::MapEntry => vec![0x6du8, 0x61, 0x70, 0x5f, 0x65, 0x40],
            Namespace::ListMarker => vec![0x6cu8, 0x69, 0x73, 0x74, 0x40],
            Namespace::ListEntry => vec![0x6cu8, 0x69, 0x73, 0x74, 0x5f, 0x65, 0x40],
            Namespace::ListCursors => vec![
                0x6cu8,
                0x69,
                0x73,
                0x74,
                0x5f,
                0x6d,
                0x65,
                0x74,
                0x61,
                0x40,
            ],
        };
        assert(out@ =~= self.prefix());
        out
    }

    /// The key of this kind for one flat key or collection name.
    pub open spec fn key(self, name: Seq<u8>) -> Seq<u8> {
        self.prefix() + name
    }

    /// The key of this kind for `name`.
    pub fn encode_key(self, name: &[u8]) -> (out: Vec<u8>)
        ensures
            out@ == self.key(name@),
    {
        let mut out = self.prefix_bytes();
        append(&mut out, name);
        out
    }

    /// The flat key or collection name that a key of this kind stands for;
    /// `None` if `key` is not of this kind.
    pub fn decode_key(self, key: &[u8]) -> (r: Option<Vec<u8>>)
        ensures
            r is Some <==> self.prefix().is_prefix_of(key@),
            r matches Some(name) ==> self.key(name@) == key@,
    {
        let tag = self.prefix_bytes();
        if !starts_with(key, tag.as_slice()) {
            return None;
        }
        let name = tail_from(key, tag.len());
        assert(self.prefix() + name@ =~= key@);
        Some(name)
    }
}

/// Every tag ends with the separator and holds no other.
pub proof fn lemma_tag_shape(ns: Namespace)
    ensures
        ns.prefix().len() > 0,
        ns.prefix().last() == SEPARATOR,
        forall|i: int| 0 <= i < ns.prefix().len() - 1 ==> ns.prefix()[i] != SEPARATOR,
{
}

/// Whether `head` is the tag of namespace `ns`.
fn is_tag(head: &[u8], ns: Namespace) -> (r: bool)
    ensures
        r == (head@ == ns.prefix()),
{
    let tag = ns.prefix_bytes();
    let r = head.len() == tag.len() && starts_with(head, tag.as_slice());
    proof {
        if r {
            assert(head@ =~= tag@) by {
                assert forall|i: int| 0 <= i < head@.len() implies head@[i] == tag@[i] by {
                    lemma_prefix_byte(tag@, head@, i);
                }
            }
        }
        if head@ == ns.prefix() {
            assert(head@.subrange(0, head@.len() as int) =~= head@);
        }
    }
    r
}

/// The namespace that a stored key lies in, and the flat key or name
/// that follows the tag. The tag is what the key holds up to its first
/// separator. `None` if `key` begins with no tag.
pub fn parse_key(key: &[u8]) -> (r: Option<(Namespace, Vec<u8>)>)
    ensures
        r matches Some((ns, name)) ==> ns.key(name@) == key@,
        r is None <==> forall|ns: Namespace| !(#[trigger] ns.prefix()).is_prefix_of(key@),
{
    let sep: Vec<u8> = vec![SEPARATOR];
    proof {
        assert forall|ns: Namespace| (#[trigger] ns.prefix()).is_prefix_of(key@) implies occurs_at(
            key@,
            sep@,
            ns.prefix().len() - 1,
        ) by {
            lemma_tag_shape(ns);
            lemma_prefix_byte(ns.prefix(), key@, ns.prefix().len() - 1);
            assert(key@.subrange(ns.prefix().len() - 1, ns.prefix().len() as int) =~= sep@);
        }
    }
    match key.split_subslice(sep.as_slice()) {
        None => None,
        Some((head, rest)) => {
            proof {
                let at = head@.len() - 1;
                assert(head@ =~= key@.subrange(0, at + 1));
                assert(key@.subrange(at, at + 1)[0] == sep@[0]);
                assert forall|ns: Namespace| (#[trigger] ns.prefix()).is_prefix_of(
                    key@,
                ) implies head@ == ns.prefix() by {
                    lemma_tag_shape(ns);
                    let t = ns.prefix().len() as int;
                    if at < t - 1 {
                        lemma_prefix_byte(ns.prefix(), key@, at);
                    }
                    assert(head@ =~= ns.prefix());
                }
            }
            let found = if is_tag(head, Namespace::Kv) {
                Some(Namespace::Kv)
            } else if is_tag(head, Namespace::KvTtl) {
                Some(Namespace::KvTtl)
            } else if is_tag(head, Namespace::Counter) {
                Some(Namespace::Counter)
            } else if is_tag(head, Namespace::MapMarker) {
                Some(Namespace::MapMarker)
            } else if is_tag(head, Namespace::MapEntry) {
                Some(Namespace::MapEntry)
            } else if is_tag(head, Namespace::ListMarker) {
                Some(Namespace::ListMarker)
            } else if is_tag(head, Namespace::ListEntry) {
                Some(Namespace::ListEntry)
            } else if is_tag(head, Namespace::ListCursors) {
                Some(Namespace::ListCursors)
            } else {
                None
            };
            match found {
                None => None,
                Some(ns) => {
                    let name = slice_to_vec(rest);
                    assert(ns.key(name@) =~= key@);
                    assert(ns.prefix().is_prefix_of(key@)) by {
                        assert(key@.subrange(0, ns.prefix().len() as int) =~= ns.prefix());
                    }
                    Some((ns, name))
                },
            }
        },
    }
}

/// The value of flat key `key` lives here.
pub open spec fn kv_key(key: Seq<u8>) -> Seq<u8> {
    Namespace::Kv.key(key)
}

/// The expiry time of flat key `key` lives here.
pub open spec fn ttl_key(key: Seq<u8>) -> Seq<u8> {
    Namespace::KvTtl.key(key)
}

/// The counter `key` lives here.
pub open spec fn counter_key(key: Seq<u8>) -> Seq<u8> {
    Namespace::Counter.key(key)
}

/// The marker of map `name` lives here.
pub open spec fn map_marker_key(name: Seq<u8>) -> Seq<u8> {
    Namespace::MapMarker.key(name)
}

/// The marker of list `name` lives here.
pub open spec fn list_marker_key(name: Seq<u8>) -> Seq<u8> {
    Namespace::ListMarker.key(name)
}

/// The cursors of list `name` live here.
pub open spec fn list_cursor_key(name: Seq<u8>) -> Seq<u8> {
    Namespace::ListCursors.key(name)
}

/// A name that a key can carry: its length fits in eight bytes, as that of
/// every byte string in memory does.
pub open spec fn is_name(name: Seq<u8>) -> bool {
    name.len() <= u64::MAX
}

/// Every byte string in memory is a name: its length is a machine word.
pub fn measured(bytes: &[u8]) -> (len: usize)
    ensures
        len == bytes@.len(),
        is_name(bytes@),
{
    bytes.len()
}

/// What every entry key of collection `name` begins with: the tag, the
/// length of the name in eight bytes, the name and a separator. The
/// length in front keeps the entries of two collections apart whatever
/// their names are: no such prefix begins another.
pub open spec fn entries_prefix(ns: Namespace, name: Seq<u8>) -> Seq<u8> {
    ns.prefix() + u64_be(name.len() as u64) + name + seq![SEPARATOR]
}

/// What every entry key of map `name` begins with.
pub open spec fn map_entries_prefix(name: Seq<u8>) -> Seq<u8> {
    entries_prefix(Namespace::MapEntry, name)
}

/// The entry `sub` of map `name` lives here.
pub open spec fn map_entry_key(name: Seq<u8>, sub: Seq<u8>) -> Seq<u8> {
    map_entries_prefix(name) + sub
}

/// What every entry key of list `name` begins with.
pub open spec fn list_entries_prefix(name: Seq<u8>) -> Seq<u8> {
    entries_prefix(Namespace::ListEntry, name)
}

/// The entry at position `index` of list `name` lives here.
pub open spec fn list_entry_key(name: Seq<u8>, index: u64) -> Seq<u8> {
    list_entries_prefix(name) + u64_be(index)
}

/// What every entry key of collection `name` begins with.
pub fn encode_entries_prefix(ns: Namespace, name: &[u8]) -> (out: Vec<u8>)
    ensures
        out@ == entries_prefix(ns, name@),
        is_name(name@),
{
    let mut out = ns.prefix_bytes();
    let width = encode_u64(measured(name) as u64);
    append(&mut out, width.as_slice());
    append(&mut out, name);
    out.push(SEPARATOR);
    assert(out@ =~= entries_prefix(ns, name@));
    out
}

/// The key of entry `sub` of map `name`.
pub fn encode_map_entry_key(name: &[u8], sub: &[u8]) -> (out: Vec<u8>)
    ensures
        out@ == map_entry_key(name@, sub@),
{
    let mut out = encode_entries_prefix(Namespace::MapEntry, name);
    append(&mut out, sub);
    out
}

/// The key of the entry at position `index` of list `name`.
pub fn encode_list_entry_key(name: &[u8], index: u64) -> (out: Vec<u8>)
    ensures
        out@ == list_entry_key(name@, index),
{
    let mut out = encode_entries_prefix(Namespace::ListEntry, name);
    let digits = encode_u64(index);
    append(&mut out, digits.as_slice());
    out
}

/// The parts of an entry key: where the tag, the length, the name, the
/// separator and what follows them lie.
pub proof fn lemma_entry_key_parts(ns: Namespace, name: Seq<u8>, rest: Seq<u8>)
    requires
        is_name(name),
    ensures
        ({
            let key = entries_prefix(ns, name) + rest;
            let t = ns.prefix().len() as int;
            let n = name.len() as int;
            &&& key.len() == t + 8 + n + 1 + rest.len()
            &&& ns.prefix().is_prefix_of(key)
            &&& key.subrange(t, t + 8) == u64_be(name.len() as u64)
            &&& u64_from_be(key.subrange(t, t + 8)) == name.len()
            &&& key.subrange(t + 8, t + 8 + n) == name
            &&& key[t + 8 + n] == SEPARATOR
            &&& key.subrange(t + 9 + n, key.len() as int) == rest
        }),
{
    let key = entries_prefix(ns, name) + rest;
    let t = ns.prefix().len() as int;
    let n = name.len() as int;
    lemma_u64_be_roundtrip(name.len() as u64);
    assert(key.subrange(0, t) =~= ns.prefix());
    assert(key.subrange(t, t + 8) =~= u64_be(name.len() as u64));
    assert(key.subrange(t + 8, t + 8 + n) =~= name);
    assert(key.subrange(t + 9 + n, key.len() as int) =~= rest);
}

/// The map name and sub-key that a map entry key stands for: the eight
/// bytes behind the tag give the length of the name, a separator follows
/// the name, and the rest is the sub-key. `None` if `key` is no map entry
/// key.
pub fn decode_map_entry_key(key: &[u8]) -> (r: Option<(Vec<u8>, Vec<u8>)>)
    ensures
        r is Some <==> exists|name: Seq<u8>, sub: Seq<u8>|
            is_name(name) && #[trigger] map_entry_key(name, sub) == key@,
        r matches Some((name, sub)) ==> map_entry_key(name@, sub@) == key@,
{
    let tag = Namespace::MapEntry.prefix_bytes();
    let t: usize = tag.len();
    let len: usize = key.len();
    proof {
        assert forall|name: Seq<u8>, sub: Seq<u8>|
            is_name(name) && #[trigger] map_entry_key(name, sub) == key@ implies {
            &&& tag@.is_prefix_of(key@)
            &&& len >= t + 8 + name.len() + 1
            &&& u64_from_be(key@.subrange(t as int, t + 8)) == name.len()
            &&& key@[t + 8 + name.len()] == SEPARATOR
        } by {
            lemma_entry_key_parts(Namespace::MapEntry, name, sub);
        }
    }
    if !starts_with(key, tag.as_slice()) || len - t < 8 {
        return None;
    }
    let width = match decode_u64(slice_subrange(key, t, t + 8)) {
        Some(width) => width,
        None => {
            return None;
        },
    };
    let room: usize = len - t - 8;
    if width >= room as u64 {
        return None;
    }
    let n: usize = width as usize;
    if key[t + 8 + n] != SEPARATOR {
        return None;
    }
    let name = slice_to_vec(slice_subrange(key, t + 8, t + 8 + n));
    let sub = slice_to_vec(slice_subrange(key, t + 9 + n, len));
    assert(map_entry_key(name@, sub@) =~= key@);
    Some((name, sub))
}

/// The list name and position that a list entry key stands for: the eight
/// bytes behind the tag give the length of the name, a separator follows
/// the name, and the last eight bytes are the position. `None` if `key` is
/// no list entry key.
pub fn decode_list_entry_key(key: &[u8]) -> (r: Option<(Vec<u8>, u64)>)
    ensures
        r is Some <==> exists|name: Seq<u8>, index: u64|
            is_name(name) && #[trigger] list_entry_key(name, index) == key@,
        r matches Some((name, index)) ==> list_entry_key(name@, index) == key@,
{
    let tag = Namespace::ListEntry.prefix_bytes();
    let t: usize = tag.len();
    let len: usize = key.len();
    proof {
        assert forall|name: Seq<u8>, index: u64|
            is_name(name) && #[trigger] list_entry_key(name, index) == key@ implies {
            &&& tag@.is_prefix_of(key@)
            &&& len == t + 8 + name.len() + 1 + 8
            &&& u64_from_be(key@.subrange(t as int, t + 8)) == name.len()
            &&& key@[t + 8 + name.len()] == SEPARATOR
        } by {
            lemma_u64_be_roundtrip(index);
            lemma_entry_key_parts(Namespace::ListEntry, name, u64_be(index));
        }
    }
    if !starts_with(key, tag.as_slice()) || len - t < 17 {
        return None;
    }
    let width = match decode_u64(slice_subrange(key, t, t + 8)) {
        Some(width) => width,
        None => {
            return None;
        },
    };
    let room: usize = len - t - 17;
    if width != room as u64 {
        return None;
    }
    let n: usize = room;
    if key[t + 8 + n] != SEPARATOR {
        return None;
    }
    let name = slice_to_vec(slice_subrange(key, t + 8, t + 8 + n));
    match decode_u64(slice_subrange(key, len - 8, len)) {
        None => None,
        Some(index) => {
            assert(list_entry_key(name@, index) =~= key@);
            Some((name, index))
        },
    }
}

/// No key lies under the entry prefixes of two collections of one kind
/// with different names.
pub proof fn lemma_entries_apart(ns: Namespace, a: Seq<u8>, b: Seq<u8>, key: Seq<u8>)
    requires
        is_name(a),
        is_name(b),
        entries_prefix(ns, a).is_prefix_of(key),
        entries_prefix(ns, b).is_prefix_of(key),
    ensures
        a == b,
{
    let pa = entries_prefix(ns, a);
    let pb = entries_prefix(ns, b);
    let t = ns.prefix().len() as int;
    let empty = Seq::<u8>::empty();
    lemma_entry_key_parts(ns, a, empty);
    lemma_entry_key_parts(ns, b, empty);
    assert(pa + empty =~= pa);
    assert(pb + empty =~= pb);
    assert(pa.subrange(t, t + 8) =~= key.subrange(t, t + 8)) by {
        assert forall|i: int| t <= i < t + 8 implies pa[i] == key[i] by {
            lemma_prefix_byte(pa, key, i);
        }
    }
    assert(pb.subrange(t, t + 8) =~= key.subrange(t, t + 8)) by {
        assert forall|i: int| t <= i < t + 8 implies pb[i] == key[i] by {
            lemma_prefix_byte(pb, key, i);
        }
    }
    assert(a.len() == b.len());
    assert forall|i: int| 0 <= i < a.len() implies a[i] == b[i] by {
        lemma_prefix_byte(pa, key, t + 8 + i);
        lemma_prefix_byte(pb, key, t + 8 + i);
        assert(pa.subrange(t + 8, t + 8 + a.len())[i] == pa[t + 8 + i]);
        assert(pb.subrange(t + 8, t + 8 + b.len())[i] == pb[t + 8 + i]);
    }
    assert(a =~= b);
}

/// Reading a flat key or collection name back from its key gives the name
/// that the key was made from, in every namespace.
pub proof fn lemma_key_roundtrip(ns: Namespace, name: Seq<u8>)
    ensures
        ns.prefix().is_prefix_of(ns.key(name)),
        ns.key(name).subrange(ns.prefix().len() as int, ns.key(name).len() as int) == name,
        forall|other: Seq<u8>| ns.key(other) == ns.key(name) ==> other == name,
{
    assert(ns.key(name).subrange(0, ns.prefix().len() as int) =~= ns.prefix());
    assert(ns.key(name).subrange(ns.prefix().len() as int, ns.key(name).len() as int) =~= name);
    assert forall|other: Seq<u8>| ns.key(other) == ns.key(name) implies other == name by {
        assert(ns.key(other).subrange(ns.prefix().len() as int, ns.key(other).len() as int)
            =~= other);
    }
}

/// No key belongs to two namespaces: the tags are pairwise not prefixes of
/// one another.
pub proof fn lemma_namespaces_disjoint(a: Namespace, b: Namespace, key: Seq<u8>)
    requires
        a.prefix().is_prefix_of(key),
        b.prefix().is_prefix_of(key),
    ensures
        a == b,
{
    lemma_prefix_byte(a.prefix(), key, 0);
    lemma_prefix_byte(b.prefix(), key, 0);
    lemma_prefix_byte(a.prefix(), key, 2);
    lemma_prefix_byte(b.prefix(), key, 2);
    if a.prefix().len() > 3 && b.prefix().len() > 3 {
        lemma_prefix_byte(a.prefix(), key, 3);
        lemma_prefix_byte(b.prefix(), key, 3);
    }
    if a.prefix().len() > 4 && b.prefix().len() > 4 {
        lemma_prefix_byte(a.prefix(), key, 4);
        lemma_prefix_byte(b.prefix(), key, 4);
    }
    if a.prefix().len() > 5 && b.prefix().len() > 5 {
        lemma_prefix_byte(a.prefix(), key, 5);
        lemma_prefix_byte(b.prefix(), key, 5);
    }
}

/// A key made in a namespace carries that namespace's tag.
pub proof fn lemma_tagged(ns: Namespace, rest: Seq<u8>)
    ensures
        ns.prefix().is_prefix_of(ns.prefix() + rest),
{
    assert((ns.prefix() + rest).subrange(0, ns.prefix().len() as int) =~= ns.prefix());
}

/// What lies under a collection's entry prefix carries the tag of the
/// entries' namespace.
pub proof fn lemma_entries_tagged(ns: Namespace, name: Seq<u8>, key: Seq<u8>)
    requires
        entries_prefix(ns, name).is_prefix_of(key),
    ensures
        ns.prefix().is_prefix_of(key),
{
    let behind = u64_be(name.len() as u64) + name + seq![SEPARATOR];
    assert(entries_prefix(ns, name) =~= ns.prefix() + behind);
    lemma_tagged(ns, behind);
    lemma_prefix_transitive(ns.prefix(), entries_prefix(ns, name), key);
}

/// Keys with the tags of two different namespaces are different keys.
pub proof fn lemma_kinds_apart(a: Namespace, b: Namespace, x: Seq<u8>, y: Seq<u8>)
    requires
        a != b,
        a.prefix().is_prefix_of(x),
        b.prefix().is_prefix_of(y),
    ensures
        x != y,
{
    if x == y {
        lemma_namespaces_disjoint(a, b, x);
    }
}

/// The keys of one list: marker, cursors and entries are all different,
/// the entries lie under the list's entry prefix and nothing else of the
/// list does, and different positions have different keys.
pub proof fn lemma_list_keys(name: Seq<u8>)
    ensures
        list_marker_key(name) != list_cursor_key(name),
        !list_entries_prefix(name).is_prefix_of(list_marker_key(name)),
        !list_entries_prefix(name).is_prefix_of(list_cursor_key(name)),
        forall|i: u64| #[trigger]
            list_entries_prefix(name).is_prefix_of(list_entry_key(name, i)),
        forall|i: u64| #[trigger] list_entry_key(name, i) != list_marker_key(name),
        forall|i: u64| #[trigger] list_entry_key(name, i) != list_cursor_key(name),
        forall|i: u64, j: u64| #[trigger]
            list_entry_key(name, i) == #[trigger] list_entry_key(name, j) ==> i == j,
{
    let marker = list_marker_key(name);
    let cursor = list_cursor_key(name);
    let entries = list_entries_prefix(name);
    lemma_tagged(Namespace::ListMarker, name);
    lemma_tagged(Namespace::ListCursors, name);
    lemma_kinds_apart(Namespace::ListMarker, Namespace::ListCursors, marker, cursor);
    if entries.is_prefix_of(marker) {
        lemma_entries_tagged(Namespace::ListEntry, name, marker);
        lemma_namespaces_disjoint(Namespace::ListEntry, Namespace::ListMarker, marker);
    }
    if entries.is_prefix_of(cursor) {
        lemma_entries_tagged(Namespace::ListEntry, name, cursor);
        lemma_namespaces_disjoint(Namespace::ListEntry, Namespace::ListCursors, cursor);
    }
    assert forall|i: u64| #[trigger] entries.is_prefix_of(list_entry_key(name, i)) by {
        assert((entries + u64_be(i)).subrange(0, entries.len() as int) =~= entries);
    }
    assert forall|i: u64| #[trigger] list_entry_key(name, i) != marker by {
        assert(entries.is_prefix_of(list_entry_key(name, i)));
    }
    assert forall|i: u64| #[trigger] list_entry_key(name, i) != cursor by {
        assert(entries.is_prefix_of(list_entry_key(name, i)));
    }
    assert forall|i: u64, j: u64| #[trigger]
        list_entry_key(name, i) == #[trigger] list_entry_key(name, j) implies i == j by {
        lemma_list_entry_key_injective(name, i, j);
    }
}

/// The keys of one map: the marker is no entry, the entries lie under the
/// map's entry prefix, and different sub-keys have different keys.
pub proof fn lemma_map_keys(name: Seq<u8>)
    ensures
        !map_entries_prefix(name).is_prefix_of(map_marker_key(name)),
        forall|sub: Seq<u8>| #[trigger]
            map_entries_prefix(name).is_prefix_of(map_entry_key(name, sub)),
        forall|sub: Seq<u8>| #[trigger] map_entry_key(name, sub) != map_marker_key(name),
        forall|a: Seq<u8>, b: Seq<u8>| #[trigger]
            map_entry_key(name, a) == #[trigger] map_entry_key(name, b) ==> a == b,
{
    let marker = map_marker_key(name);
    let entries = map_entries_prefix(name);
    lemma_tagged(Namespace::MapMarker, name);
    if entries.is_prefix_of(marker) {
        lemma_entries_tagged(Namespace::MapEntry, name, marker);
        lemma_namespaces_disjoint(Namespace::MapEntry, Namespace::MapMarker, marker);
    }
    assert forall|sub: Seq<u8>| #[trigger] entries.is_prefix_of(map_entry_key(name, sub)) by {
        assert((entries + sub).subrange(0, entries.len() as int) =~= entries);
    }
    assert forall|sub: Seq<u8>| #[trigger] map_entry_key(name, sub) != marker by {
        assert(entries.is_prefix_of(map_entry_key(name, sub)));
    }
    assert forall|a: Seq<u8>, b: Seq<u8>| #[trigger]
        map_entry_key(name, a) == #[trigger] map_entry_key(name, b) implies a == b by {
        assert((entries + a).subrange(entries.len() as int, (entries + a).len() as int) =~= a);
        assert((entries + b).subrange(entries.len() as int, (entries + b).len() as int) =~= b);
    }
}

/// The entries of one list sort by position.
pub proof fn lemma_list_entry_order(name: Seq<u8>, i: u64, j: u64)
    ensures
        lex_lt(list_entry_key(name, i), list_entry_key(name, j)) == (i < j),
{
    lemma_lex_common_prefix(list_entries_prefix(name), u64_be(i), u64_be(j));
    lemma_u64_be_order(i, j);
}

/// A map entry key stands for one map and one sub-key only: reading a key
/// back gives the name and sub-key that it was made from.
pub proof fn law_map_entry_key_unique(n1: Seq<u8>, s1: Seq<u8>, n2: Seq<u8>, s2: Seq<u8>)
    requires
        is_name(n1),
        is_name(n2),
        map_entry_key(n1, s1) == map_entry_key(n2, s2),
    ensures
        n1 == n2,
        s1 == s2,
{
    lemma_entry_key_parts(Namespace::MapEntry, n1, s1);
    lemma_entry_key_parts(Namespace::MapEntry, n2, s2);
}

/// A list entry key stands for one list and one position only: reading a
/// key back gives the name and position that it was made from.
pub proof fn law_list_entry_key_unique(n1: Seq<u8>, i1: u64, n2: Seq<u8>, i2: u64)
    requires
        is_name(n1),
        is_name(n2),
        list_entry_key(n1, i1) == list_entry_key(n2, i2),
    ensures
        n1 == n2,
        i1 == i2,
{
    lemma_entry_key_parts(Namespace::ListEntry, n1, u64_be(i1));
    lemma_entry_key_parts(Namespace::ListEntry, n2, u64_be(i2));
    lemma_u64_be_injective(i1, i2);
}

/// Within a namespace, keys sort as the names they were made from.
pub proof fn lemma_key_order(ns: Namespace, a: Seq<u8>, b: Seq<u8>)
    ensures
        lex_lt(ns.key(a), ns.key(b)) == lex_lt(a, b),
{
    lemma_lex_common_prefix(ns.prefix(), a, b);
}

/// Two positions of one list have different entry keys.
pub proof fn lemma_list_entry_key_injective(name: Seq<u8>, i: u64, j: u64)
    requires
        list_entry_key(name, i) == list_entry_key(name, j),
    ensures
        i == j,
{
    let p = list_entries_prefix(name);
    assert((p + u64_be(i)).subrange(p.len() as int, (p + u64_be(i)).len() as int) =~= u64_be(i));
    assert((p + u64_be(j)).subrange(p.len() as int, (p + u64_be(j)).len() as int) =~= u64_be(j));
    lemma_u64_be_injective(i, j);
}

} // verus!
