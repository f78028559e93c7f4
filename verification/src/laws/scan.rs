//! The law of scans: a scan finds exactly the flat keys that match.

use vstd::prelude::*;
use crate::bytes::{lemma_lex_transitive, lemma_prefix_concat, lemma_prefix_transitive, lex_lt};
use crate::engine::is_prefix_scan;
use crate::glob::{
    glob_matches, lemma_glob_match_has_prefix, lemma_star_matches_all, literal_prefix,
};
use crate::keys::{kv_key, lemma_key_order, lemma_tagged, Namespace};
use crate::model::{flat_key_of, kv_live, kv_scan, listable, matching_among, scan_candidates, Store};
use crate::scan::any_key;

verus! {

/// A scan finds exactly the flat keys that match the pattern and hold a
/// value, each once, in ascending order.
pub proof fn law_scan_exact(s: Store, pattern: Seq<u8>, now: i64)
    requires
        listable(s, kv_key(literal_prefix(pattern))),
    ensures
        forall|key: Seq<u8>|
            #![trigger kv_scan(s, pattern, now).contains(key)]
            #![trigger glob_matches(pattern, key)]
            kv_scan(s, pattern, now).contains(key) <==> kv_live(s, key, now) && glob_matches(
                pattern,
                key,
            ),
        forall|i: int, j: int|
            0 <= i < j < kv_scan(s, pattern, now).len() ==> lex_lt(
                #[trigger] kv_scan(s, pattern, now)[i],
                #[trigger] kv_scan(s, pattern, now)[j],
            ),
{
    let under = kv_key(literal_prefix(pattern));
    let found = scan_candidates(s, pattern);
    assert(is_prefix_scan(found, s, under));
    lemma_tagged(Namespace::Kv, literal_prefix(pattern));
    lemma_matching(found, found.len() as int, s, pattern, now);
    let hits = kv_scan(s, pattern, now);
    assert(found.subrange(0, found.len() as int) =~= found);
    assert forall|key: Seq<u8>| hits.contains(key) <==> kv_live(s, key, now) && glob_matches(
        pattern,
        key,
    ) by {
        if kv_live(s, key, now) && glob_matches(pattern, key) {
            lemma_glob_match_has_prefix(pattern, key);
            let stored = kv_key(key);
            assert(under.is_prefix_of(stored)) by {
                lemma_prefix_concat(Namespace::Kv.prefix(), literal_prefix(pattern), stored);
                assert(stored.subrange(Namespace::Kv.prefix().len() as int, stored.len() as int)
                    =~= key);
                lemma_tagged(Namespace::Kv, key);
            }
            let i = choose|i: int| 0 <= i < found.len() && #[trigger] found[i].0 == stored;
            assert(flat_key_of(found[i].0) =~= key);
        }
    }
    assert forall|i: int, j: int| 0 <= i < j < hits.len() implies lex_lt(
        #[trigger] hits[i],
        #[trigger] hits[j],
    ) by {
        lemma_key_order(Namespace::Kv, hits[i], hits[j]);
    }
}

/// A scan for `*` finds every flat key that holds a value: the number of
/// flat keys is the length of that scan.
pub proof fn law_scan_all(s: Store, now: i64)
    requires
        listable(s, kv_key(Seq::empty())),
    ensures
        forall|key: Seq<u8>|
            #![trigger kv_scan(s, any_key(), now).contains(key)]
            #![trigger kv_live(s, key, now)]
            kv_scan(s, any_key(), now).contains(key) <==> kv_live(s, key, now),
{
    assert forall|key: Seq<u8>| kv_scan(s, any_key(), now).contains(key) <==> kv_live(
        s,
        key,
        now,
    ) by {
        lemma_star_matches_all(key);
        law_scan_exact(s, any_key(), now);
    }
}

/// Where the matches among the first `n` candidates come from: each is
/// the flat key of a candidate that matches and holds a value, every such
/// candidate is among them, and they keep the candidates' order.
proof fn lemma_matching(
    found: Seq<(Seq<u8>, Seq<u8>)>,
    n: int,
    s: Store,
    pattern: Seq<u8>,
    now: i64,
)
    requires
        0 <= n <= found.len(),
        is_prefix_scan(found, s, kv_key(literal_prefix(pattern))),
        Namespace::Kv.prefix().is_prefix_of(kv_key(literal_prefix(pattern))),
    ensures
        ({
            let hits = matching_among(found.subrange(0, n), s, pattern, now);
            &&& forall|h: int|
                0 <= h < hits.len() ==> kv_live(s, #[trigger] hits[h], now) && glob_matches(
                    pattern,
                    hits[h],
                ) && exists|i: int| 0 <= i < n && found[i].0 == kv_key(hits[h])
            &&& forall|i: int|
                0 <= i < n && kv_live(s, flat_key_of(#[trigger] found[i].0), now) && glob_matches(
                    pattern,
                    flat_key_of(found[i].0),
                ) ==> hits.contains(flat_key_of(found[i].0))
            &&& forall|g: int, h: int|
                0 <= g < h < hits.len() ==> lex_lt(
                    kv_key(#[trigger] hits[g]),
                    kv_key(#[trigger] hits[h]),
                )
            &&& forall|h: int|
                0 <= h < hits.len() && n < found.len() ==> lex_lt(
                    kv_key(#[trigger] hits[h]),
                    found[n].0,
                )
        }),
    decreases n,
{
    let upto = found.subrange(0, n);
    let hits = matching_among(upto, s, pattern, now);
    if n > 0 {
        lemma_matching(found, n - 1, s, pattern, now);
        assert(upto.drop_last() =~= found.subrange(0, n - 1));
        let before = matching_among(found.subrange(0, n - 1), s, pattern, now);
        let stored = found[n - 1].0;
        let key = flat_key_of(stored);
        assert(upto.last() == found[n - 1]);
        assert(kv_key(key) =~= stored) by {
            lemma_prefix_transitive(
                Namespace::Kv.prefix(),
                kv_key(literal_prefix(pattern)),
                stored,
            );
            assert(stored.subrange(0, Namespace::Kv.prefix().len() as int)
                =~= Namespace::Kv.prefix());
        }
        assert forall|h: int| 0 <= h < hits.len() implies kv_live(s, #[trigger] hits[h], now)
            && glob_matches(pattern, hits[h]) && exists|i: int|
            0 <= i < n && found[i].0 == kv_key(hits[h]) by {
            if h < before.len() {
                assert(hits[h] == before[h]);
                let i = choose|i: int| 0 <= i < n - 1 && found[i].0 == kv_key(before[h]);
                assert(0 <= i < n && found[i].0 == kv_key(hits[h]));
            } else {
                assert(found[n - 1].0 == kv_key(hits[h]));
            }
        }
        assert forall|i: int|
            0 <= i < n && kv_live(s, flat_key_of(#[trigger] found[i].0), now) && glob_matches(
                pattern,
                flat_key_of(found[i].0),
            ) implies hits.contains(flat_key_of(found[i].0)) by {
            if i < n - 1 {
                let h = choose|h: int|
                    0 <= h < before.len() && before[h] == flat_key_of(found[i].0);
                assert(hits[h] == flat_key_of(found[i].0));
            } else {
                assert(hits[hits.len() - 1] == key);
            }
        }
        assert forall|g: int, h: int| 0 <= g < h < hits.len() implies lex_lt(
            kv_key(#[trigger] hits[g]),
            kv_key(#[trigger] hits[h]),
        ) by {
            if h < before.len() {
                assert(hits[g] == before[g] && hits[h] == before[h]);
            } else {
                assert(hits[g] == before[g]);
            }
        }
        assert forall|h: int| 0 <= h < hits.len() && n < found.len() implies lex_lt(
            kv_key(#[trigger] hits[h]),
            found[n].0,
        ) by {
            if h < before.len() {
                assert(hits[h] == before[h]);
                lemma_lex_transitive(kv_key(before[h]), found[n - 1].0, found[n].0);
            }
        }
    } else {
        assert(upto =~= Seq::<(Seq<u8>, Seq<u8>)>::empty());
    }
}

} // verus!
