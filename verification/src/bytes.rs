//! Byte-string helpers: prefix tests, splitting at a separator, and the
//! big-endian integer encodings used inside keys and records.

use vstd::prelude::*;
use vstd::slice::slice_subrange;
use vstd::slice::slice_to_vec;

verus! {

/// `needle` occurs in `hay` starting at offset `at`.
pub open spec fn occurs_at(hay: Seq<u8>, needle: Seq<u8>, at: int) -> bool {
    &&& 0 <= at
    &&& at + needle.len() <= hay.len()
    &&& hay.subrange(at, at + needle.len()) == needle
}

/// `at` is the smallest offset at which `needle` occurs in `hay`.
pub open spec fn first_occurrence(hay: Seq<u8>, needle: Seq<u8>, at: int) -> bool {
    &&& occurs_at(hay, needle, at)
    &&& forall|j: int| 0 <= j < at ==> !occurs_at(hay, needle, j)
}

/// `needle` occurs somewhere in `hay`.
pub open spec fn contains_subslice(hay: Seq<u8>, needle: Seq<u8>) -> bool {
    exists|at: int| occurs_at(hay, needle, at)
}

/// Splitting a byte string just behind the first occurrence of a separator.
pub trait SplitSubslice {
    /// The bytes that `self` stands for.
    spec fn content(&self) -> Seq<u8>;

    /// Splits at the end of the first occurrence of `subslice`: the first
    /// part ends with the separator, the second part is what follows it.
    /// `None` when the separator does not occur.
    fn split_subslice(&self, subslice: &[u8]) -> (r: Option<(&[u8], &[u8])>)
        requires
            subslice@.len() > 0,
        ensures
            r is None <==> !contains_subslice(self.content(), subslice@),
            r matches Some((head, tail)) ==> {
                &&& first_occurrence(self.content(), subslice@, head@.len() - subslice@.len())
                &&& head@ + tail@ == self.content()
            },
    ;
}

impl SplitSubslice for [u8] {
    open spec fn content(&self) -> Seq<u8> {
        self@
    }

    fn split_subslice(&self, subslice: &[u8]) -> (r: Option<(&[u8], &[u8])>) {
        let n: usize = subslice.len();
        let len: usize = self.len();
        if len < n {
            assert forall|at: int| !occurs_at(self@, subslice@, at) by {}
            return None;
        }
        let mut i: usize = 0;
        while i <= len - n
            invariant
                n == subslice@.len(),
                len == self@.len(),
                0 < n <= len,
                i <= len - n + 1,
                forall|j: int| 0 <= j < i ==> !occurs_at(self@, subslice@, j),
            decreases len - i,
        {
            if matches_at(self, subslice, i) {
                let head = slice_subrange(self, 0, i + n);
                let tail = slice_subrange(self, i + n, len);
                assert(head@ + tail@ =~= self@);
                assert(contains_subslice(self@, subslice@));
                return Some((head, tail));
            }
            i += 1;
        }
        assert forall|at: int| !occurs_at(self@, subslice@, at) by {}
        None
    }
}

/// Whether `needle` occurs in `hay` at offset `at`.
pub fn matches_at(hay: &[u8], needle: &[u8], at: usize) -> (r: bool)
    requires
        at + needle@.len() <= hay@.len(),
    ensures
        r == occurs_at(hay@, needle@, at as int),
{
    let n: usize = needle.len();
    let total: usize = hay.len();
    let mut k: usize = 0;
    while k < n
        invariant
            n == needle@.len(),
            total == hay@.len(),
            at + n <= total,
            k <= n,
            forall|j: int| 0 <= j < k ==> hay@[at + j] == needle@[j],
        decreases n - k,
    {
        if hay[at + k] != needle[k] {
            assert(hay@.subrange(at as int, at + n)[k as int] != needle@[k as int]);
            return false;
        }
        k += 1;
    }
    assert(hay@.subrange(at as int, at + n) =~= needle@);
    true
}

/// Appends `extra` to `out`.
pub fn append(out: &mut Vec<u8>, extra: &[u8])
    ensures
        final(out)@ == old(out)@ + extra@,
{
    let n: usize = extra.len();
    let mut i: usize = 0;
    while i < n
        invariant
            n == extra@.len(),
            i <= n,
            out@ == old(out)@ + extra@.subrange(0, i as int),
        decreases n - i,
    {
        out.push(extra[i]);
        i += 1;
        assert(out@ =~= old(out)@ + extra@.subrange(0, i as int));
    }
    assert(extra@.subrange(0, n as int) =~= extra@);
}

/// The bytes of `hay` from offset `from` on.
pub fn tail_from(hay: &[u8], from: usize) -> (out: Vec<u8>)
    requires
        from <= hay@.len(),
    ensures
        out@ == hay@.subrange(from as int, hay@.len() as int),
{
    slice_to_vec(slice_subrange(hay, from, hay.len()))
}

/// A byte known to lie under a prefix is the prefix's byte.
pub proof fn lemma_prefix_byte(p: Seq<u8>, s: Seq<u8>, i: int)
    requires
        p.is_prefix_of(s),
        0 <= i < p.len(),
    ensures
        s[i] == p[i],
{
    assert(s.subrange(0, p.len() as int)[i] == s[i]);
}

/// A prefix of a prefix is a prefix.
pub proof fn lemma_prefix_transitive(a: Seq<u8>, b: Seq<u8>, c: Seq<u8>)
    requires
        a.is_prefix_of(b),
        b.is_prefix_of(c),
    ensures
        a.is_prefix_of(c),
{
    assert forall|i: int| 0 <= i < a.len() implies c[i] == a[i] by {
        lemma_prefix_byte(a, b, i);
        lemma_prefix_byte(b, c, i);
    }
    assert(a =~= c.subrange(0, a.len() as int));
}

/// What begins with `a + b` begins with `a`, and goes on with `b`.
pub proof fn lemma_prefix_concat(a: Seq<u8>, b: Seq<u8>, s: Seq<u8>)
    ensures
        (a + b).is_prefix_of(s) <==> a.is_prefix_of(s) && b.is_prefix_of(
            s.subrange(a.len() as int, s.len() as int),
        ),
{
    let rest = s.subrange(a.len() as int, s.len() as int);
    if (a + b).is_prefix_of(s) {
        assert forall|i: int| 0 <= i < a.len() implies s[i] == a[i] by {
            lemma_prefix_byte(a + b, s, i);
        }
        assert(a =~= s.subrange(0, a.len() as int));
        assert forall|i: int| 0 <= i < b.len() implies rest[i] == b[i] by {
            lemma_prefix_byte(a + b, s, a.len() + i);
        }
        assert(b =~= rest.subrange(0, b.len() as int));
    }
    if a.is_prefix_of(s) && b.is_prefix_of(rest) {
        assert forall|i: int| 0 <= i < (a + b).len() implies s[i] == (a + b)[i] by {
            if i < a.len() {
                lemma_prefix_byte(a, s, i);
            } else {
                lemma_prefix_byte(b, rest, i - a.len());
            }
        }
        assert((a + b) =~= s.subrange(0, (a + b).len() as int));
    }
}

/// Whether `hay` begins with `prefix`.
pub fn starts_with(hay: &[u8], prefix: &[u8]) -> (r: bool)
    ensures
        r == prefix@.is_prefix_of(hay@),
{
    if prefix.len() > hay.len() {
        return false;
    }
    let r = matches_at(hay, prefix, 0);
    assert(r == prefix@.is_prefix_of(hay@)) by {
        if r {
            assert(hay@.subrange(0, prefix@.len() as int) == prefix@);
        }
        if prefix@.is_prefix_of(hay@) {
            assert(hay@.subrange(0, prefix@.len() as int) =~= prefix@);
        }
    }
    r
}

/// `256` to the power `width`: how many numbers `width` bytes can spell.
pub open spec fn span(width: nat) -> nat
    decreases width,
{
    if width == 0 {
        1
    } else {
        256 * span((width - 1) as nat)
    }
}

/// The `width` low-order bytes of `x`, most significant first.
pub open spec fn be_bytes(x: nat, width: nat) -> Seq<u8>
    decreases width,
{
    if width == 0 {
        Seq::empty()
    } else {
        be_bytes(x / 256, (width - 1) as nat).push((x % 256) as u8)
    }
}

/// The number that a byte string spells, most significant byte first.
pub open spec fn be_value(s: Seq<u8>) -> nat
    decreases s.len(),
{
    if s.len() == 0 {
        0
    } else {
        be_value(s.drop_last()) * 256 + s.last() as nat
    }
}

/// The eight bytes of `x`, most significant first.
pub open spec fn u64_be(x: u64) -> Seq<u8> {
    be_bytes(x as nat, 8)
}

/// The number that eight bytes spell, most significant first.
pub open spec fn u64_from_be(s: Seq<u8>) -> nat {
    be_value(s)
}

/// Eight bytes span exactly the 64-bit numbers.
pub proof fn lemma_span_eight()
    ensures
        span(8) == 0x1_0000_0000_0000_0000,
{
    reveal_with_fuel(span, 9);
}

/// An encoding has the width asked for.
pub proof fn lemma_be_bytes_len(x: nat, width: nat)
    ensures
        be_bytes(x, width).len() == width,
    decreases width,
{
    if width > 0 {
        lemma_be_bytes_len(x / 256, (width - 1) as nat);
    }
}

/// Decoding undoes encoding for every number that fits the width.
pub proof fn lemma_be_roundtrip(x: nat, width: nat)
    requires
        x < span(width),
    ensures
        be_value(be_bytes(x, width)) == x,
    decreases width,
{
    if width > 0 {
        let rest = be_bytes(x / 256, (width - 1) as nat);
        lemma_be_roundtrip(x / 256, (width - 1) as nat);
        assert(rest.push((x % 256) as u8).drop_last() =~= rest);
    }
}

/// A byte string spells a number that fits its length, and encoding that
/// number at that length gives the string back.
pub proof fn lemma_be_value_roundtrip(s: Seq<u8>)
    ensures
        be_value(s) < span(s.len()),
        be_bytes(be_value(s), s.len()) == s,
    decreases s.len(),
{
    if s.len() > 0 {
        lemma_be_value_roundtrip(s.drop_last());
        let v = be_value(s.drop_last());
        assert((v * 256 + s.last() as nat) / 256 == v);
        assert((v * 256 + s.last() as nat) % 256 == s.last() as nat);
        assert(be_bytes(be_value(s), s.len()) =~= s);
    } else {
        assert(be_bytes(be_value(s), s.len()) =~= s);
    }
}

/// Decoding undoes encoding.
pub proof fn lemma_u64_be_roundtrip(x: u64)
    ensures
        u64_be(x).len() == 8,
        u64_from_be(u64_be(x)) == x,
{
    lemma_span_eight();
    lemma_be_bytes_len(x as nat, 8);
    lemma_be_roundtrip(x as nat, 8);
}

/// Encoding undoes decoding: eight bytes spell one number only.
pub proof fn lemma_u64_from_be_roundtrip(s: Seq<u8>)
    requires
        s.len() == 8,
    ensures
        u64_from_be(s) <= u64::MAX,
        u64_be(u64_from_be(s) as u64) == s,
{
    lemma_span_eight();
    lemma_be_value_roundtrip(s);
}

/// Two numbers with the same encoding are the same.
pub proof fn lemma_u64_be_injective(x: u64, y: u64)
    requires
        u64_be(x) == u64_be(y),
    ensures
        x == y,
{
    lemma_u64_be_roundtrip(x);
    lemma_u64_be_roundtrip(y);
}

/// Encodes `x` as eight bytes, most significant first.
pub fn encode_u64(x: u64) -> (out: Vec<u8>)
    ensures
        out@ == u64_be(x),
        out@.len() == 8,
{
    let mut rev: Vec<u8> = Vec::new();
    let mut rest: u64 = x;
    let mut i: usize = 0;
    while i < 8
        invariant
            i <= 8,
            rev@.len() == i,
            forall|w: nat| #[trigger]
                be_bytes(x as nat, i as nat + w) == be_bytes(rest as nat, w) + rev@.reverse(),
        decreases 8 - i,
    {
        let low: u8 = (rest % 256) as u8;
        proof {
            assert forall|w: nat| #[trigger] be_bytes(x as nat, (i + 1) as nat + w) == be_bytes(
                (rest / 256) as nat,
                w,
            ) + rev@.push(low).reverse() by {
                assert(be_bytes(x as nat, i as nat + (w + 1)) == be_bytes(rest as nat, w + 1)
                    + rev@.reverse());
                assert(i as nat + (w + 1) == (i + 1) as nat + w);
                assert(be_bytes(rest as nat, w + 1) == be_bytes(rest as nat / 256, w).push(low));
                assert(be_bytes(rest as nat / 256, w).push(low) + rev@.reverse() =~= be_bytes(
                    (rest / 256) as nat,
                    w,
                ) + rev@.push(low).reverse());
            }
        }
        rev.push(low);
        rest = rest / 256;
        i += 1;
    }
    let mut out: Vec<u8> = Vec::new();
    let mut j: usize = 8;
    while j > 0
        invariant
            j <= 8,
            rev@.len() == 8,
            out@.len() == 8 - j,
            forall|k: int| 0 <= k < out@.len() ==> out@[k] == rev@[7 - k],
        decreases j,
    {
        j -= 1;
        out.push(rev[j]);
    }
    proof {
        assert(be_bytes(x as nat, 8 as nat + 0) == be_bytes(rest as nat, 0) + rev@.reverse());
        assert(out@ =~= rev@.reverse());
        assert(be_bytes(rest as nat, 0) + rev@.reverse() =~= rev@.reverse());
    }
    out
}

/// Decodes eight bytes, most significant first; `None` for any other length.
pub fn decode_u64(bytes: &[u8]) -> (r: Option<u64>)
    ensures
        r is Some <==> bytes@.len() == 8,
        r matches Some(x) ==> x == u64_from_be(bytes@) && u64_be(x) == bytes@,
{
    if bytes.len() != 8 {
        return None;
    }
    proof {
        lemma_u64_from_be_roundtrip(bytes@);
        lemma_span_eight();
    }
    let mut acc: u64 = 0;
    let mut i: usize = 0;
    while i < 8
        invariant
            i <= 8,
            bytes@.len() == 8,
            acc == be_value(bytes@.subrange(0, i as int)),
            be_value(bytes@) < 0x1_0000_0000_0000_0000,
        decreases 8 - i,
    {
        proof {
            let next = bytes@.subrange(0, i + 1);
            assert(next.drop_last() =~= bytes@.subrange(0, i as int));
            assert(next.last() == bytes@[i as int]);
            lemma_be_value_prefix_bound(bytes@, i + 1);
        }
        acc = acc * 256 + bytes[i] as u64;
        i += 1;
    }
    assert(bytes@.subrange(0, 8) =~= bytes@);
    Some(acc)
}

/// What a leading part of a byte string spells is no more than what the
/// whole string spells.
pub proof fn lemma_be_value_prefix_bound(s: Seq<u8>, n: int)
    requires
        0 <= n <= s.len(),
    ensures
        be_value(s.subrange(0, n)) <= be_value(s),
    decreases s.len() - n,
{
    if n < s.len() {
        lemma_be_value_prefix_bound(s.drop_last(), n);
        assert(s.drop_last().subrange(0, n) =~= s.subrange(0, n));
    } else {
        assert(s.subrange(0, n) =~= s);
    }
}

/// The unsigned number with the same 64 bits as `x` in two's complement.
pub open spec fn twos_complement(x: i64) -> u64 {
    if x >= 0 {
        x as u64
    } else {
        (x + 0x1_0000_0000_0000_0000) as u64
    }
}

/// The signed number with the same 64 bits as `u` in two's complement.
pub open spec fn from_twos_complement(u: u64) -> i64 {
    if u < 0x8000_0000_0000_0000 {
        u as i64
    } else {
        (u - 0x1_0000_0000_0000_0000) as i64
    }
}

/// The eight bytes of `x` in two's complement, most significant first.
pub open spec fn i64_be(x: i64) -> Seq<u8> {
    u64_be(twos_complement(x))
}

/// The signed number that eight bytes spell in two's complement.
pub open spec fn i64_from_be(s: Seq<u8>) -> i64
    recommends
        s.len() == 8,
{
    from_twos_complement(u64_from_be(s) as u64)
}

/// Decoding undoes encoding, for signed numbers.
pub proof fn lemma_i64_be_roundtrip(x: i64)
    ensures
        i64_be(x).len() == 8,
        i64_from_be(i64_be(x)) == x,
{
    lemma_u64_be_roundtrip(twos_complement(x));
}

/// Encoding undoes decoding, for signed numbers.
pub proof fn lemma_i64_from_be_roundtrip(s: Seq<u8>)
    requires
        s.len() == 8,
    ensures
        i64_be(i64_from_be(s)) == s,
{
    lemma_u64_from_be_roundtrip(s);
}

/// Encodes `x` as eight bytes in two's complement, most significant first.
pub fn encode_i64(x: i64) -> (out: Vec<u8>)
    ensures
        out@ == i64_be(x),
{
    let u: u64 = if x >= 0 {
        x as u64
    } else {
        ((x - i64::MIN) as u64) + 0x8000_0000_0000_0000
    };
    encode_u64(u)
}

/// Decodes eight bytes in two's complement; `None` for any other length.
pub fn decode_i64(bytes: &[u8]) -> (r: Option<i64>)
    ensures
        r is Some <==> bytes@.len() == 8,
        r matches Some(x) ==> x == i64_from_be(bytes@) && i64_be(x) == bytes@,
{
    match decode_u64(bytes) {
        None => None,
        Some(u) => {
            proof {
                lemma_i64_from_be_roundtrip(bytes@);
            }
            if u < 0x8000_0000_0000_0000 {
                Some(u as i64)
            } else {
                Some(((u - 0x8000_0000_0000_0000) as i64) + i64::MIN)
            }
        },
    }
}

/// Byte-wise (lexicographic) order: `a` sorts strictly before `b`.
pub open spec fn lex_lt(a: Seq<u8>, b: Seq<u8>) -> bool
    decreases a.len(),
{
    if b.len() == 0 {
        false
    } else if a.len() == 0 {
        true
    } else if a[0] != b[0] {
        a[0] < b[0]
    } else {
        lex_lt(a.drop_first(), b.drop_first())
    }
}

/// No byte string sorts before itself.
pub proof fn lemma_lex_irreflexive(a: Seq<u8>)
    ensures
        !lex_lt(a, a),
    decreases a.len(),
{
    if a.len() > 0 {
        lemma_lex_irreflexive(a.drop_first());
    }
}

/// The order is transitive.
pub proof fn lemma_lex_transitive(a: Seq<u8>, b: Seq<u8>, c: Seq<u8>)
    requires
        lex_lt(a, b),
        lex_lt(b, c),
    ensures
        lex_lt(a, c),
    decreases a.len(),
{
    if a.len() > 0 && a[0] == b[0] && b[0] == c[0] {
        lemma_lex_transitive(a.drop_first(), b.drop_first(), c.drop_first());
    }
}

/// Two strings of one length are ordered by their last byte where all
/// before it is the same, and by what is before it otherwise.
pub proof fn lemma_lex_by_last(a: Seq<u8>, b: Seq<u8>)
    requires
        a.len() == b.len(),
        a.len() > 0,
    ensures
        lex_lt(a, b) == (lex_lt(a.drop_last(), b.drop_last()) || (a.drop_last() == b.drop_last()
            && a.last() < b.last())),
    decreases a.len(),
{
    if a.len() == 1 {
        assert(a.drop_last() =~= b.drop_last());
        assert(a.last() == a[0] && b.last() == b[0]);
        assert(!lex_lt(a.drop_first(), b.drop_first()));
        assert(!lex_lt(a.drop_last(), b.drop_last()));
    } else {
        let a1 = a.drop_first();
        let b1 = b.drop_first();
        assert(a.drop_last().drop_first() =~= a1.drop_last());
        assert(b.drop_last().drop_first() =~= b1.drop_last());
        assert(a.drop_last()[0] == a[0] && b.drop_last()[0] == b[0]);
        assert(a.last() == a1.last() && b.last() == b1.last());
        if a[0] == b[0] {
            lemma_lex_by_last(a1, b1);
            if a1.drop_last() == b1.drop_last() {
                assert forall|k: int| 0 <= k < a.len() - 1 implies a.drop_last()[k]
                    == b.drop_last()[k] by {
                    if k > 0 {
                        assert(a1.drop_last()[k - 1] == b1.drop_last()[k - 1]);
                    }
                }
                assert(a.drop_last() =~= b.drop_last());
            }
        }
    }
}

/// Strings of one length sort as the numbers that they spell.
pub proof fn lemma_be_value_order(a: Seq<u8>, b: Seq<u8>)
    requires
        a.len() == b.len(),
    ensures
        lex_lt(a, b) == (be_value(a) < be_value(b)),
        (a == b) == (be_value(a) == be_value(b)),
    decreases a.len(),
{
    if a.len() == 0 {
        assert(a =~= b);
    } else {
        lemma_be_value_order(a.drop_last(), b.drop_last());
        lemma_lex_by_last(a, b);
        if a.drop_last() == b.drop_last() && a.last() == b.last() {
            assert forall|k: int| 0 <= k < a.len() implies a[k] == b[k] by {
                if k < a.len() - 1 {
                    assert(a.drop_last()[k] == b.drop_last()[k]);
                }
            }
            assert(a =~= b);
        }
    }
}

/// The encodings of two numbers sort as the numbers.
pub proof fn lemma_u64_be_order(x: u64, y: u64)
    ensures
        lex_lt(u64_be(x), u64_be(y)) == (x < y),
{
    lemma_u64_be_roundtrip(x);
    lemma_u64_be_roundtrip(y);
    lemma_be_value_order(u64_be(x), u64_be(y));
}

/// Putting the same bytes in front of two strings keeps their order.
pub proof fn lemma_lex_common_prefix(p: Seq<u8>, a: Seq<u8>, b: Seq<u8>)
    ensures
        lex_lt(p + a, p + b) == lex_lt(a, b),
    decreases p.len(),
{
    if p.len() == 0 {
        assert(p + a =~= a);
        assert(p + b =~= b);
    } else {
        assert((p + a).drop_first() =~= p.drop_first() + a);
        assert((p + b).drop_first() =~= p.drop_first() + b);
        lemma_lex_common_prefix(p.drop_first(), a, b);
    }
}

} // verus!
