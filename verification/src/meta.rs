//! The records that describe a collection: the marker that says a map or
//! list exists, when it was made and when it expires, and a list's head
//! and tail cursors.

use vstd::prelude::*;
use vstd::slice::slice_subrange;
use crate::bytes::{
    append, decode_i64, decode_u64, encode_i64, encode_u64, i64_be, i64_from_be,
    lemma_i64_be_roundtrip, lemma_u64_be_roundtrip, lemma_u64_from_be_roundtrip, u64_be,
    u64_from_be,
};

verus! {

/// A collection's marker: the time it was made, and the time it expires,
/// if it does.
#[derive(Clone, Copy, Debug)]
pub struct Meta {
    /// When the collection was made.
    pub created: i64,
    /// When the collection expires; `None`: never.
    pub expiry: Option<i64>,
}

impl Meta {
    /// The stored form: the creation time in eight bytes, then, if there is
    /// one, the expiry time in eight more.
    pub open spec fn record(self) -> Seq<u8> {
        match self.expiry {
            Some(at) => i64_be(self.created) + i64_be(at),
            None => i64_be(self.created),
        }
    }

    /// The marker that a stored record stands for; `None` if the record
    /// has neither eight nor sixteen bytes.
    pub open spec fn parse(bytes: Seq<u8>) -> Option<Meta> {
        if bytes.len() == 8 {
            Some(Meta { created: i64_from_be(bytes), expiry: None })
        } else if bytes.len() == 16 {
            Some(
                Meta {
                    created: i64_from_be(bytes.subrange(0, 8)),
                    expiry: Some(i64_from_be(bytes.subrange(8, 16))),
                },
            )
        } else {
            None
        }
    }

    /// The marker as stored.
    pub fn encode(&self) -> (out: Vec<u8>)
        ensures
            out@ == self.record(),
    {
        let mut out = encode_i64(self.created);
        match self.expiry {
            Some(at) => {
                let tail = encode_i64(at);
                append(&mut out, tail.as_slice());
            },
            None => {},
        }
        out
    }

    /// Reads a stored marker.
    pub fn decode(bytes: &[u8]) -> (r: Option<Meta>)
        ensures
            r == Meta::parse(bytes@),
    {
        if bytes.len() == 8 {
            match decode_i64(bytes) {
                Some(created) => Some(Meta { created, expiry: None }),
                None => None,
            }
        } else if bytes.len() == 16 {
            let first = decode_i64(slice_subrange(bytes, 0, 8));
            let second = decode_i64(slice_subrange(bytes, 8, 16));
            match (first, second) {
                (Some(created), Some(at)) => Some(Meta { created, expiry: Some(at) }),
                _ => None,
            }
        } else {
            None
        }
    }

    /// Reading a stored marker gives back the marker that was stored.
    pub proof fn lemma_roundtrip(self)
        ensures
            Meta::parse(self.record()) == Some(self),
    {
        lemma_i64_be_roundtrip(self.created);
        match self.expiry {
            Some(at) => {
                lemma_i64_be_roundtrip(at);
                let whole = self.record();
                assert(whole.subrange(0, 8) =~= i64_be(self.created));
                assert(whole.subrange(8, 16) =~= i64_be(at));
            },
            None => {},
        }
    }
}

/// A list's cursors: the positions of its first entry and of the next
/// entry to be written. The list holds `tail - head` entries.
#[derive(Clone, Copy, Debug)]
pub struct Cursors {
    /// The position of the first entry.
    pub head: u64,
    /// The position that the next pushed entry takes.
    pub tail: u64,
}

impl Cursors {
    /// The head never passes the tail.
    pub open spec fn wf(self) -> bool {
        self.head <= self.tail
    }

    /// The number of entries between the cursors.
    pub open spec fn count(self) -> nat {
        (self.tail - self.head) as nat
    }

    /// The cursors of a list that has never been written.
    pub open spec fn start() -> Cursors {
        Cursors { head: 0, tail: 0 }
    }

    /// The stored form: head, then tail, eight bytes each.
    pub open spec fn record(self) -> Seq<u8> {
        u64_be(self.head) + u64_be(self.tail)
    }

    /// The cursors that a stored record stands for; `None` unless it has
    /// sixteen bytes and the head does not pass the tail.
    pub open spec fn parse(bytes: Seq<u8>) -> Option<Cursors> {
        if bytes.len() == 16 && u64_from_be(bytes.subrange(0, 8)) <= u64_from_be(
            bytes.subrange(8, 16),
        ) {
            Some(
                Cursors {
                    head: u64_from_be(bytes.subrange(0, 8)) as u64,
                    tail: u64_from_be(bytes.subrange(8, 16)) as u64,
                },
            )
        } else {
            None
        }
    }

    /// The cursors as stored.
    pub fn encode(&self) -> (out: Vec<u8>)
        ensures
            out@ == self.record(),
    {
        let mut out = encode_u64(self.head);
        let tail = encode_u64(self.tail);
        append(&mut out, tail.as_slice());
        out
    }

    /// Reads stored cursors.
    pub fn decode(bytes: &[u8]) -> (r: Option<Cursors>)
        ensures
            r == Cursors::parse(bytes@),
            r matches Some(c) ==> c.wf(),
    {
        if bytes.len() != 16 {
            return None;
        }
        let first = decode_u64(slice_subrange(bytes, 0, 8));
        let second = decode_u64(slice_subrange(bytes, 8, 16));
        match (first, second) {
            (Some(head), Some(tail)) => if head <= tail {
                Some(Cursors { head, tail })
            } else {
                None
            },
            _ => None,
        }
    }

    /// Cursors read from a record are well formed.
    pub proof fn lemma_parse_wf(bytes: Seq<u8>)
        ensures
            Cursors::parse(bytes) matches Some(c) ==> c.wf(),
    {
        if bytes.len() == 16 {
            lemma_u64_from_be_roundtrip(bytes.subrange(0, 8));
            lemma_u64_from_be_roundtrip(bytes.subrange(8, 16));
        }
    }

    /// Reading stored cursors gives back the cursors that were stored.
    pub proof fn lemma_roundtrip(self)
        requires
            self.wf(),
        ensures
            Cursors::parse(self.record()) == Some(self),
    {
        lemma_u64_be_roundtrip(self.head);
        lemma_u64_be_roundtrip(self.tail);
        let whole = self.record();
        assert(whole.subrange(0, 8) =~= u64_be(self.head));
        assert(whole.subrange(8, 16) =~= u64_be(self.tail));
    }
}

} // verus!
