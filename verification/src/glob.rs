//! Wildcard patterns over byte strings: `*` stands for any run of bytes,
//! empty or not, `?` for exactly one byte, and `\*` and `\?` for the two
//! characters themselves. Every other byte, a backslash before anything
//! else included, stands for itself.

use vstd::prelude::*;
use crate::bytes::lemma_prefix_byte;

verus! {

/// `*`
pub const STAR: u8 = 0x2a;

/// `?`
pub const QUESTION: u8 = 0x3f;

/// `\`
pub const BACKSLASH: u8 = 0x5c;

/// One step of a pattern.
#[derive(Clone, Copy, Debug, PartialEq, Eq, Structural)]
pub enum Token {
    /// Exactly this byte.
    Literal(u8),
    /// Any one byte.
    AnyOne,
    /// Any run of bytes, the empty run included.
    AnyRun,
}

/// The pattern begins with an escaped wildcard.
pub open spec fn escape_at_start(pattern: Seq<u8>) -> bool {
    pattern.len() >= 2 && pattern[0] == BACKSLASH && (pattern[1] == STAR || pattern[1] == QUESTION)
}

/// The steps that a pattern spells.
pub open spec fn tokens(pattern: Seq<u8>) -> Seq<Token>
    decreases pattern.len(),
{
    if pattern.len() == 0 {
        Seq::empty()
    } else if escape_at_start(pattern) {
        seq![Token::Literal(pattern[1])] + tokens(pattern.subrange(2, pattern.len() as int))
    } else if pattern[0] == STAR {
        seq![Token::AnyRun] + tokens(pattern.drop_first())
    } else if pattern[0] == QUESTION {
        seq![Token::AnyOne] + tokens(pattern.drop_first())
    } else {
        seq![Token::Literal(pattern[0])] + tokens(pattern.drop_first())
    }
}

/// The steps `toks` take `text` from its first byte to its end.
pub open spec fn tokens_match(toks: Seq<Token>, text: Seq<u8>) -> bool
    decreases toks.len(), text.len(),
{
    if toks.len() == 0 {
        text.len() == 0
    } else {
        match toks[0] {
            Token::Literal(b) => text.len() > 0 && text[0] == b && tokens_match(
                toks.drop_first(),
                text.drop_first(),
            ),
            Token::AnyOne => text.len() > 0 && tokens_match(toks.drop_first(), text.drop_first()),
            Token::AnyRun => tokens_match(toks.drop_first(), text) || (text.len() > 0
                && tokens_match(toks, text.drop_first())),
        }
    }
}

/// `text` matches `pattern`.
pub open spec fn glob_matches(pattern: Seq<u8>, text: Seq<u8>) -> bool {
    tokens_match(tokens(pattern), text)
}

/// The bytes of the literal steps that `toks` begins with.
pub open spec fn leading_literals(toks: Seq<Token>) -> Seq<u8>
    decreases toks.len(),
{
    if toks.len() == 0 {
        Seq::empty()
    } else {
        match toks[0] {
            Token::Literal(b) => seq![b] + leading_literals(toks.drop_first()),
            _ => Seq::empty(),
        }
    }
}

/// The bytes that every match of `pattern` begins with: its literal bytes
/// up to the first wildcard, escapes resolved.
pub open spec fn literal_prefix(pattern: Seq<u8>) -> Seq<u8> {
    leading_literals(tokens(pattern))
}

/// What matches a pattern begins with the pattern's literal prefix.
pub proof fn lemma_match_has_prefix(toks: Seq<Token>, text: Seq<u8>)
    requires
        tokens_match(toks, text),
    ensures
        leading_literals(toks).is_prefix_of(text),
    decreases toks.len(),
{
    if toks.len() > 0 {
        match toks[0] {
            Token::Literal(b) => {
                lemma_match_has_prefix(toks.drop_first(), text.drop_first());
                let rest = leading_literals(toks.drop_first());
                let lead = leading_literals(toks);
                assert forall|i: int| 0 <= i < lead.len() implies text[i] == lead[i] by {
                    if i > 0 {
                        lemma_prefix_byte(rest, text.drop_first(), i - 1);
                    }
                }
                assert(lead =~= text.subrange(0, lead.len() as int));
            },
            _ => {
                assert(leading_literals(toks) =~= text.subrange(0, 0));
            },
        }
    } else {
        assert(leading_literals(toks) =~= text.subrange(0, 0));
    }
}

/// What matches a pattern begins with the pattern's literal prefix.
pub proof fn lemma_glob_match_has_prefix(pattern: Seq<u8>, text: Seq<u8>)
    requires
        glob_matches(pattern, text),
    ensures
        literal_prefix(pattern).is_prefix_of(text),
{
    lemma_match_has_prefix(tokens(pattern), text);
}

/// A lone `*` matches every byte string.
pub proof fn lemma_star_matches_all(text: Seq<u8>)
    ensures
        glob_matches(seq![STAR], text),
        literal_prefix(seq![STAR]) == Seq::<u8>::empty(),
    decreases text.len(),
{
    let pattern = seq![STAR];
    assert(pattern.drop_first() =~= Seq::<u8>::empty());
    assert(tokens(pattern.drop_first()) == Seq::<Token>::empty());
    assert(tokens(pattern) =~= seq![Token::AnyRun]);
    let toks = tokens(pattern);
    assert(toks.drop_first() =~= Seq::<Token>::empty());
    if text.len() == 0 {
        assert(tokens_match(toks.drop_first(), text));
    } else {
        lemma_star_matches_all(text.drop_first());
    }
}

/// Reads a pattern into its steps.
pub fn parse(pattern: &[u8]) -> (toks: Vec<Token>)
    ensures
        toks@ == tokens(pattern@),
{
    let n: usize = pattern.len();
    let mut toks: Vec<Token> = Vec::new();
    let mut i: usize = 0;
    assert(toks@ + tokens(pattern@.subrange(0, n as int)) =~= tokens(pattern@)) by {
        assert(pattern@.subrange(0, n as int) =~= pattern@);
    }
    while i < n
        invariant
            n == pattern@.len(),
            i <= n,
            tokens(pattern@) == toks@ + tokens(pattern@.subrange(i as int, n as int)),
        decreases n - i,
    {
        let ghost rest = pattern@.subrange(i as int, n as int);
        let ghost before = toks@;
        if pattern[i] == BACKSLASH && n - i >= 2 && (pattern[i + 1] == STAR || pattern[i + 1]
            == QUESTION) {
            toks.push(Token::Literal(pattern[i + 1]));
            proof {
                assert(escape_at_start(rest));
                assert(rest.subrange(2, rest.len() as int) =~= pattern@.subrange(
                    i + 2,
                    n as int,
                ));
                assert(toks@ + tokens(pattern@.subrange(i + 2, n as int)) =~= before + tokens(
                    rest,
                ));
            }
            i += 2;
        } else {
            let tok = if pattern[i] == STAR {
                Token::AnyRun
            } else if pattern[i] == QUESTION {
                Token::AnyOne
            } else {
                Token::Literal(pattern[i])
            };
            toks.push(tok);
            proof {
                assert(!escape_at_start(rest));
                assert(rest.drop_first() =~= pattern@.subrange(i + 1, n as int));
                assert(toks@ + tokens(pattern@.subrange(i + 1, n as int)) =~= before + tokens(
                    rest,
                ));
            }
            i += 1;
        }
    }
    assert(toks@ + tokens(pattern@.subrange(n as int, n as int)) =~= toks@);
    toks
}

/// The bytes of the literal steps that `toks` begins with.
pub fn leading_bytes(toks: &Vec<Token>) -> (out: Vec<u8>)
    ensures
        out@ == leading_literals(toks@),
{
    let n: usize = toks.len();
    let mut out: Vec<u8> = Vec::new();
    let mut i: usize = 0;
    assert(out@ + leading_literals(toks@.subrange(0, n as int)) =~= leading_literals(toks@)) by {
        assert(toks@.subrange(0, n as int) =~= toks@);
    }
    while i < n
        invariant
            n == toks@.len(),
            i <= n,
            leading_literals(toks@) == out@ + leading_literals(toks@.subrange(i as int, n as int)),
        decreases n - i,
    {
        let ghost rest = toks@.subrange(i as int, n as int);
        let ghost before = out@;
        match toks[i] {
            Token::Literal(b) => {
                out.push(b);
                proof {
                    assert(rest.drop_first() =~= toks@.subrange(i + 1, n as int));
                    assert(out@ + leading_literals(toks@.subrange(i + 1, n as int)) =~= before
                        + leading_literals(rest));
                }
            },
            _ => {
                assert(out@ + leading_literals(rest) =~= out@);
                return out;
            },
        }
        i += 1;
    }
    assert(out@ + leading_literals(toks@.subrange(n as int, n as int)) =~= out@);
    out
}

/// The bytes that every match of `pattern` begins with.
pub fn pattern_prefix(pattern: &[u8]) -> (out: Vec<u8>)
    ensures
        out@ == literal_prefix(pattern@),
{
    let toks = parse(pattern);
    leading_bytes(&toks)
}

/// The steps from the `i`-th on take `text` from its `j`-th byte to its
/// end.
pub open spec fn rest_matches(toks: Seq<Token>, text: Seq<u8>, i: int, j: int) -> bool {
    tokens_match(toks.subrange(i, toks.len() as int), text.subrange(j, text.len() as int))
}

/// What one step decides, in terms of the steps and bytes behind it.
proof fn lemma_step(toks: Seq<Token>, text: Seq<u8>, i: int, j: int)
    requires
        0 <= i <= toks.len(),
        0 <= j <= text.len(),
    ensures
        i == toks.len() ==> rest_matches(toks, text, i, j) == (j == text.len()),
        i < toks.len() ==> rest_matches(toks, text, i, j) == match toks[i] {
            Token::Literal(b) => j < text.len() && text[j] == b && rest_matches(
                toks,
                text,
                i + 1,
                j + 1,
            ),
            Token::AnyOne => j < text.len() && rest_matches(toks, text, i + 1, j + 1),
            Token::AnyRun => rest_matches(toks, text, i + 1, j) || (j < text.len()
                && rest_matches(toks, text, i, j + 1)),
        },
{
    let t = toks.subrange(i, toks.len() as int);
    let x = text.subrange(j, text.len() as int);
    if i < toks.len() {
        assert(t[0] == toks[i]);
        assert(t.drop_first() =~= toks.subrange(i + 1, toks.len() as int));
        if j < text.len() {
            assert(x[0] == text[j]);
            assert(x.drop_first() =~= text.subrange(j + 1, text.len() as int));
        }
    }
}

/// Whether the steps `toks` take `text` from its first byte to its end.
pub fn tokens_accept(toks: &Vec<Token>, text: &[u8]) -> (r: bool)
    ensures
        r == tokens_match(toks@, text@),
{
    let n: usize = toks.len();
    let m: usize = text.len();
    // below[j]: the steps behind the current one take the text from byte j on
    let mut below: Vec<bool> = Vec::new();
    let mut j: usize = 0;
    while j < m
        invariant
            n == toks@.len(),
            m == text@.len(),
            j <= m,
            below@.len() == j,
            forall|k: int| 0 <= k < j ==> below@[k] == rest_matches(toks@, text@, n as int, k),
        decreases m - j,
    {
        proof {
            lemma_step(toks@, text@, n as int, j as int);
        }
        below.push(false);
        j += 1;
    }
    proof {
        lemma_step(toks@, text@, n as int, m as int);
    }
    below.push(true);
    let width: usize = below.len();
    let mut i: usize = n;
    while i > 0
        invariant
            n == toks@.len(),
            m == text@.len(),
            i <= n,
            width == m + 1,
            below@.len() == width,
            forall|k: int| 0 <= k <= m ==> below@[k] == rest_matches(toks@, text@, i as int, k),
        decreases i,
    {
        i -= 1;
        let tok = toks[i];
        // the row of this step, from the end of the text back to its start
        let mut back: Vec<bool> = Vec::new();
        let mut k: usize = width;
        while k > 0
            invariant
                n == toks@.len(),
                m == text@.len(),
                i < n,
                tok == toks@[i as int],
                width == m + 1,
                k <= width,
                below@.len() == width,
                back@.len() == width - k,
                forall|q: int|
                    0 <= q <= m ==> below@[q] == rest_matches(toks@, text@, i + 1, q),
                forall|p: int|
                    0 <= p < back@.len() ==> back@[p] == rest_matches(
                        toks@,
                        text@,
                        i as int,
                        m - p,
                    ),
            decreases k,
        {
            k -= 1;
            proof {
                lemma_step(toks@, text@, i as int, k as int);
            }
            let cell = match tok {
                Token::Literal(b) => k < m && text[k] == b && below[k + 1],
                Token::AnyOne => k < m && below[k + 1],
                Token::AnyRun => below[k] || (k < m && back[m - k - 1]),
            };
            back.push(cell);
        }
        let mut row: Vec<bool> = Vec::new();
        let mut q: usize = 0;
        while q < width
            invariant
                m == text@.len(),
                width == m + 1,
                q <= width,
                back@.len() == width,
                row@.len() == q,
                forall|p: int| 0 <= p < q ==> row@[p] == back@[m - p],
            decreases width - q,
        {
            row.push(back[m - q]);
            q += 1;
        }
        below = row;
    }
    assert(toks@.subrange(0, n as int) =~= toks@);
    assert(text@.subrange(0, m as int) =~= text@);
    below[0]
}

/// Whether `text` matches `pattern`.
pub fn glob_match(pattern: &[u8], text: &[u8]) -> (r: bool)
    ensures
        r == glob_matches(pattern@, text@),
{
    let toks = parse(pattern);
    tokens_accept(&toks, text)
}

} // verus!
