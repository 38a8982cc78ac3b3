//! Tokens: classified, positioned lexical units.

use vstd::prelude::*;

verus! {

/// Classification of one lexical unit.
#[derive(Clone, Copy, Debug, PartialEq, Eq, Structural)]
pub enum TokenKind {
    Punctuation,
    Number,
    EndOfFile,
}

/// Mathematical image of a token: its kind, the exact bytes it matched, and
/// the half-open span `[start, end)` of byte offsets into the source.
pub struct SpecToken {
    pub kind: TokenKind,
    pub value: Seq<u8>,
    pub start: int,
    pub end: int,
}

/// One lexical unit: the classified kind, the exact matched bytes (empty for
/// `EndOfFile`), and the half-open span `[start, end)` of byte offsets into
/// the original source, kept for diagnostics.
#[derive(Clone, Debug, PartialEq, Eq)]
pub struct Token {
    pub kind: TokenKind,
    pub value: Vec<u8>,
    pub start: usize,
    pub end: usize,
}

impl View for Token {
    type V = SpecToken;

    open spec fn view(&self) -> SpecToken {
        SpecToken {
            kind: self.kind,
            value: self.value@,
            start: self.start as int,
            end: self.end as int,
        }
    }
}

impl Token {
    /// Builds a token from its kind, matched bytes, and span endpoints.
    pub fn new(kind: TokenKind, value: Vec<u8>, start: usize, end: usize) -> (t: Token)
        ensures
            t@ == (SpecToken {
                kind,
                value: value@,
                start: start as int,
                end: end as int,
            }),
    {
        Token { kind, value, start, end }
    }
}

/// The view of a token sequence, token by token.
pub open spec fn toks_view(ts: Seq<Token>) -> Seq<SpecToken> {
    ts.map_values(|t: Token| t@)
}

/// A well-shaped token sequence: it closes with exactly one `EndOfFile`
/// token, which stands nowhere else.
pub open spec fn wf_tokens(ts: Seq<SpecToken>) -> bool {
    &&& ts.len() >= 1
    &&& ts.last().kind == TokenKind::EndOfFile
    &&& forall|j: int| 0 <= j < ts.len() - 1 ==> ts[j].kind != TokenKind::EndOfFile
}

/// Spans are ordered and sit inside a source of `n` bytes: each token's
/// span is a well-formed range no later than the next token's, and spans of
/// distinct tokens do not overlap.
pub open spec fn spans_ordered(ts: Seq<SpecToken>, n: int) -> bool {
    &&& forall|j: int| #![trigger ts[j]] 0 <= j < ts.len() ==> 0 <= ts[j].start <= ts[j].end <= n
    &&& forall|j: int, k: int|
        #![trigger ts[j], ts[k]]
        0 <= j < k < ts.len() ==> ts[j].end <= ts[k].start
}

/// Whether a token vector is well shaped: nonempty, closed by `EndOfFile`,
/// with no `EndOfFile` anywhere earlier.
pub fn well_formed_tokens(toks: &Vec<Token>) -> (r: bool)
    ensures
        r == wf_tokens(toks_view(toks@)),
{
    if toks.len() == 0 {
        return false;
    }
    if toks[toks.len() - 1].kind != TokenKind::EndOfFile {
        proof {
            assert(toks_view(toks@).len() == toks@.len());
            assert(toks_view(toks@).last() == toks@[toks@.len() - 1]@);
        }
        return false;
    }
    let mut j: usize = 0;
    while j < toks.len() - 1
        invariant
            toks@.len() >= 1,
            j <= toks@.len() - 1,
            toks_view(toks@)[toks@.len() - 1].kind == TokenKind::EndOfFile,
            forall|k: int| 0 <= k < j ==> toks_view(toks@)[k].kind != TokenKind::EndOfFile,
        decreases toks@.len() - 1 - j,
    {
        proof {
            assert(toks_view(toks@)[j as int] == toks@[j as int]@);
        }
        if toks[j].kind == TokenKind::EndOfFile {
            return false;
        }
        j = j + 1;
    }
    true
}

} // verus!
