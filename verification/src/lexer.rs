//! The lexer: scans a byte string left to right into classified, positioned
//! tokens, skipping ascii whitespace, grouping maximal runs of ascii digits
//! into `Number` tokens, taking every other ascii punctuation byte as a
//! one-byte `Punctuation` token, and rejecting anything else.

use vstd::prelude::*;

use crate::diagnostics::CompileError;
use crate::diagnostics::ErrorKind;
use crate::token::SpecToken;
use crate::token::Token;
use crate::token::TokenKind;
use crate::token::spans_ordered;
use crate::token::toks_view;
use crate::token::wf_tokens;

verus! {

/// Ascii whitespace: space, tab, line feed, form feed, carriage return.
pub open spec fn is_ws(b: u8) -> bool {
    b == ' ' as u8 || b == '\t' as u8 || b == '\n' as u8 || b == 12u8 || b == '\r' as u8
}

/// Ascii decimal digit.
pub open spec fn is_digit(b: u8) -> bool {
    '0' as u8 <= b <= '9' as u8
}

/// Ascii punctuation: the four printable ascii ranges that are neither
/// digits, letters, nor space.
pub open spec fn is_punct(b: u8) -> bool {
    ('!' as u8 <= b <= '/' as u8) || (':' as u8 <= b <= '@' as u8) || ('[' as u8 <= b <= '`' as u8)
        || ('{' as u8 <= b <= '~' as u8)
}

/// Whether `b` is ascii whitespace.
pub fn byte_is_ws(b: u8) -> (r: bool)
    ensures
        r == is_ws(b),
{
    b == ' ' as u8 || b == '\t' as u8 || b == '\n' as u8 || b == 12u8 || b == '\r' as u8
}

/// Whether `b` is an ascii decimal digit.
pub fn byte_is_digit(b: u8) -> (r: bool)
    ensures
        r == is_digit(b),
{
    '0' as u8 <= b && b <= '9' as u8
}

/// Whether `b` is ascii punctuation.
pub fn byte_is_punct(b: u8) -> (r: bool)
    ensures
        r == is_punct(b),
{
    ('!' as u8 <= b && b <= '/' as u8) || (':' as u8 <= b && b <= '@' as u8) || ('[' as u8 <= b
        && b <= '`' as u8) || ('{' as u8 <= b && b <= '~' as u8)
}

/// The length of the maximal run of ascii digits in `s` starting at `i`.
pub open spec fn digit_run_len(s: Seq<u8>, i: int) -> nat
    decreases s.len() - i,
{
    if i < 0 || i >= s.len() || !is_digit(s[i]) {
        0
    } else {
        1 + digit_run_len(s, i + 1)
    }
}

/// A digit run starting inside `s` stays inside `s`.
pub proof fn lemma_digit_run_len_bound(s: Seq<u8>, i: int)
    requires
        0 <= i <= s.len(),
    ensures
        i + digit_run_len(s, i) <= s.len(),
    decreases s.len() - i,
{
    if i < s.len() && is_digit(s[i]) {
        lemma_digit_run_len_bound(s, i + 1);
    }
}

/// The tokens of `s` from offset `i` on, or the offset of the first byte
/// that belongs to no token class. The token list always closes with the
/// `EndOfFile` token spanning `[s.len(), s.len())`.
pub open spec fn spec_tokenize_from(s: Seq<u8>, i: int) -> Result<Seq<SpecToken>, int>
    decreases s.len() - i,
    when 0 <= i
    via spec_tokenize_from_decreases
{
    if i >= s.len() {
        Ok(
            seq![
                SpecToken {
                    kind: TokenKind::EndOfFile,
                    value: Seq::empty(),
                    start: s.len() as int,
                    end: s.len() as int,
                },
            ],
        )
    } else if is_ws(s[i]) {
        spec_tokenize_from(s, i + 1)
    } else if is_digit(s[i]) {
        let end = i + digit_run_len(s, i);
        match spec_tokenize_from(s, end) {
            Ok(rest) => Ok(
                seq![
                    SpecToken {
                        kind: TokenKind::Number,
                        value: s.subrange(i, end),
                        start: i,
                        end: end,
                    },
                ] + rest,
            ),
            Err(p) => Err(p),
        }
    } else if is_punct(s[i]) {
        match spec_tokenize_from(s, i + 1) {
            Ok(rest) => Ok(
                seq![
                    SpecToken {
                        kind: TokenKind::Punctuation,
                        value: s.subrange(i, i + 1),
                        start: i,
                        end: i + 1,
                    },
                ] + rest,
            ),
            Err(p) => Err(p),
        }
    } else {
        Err(i)
    }
}

#[via_fn]
proof fn spec_tokenize_from_decreases(s: Seq<u8>, i: int) {
    if 0 <= i < s.len() && !is_ws(s[i]) && is_digit(s[i]) {
        lemma_digit_run_len_bound(s, i);
    }
}

/// The token sequence of the whole source, or the offset of the first
/// invalid byte.
pub open spec fn spec_tokenize(s: Seq<u8>) -> Result<Seq<SpecToken>, int> {
    spec_tokenize_from(s, 0)
}

/// Tokens already produced, joined with the outcome of lexing the rest.
pub open spec fn lex_join(done: Seq<SpecToken>, rest: Result<Seq<SpecToken>, int>) -> Result<
    Seq<SpecToken>,
    int,
> {
    match rest {
        Ok(ts) => Ok(done + ts),
        Err(p) => Err(p),
    }
}

/// Extending the run scanned so far: if every byte of `[start, i)` is a
/// digit and the run stops at `i`, the maximal run from `start` ends at `i`.
proof fn lemma_digit_run_extent(s: Seq<u8>, start: int, i: int)
    requires
        0 <= start <= i <= s.len(),
        forall|j: int| start <= j < i ==> is_digit(s[j]),
        i == s.len() || !is_digit(s[i]),
    ensures
        start + digit_run_len(s, start) == i,
    decreases i - start,
{
    if start < i {
        lemma_digit_run_extent(s, start + 1, i);
    }
}

/// Putting one well-spanned, non-terminal token in front of a well-shaped
/// token sequence keeps the sequence well shaped.
proof fn lemma_wf_cons(t: SpecToken, rest: Seq<SpecToken>, n: int)
    requires
        wf_tokens(rest),
        spans_ordered(rest, n),
        t.kind != TokenKind::EndOfFile,
        0 <= t.start <= t.end <= n,
        t.end <= rest[0].start,
    ensures
        wf_tokens(seq![t] + rest),
        spans_ordered(seq![t] + rest, n),
        (seq![t] + rest)[0] == t,
{
    let ts = seq![t] + rest;
    assert(ts.last() == rest.last());
    assert forall|j: int| 0 <= j < ts.len() - 1 implies ts[j].kind != TokenKind::EndOfFile by {
        if j >= 1 {
            assert(ts[j] == rest[j - 1]);
        }
    }
    assert forall|j: int| #![trigger ts[j]] 0 <= j < ts.len() implies 0 <= ts[j].start <= ts[j].end
        <= n by {
        if j >= 1 {
            assert(ts[j] == rest[j - 1]);
        }
    }
    assert forall|j: int, k: int|
        #![trigger ts[j], ts[k]]
        0 <= j < k < ts.len() implies ts[j].end <= ts[k].start by {
        assert(ts[k] == rest[k - 1]);
        if j == 0 {
            if k > 1 {
                assert(rest[0].end <= rest[k - 1].start);
                assert(rest[0].start <= rest[0].end);
            }
        } else {
            assert(ts[j] == rest[j - 1]);
        }
    }
}

/// Every token sequence the lexer can produce is well shaped: it closes
/// with exactly one `EndOfFile` token, and the tokens' spans are ordered,
/// non-overlapping ranges inside the source, none starting before `i`.
pub proof fn lemma_spec_tokenize_wf(s: Seq<u8>, i: int)
    requires
        0 <= i <= s.len(),
        spec_tokenize_from(s, i) is Ok,
    ensures
        wf_tokens(spec_tokenize_from(s, i)->Ok_0),
        spans_ordered(spec_tokenize_from(s, i)->Ok_0, s.len() as int),
        i <= spec_tokenize_from(s, i)->Ok_0[0].start,
    decreases s.len() - i,
{
    let ts = spec_tokenize_from(s, i)->Ok_0;
    if i >= s.len() {
        assert(ts.len() == 1);
    } else if is_ws(s[i]) {
        lemma_spec_tokenize_wf(s, i + 1);
    } else if is_digit(s[i]) {
        let end = i + digit_run_len(s, i);
        lemma_digit_run_len_bound(s, i);
        lemma_spec_tokenize_wf(s, end);
        let rest = spec_tokenize_from(s, end)->Ok_0;
        lemma_wf_cons(ts[0], rest, s.len() as int);
        assert(ts == seq![ts[0]] + rest);
    } else {
        lemma_spec_tokenize_wf(s, i + 1);
        let rest = spec_tokenize_from(s, i + 1)->Ok_0;
        lemma_wf_cons(ts[0], rest, s.len() as int);
        assert(ts == seq![ts[0]] + rest);
    }
}

/// A failed scan points at a byte of the source, and that byte belongs to
/// no token class.
pub proof fn lemma_spec_tokenize_err_pos(s: Seq<u8>, i: int)
    requires
        0 <= i <= s.len(),
        spec_tokenize_from(s, i) is Err,
    ensures
        i <= spec_tokenize_from(s, i)->Err_0 < s.len(),
        !is_ws(s[spec_tokenize_from(s, i)->Err_0]),
        !is_digit(s[spec_tokenize_from(s, i)->Err_0]),
        !is_punct(s[spec_tokenize_from(s, i)->Err_0]),
    decreases s.len() - i,
{
    if i < s.len() {
        if is_ws(s[i]) {
            lemma_spec_tokenize_err_pos(s, i + 1);
        } else if is_digit(s[i]) {
            lemma_digit_run_len_bound(s, i);
            lemma_spec_tokenize_err_pos(s, i + digit_run_len(s, i));
        } else if is_punct(s[i]) {
            lemma_spec_tokenize_err_pos(s, i + 1);
        }
    }
}

/// The shape of a token: its kind and text, spans set aside.
pub open spec fn tok_shape(t: SpecToken) -> (TokenKind, Seq<u8>) {
    (t.kind, t.value)
}

/// The shapes of a token sequence.
pub open spec fn shapes(ts: Seq<SpecToken>) -> Seq<(TokenKind, Seq<u8>)> {
    ts.map_values(|t: SpecToken| tok_shape(t))
}

/// Two lexing outcomes agree up to spans: both fail, or both succeed with
/// the same token shapes.
pub open spec fn lex_shapes_agree(
    a: Result<Seq<SpecToken>, int>,
    b: Result<Seq<SpecToken>, int>,
) -> bool {
    match (a, b) {
        (Ok(x), Ok(y)) => shapes(x) == shapes(y),
        (Err(_), Err(_)) => true,
        _ => false,
    }
}

/// The source with one byte `w` inserted at offset `i`.
pub open spec fn insert_at(s: Seq<u8>, i: int, w: u8) -> Seq<u8> {
    s.subrange(0, i) + seq![w] + s.subrange(i, s.len() as int)
}

/// How the inserted source reads: unchanged before `i`, the new byte at
/// `i`, and the rest shifted one to the right.
proof fn lemma_insert_facts(s: Seq<u8>, i: int, w: u8)
    requires
        0 <= i <= s.len(),
    ensures
        insert_at(s, i, w).len() == s.len() + 1,
        forall|k: int| #![trigger insert_at(s, i, w)[k]] 0 <= k < i ==> insert_at(s, i, w)[k]
            == s[k],
        insert_at(s, i, w)[i] == w,
        forall|k: int| #![trigger insert_at(s, i, w)[k]] i < k <= s.len() ==> insert_at(s, i, w)[k]
            == s[k - 1],
{
}

/// Cons respects shapes: equal heads in front of shape-equal tails give
/// shape-equal sequences.
proof fn lemma_shapes_cons(t: SpecToken, u: SpecToken, a: Seq<SpecToken>, b: Seq<SpecToken>)
    requires
        t.kind == u.kind,
        t.value == u.value,
        shapes(a) == shapes(b),
    ensures
        shapes(seq![t] + a) == shapes(seq![u] + b),
{
    assert(shapes(seq![t] + a) =~= seq![tok_shape(t)] + shapes(a));
    assert(shapes(seq![u] + b) =~= seq![tok_shape(u)] + shapes(b));
}

/// Every byte of the maximal digit run is a digit.
proof fn lemma_digit_run_digits(s: Seq<u8>, j: int)
    requires
        0 <= j <= s.len(),
    ensures
        forall|m: int| j <= m < j + digit_run_len(s, j) ==> is_digit(s[m]),
    decreases s.len() - j,
{
    if j < s.len() && is_digit(s[j]) {
        lemma_digit_run_digits(s, j + 1);
    }
}

/// A digit run that ends at or before the insertion point is unchanged by
/// the insertion.
proof fn lemma_run_before_insert(s: Seq<u8>, i: int, w: u8, j: int)
    requires
        0 <= j <= i <= s.len(),
        is_ws(w),
        j + digit_run_len(s, j) <= i,
    ensures
        digit_run_len(insert_at(s, i, w), j) == digit_run_len(s, j),
    decreases i - j,
{
    lemma_insert_facts(s, i, w);
    if j < s.len() && is_digit(s[j]) {
        lemma_run_before_insert(s, i, w, j + 1);
    }
}

/// A digit run after the insertion point is unchanged, shifted one to the
/// right.
proof fn lemma_run_after_insert(s: Seq<u8>, i: int, w: u8, j: int)
    requires
        0 <= i <= j <= s.len(),
    ensures
        digit_run_len(insert_at(s, i, w), j + 1) == digit_run_len(s, j),
    decreases s.len() - j,
{
    lemma_insert_facts(s, i, w);
    if j < s.len() && is_digit(s[j]) {
        lemma_run_after_insert(s, i, w, j + 1);
    }
}

/// Lexing to the right of the inserted byte reads the same bytes shifted
/// one to the right, so it finds the same token shapes.
proof fn lemma_lex_after_insert(s: Seq<u8>, i: int, w: u8, j: int)
    requires
        0 <= i <= j <= s.len(),
        is_ws(w),
    ensures
        lex_shapes_agree(spec_tokenize_from(s, j), spec_tokenize_from(insert_at(s, i, w), j + 1)),
    decreases s.len() - j,
{
    lemma_insert_facts(s, i, w);
    let s2 = insert_at(s, i, w);
    if j >= s.len() {
        let a = spec_tokenize_from(s, j)->Ok_0;
        let b = spec_tokenize_from(s2, j + 1)->Ok_0;
        assert(shapes(a) =~= seq![(TokenKind::EndOfFile, Seq::<u8>::empty())]);
        assert(shapes(b) =~= seq![(TokenKind::EndOfFile, Seq::<u8>::empty())]);
    } else {
        assert(s2[j + 1] == s[j]);
        if is_ws(s[j]) {
            lemma_lex_after_insert(s, i, w, j + 1);
        } else if is_digit(s[j]) {
            let e = j + digit_run_len(s, j);
            lemma_digit_run_len_bound(s, j);
            lemma_run_after_insert(s, i, w, j);
            lemma_lex_after_insert(s, i, w, e);
            assert(s2.subrange(j + 1, e + 1) =~= s.subrange(j, e));
            match (spec_tokenize_from(s, e), spec_tokenize_from(s2, e + 1)) {
                (Ok(a), Ok(b)) => {
                    lemma_shapes_cons(
                        spec_tokenize_from(s, j)->Ok_0[0],
                        spec_tokenize_from(s2, j + 1)->Ok_0[0],
                        a,
                        b,
                    );
                },
                _ => {
                },
            }
        } else if is_punct(s[j]) {
            lemma_lex_after_insert(s, i, w, j + 1);
            assert(s2.subrange(j + 1, j + 2) =~= s.subrange(j, j + 1));
            match (spec_tokenize_from(s, j + 1), spec_tokenize_from(s2, j + 2)) {
                (Ok(a), Ok(b)) => {
                    lemma_shapes_cons(
                        spec_tokenize_from(s, j)->Ok_0[0],
                        spec_tokenize_from(s2, j + 1)->Ok_0[0],
                        a,
                        b,
                    );
                },
                _ => {
                },
            }
        }
    }
}

/// Lexing to the left of the inserted byte reads unchanged bytes, and no
/// digit run reaches the insertion point, so it finds the same token shapes
/// up to the point and skips the inserted whitespace there.
proof fn lemma_lex_before_insert(s: Seq<u8>, i: int, w: u8, j: int)
    requires
        0 <= j <= i <= s.len(),
        is_ws(w),
        !(0 < i < s.len() && is_digit(s[i - 1]) && is_digit(s[i])),
    ensures
        lex_shapes_agree(spec_tokenize_from(s, j), spec_tokenize_from(insert_at(s, i, w), j)),
    decreases i - j,
{
    lemma_insert_facts(s, i, w);
    let s2 = insert_at(s, i, w);
    if j == i {
        assert(s2[i] == w && is_ws(w));
        assert(spec_tokenize_from(s2, i) == spec_tokenize_from(s2, i + 1));
        lemma_lex_after_insert(s, i, w, i);
    } else {
        assert(s2[j] == s[j]);
        if is_ws(s[j]) {
            lemma_lex_before_insert(s, i, w, j + 1);
        } else if is_digit(s[j]) {
            let e = j + digit_run_len(s, j);
            lemma_digit_run_len_bound(s, j);
            lemma_digit_run_digits(s, j);
            if e > i {
                assert(is_digit(s[i]));
                assert(is_digit(s[i - 1]));
                assert(false);
            }
            lemma_run_before_insert(s, i, w, j);
            lemma_lex_before_insert(s, i, w, e);
            assert(s2.subrange(j, e) =~= s.subrange(j, e));
            match (spec_tokenize_from(s, e), spec_tokenize_from(s2, e)) {
                (Ok(a), Ok(b)) => {
                    lemma_shapes_cons(
                        spec_tokenize_from(s, j)->Ok_0[0],
                        spec_tokenize_from(s2, j)->Ok_0[0],
                        a,
                        b,
                    );
                },
                _ => {
                },
            }
        } else if is_punct(s[j]) {
            lemma_lex_before_insert(s, i, w, j + 1);
            assert(s2.subrange(j, j + 1) =~= s.subrange(j, j + 1));
            match (spec_tokenize_from(s, j + 1), spec_tokenize_from(s2, j + 1)) {
                (Ok(a), Ok(b)) => {
                    lemma_shapes_cons(
                        spec_tokenize_from(s, j)->Ok_0[0],
                        spec_tokenize_from(s2, j)->Ok_0[0],
                        a,
                        b,
                    );
                },
                _ => {
                },
            }
        }
    }
}

/// Determinism: one source has one token sequence — kinds, texts and spans.
/// Any two successful scans of equal sources yield equal tokens, since
/// `tokenize` returns exactly `spec_tokenize` of its input.
pub proof fn lemma_tokenize_deterministic(s: Seq<u8>, a: Seq<SpecToken>, b: Seq<SpecToken>)
    requires
        spec_tokenize(s) == Ok::<Seq<SpecToken>, int>(a),
        spec_tokenize(s) == Ok::<Seq<SpecToken>, int>(b),
    ensures
        a == b,
{
}

/// Whitespace insensitivity: inserting an ascii whitespace byte anywhere
/// that does not split a digit run leaves the tokens' kinds and texts
/// unchanged (spans shift, and are set aside here), and leaves a failing
/// scan failing.
pub proof fn lemma_whitespace_insensitive(s: Seq<u8>, i: int, w: u8)
    requires
        0 <= i <= s.len(),
        is_ws(w),
        !(0 < i < s.len() && is_digit(s[i - 1]) && is_digit(s[i])),
    ensures
        lex_shapes_agree(spec_tokenize(s), spec_tokenize(insert_at(s, i, w))),
{
    lemma_lex_before_insert(s, i, w, 0);
}

/// Scans the whole source into its token sequence. Ascii whitespace is
/// skipped; a maximal digit run becomes one `Number` token; any other ascii
/// punctuation byte becomes a one-byte `Punctuation` token; the list closes
/// with the `EndOfFile` token spanning `[code.len(), code.len())`. Any other
/// byte stops the scan with an `InvalidCharacter` error at its offset.
pub fn tokenize(code: &[u8]) -> (r: Result<Vec<Token>, CompileError>)
    ensures
        match r {
            Ok(toks) => spec_tokenize(code@) == Ok::<Seq<SpecToken>, int>(toks_view(toks@)),
            Err(e) => spec_tokenize(code@) == Err::<Seq<SpecToken>, int>(e.start as int) && e
                == (CompileError {
                kind: ErrorKind::InvalidCharacter,
                start: e.start,
                end: (e.start + 1) as usize,
            }),
        },
{
    let ghost s = code@;
    let mut toks: Vec<Token> = Vec::new();
    let mut i: usize = 0;
    while i < code.len()
        invariant
            0 <= i <= s.len(),
            s == code@,
            spec_tokenize(s) == lex_join(toks_view(toks@), spec_tokenize_from(s, i as int)),
        decreases s.len() - i,
    {
        let b = code[i];
        if byte_is_ws(b) {
            i = i + 1;
        } else if byte_is_digit(b) {
            let start = i;
            let mut value: Vec<u8> = Vec::new();
            while i < code.len() && byte_is_digit(code[i])
                invariant
                    start <= i <= s.len(),
                    s == code@,
                    value@ == s.subrange(start as int, i as int),
                    forall|j: int| start <= j < i ==> is_digit(s[j]),
                decreases s.len() - i,
            {
                value.push(code[i]);
                i = i + 1;
                assert(value@ =~= s.subrange(start as int, i as int));
            }
            proof {
                lemma_digit_run_extent(s, start as int, i as int);
            }
            let token = Token::new(TokenKind::Number, value, start, i);
            proof {
                let done = toks_view(toks@);
                let tok = token@;
                match spec_tokenize_from(s, i as int) {
                    Ok(rest) => {
                        assert(spec_tokenize_from(s, start as int) == Ok::<Seq<SpecToken>, int>(
                            seq![tok] + rest,
                        ));
                        assert(done + (seq![tok] + rest) =~= (done + seq![tok]) + rest);
                        assert(toks_view(toks@.push(token)) =~= done + seq![tok]);
                    },
                    Err(_) => {
                        assert(toks_view(toks@.push(token)) =~= done + seq![tok]);
                    },
                }
            }
            toks.push(token);
        } else if byte_is_punct(b) {
            let mut value: Vec<u8> = Vec::new();
            value.push(b);
            let token = Token::new(TokenKind::Punctuation, value, i, i + 1);
            proof {
                let done = toks_view(toks@);
                let tok = token@;
                assert(tok.value =~= s.subrange(i as int, i + 1));
                match spec_tokenize_from(s, i + 1) {
                    Ok(rest) => {
                        assert(done + (seq![tok] + rest) =~= (done + seq![tok]) + rest);
                        assert(toks_view(toks@.push(token)) =~= done + seq![tok]);
                    },
                    Err(_) => {
                        assert(toks_view(toks@.push(token)) =~= done + seq![tok]);
                    },
                }
            }
            toks.push(token);
            i = i + 1;
        } else {
            return Err(CompileError { kind: ErrorKind::InvalidCharacter, start: i, end: i + 1 });
        }
    }
    let eof = Token::new(TokenKind::EndOfFile, Vec::new(), code.len(), code.len());
    proof {
        let done = toks_view(toks@);
        let tok = eof@;
        assert(tok.value =~= Seq::<u8>::empty());
        assert(spec_tokenize_from(s, i as int) == Ok::<Seq<SpecToken>, int>(seq![tok]));
        assert(toks_view(toks@.push(eof)) =~= done + seq![tok]);
    }
    toks.push(eof);
    Ok(toks)
}

} // verus!
