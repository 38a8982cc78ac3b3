//! Diagnostics: fatal errors carrying a source span, their message texts,
//! and the renderer that points a caret line at the offending region.

use vstd::prelude::*;
use vstd::string::StringSliceAdditionalSpecFns;

use crate::bytes::push_bytes;
use crate::bytes::push_range;
use crate::bytes::push_repeat;
use crate::bytes::push_str_bytes;
use crate::bytes::repeat_byte;
use crate::token::Token;

verus! {

/// Why a run failed.
#[derive(Clone, Copy, Debug, PartialEq, Eq, Structural)]
pub enum ErrorKind {
    /// The lexer met a byte that is neither ascii whitespace, an ascii
    /// digit, nor ascii punctuation.
    InvalidCharacter,
    /// The code generator needed a `Number` token (as the first token, or
    /// right after an operator) and did not get one.
    ExpectedNumber,
    /// The code generator met a token that is neither `+`, `-`, nor
    /// `EndOfFile` where an operator or the terminator was required.
    InvalidToken,
}

/// A fatal diagnostic: the kind of failure and the half-open byte span
/// `[start, end)` of the offending region in the original source.
#[derive(Clone, Copy, Debug, PartialEq, Eq, Structural)]
pub struct CompileError {
    pub kind: ErrorKind,
    pub start: usize,
    pub end: usize,
}

/// The rendered diagnostic: the whole source on one line; beneath it a line
/// of `end - start` carets under the span `[start, end)`, aligned by `start`
/// spaces of padding and followed by the message.
pub open spec fn spec_render(source: Seq<u8>, start: int, end: int, message: Seq<u8>) -> Seq<u8> {
    source + seq!['\n' as u8] + repeat_byte(' ' as u8, start as nat) + repeat_byte(
        '^' as u8,
        (end - start) as nat,
    ) + seq![' ' as u8] + message + seq!['\n' as u8]
}

/// The message text of an error, given the source its span points into.
pub open spec fn spec_message(e: CompileError, source: Seq<u8>) -> Seq<u8> {
    match e.kind {
        ErrorKind::InvalidCharacter => "invalid character: ".spec_bytes() + source.subrange(
            e.start as int,
            e.end as int,
        ),
        ErrorKind::ExpectedNumber => "expect a number".spec_bytes(),
        ErrorKind::InvalidToken => "invalid token: ".spec_bytes() + source.subrange(
            e.start as int,
            e.end as int,
        ),
    }
}

/// Renders a diagnostic for the span `[start, end)` of `source` with the
/// given message: the source line, then the caret line.
pub fn error_at(source: &[u8], start: usize, end: usize, message: &[u8]) -> (r: Vec<u8>)
    requires
        start <= end <= source@.len(),
    ensures
        r@ == spec_render(source@, start as int, end as int, message@),
{
    let mut out: Vec<u8> = Vec::new();
    push_bytes(&mut out, source);
    out.push('\n' as u8);
    push_repeat(&mut out, ' ' as u8, start);
    push_repeat(&mut out, '^' as u8, end - start);
    out.push(' ' as u8);
    push_bytes(&mut out, message);
    out.push('\n' as u8);
    proof {
        assert(out@ =~= spec_render(source@, start as int, end as int, message@));
    }
    out
}

/// Renders a diagnostic against the span of the given token.
pub fn error_token(source: &[u8], token: &Token, message: &[u8]) -> (r: Vec<u8>)
    requires
        token@.start <= token@.end <= source@.len(),
    ensures
        r@ == spec_render(source@, token@.start, token@.end, message@),
{
    error_at(source, token.start, token.end, message)
}

impl CompileError {
    /// The error's span points into the given source.
    pub open spec fn spans(self, source: Seq<u8>) -> bool {
        self.start <= self.end <= source.len()
    }

    /// The message text for this error: a fixed phrase, carrying the
    /// offending source bytes where the kind concerns a concrete region.
    pub fn message(&self, source: &[u8]) -> (r: Vec<u8>)
        requires
            self.spans(source@),
        ensures
            r@ == spec_message(*self, source@),
    {
        let mut out: Vec<u8> = Vec::new();
        match self.kind {
            ErrorKind::InvalidCharacter => {
                push_str_bytes(&mut out, "invalid character: ");
                push_range(&mut out, source, self.start, self.end);
            },
            ErrorKind::ExpectedNumber => {
                push_str_bytes(&mut out, "expect a number");
            },
            ErrorKind::InvalidToken => {
                push_str_bytes(&mut out, "invalid token: ");
                push_range(&mut out, source, self.start, self.end);
            },
        }
        out
    }

    /// The complete rendered diagnostic for this error: the source line and
    /// the caret line carrying the error's message.
    pub fn render(&self, source: &[u8]) -> (r: Vec<u8>)
        requires
            self.spans(source@),
        ensures
            r@ == spec_render(source@, self.start as int, self.end as int, spec_message(
                *self,
                source@,
            )),
    {
        let message = self.message(source);
        error_at(source, self.start, self.end, message.as_slice())
    }
}

} // verus!
