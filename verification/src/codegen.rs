//! The code generator: walks a token sequence once, left to right, under the
//! grammar `Expression := Number (('+' | '-') Number)* EndOfFile`, and emits
//! an assembly program computing the expression's left-to-right value. A
//! subtraction is emitted as an addition of the negated numeral.

use vstd::prelude::*;
use vstd::string::StringSliceAdditionalSpecFns;

use crate::bytes::push_bytes;
use crate::bytes::push_str_bytes;
use crate::diagnostics::CompileError;
use crate::diagnostics::ErrorKind;
use crate::lexer::lemma_spec_tokenize_err_pos;
use crate::lexer::lemma_spec_tokenize_wf;
use crate::lexer::spec_tokenize;
use crate::lexer::tokenize;
use crate::token::SpecToken;
use crate::token::spans_ordered;
use crate::token::Token;
use crate::token::TokenKind;
use crate::token::toks_view;
use crate::token::wf_tokens;

verus! {

/// The text of a `+` operator token.
pub open spec fn plus_bytes() -> Seq<u8> {
    seq!['+' as u8]
}

/// The text of a `-` operator token.
pub open spec fn minus_bytes() -> Seq<u8> {
    seq!['-' as u8]
}

/// Whether the byte vector holds exactly the one byte `b`.
pub fn byte_vec_is(v: &Vec<u8>, b: u8) -> (r: bool)
    ensures
        r == (v@ == seq![b]),
{
    let r = v.len() == 1 && v[0] == b;
    proof {
        if r {
            assert(v@ =~= seq![b]);
        }
    }
    r
}

/// Whether the tokens from position `i` on match the tail of the grammar:
/// a (possibly empty) run of `('+' | '-') Number` pairs closed by
/// `EndOfFile`.
pub open spec fn matches_grammar_rest(ts: Seq<SpecToken>, i: int) -> bool
    decreases ts.len() - i,
    when 0 <= i
{
    if i >= ts.len() {
        false
    } else if ts[i].kind == TokenKind::EndOfFile {
        true
    } else if (ts[i].value == plus_bytes() || ts[i].value == minus_bytes()) && i + 1 < ts.len()
        && ts[i + 1].kind == TokenKind::Number {
        matches_grammar_rest(ts, i + 2)
    } else {
        false
    }
}

/// Whether the whole token sequence matches the grammar
/// `Expression := Number (('+' | '-') Number)* EndOfFile`.
pub open spec fn matches_grammar(ts: Seq<SpecToken>) -> bool {
    ts.len() > 0 && ts[0].kind == TokenKind::Number && matches_grammar_rest(ts, 1)
}

/// The first failure among the tokens from position `i` on, where an
/// operator or the terminator is required: `None` when they match the tail
/// of the grammar.
pub open spec fn gen_err_rest(ts: Seq<SpecToken>, i: int) -> Option<CompileError>
    decreases ts.len() - i,
    when 0 <= i
{
    if i >= ts.len() {
        None
    } else if ts[i].kind == TokenKind::EndOfFile {
        None
    } else if ts[i].value == plus_bytes() || ts[i].value == minus_bytes() {
        if i + 1 >= ts.len() {
            None
        } else if ts[i + 1].kind != TokenKind::Number {
            Some(
                CompileError {
                    kind: ErrorKind::ExpectedNumber,
                    start: ts[i + 1].start as usize,
                    end: ts[i + 1].end as usize,
                },
            )
        } else {
            gen_err_rest(ts, i + 2)
        }
    } else {
        Some(
            CompileError {
                kind: ErrorKind::InvalidToken,
                start: ts[i].start as usize,
                end: ts[i].end as usize,
            },
        )
    }
}

/// One emitted target instruction: a load of a numeral into the
/// accumulator, an add of a (possibly negated) numeral to it, or the
/// return.
pub enum Instr {
    LoadImm(Seq<u8>),
    AddImm(bool, Seq<u8>),
    Ret,
}

/// The fixed directive and entry label emitted before any instruction.
pub open spec fn prologue_bytes() -> Seq<u8> {
    "  .global main\nmain:\n".spec_bytes()
}

/// The text of one instruction, each on its own line. A negated addend is
/// the numeral's text prefixed with a minus sign.
pub open spec fn render_instr(ins: Instr) -> Seq<u8> {
    match ins {
        Instr::LoadImm(d) => "  li a0, ".spec_bytes() + d + seq!['\n' as u8],
        Instr::AddImm(neg, d) => "  addi a0, a0, ".spec_bytes() + (if neg {
            seq!['-' as u8]
        } else {
            Seq::empty()
        }) + d + seq!['\n' as u8],
        Instr::Ret => "  ret\n".spec_bytes(),
    }
}

/// The text of an instruction sequence.
pub open spec fn render_instrs(instrs: Seq<Instr>) -> Seq<u8>
    decreases instrs.len(),
{
    if instrs.len() == 0 {
        Seq::empty()
    } else {
        render_instr(instrs[0]) + render_instrs(instrs.drop_first())
    }
}

/// The complete emitted program: the prologue followed by the instructions.
pub open spec fn render_program(instrs: Seq<Instr>) -> Seq<u8> {
    prologue_bytes() + render_instrs(instrs)
}

/// The instructions for the operator/numeral pairs from position `i` on:
/// one add per pair, and the return at `EndOfFile`. Meaningful only where
/// the tokens match the tail of the grammar.
pub open spec fn spec_instrs_rest(ts: Seq<SpecToken>, i: int) -> Seq<Instr>
    decreases ts.len() - i,
    when 0 <= i
{
    if i >= ts.len() {
        Seq::empty()
    } else if ts[i].kind == TokenKind::EndOfFile {
        seq![Instr::Ret]
    } else if (ts[i].value == plus_bytes() || ts[i].value == minus_bytes()) && i + 1 < ts.len() {
        seq![Instr::AddImm(ts[i].value == minus_bytes(), ts[i + 1].value)] + spec_instrs_rest(
            ts,
            i + 2,
        )
    } else {
        Seq::empty()
    }
}

/// The instructions of a grammar-matching token sequence: a load of the
/// first numeral, one add per operator/numeral pair, then the return.
pub open spec fn spec_instrs(ts: Seq<SpecToken>) -> Seq<Instr> {
    seq![Instr::LoadImm(ts[0].value)] + spec_instrs_rest(ts, 1)
}

/// A failure found while walking the grammar points at a token, so its span
/// lies inside any source the tokens' spans lie in.
pub proof fn lemma_gen_err_spans(ts: Seq<SpecToken>, i: int, n: int)
    requires
        0 <= i,
        0 <= n <= usize::MAX,
        spans_ordered(ts, n),
        gen_err_rest(ts, i) is Some,
    ensures
        gen_err_rest(ts, i)->Some_0.start <= gen_err_rest(ts, i)->Some_0.end <= n,
    decreases ts.len() - i,
{
    if i < ts.len() && ts[i].kind != TokenKind::EndOfFile && (ts[i].value == plus_bytes()
        || ts[i].value == minus_bytes()) && i + 1 < ts.len() && ts[i + 1].kind
        == TokenKind::Number {
        lemma_gen_err_spans(ts, i + 2, n);
    }
}

/// The numeral text of a `Number` token, or an `ExpectedNumber` error at the
/// token's span for a token of any other kind.
pub fn get_number(token: &Token) -> (r: Result<&Vec<u8>, CompileError>)
    ensures
        match r {
            Ok(v) => token@.kind == TokenKind::Number && v@ == token@.value,
            Err(e) => token@.kind != TokenKind::Number && e == (CompileError {
                kind: ErrorKind::ExpectedNumber,
                start: token.start,
                end: token.end,
            }),
        },
{
    if token.kind == TokenKind::Number {
        Ok(&token.value)
    } else {
        Err(CompileError { kind: ErrorKind::ExpectedNumber, start: token.start, end: token.end })
    }
}

/// Emits the assembly program for a well-shaped token sequence: the
/// prologue, a load of the first numeral, one add per following
/// operator/numeral pair (negated for `-`), and the return. Succeeds exactly
/// on the token sequences that match the grammar; otherwise reports the
/// first failure: `ExpectedNumber` where a `Number` was required and not
/// found, `InvalidToken` where neither an operator nor the terminator
/// stands.
pub fn generate(toks: &Vec<Token>) -> (r: Result<Vec<u8>, CompileError>)
    requires
        wf_tokens(toks_view(toks@)),
    ensures
        ({
            let ts = toks_view(toks@);
            match r {
                Ok(out) => matches_grammar(ts) && out@ == render_program(spec_instrs(ts)),
                Err(e) => !matches_grammar(ts) && (if ts[0].kind != TokenKind::Number {
                    e.kind == ErrorKind::ExpectedNumber && e.start == ts[0].start && e.end
                        == ts[0].end
                } else {
                    gen_err_rest(ts, 1) == Some(e)
                }),
            }
        }),
{
    let ghost ts = toks_view(toks@);
    proof {
        assert(ts.len() == toks@.len());
        assert(ts[0] == toks@[0]@);
    }
    let first = match get_number(&toks[0]) {
        Ok(v) => v,
        Err(e) => {
            return Err(e);
        },
    };
    let mut out: Vec<u8> = Vec::new();
    push_str_bytes(&mut out, "  .global main\nmain:\n");
    push_str_bytes(&mut out, "  li a0, ");
    push_bytes(&mut out, first.as_slice());
    out.push('\n' as u8);
    proof {
        assert(out@ =~= prologue_bytes() + render_instr(Instr::LoadImm(ts[0].value)));
        let l = Instr::LoadImm(ts[0].value);
        let tail = spec_instrs_rest(ts, 1);
        assert((seq![l] + tail)[0] == l);
        assert((seq![l] + tail).drop_first() =~= tail);
        assert(render_instrs(seq![l] + tail) == render_instr(l) + render_instrs(tail));
        assert(prologue_bytes() + (render_instr(l) + render_instrs(tail)) =~= (prologue_bytes()
            + render_instr(l)) + render_instrs(tail));
        assert(ts[0].kind != TokenKind::EndOfFile);
        assert(ts.len() >= 2);
        assert(toks.len() == toks@.len());
    }
    let mut i: usize = 1;
    while toks[i].kind != TokenKind::EndOfFile
        invariant
            ts == toks_view(toks@),
            wf_tokens(ts),
            ts.len() == toks@.len(),
            toks@.len() <= usize::MAX,
            ts[0].kind == TokenKind::Number,
            1 <= i < toks@.len(),
            matches_grammar_rest(ts, 1) == matches_grammar_rest(ts, i as int),
            gen_err_rest(ts, 1) == gen_err_rest(ts, i as int),
            matches_grammar_rest(ts, i as int) ==> render_program(spec_instrs(ts)) == out@
                + render_instrs(spec_instrs_rest(ts, i as int)),
        decreases toks@.len() - i,
    {
        proof {
            assert(ts[i as int] == toks@[i as int]@);
            assert(ts.last().kind == TokenKind::EndOfFile);
            assert(i < ts.len() - 1);
        }
        let t = &toks[i];
        let plus = byte_vec_is(&t.value, '+' as u8);
        let minus = byte_vec_is(&t.value, '-' as u8);
        if plus || minus {
            proof {
                assert(ts[i + 1] == toks@[i + 1]@);
            }
            let next = &toks[i + 1];
            let number = match get_number(next) {
                Ok(v) => v,
                Err(e) => {
                    proof {
                        assert(gen_err_rest(ts, i as int) == Some(e));
                        assert(!matches_grammar_rest(ts, i as int));
                    }
                    return Err(e);
                },
            };
            let ghost out0 = out@;
            push_str_bytes(&mut out, "  addi a0, a0, ");
            if minus {
                out.push('-' as u8);
            }
            push_bytes(&mut out, number.as_slice());
            out.push('\n' as u8);
            proof {
                let ins = Instr::AddImm(minus, ts[i + 1].value);
                assert(out@ =~= out0 + render_instr(ins));
                assert(ts[i + 1].kind != TokenKind::EndOfFile);
                assert(i + 1 < ts.len() - 1);
                let tail = spec_instrs_rest(ts, i + 2);
                assert(spec_instrs_rest(ts, i as int) =~= seq![ins] + tail);
                assert((seq![ins] + tail)[0] == ins);
                assert((seq![ins] + tail).drop_first() =~= tail);
                assert(render_instrs(seq![ins] + tail) == render_instr(ins) + render_instrs(tail));
                if matches_grammar_rest(ts, i as int) {
                    assert(render_program(spec_instrs(ts)) == out0 + (render_instr(ins)
                        + render_instrs(tail)));
                    assert(out0 + (render_instr(ins) + render_instrs(tail)) =~= (out0
                        + render_instr(ins)) + render_instrs(tail));
                }
            }
            i = i + 2;
        } else {
            let e = CompileError { kind: ErrorKind::InvalidToken, start: t.start, end: t.end };
            proof {
                assert(gen_err_rest(ts, i as int) == Some(e));
                assert(!matches_grammar_rest(ts, i as int));
            }
            return Err(e);
        }
    }
    proof {
        assert(ts[i as int] == toks@[i as int]@);
        assert(matches_grammar_rest(ts, i as int));
        assert(spec_instrs_rest(ts, i as int) =~= seq![Instr::Ret]);
        let one = seq![Instr::Ret];
        assert(one[0] == Instr::Ret);
        assert(one.drop_first() =~= Seq::<Instr>::empty());
        assert(render_instrs(Seq::<Instr>::empty()) == Seq::<u8>::empty());
        assert(render_instrs(one) =~= render_instr(Instr::Ret));
    }
    let ghost out1 = out@;
    push_str_bytes(&mut out, "  ret\n");
    proof {
        assert(out@ =~= out1 + render_instr(Instr::Ret));
    }
    Ok(out)
}

/// The whole front end: scans the source and emits the assembly program, or
/// reports the first error found — the lexer's `InvalidCharacter`, or the
/// generator's `ExpectedNumber` or `InvalidToken` — whose span always lies
/// inside the source.
pub fn compile(code: &[u8]) -> (r: Result<Vec<u8>, CompileError>)
    ensures
        ({
            let lexed = spec_tokenize(code@);
            match r {
                Ok(out) => lexed is Ok && matches_grammar(lexed->Ok_0) && out@ == render_program(
                    spec_instrs(lexed->Ok_0),
                ),
                Err(e) => e.spans(code@) && match lexed {
                    Err(p) => e.kind == ErrorKind::InvalidCharacter && e.start == p && e.end == p
                        + 1,
                    Ok(ts) => !matches_grammar(ts) && (if ts[0].kind != TokenKind::Number {
                        e.kind == ErrorKind::ExpectedNumber && e.start == ts[0].start && e.end
                            == ts[0].end
                    } else {
                        gen_err_rest(ts, 1) == Some(e)
                    }),
                },
            }
        }),
{
    let n: usize = code.len();
    let toks = match tokenize(code) {
        Ok(t) => t,
        Err(e) => {
            proof {
                lemma_spec_tokenize_err_pos(code@, 0);
            }
            return Err(e);
        },
    };
    proof {
        lemma_spec_tokenize_wf(code@, 0);
    }
    let r = generate(&toks);
    proof {
        if r is Err {
            let ts = toks_view(toks@);
            if ts[0].kind == TokenKind::Number {
                lemma_gen_err_spans(ts, 1, n as int);
            }
        }
    }
    r
}

} // verus!
