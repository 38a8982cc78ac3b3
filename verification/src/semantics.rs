//! What the emitted program computes: a small model of the target machine's
//! accumulator, the left-to-right value of a tokenized expression, and the
//! proof that the generated instructions compute exactly that value.

use vstd::prelude::*;

use crate::codegen::Instr;
use crate::codegen::matches_grammar;
use crate::codegen::matches_grammar_rest;
use crate::codegen::minus_bytes;
use crate::codegen::plus_bytes;
use crate::codegen::spec_instrs;
use crate::codegen::spec_instrs_rest;
use crate::lexer::lemma_spec_tokenize_wf;
use crate::lexer::spec_tokenize;
use crate::token::SpecToken;
use crate::token::TokenKind;

verus! {

/// The integer a decimal digit string denotes (the empty string denotes 0).
pub open spec fn digits_val(d: Seq<u8>) -> int
    decreases d.len(),
{
    if d.len() == 0 {
        0
    } else {
        10 * digits_val(d.drop_last()) + (d.last() - '0' as u8)
    }
}

/// The running left-to-right value of the expression's operator/numeral
/// pairs from position `i` on, starting from `acc`: each `+` adds and each
/// `-` subtracts the following numeral, with no precedence.
pub open spec fn expr_val_rest(ts: Seq<SpecToken>, i: int, acc: int) -> int
    decreases ts.len() - i,
    when 0 <= i
{
    if i >= ts.len() {
        acc
    } else if ts[i].kind == TokenKind::EndOfFile {
        acc
    } else if ts[i].value == plus_bytes() && i + 1 < ts.len() {
        expr_val_rest(ts, i + 2, acc + digits_val(ts[i + 1].value))
    } else if ts[i].value == minus_bytes() && i + 1 < ts.len() {
        expr_val_rest(ts, i + 2, acc - digits_val(ts[i + 1].value))
    } else {
        acc
    }
}

/// The left-to-right value of a grammar-matching token sequence.
pub open spec fn expr_val(ts: Seq<SpecToken>) -> int {
    expr_val_rest(ts, 1, digits_val(ts[0].value))
}

/// Runs the instructions from position `i` with accumulator `acc`: a load
/// replaces the accumulator by the numeral, an add adds the (possibly
/// negated) numeral, and the return yields the accumulator. `None` when the
/// instructions run out without returning.
pub open spec fn run_from(instrs: Seq<Instr>, i: int, acc: int) -> Option<int>
    decreases instrs.len() - i,
    when 0 <= i
{
    if i >= instrs.len() {
        None
    } else {
        match instrs[i] {
            Instr::Ret => Some(acc),
            Instr::LoadImm(d) => run_from(instrs, i + 1, digits_val(d)),
            Instr::AddImm(neg, d) => run_from(
                instrs,
                i + 1,
                if neg {
                    acc - digits_val(d)
                } else {
                    acc + digits_val(d)
                },
            ),
        }
    }
}

/// The value an instruction sequence returns, run from a zeroed machine.
pub open spec fn run_program(instrs: Seq<Instr>) -> Option<int> {
    run_from(instrs, 0, 0)
}

/// Running past a leading instruction is running the rest.
proof fn lemma_run_shift(x: Instr, t: Seq<Instr>, i: int, a: int)
    requires
        0 <= i,
    ensures
        run_from(seq![x] + t, i + 1, a) == run_from(t, i, a),
    decreases t.len() - i,
{
    let s = seq![x] + t;
    if i < t.len() {
        assert(s[i + 1] == t[i]);
        match t[i] {
            Instr::Ret => {
            },
            Instr::LoadImm(d) => {
                lemma_run_shift(x, t, i + 1, digits_val(d));
            },
            Instr::AddImm(neg, d) => {
                lemma_run_shift(
                    x,
                    t,
                    i + 1,
                    if neg {
                        a - digits_val(d)
                    } else {
                        a + digits_val(d)
                    },
                );
            },
        }
    }
}

/// The instructions generated for the tail of a grammar-matching token
/// sequence, run with accumulator `acc`, return the running value of the
/// remaining operator/numeral pairs.
proof fn lemma_instrs_value(ts: Seq<SpecToken>, i: int, acc: int)
    requires
        0 <= i < ts.len(),
        matches_grammar_rest(ts, i),
    ensures
        run_from(spec_instrs_rest(ts, i), 0, acc) == Some(expr_val_rest(ts, i, acc)),
    decreases ts.len() - i,
{
    assert(plus_bytes()[0] == '+' as u8);
    assert(minus_bytes()[0] == '-' as u8);
    if ts[i].kind == TokenKind::EndOfFile {
        let one = seq![Instr::Ret];
        assert(one[0] == Instr::Ret);
    } else {
        let neg = ts[i].value == minus_bytes();
        let ins = Instr::AddImm(neg, ts[i + 1].value);
        let tail = spec_instrs_rest(ts, i + 2);
        let s = seq![ins] + tail;
        assert(spec_instrs_rest(ts, i) == s);
        assert(s[0] == ins);
        let acc2 = if neg {
            acc - digits_val(ts[i + 1].value)
        } else {
            acc + digits_val(ts[i + 1].value)
        };
        lemma_run_shift(ins, tail, 0, acc2);
        assert(matches_grammar_rest(ts, i + 2));
        assert(i + 2 < ts.len()) by {
            if i + 2 >= ts.len() {
                assert(!matches_grammar_rest(ts, i + 2));
            }
        }
        lemma_instrs_value(ts, i + 2, acc2);
        assert(expr_val_rest(ts, i, acc) == expr_val_rest(ts, i + 2, acc2));
    }
}

/// The generated program of any grammar-matching token sequence computes
/// the expression's left-to-right running sum and difference of the
/// numerals, and returns it.
pub proof fn lemma_generated_program_value(ts: Seq<SpecToken>)
    requires
        matches_grammar(ts),
    ensures
        run_program(spec_instrs(ts)) == Some(expr_val(ts)),
{
    let l = Instr::LoadImm(ts[0].value);
    let tail = spec_instrs_rest(ts, 1);
    let s = seq![l] + tail;
    assert(s[0] == l);
    let dv = digits_val(ts[0].value);
    lemma_run_shift(l, tail, 0, dv);
    assert(1 < ts.len()) by {
        if ts.len() <= 1 {
            assert(!matches_grammar_rest(ts, 1));
        }
    }
    lemma_instrs_value(ts, 1, dv);
}

/// End to end: for any source whose token sequence matches the grammar, the
/// program generated from those tokens computes the expression's
/// left-to-right value.
pub proof fn lemma_compile_value(s: Seq<u8>)
    requires
        spec_tokenize(s) is Ok,
        matches_grammar(spec_tokenize(s)->Ok_0),
    ensures
        run_program(spec_instrs(spec_tokenize(s)->Ok_0)) == Some(expr_val(spec_tokenize(s)->Ok_0)),
{
    lemma_spec_tokenize_wf(s, 0);
    lemma_generated_program_value(spec_tokenize(s)->Ok_0);
}

} // verus!

