use vstd::prelude::*;
use vstd::string::*;
use crate::code_gen::{instr_views, lower_all, plan, plan_spec, Instr, InstrView};
use crate::errors::CalculatorError;
use crate::lexer::{is_float_text, lemma_tokenize_literal, parse_tokens, tokenize};
use crate::rpn::{
    close_paren_spec, drain_spec, initial_state, pop_higher_spec, pop_spec, run, step, with_prev, ConvState, RPN,
};
use crate::token::{Op, TokView};

verus! {

/// How an expression fails: a syntax error at a character index, or a runtime error.
pub enum Failure {
    Syntax(nat),
    Runtime,
}

/// The checked postfix program of an expression: tokenize, convert to postfix order,
/// then resolve names and check operand counts.
pub open spec fn compile_spec(input: Seq<char>) -> Result<Seq<InstrView>, Failure> {
    match tokenize(input) {
        Err(p) => Err(Failure::Syntax(p)),
        Ok(ts) => match run(initial_state(), ts) {
            Err(p) => Err(Failure::Syntax(p)),
            Ok(st) => match plan_spec(st.output) {
                Some(p) => Ok(p),
                None => Err(Failure::Runtime),
            },
        },
    }
}

/// What a call of `compile` returned, in terms of the model.
pub open spec fn outcome(r: Result<Vec<Instr>, CalculatorError>) -> Result<Seq<InstrView>, Failure> {
    match r {
        Ok(p) => Ok(instr_views(p@)),
        Err(CalculatorError::Syntax(_, p)) => Err(Failure::Syntax(p as nat)),
        Err(CalculatorError::Runtime(_)) => Err(Failure::Runtime),
    }
}

/// Turns an expression into a checked postfix program that a numeric stack machine runs
/// without running out of operands, leaving exactly one value.
pub fn compile(expression: &str) -> (r: Result<Vec<Instr>, CalculatorError>)
    ensures
        outcome(r) == compile_spec(expression@),
{
    let tokens = parse_tokens(String::from_str(expression))?;
    let mut rpn = RPN::new();
    rpn.push_all(tokens)?;
    plan(&rpn.output)
}

/// Compiling is a function of the text alone: any two results that `compile` may return
/// for one text have the same outcome (the same program, or the same kind of error at the
/// same position).
pub proof fn compile_twice_agrees(s: Seq<char>, r1: Result<Vec<Instr>, CalculatorError>, r2: Result<Vec<Instr>, CalculatorError>)
    requires
        outcome(r1) == compile_spec(s),
        outcome(r2) == compile_spec(s),
    ensures
        outcome(r1) == outcome(r2),
        r1 is Ok <==> r2 is Ok,
{
}

/// A well-formed numeric literal compiles to the program that pushes exactly that literal;
/// after a minus sign, to that program followed by a negation.
pub proof fn literal_compiles_to_itself(t: Seq<char>)
    requires
        is_float_text(t),
    ensures
        compile_spec(t) == Ok::<Seq<InstrView>, Failure>(seq![InstrView::Number(t)]),
        compile_spec(seq!['-'] + t) == Ok::<Seq<InstrView>, Failure>(
            seq![InstrView::Number(t), InstrView::Operator(Op::Umin)],
        ),
{
    lemma_tokenize_literal(t);
    let n = t.len();
    let num = TokView::Number(t);
    let end = TokView::End;
    let empty = Seq::<TokView>::empty();

    let ts = seq![(num, 0nat), (end, n)];
    let st1 = ConvState { stack: empty, output: seq![num], prev: Some(num) };
    assert(empty.push(num) =~= seq![num]);
    assert(step(initial_state(), num, 0) == Ok::<ConvState, nat>(st1));
    assert(drain_spec(st1, n) == Ok::<ConvState, nat>(st1));
    let st2 = with_prev(st1, end);
    assert(ts.subrange(1, 2) =~= seq![(end, n)]);
    assert(ts.subrange(1, 2).subrange(1, 1) =~= Seq::<(TokView, nat)>::empty());
    assert(run(st2, Seq::empty()) == Ok::<ConvState, nat>(st2));
    assert(run(st1, ts.subrange(1, 2)) == Ok::<ConvState, nat>(st2));
    assert(run(initial_state(), ts) == Ok::<ConvState, nat>(st2));
    let prog = seq![InstrView::Number(t)];
    assert(seq![num].drop_last() =~= empty);
    assert(Seq::<InstrView>::empty().push(InstrView::Number(t)) =~= prog);
    assert(lower_all(empty) == Some((Seq::<InstrView>::empty(), 0int)));
    assert(seq![num].last() == num);
    assert(lower_all(seq![num]) == Some((prog, 1int)));

    let umin = TokView::Operator(Op::Umin);
    let us = seq![(TokView::Operator(Op::Sub), 0nat), (num, 1nat), (end, n + 1)];
    let sa = ConvState { stack: seq![umin], output: empty, prev: Some(TokView::Operator(Op::Sub)) };
    assert(empty.push(umin) =~= seq![umin]);
    assert(step(initial_state(), TokView::Operator(Op::Sub), 0) == Ok::<ConvState, nat>(sa));
    let sb = ConvState { stack: seq![umin], output: seq![num], prev: Some(num) };
    assert(step(sa, num, 1) == Ok::<ConvState, nat>(sb));
    let popped = ConvState { stack: empty, output: seq![num, umin], prev: Some(num) };
    assert(seq![umin].drop_last() =~= empty);
    assert(seq![num].push(umin) =~= seq![num, umin]);
    assert(pop_spec(sb) == popped);
    assert(pop_higher_spec(popped, 3) == popped);
    assert(pop_higher_spec(sb, 3) == popped);
    let sc = with_prev(popped, TokView::RParen);
    assert(close_paren_spec(sb, (n + 1) as nat) == Ok::<ConvState, nat>(sc));
    assert(drain_spec(sc, (n + 1) as nat) == Ok::<ConvState, nat>(sc));
    assert(drain_spec(sb, (n + 1) as nat) == Ok::<ConvState, nat>(sc));
    let sd = with_prev(sc, end);
    assert(us.subrange(1, 3) =~= seq![(num, 1nat), (end, n + 1)]);
    assert(us.subrange(1, 3).subrange(1, 2) =~= seq![(end, n + 1)]);
    assert(us.subrange(1, 3).subrange(1, 2).subrange(1, 1) =~= Seq::<(TokView, nat)>::empty());
    assert(run(sd, Seq::empty()) == Ok::<ConvState, nat>(sd));
    assert(run(sb, seq![(end, n + 1)]) == Ok::<ConvState, nat>(sd));
    assert(run(sa, us.subrange(1, 3)) == Ok::<ConvState, nat>(sd));
    assert(run(initial_state(), us) == Ok::<ConvState, nat>(sd));
    let prog2 = seq![InstrView::Number(t), InstrView::Operator(Op::Umin)];
    assert(seq![num, umin].drop_last() =~= seq![num]);
    assert(prog.push(InstrView::Operator(Op::Umin)) =~= prog2);
    assert(seq![num, umin].last() == umin);
    assert(lower_all(seq![num, umin]) == Some((prog2, 1int)));
}

} // verus!
