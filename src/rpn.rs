use vstd::prelude::*;
use crate::errors::CalculatorError;
use crate::token::{Op, Tok, TokView, Token};

verus! {

/// The model of the converter: operator stack, postfix output, and the last token processed.
pub struct ConvState {
    pub stack: Seq<TokView>,
    pub output: Seq<TokView>,
    pub prev: Option<TokView>,
}

pub open spec fn views(s: Seq<Tok>) -> Seq<TokView> {
    s.map_values(|t: Tok| t@)
}

pub open spec fn token_views(s: Seq<Token>) -> Seq<(TokView, nat)> {
    s.map_values(|t: Token| t@)
}

pub open spec fn opt_view(p: Option<Tok>) -> Option<TokView> {
    match p {
        Some(t) => Some(t@),
        None => None,
    }
}

pub open spec fn prev_is_operand(p: Option<TokView>) -> bool {
    p is Some && p->0.operand()
}

pub open spec fn prev_is_call(p: Option<TokView>) -> bool {
    p is Some && p->0 is Call
}

pub open spec fn with_prev(st: ConvState, t: TokView) -> ConvState {
    ConvState { stack: st.stack, output: st.output, prev: Some(t) }
}

/// Moves the top of the operator stack to the output.
pub open spec fn pop_spec(st: ConvState) -> ConvState {
    ConvState { stack: st.stack.drop_last(), output: st.output.push(st.stack.last()), prev: st.prev }
}

/// Moves operators to the output while the top of the stack binds at least as strongly as `p`.
pub open spec fn pop_higher_spec(st: ConvState, p: int) -> ConvState
    decreases st.stack.len(),
{
    if st.stack.len() > 0 && st.stack.last().rank() >= p {
        pop_higher_spec(pop_spec(st), p)
    } else {
        st
    }
}

/// A multiplication synthesized between two juxtaposed operands.
pub open spec fn implicit_mul_spec(st: ConvState) -> ConvState {
    let s = pop_higher_spec(st, 5);
    ConvState { stack: s.stack.push(TokView::Operator(Op::Mul)), output: s.output, prev: Some(TokView::Operator(Op::Mul)) }
}

/// A closing parenthesis: reduces back to the innermost open call or group. An empty stack
/// is tolerated, so a stray `)` closes nothing.
pub open spec fn close_paren_spec(st: ConvState, pos: nat) -> Result<ConvState, nat> {
    if prev_is_call(st.prev) || !prev_is_operand(st.prev) {
        Err(pos)
    } else {
        let s = pop_higher_spec(st, 3);
        if s.stack.len() == 0 {
            Ok(with_prev(s, TokView::RParen))
        } else if s.stack.last() is Call {
            Ok(with_prev(pop_spec(s), TokView::RParen))
        } else if s.stack.last() == TokView::LParen {
            Ok(with_prev(ConvState { stack: s.stack.drop_last(), output: s.output, prev: s.prev }, TokView::RParen))
        } else {
            Err(pos)
        }
    }
}

/// End of input: closes parentheses until the operator stack is empty.
pub open spec fn drain_spec(st: ConvState, pos: nat) -> Result<ConvState, nat>
    decreases st.stack.len(),
{
    if st.stack.len() == 0 {
        Ok(st)
    } else {
        match close_paren_spec(st, pos) {
            Err(p) => Err(p),
            Ok(s) => if s.stack.len() < st.stack.len() {
                drain_spec(s, pos)
            } else {
                Ok(s)
            },
        }
    }
}

/// One token through the converter: the new state, or the position of a syntax error.
pub open spec fn step(st: ConvState, t: TokView, pos: nat) -> Result<ConvState, nat> {
    match t {
        TokView::Number(_) | TokView::Const(_) => {
            let s = if prev_is_operand(st.prev) { implicit_mul_spec(st) } else { st };
            Ok(ConvState { stack: s.stack, output: s.output.push(t), prev: Some(t) })
        },
        TokView::RParen => close_paren_spec(st, pos),
        TokView::Comma => {
            if !prev_is_operand(st.prev) {
                Err(pos)
            } else {
                let s = pop_higher_spec(st, 2);
                if s.stack.len() > 0 && s.stack.last() is Call {
                    Ok(with_prev(s, t))
                } else {
                    Err(pos)
                }
            }
        },
        TokView::End => match drain_spec(st, pos) {
            Ok(s) => Ok(with_prev(s, t)),
            Err(p) => Err(p),
        },
        _ => {
            if t.prefix() {
                let s = if prev_is_operand(st.prev) { implicit_mul_spec(st) } else { st };
                Ok(ConvState { stack: s.stack.push(t), output: s.output, prev: Some(t) })
            } else if !prev_is_operand(st.prev) {
                if t == TokView::Operator(Op::Sub) {
                    Ok(ConvState { stack: st.stack.push(TokView::Operator(Op::Umin)), output: st.output, prev: Some(t) })
                } else if t == TokView::Operator(Op::Add) {
                    Ok(st)
                } else {
                    Err(pos)
                }
            } else {
                let s = pop_higher_spec(st, t.rank() + if t.right_associative() { 1int } else { 0int });
                Ok(ConvState { stack: s.stack.push(t), output: s.output, prev: Some(t) })
            }
        },
    }
}

/// A whole token sequence through the converter, stopping at the first error.
pub open spec fn run(st: ConvState, toks: Seq<(TokView, nat)>) -> Result<ConvState, nat>
    decreases toks.len(),
{
    if toks.len() == 0 {
        Ok(st)
    } else {
        match step(st, toks[0].0, toks[0].1) {
            Err(p) => Err(p),
            Ok(s) => run(s, toks.subrange(1, toks.len() as int)),
        }
    }
}

pub open spec fn initial_state() -> ConvState {
    ConvState { stack: Seq::empty(), output: Seq::empty(), prev: None }
}

pub open spec fn is_syntax_at<T>(r: Result<T, CalculatorError>, p: nat) -> bool {
    r is Err && r->Err_0 is Syntax && r->Err_0->Syntax_1 == p
}

proof fn lemma_pop_higher_prefix(st: ConvState, p: int)
    ensures
        pop_higher_spec(st, p).stack.len() <= st.stack.len(),
        pop_higher_spec(st, p).stack == st.stack.subrange(0, pop_higher_spec(st, p).stack.len() as int),
        pop_higher_spec(st, p).stack.len() == st.stack.len() ==> (st.stack.len() == 0 || st.stack.last().rank() < p),
    decreases st.stack.len(),
{
    if st.stack.len() > 0 && st.stack.last().rank() >= p {
        lemma_pop_higher_prefix(pop_spec(st), p);
        assert(pop_spec(st).stack =~= st.stack.subrange(0, st.stack.len() - 1));
        let r = pop_higher_spec(st, p);
        assert(r.stack =~= st.stack.subrange(0, r.stack.len() as int));
    } else {
        assert(st.stack =~= st.stack.subrange(0, st.stack.len() as int));
    }
}

proof fn lemma_close_paren_shrinks(st: ConvState, pos: nat)
    requires
        st.stack.len() > 0,
        close_paren_spec(st, pos) is Ok,
    ensures
        close_paren_spec(st, pos)->Ok_0.stack.len() < st.stack.len(),
{
    lemma_pop_higher_prefix(st, 3);
}

/// The operator-precedence converter from infix tokens to postfix order.
pub struct RPN {
    pub stack: Vec<Tok>,
    pub output: Vec<Tok>,
    pub prev_tok: Option<Tok>,
}

impl View for RPN {
    type V = ConvState;

    open spec fn view(&self) -> ConvState {
        ConvState { stack: views(self.stack@), output: views(self.output@), prev: opt_view(self.prev_tok) }
    }
}

fn prev_operand(p: &Option<Tok>) -> (r: bool)
    ensures
        r == prev_is_operand(opt_view(*p)),
{
    match p {
        Some(t) => t.is_operand(),
        None => false,
    }
}

fn prev_call(p: &Option<Tok>) -> (r: bool)
    ensures
        r == prev_is_call(opt_view(*p)),
{
    match p {
        Some(Tok::Call(_, _)) => true,
        _ => false,
    }
}

impl RPN {
    pub fn new() -> (r: Self)
        ensures
            r@ == initial_state(),
    {
        let stack: Vec<Tok> = Vec::new();
        let output: Vec<Tok> = Vec::new();
        let prev_tok: Option<Tok> = None;
        let r = RPN { stack, output, prev_tok };
        assert(r@.stack =~= Seq::<TokView>::empty());
        assert(r@.output =~= Seq::<TokView>::empty());
        r
    }

    /// Feeds every token in order; stops at the first syntax error.
    pub fn push_all(&mut self, tokens: Vec<Token>) -> (r: Result<(), CalculatorError>)
        ensures
            match run(old(self)@, token_views(tokens@)) {
                Ok(s) => r is Ok && final(self)@ == s,
                Err(p) => is_syntax_at(r, p),
            },
    {
        let ghost all = token_views(tokens@);
        let ghost st0 = self@;
        let mut i: usize = 0;
        assert(all.subrange(0, all.len() as int) =~= all);
        while i < tokens.len()
            invariant
                0 <= i <= tokens.len(),
                all == token_views(tokens@),
                st0 == old(self)@,
                run(st0, all) == run(self@, all.subrange(i as int, all.len() as int)),
            decreases tokens.len() - i,
        {
            let token = tokens[i].clone_token();
            let ghost before = self@;
            proof {
                let rest = all.subrange(i as int, all.len() as int);
                assert(rest[0] == all[i as int]);
                assert(all[i as int] == tokens@[i as int]@);
                assert(token@ == tokens@[i as int]@);
                assert(rest.subrange(1, rest.len() as int) =~= all.subrange(i + 1, all.len() as int));
            }
            let r = self.push(token);
            if r.is_err() {
                proof {
                    let rest = all.subrange(i as int, all.len() as int);
                    assert(step(before, rest[0].0, rest[0].1) is Err);
                    assert(run(before, rest) == step(before, rest[0].0, rest[0].1));
                }
                return r;
            }
            i = i + 1;
        }
        assert(all.subrange(i as int, all.len() as int) =~= Seq::<(TokView, nat)>::empty());
        Ok(())
    }

    fn push_output(&mut self, t: Tok)
        ensures
            final(self)@ == (ConvState { stack: old(self)@.stack, output: old(self)@.output.push(t@), prev: old(self)@.prev }),
    {
        self.output.push(t);
        assert(views(self.output@) =~= views(old(self).output@).push(t@));
    }

    fn push_stack(&mut self, t: Tok)
        ensures
            final(self)@ == (ConvState { stack: old(self)@.stack.push(t@), output: old(self)@.output, prev: old(self)@.prev }),
    {
        self.stack.push(t);
        assert(views(self.stack@) =~= views(old(self).stack@).push(t@));
    }

    fn implicit_mul(&mut self)
        ensures
            final(self)@ == implicit_mul_spec(old(self)@),
    {
        self.pop_higher(5);
        self.push_stack(Tok::Operator(Op::Mul));
        self.prev_tok = Some(Tok::Operator(Op::Mul));
    }

    fn close_paren(&mut self, pos: usize) -> (r: Result<(), CalculatorError>)
        ensures
            match close_paren_spec(old(self)@, pos as nat) {
                Ok(s) => r is Ok && final(self)@ == s,
                Err(p) => is_syntax_at(r, p),
            },
    {
        if prev_call(&self.prev_tok) || !prev_operand(&self.prev_tok) {
            return Err(CalculatorError::Syntax("closing parenthesis without an operand before it".to_string(), pos));
        }
        self.pop_higher(3);
        let ghost s1 = self@;
        let n = self.stack.len();
        if n > 0 {
            let is_call = match &self.stack[n - 1] {
                Tok::Call(_, _) => true,
                _ => false,
            };
            let is_lparen = match &self.stack[n - 1] {
                Tok::LParen => true,
                _ => false,
            };
            if is_call {
                self.pop();
            } else if is_lparen {
                let _ = self.stack.pop();
                assert(views(self.stack@) =~= s1.stack.drop_last());
            } else {
                return Err(CalculatorError::Syntax("mismatched closing parenthesis".to_string(), pos));
            }
        }
        self.prev_tok = Some(Tok::RParen);
        Ok(())
    }

    fn push(&mut self, token: Token) -> (r: Result<(), CalculatorError>)
        ensures
            match step(old(self)@, token.tok@, token.pos as nat) {
                Ok(s) => r is Ok && final(self)@ == s,
                Err(p) => is_syntax_at(r, p),
            },
    {
        let tok = token.tok;
        let pos = token.pos;
        match tok {
            Tok::Number(_) | Tok::Const(_) => {
                if prev_operand(&self.prev_tok) {
                    self.implicit_mul();
                }
                let t = tok.duplicate();
                self.push_output(t);
                self.prev_tok = Some(tok);
            },
            Tok::RParen => {
                return self.close_paren(pos);
            },
            Tok::Comma => {
                if !prev_operand(&self.prev_tok) {
                    return Err(CalculatorError::Syntax("comma without an operand before it".to_string(), pos));
                }
                self.pop_higher(2);
                let n = self.stack.len();
                let in_call = n > 0 && match &self.stack[n - 1] {
                    Tok::Call(_, _) => true,
                    _ => false,
                };
                if !in_call {
                    return Err(CalculatorError::Syntax("comma outside a function call".to_string(), pos));
                }
                self.prev_tok = Some(tok);
            },
            Tok::End => {
                while self.stack.len() > 0
                    invariant
                        drain_spec(old(self)@, pos as nat) == drain_spec(self@, pos as nat),
                        tok == token.tok,
                        tok@ == TokView::End,
                        pos == token.pos,
                    decreases self.stack.len(),
                {
                    let ghost before = self@;
                    assert(before.stack.len() > 0);
                    let r = self.close_paren(pos);
                    if r.is_err() {
                        assert(close_paren_spec(before, pos as nat) is Err);
                        assert(drain_spec(before, pos as nat) == close_paren_spec(before, pos as nat));
                        return r;
                    }
                    proof {
                        lemma_close_paren_shrinks(before, pos as nat);
                    }
                }
                self.prev_tok = Some(tok);
            },
            _ => {
                if tok.is_prefix() {
                    if prev_operand(&self.prev_tok) {
                        self.implicit_mul();
                    }
                    let t = tok.duplicate();
                    self.push_stack(t);
                    self.prev_tok = Some(tok);
                } else if !prev_operand(&self.prev_tok) {
                    match tok {
                        Tok::Operator(Op::Sub) => {
                            self.push_stack(Tok::Operator(Op::Umin));
                            self.prev_tok = Some(tok);
                        },
                        Tok::Operator(Op::Add) => {},
                        _ => {
                            return Err(CalculatorError::Syntax("operator without a left operand".to_string(), pos));
                        },
                    }
                } else {
                    let p = tok.priority() + if tok.is_right_associtive() { 1i32 } else { 0i32 };
                    self.pop_higher(p);
                    let t = tok.duplicate();
                    self.push_stack(t);
                    self.prev_tok = Some(tok);
                }
            },
        }
        Ok(())
    }

    fn pop_higher(&mut self, priority: i32)
        ensures
            final(self)@ == pop_higher_spec(old(self)@, priority as int),
    {
        while self.stack.len() > 0 && self.stack[self.stack.len() - 1].priority() >= priority
            invariant
                pop_higher_spec(old(self)@, priority as int) == pop_higher_spec(self@, priority as int),
            decreases self.stack.len(),
        {
            self.pop();
        }
    }

    fn pop(&mut self)
        requires
            old(self).stack.len() > 0,
        ensures
            final(self)@ == pop_spec(old(self)@),
    {
        let t = self.stack.pop().unwrap();
        self.output.push(t);
        assert(views(self.stack@) =~= views(old(self).stack@).drop_last());
        assert(views(self.output@) =~= views(old(self).output@).push(views(old(self).stack@).last()));
    }
}

} // verus!
