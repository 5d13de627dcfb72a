use vstd::prelude::*;

verus! {

/// An arithmetic operator, binary or unary.
#[derive(Clone, Copy, Debug, PartialEq, Eq, Structural)]
pub enum Op {
    Add,
    Sub,
    Mod,
    Mul,
    Div,
    Umin,
    Power,
    Sqrt,
    Cbrt,
}

/// The kind of a lexical unit.
#[derive(Clone, Debug, PartialEq, Eq)]
pub enum Tok {
    Number(String),
    Const(String),
    Call(String, usize),
    Operator(Op),
    Factorial,
    LParen,
    RParen,
    Comma,
    End,
}

/// The mathematical model of a `Tok`: texts become character sequences.
pub enum TokView {
    Number(Seq<char>),
    Const(Seq<char>),
    Call(Seq<char>, nat),
    Operator(Op),
    Factorial,
    LParen,
    RParen,
    Comma,
    End,
}

impl View for Tok {
    type V = TokView;

    open spec fn view(&self) -> TokView {
        match self {
            Tok::Number(s) => TokView::Number(s@),
            Tok::Const(s) => TokView::Const(s@),
            Tok::Call(s, n) => TokView::Call(s@, *n as nat),
            Tok::Operator(op) => TokView::Operator(*op),
            Tok::Factorial => TokView::Factorial,
            Tok::LParen => TokView::LParen,
            Tok::RParen => TokView::RParen,
            Tok::Comma => TokView::Comma,
            Tok::End => TokView::End,
        }
    }
}

impl TokView {
    pub open spec fn right_associative(self) -> bool {
        self == TokView::Operator(Op::Power)
    }

    pub open spec fn prefix(self) -> bool {
        match self {
            TokView::Call(_, _) | TokView::LParen => true,
            TokView::Operator(op) => op == Op::Umin || op == Op::Sqrt || op == Op::Cbrt,
            _ => false,
        }
    }

    pub open spec fn operand(self) -> bool {
        match self {
            TokView::Number(_) | TokView::Const(_) | TokView::RParen | TokView::Factorial => true,
            _ => false,
        }
    }

    pub open spec fn rank(self) -> int {
        match self {
            TokView::End | TokView::Call(_, _) => 0,
            TokView::LParen => 1,
            TokView::Comma => 2,
            TokView::RParen => 3,
            TokView::Operator(op) => match op {
                Op::Add | Op::Sub => 4,
                Op::Mul | Op::Div | Op::Mod => 5,
                Op::Umin => 6,
                Op::Power => 7,
                Op::Sqrt | Op::Cbrt => 10,
            },
            TokView::Factorial => 8,
            TokView::Number(_) | TokView::Const(_) => 20,
        }
    }
}

impl Tok {
    /// `Power` is the only right-associative operator.
    pub fn is_right_associtive(&self) -> (r: bool)
        ensures
            r == self@.right_associative(),
    {
        match self {
            Tok::Operator(Op::Power) => true,
            _ => false,
        }
    }

    /// Calls, opening parentheses, unary minus and the root signs bind to what follows them.
    pub fn is_prefix(&self) -> (r: bool)
        ensures
            r == self@.prefix(),
    {
        match self {
            Tok::Call(_, _) | Tok::LParen => true,
            Tok::Operator(Op::Umin) | Tok::Operator(Op::Sqrt) | Tok::Operator(Op::Cbrt) => true,
            _ => false,
        }
    }

    /// Tokens that can close a complete sub-expression.
    pub fn is_operand(&self) -> (r: bool)
        ensures
            r == self@.operand(),
    {
        match self {
            Tok::Number(_) | Tok::Const(_) | Tok::RParen | Tok::Factorial => true,
            _ => false,
        }
    }

    /// Binding strength in the operator-precedence conversion; higher pops first.
    pub fn priority(&self) -> (r: i32)
        ensures
            r as int == self@.rank(),
            0 <= r <= 20,
    {
        match self {
            Tok::End | Tok::Call(_, _) => 0,
            Tok::LParen => 1,
            Tok::Comma => 2,
            Tok::RParen => 3,
            Tok::Operator(Op::Add) | Tok::Operator(Op::Sub) => 4,
            Tok::Operator(Op::Mul) | Tok::Operator(Op::Div) | Tok::Operator(Op::Mod) => 5,
            Tok::Operator(Op::Umin) => 6,
            Tok::Operator(Op::Power) => 7,
            Tok::Factorial => 8,
            Tok::Operator(Op::Sqrt) | Tok::Operator(Op::Cbrt) => 10,
            Tok::Number(_) | Tok::Const(_) => 20,
        }
    }

    /// A copy of this token whose equality with the original is known to the verifier.
    pub fn duplicate(&self) -> (r: Tok)
        ensures
            r == *self,
    {
        match self {
            Tok::Number(s) => Tok::Number(s.clone()),
            Tok::Const(s) => Tok::Const(s.clone()),
            Tok::Call(s, n) => Tok::Call(s.clone(), *n),
            Tok::Operator(op) => Tok::Operator(*op),
            Tok::Factorial => Tok::Factorial,
            Tok::LParen => Tok::LParen,
            Tok::RParen => Tok::RParen,
            Tok::Comma => Tok::Comma,
            Tok::End => Tok::End,
        }
    }
}

/// A token together with the index, in characters, of the first character that produced it.
#[derive(Clone, Debug, PartialEq, Eq)]
pub struct Token {
    pub tok: Tok,
    pub pos: usize,
}

impl View for Token {
    type V = (TokView, nat);

    open spec fn view(&self) -> (TokView, nat) {
        (self.tok@, self.pos as nat)
    }
}

impl Token {
    /// A copy whose equality with the original is known to the verifier.
    pub fn clone_token(&self) -> (r: Token)
        ensures
            r == *self,
    {
        Token { tok: self.tok.duplicate(), pos: self.pos }
    }

    pub fn new(tok: Tok, pos: usize) -> (r: Self)
        ensures
            r.tok == tok,
            r.pos == pos,
    {
        Token { tok, pos }
    }
}

} // verus!
