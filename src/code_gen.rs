use vstd::prelude::*;
use vstd::string::*;
use crate::errors::CalculatorError;
use crate::rpn::views;
use crate::token::{Op, Tok, TokView};

verus! {

/// A named constant.
#[derive(Clone, Copy, Debug, PartialEq, Eq, Structural)]
pub enum Constant {
    Pi,
    E,
    NaN,
    Infinity,
}

/// A function that can be called by name.
#[derive(Clone, Copy, Debug, PartialEq, Eq, Structural)]
pub enum Function {
    Sin,
    Cos,
    Log,
    Log2,
    Log10,
    Ln,
    Lg,
    Lb,
    Asin,
    Acos,
    Rnd,
    Max,
    Min,
    Sqrt,
    Cbrt,
}

/// One instruction of a checked postfix program.
#[derive(Clone, Debug, PartialEq, Eq)]
pub enum Instr {
    Number(String),
    Const(Constant),
    Call(Function),
    Operator(Op),
    Factorial,
}

pub enum InstrView {
    Number(Seq<char>),
    Const(Constant),
    Call(Function),
    Operator(Op),
    Factorial,
}

impl View for Instr {
    type V = InstrView;

    open spec fn view(&self) -> InstrView {
        match self {
            Instr::Number(s) => InstrView::Number(s@),
            Instr::Const(c) => InstrView::Const(*c),
            Instr::Call(f) => InstrView::Call(*f),
            Instr::Operator(op) => InstrView::Operator(*op),
            Instr::Factorial => InstrView::Factorial,
        }
    }
}

pub open spec fn instr_views(p: Seq<Instr>) -> Seq<InstrView> {
    p.map_values(|i: Instr| i@)
}

/// The constants table: `π` and `pi`, `e`, `NaN`, `Inf` and `Infinity`.
pub open spec fn constant_named(name: Seq<char>) -> Option<Constant> {
    if name == "\u{3c0}"@ || name == "pi"@ {
        Some(Constant::Pi)
    } else if name == "e"@ {
        Some(Constant::E)
    } else if name == "NaN"@ {
        Some(Constant::NaN)
    } else if name == "Inf"@ || name == "Infinity"@ {
        Some(Constant::Infinity)
    } else {
        None
    }
}

/// The functions table.
pub open spec fn function_named(name: Seq<char>) -> Option<Function> {
    if name == "sin"@ { Some(Function::Sin) }
    else if name == "cos"@ { Some(Function::Cos) }
    else if name == "log"@ { Some(Function::Log) }
    else if name == "log2"@ { Some(Function::Log2) }
    else if name == "log10"@ { Some(Function::Log10) }
    else if name == "ln"@ { Some(Function::Ln) }
    else if name == "lg"@ { Some(Function::Lg) }
    else if name == "lb"@ { Some(Function::Lb) }
    else if name == "asin"@ { Some(Function::Asin) }
    else if name == "acos"@ { Some(Function::Acos) }
    else if name == "rnd"@ { Some(Function::Rnd) }
    else if name == "max"@ { Some(Function::Max) }
    else if name == "min"@ { Some(Function::Min) }
    else if name == "sqrt"@ { Some(Function::Sqrt) }
    else if name == "cbrt"@ { Some(Function::Cbrt) }
    else { None }
}

impl Function {
    pub open spec fn spec_arity(self) -> nat {
        match self {
            Function::Log | Function::Rnd | Function::Max | Function::Min => 2,
            _ => 1,
        }
    }

    /// How many arguments the function takes off the stack.
    pub fn arity(&self) -> (r: usize)
        ensures
            r == self.spec_arity(),
    {
        match self {
            Function::Log | Function::Rnd | Function::Max | Function::Min => 2,
            _ => 1,
        }
    }
}

/// How many values an instruction takes off the stack; each then pushes one.
pub open spec fn pops(i: InstrView) -> nat {
    match i {
        InstrView::Number(_) | InstrView::Const(_) => 0,
        InstrView::Call(f) => f.spec_arity(),
        InstrView::Operator(op) => match op {
            Op::Umin | Op::Sqrt | Op::Cbrt => 1,
            _ => 2,
        },
        InstrView::Factorial => 1,
    }
}

pub enum Lowered {
    Emit(InstrView),
    Skip,
    Unknown,
}

/// What a postfix token becomes: an instruction, nothing (structural tokens), or an
/// unknown name.
pub open spec fn lower(t: TokView) -> Lowered {
    match t {
        TokView::Number(s) => Lowered::Emit(InstrView::Number(s)),
        TokView::Const(name) => match constant_named(name) {
            Some(c) => Lowered::Emit(InstrView::Const(c)),
            None => Lowered::Unknown,
        },
        TokView::Call(name, _) => match function_named(name) {
            Some(f) => Lowered::Emit(InstrView::Call(f)),
            None => Lowered::Unknown,
        },
        TokView::Operator(op) => Lowered::Emit(InstrView::Operator(op)),
        TokView::Factorial => Lowered::Emit(InstrView::Factorial),
        _ => Lowered::Skip,
    }
}

/// The program for a postfix sequence together with the number of values it leaves on
/// the stack; none when a name is unknown or an instruction would find too few operands.
pub open spec fn lower_all(rpn: Seq<TokView>) -> Option<(Seq<InstrView>, int)>
    decreases rpn.len(),
{
    if rpn.len() == 0 {
        Some((Seq::empty(), 0))
    } else {
        match lower_all(rpn.drop_last()) {
            None => None,
            Some((p, d)) => match lower(rpn.last()) {
                Lowered::Skip => Some((p, d)),
                Lowered::Unknown => None,
                Lowered::Emit(i) => if d >= pops(i) {
                    Some((p.push(i), d - pops(i) + 1))
                } else {
                    None
                },
            },
        }
    }
}

/// The checked program: every instruction finds its operands and exactly one value remains.
pub open spec fn plan_spec(rpn: Seq<TokView>) -> Option<Seq<InstrView>> {
    match lower_all(rpn) {
        Some((p, d)) => if d == 1 { Some(p) } else { None },
        None => None,
    }
}

/// The number of values on the stack after running `p` from an empty stack; none when an
/// instruction finds too few operands.
pub open spec fn stack_depth(p: Seq<InstrView>) -> Option<int>
    decreases p.len(),
{
    if p.len() == 0 {
        Some(0)
    } else {
        match stack_depth(p.drop_last()) {
            Some(d) => if d >= pops(p.last()) { Some(d - pops(p.last()) + 1) } else { None },
            None => None,
        }
    }
}

proof fn lemma_lower_all_depth(rpn: Seq<TokView>)
    requires
        lower_all(rpn) is Some,
    ensures
        match lower_all(rpn) {
            Some((p, d)) => stack_depth(p) == Some(d),
            None => false,
        },
    decreases rpn.len(),
{
    if rpn.len() > 0 {
        lemma_lower_all_depth(rpn.drop_last());
        let (p, d) = lower_all(rpn.drop_last())->0;
        match lower(rpn.last()) {
            Lowered::Emit(i) => {
                assert(p.push(i).drop_last() =~= p);
            },
            _ => {},
        }
    }
}

/// A planned program runs on a stack machine without ever finding too few operands, and
/// leaves exactly one value.
pub proof fn planned_program_runs_cleanly(rpn: Seq<TokView>)
    requires
        plan_spec(rpn) is Some,
    ensures
        stack_depth(plan_spec(rpn)->0) == Some(1int),
{
    lemma_lower_all_depth(rpn);
}

proof fn lemma_lower_all_fails_on(rpn: Seq<TokView>, k: int)
    requires
        0 <= k <= rpn.len(),
        lower_all(rpn.subrange(0, k)) is None,
    ensures
        lower_all(rpn) is None,
    decreases rpn.len() - k,
{
    if k < rpn.len() {
        assert(rpn.subrange(0, k + 1).drop_last() =~= rpn.subrange(0, k));
        lemma_lower_all_fails_on(rpn, k + 1);
    } else {
        assert(rpn.subrange(0, k) =~= rpn);
    }
}

/// Whether two texts hold the same characters.
fn same_text(a: &str, b: &str) -> (r: bool)
    ensures
        r == (a@ == b@),
{
    let n = a.unicode_len();
    if n != b.unicode_len() {
        return false;
    }
    let mut k: usize = 0;
    while k < n
        invariant
            n == a@.len(),
            n == b@.len(),
            k <= n,
            forall|j: int| 0 <= j < k ==> a@[j] == b@[j],
        decreases n - k,
    {
        if a.get_char(k) != b.get_char(k) {
            return false;
        }
        k = k + 1;
    }
    assert(a@ =~= b@);
    true
}

/// Looks a constant up by name.
pub fn resolve_constant(name: &str) -> (r: Option<Constant>)
    ensures
        r == constant_named(name@),
{
    if same_text(name, "\u{3c0}") || same_text(name, "pi") {
        Some(Constant::Pi)
    } else if same_text(name, "e") {
        Some(Constant::E)
    } else if same_text(name, "NaN") {
        Some(Constant::NaN)
    } else if same_text(name, "Inf") || same_text(name, "Infinity") {
        Some(Constant::Infinity)
    } else {
        None
    }
}

/// Looks a function up by name.
pub fn resolve_function(name: &str) -> (r: Option<Function>)
    ensures
        r == function_named(name@),
{
    if same_text(name, "sin") { Some(Function::Sin) }
    else if same_text(name, "cos") { Some(Function::Cos) }
    else if same_text(name, "log") { Some(Function::Log) }
    else if same_text(name, "log2") { Some(Function::Log2) }
    else if same_text(name, "log10") { Some(Function::Log10) }
    else if same_text(name, "ln") { Some(Function::Ln) }
    else if same_text(name, "lg") { Some(Function::Lg) }
    else if same_text(name, "lb") { Some(Function::Lb) }
    else if same_text(name, "asin") { Some(Function::Asin) }
    else if same_text(name, "acos") { Some(Function::Acos) }
    else if same_text(name, "rnd") { Some(Function::Rnd) }
    else if same_text(name, "max") { Some(Function::Max) }
    else if same_text(name, "min") { Some(Function::Min) }
    else if same_text(name, "sqrt") { Some(Function::Sqrt) }
    else if same_text(name, "cbrt") { Some(Function::Cbrt) }
    else { None }
}

fn pops_exec(i: &Instr) -> (r: usize)
    ensures
        r == pops(i@),
{
    match i {
        Instr::Number(_) | Instr::Const(_) => 0,
        Instr::Call(f) => f.arity(),
        Instr::Operator(Op::Umin) | Instr::Operator(Op::Sqrt) | Instr::Operator(Op::Cbrt) => 1,
        Instr::Operator(_) => 2,
        Instr::Factorial => 1,
    }
}

/// Resolves every name of a postfix sequence and checks that each instruction finds its
/// operands on the stack and that exactly one value remains; any failure is a runtime error.
pub fn plan(rpn: &Vec<Tok>) -> (r: Result<Vec<Instr>, CalculatorError>)
    ensures
        match plan_spec(views(rpn@)) {
            Some(p) => r is Ok && instr_views(r->Ok_0@) == p,
            None => r is Err && r->Err_0 is Runtime,
        },
{
    let ghost all = views(rpn@);
    let mut out: Vec<Instr> = Vec::new();
    let mut depth: usize = 0;
    let mut i: usize = 0;
    assert(all.subrange(0, 0) =~= Seq::<TokView>::empty());
    assert(instr_views(out@) =~= Seq::<InstrView>::empty());
    while i < rpn.len()
        invariant
            all == views(rpn@),
            i <= rpn@.len(),
            depth <= i,
            lower_all(all.subrange(0, i as int)) == Some((instr_views(out@), depth as int)),
        decreases rpn.len() - i,
    {
        proof {
            assert(all.subrange(0, i + 1).drop_last() =~= all.subrange(0, i as int));
            assert(all.subrange(0, i + 1).last() == rpn@[i as int]@);
        }
        let ins: Option<Instr> = match &rpn[i] {
            Tok::Number(s) => Some(Instr::Number(s.clone())),
            Tok::Const(name) => match resolve_constant(name.as_str()) {
                Some(c) => Some(Instr::Const(c)),
                None => {
                    proof { lemma_lower_all_fails_on(all, i + 1); }
                    return Err(CalculatorError::Runtime("unknown constant".to_string()));
                },
            },
            Tok::Call(name, _) => match resolve_function(name.as_str()) {
                Some(f) => Some(Instr::Call(f)),
                None => {
                    proof { lemma_lower_all_fails_on(all, i + 1); }
                    return Err(CalculatorError::Runtime("unknown function".to_string()));
                },
            },
            Tok::Operator(op) => Some(Instr::Operator(*op)),
            Tok::Factorial => Some(Instr::Factorial),
            _ => None,
        };
        match ins {
            Some(ins) => {
                let k = pops_exec(&ins);
                if depth < k {
                    proof { lemma_lower_all_fails_on(all, i + 1); }
                    return Err(CalculatorError::Runtime("missing operand".to_string()));
                }
                depth = depth - k + 1;
                let ghost before = instr_views(out@);
                out.push(ins);
                assert(instr_views(out@) =~= before.push(ins@));
            },
            None => {},
        }
        i = i + 1;
    }
    assert(all.subrange(0, i as int) =~= all);
    if depth != 1 {
        return Err(CalculatorError::Runtime("expected exactly one result".to_string()));
    }
    Ok(out)
}

} // verus!
