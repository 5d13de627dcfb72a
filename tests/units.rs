use calculator::calculator::compile;
use calculator::code_gen::{plan, resolve_constant, resolve_function, Constant, Function, Instr};
use calculator::errors::CalculatorError;
use calculator::lexer::{is_float_literal, parse_tokens};
use calculator::rpn::RPN;
use calculator::token::{Op, Tok, Token};

fn num(s: &str) -> Tok {
    Tok::Number(s.to_string())
}

fn n(s: &str) -> Instr {
    Instr::Number(s.to_string())
}

fn kinds(s: &str) -> Vec<Tok> {
    parse_tokens(s.to_string()).unwrap().into_iter().map(|t| t.tok).collect()
}

fn postfix(s: &str) -> Vec<Tok> {
    let mut rpn = RPN::new();
    rpn.push_all(parse_tokens(s.to_string()).unwrap()).unwrap();
    rpn.output
}

fn syntax_at(r: Result<Vec<Instr>, CalculatorError>) -> usize {
    match r {
        Err(CalculatorError::Syntax(_, p)) => p,
        other => panic!("expected a syntax error, got {:?}", other),
    }
}

fn is_runtime(r: Result<Vec<Instr>, CalculatorError>) -> bool {
    matches!(r, Err(CalculatorError::Runtime(_)))
}

#[test]
fn tokens_carry_character_positions() {
    let ts = parse_tokens("\u{3c0} + 12".to_string()).unwrap();
    assert_eq!(
        ts,
        vec![
            Token::new(Tok::Const("\u{3c0}".to_string()), 0),
            Token::new(Tok::Operator(Op::Add), 2),
            Token::new(num("12"), 4),
            Token::new(Tok::End, 6),
        ]
    );
}

#[test]
fn reserved_end_mark_is_rejected_at_its_index() {
    assert!(matches!(parse_tokens("\u{3c0}1$2$".to_string()), Err(CalculatorError::Syntax(_, 2))));
}

#[test]
fn identifier_before_parenthesis_is_a_call() {
    assert_eq!(kinds("sin (x)"), vec![Tok::Call("sin".to_string(), 1), Tok::Const("x".to_string()), Tok::RParen, Tok::End]);
    assert_eq!(kinds("ab1 2"), vec![Tok::Const("ab1".to_string()), num("2"), Tok::End]);
}

#[test]
fn symbol_synonyms() {
    assert_eq!(
        kinds("\u{d7}*\u{f7}/\u{221a}\u{221b}\u{2212}-^%!,"),
        vec![
            Tok::Operator(Op::Mul),
            Tok::Operator(Op::Mul),
            Tok::Operator(Op::Div),
            Tok::Operator(Op::Div),
            Tok::Operator(Op::Sqrt),
            Tok::Operator(Op::Cbrt),
            Tok::Operator(Op::Sub),
            Tok::Operator(Op::Sub),
            Tok::Operator(Op::Power),
            Tok::Operator(Op::Mod),
            Tok::Factorial,
            Tok::Comma,
            Tok::End,
        ]
    );
}

#[test]
fn exponent_minus_is_normalized() {
    assert_eq!(kinds("1e\u{2212}1"), vec![num("1e-1"), Tok::End]);
    assert_eq!(kinds("2-1"), vec![num("2"), Tok::Operator(Op::Sub), num("1"), Tok::End]);
}

#[test]
fn malformed_numbers_are_syntax_errors() {
    assert!(matches!(parse_tokens("1+1E1.5".to_string()), Err(CalculatorError::Syntax(_, 2))));
    assert!(matches!(parse_tokens("1.2.3".to_string()), Err(CalculatorError::Syntax(_, 0))));
    assert!(matches!(parse_tokens("1e".to_string()), Err(CalculatorError::Syntax(_, 0))));
    assert!(matches!(parse_tokens("1e--2".to_string()), Err(CalculatorError::Syntax(_, 0))));
    assert!(matches!(parse_tokens("1e\u{2212}\u{2212}2".to_string()), Err(CalculatorError::Syntax(_, 0))));
}

#[test]
fn minus_joins_a_literal_only_after_the_exponent_marker() {
    assert_eq!(kinds("1e1-1"), vec![num("1e1"), Tok::Operator(Op::Sub), num("1"), Tok::End]);
    assert_eq!(kinds("1e-1-1"), vec![num("1e-1"), Tok::Operator(Op::Sub), num("1"), Tok::End]);
    assert_eq!(kinds("2.5-1"), vec![num("2.5"), Tok::Operator(Op::Sub), num("1"), Tok::End]);
    assert_eq!(
        compile("1e1-1").unwrap(),
        vec![n("1e1"), n("1"), Instr::Operator(Op::Sub)]
    );
}

#[test]
fn unknown_character_is_a_syntax_error() {
    assert!(matches!(parse_tokens("1 # 2".to_string()), Err(CalculatorError::Syntax(_, 2))));
    assert_eq!(syntax_at(compile("=")), 0);
}

#[test]
fn float_literal_grammar() {
    let ok = ["1", "1.", "1.5", "10e3", "1.5E-2", "7e-0"];
    let bad = ["", ".5", "1e", "1e-", "1.2.3", "1e2e3", "1-2", "1e--2"];
    for s in ok {
        assert!(is_float_literal(&s.chars().collect()), "{}", s);
    }
    for s in bad {
        assert!(!is_float_literal(&s.chars().collect()), "{}", s);
    }
}

#[test]
fn priorities_and_classes() {
    assert_eq!(Tok::End.priority(), 0);
    assert_eq!(Tok::Call("f".to_string(), 1).priority(), 0);
    assert_eq!(Tok::LParen.priority(), 1);
    assert_eq!(Tok::Comma.priority(), 2);
    assert_eq!(Tok::RParen.priority(), 3);
    assert_eq!(Tok::Operator(Op::Sub).priority(), 4);
    assert_eq!(Tok::Operator(Op::Mod).priority(), 5);
    assert_eq!(Tok::Operator(Op::Umin).priority(), 6);
    assert_eq!(Tok::Operator(Op::Power).priority(), 7);
    assert_eq!(Tok::Factorial.priority(), 8);
    assert_eq!(Tok::Operator(Op::Cbrt).priority(), 10);
    assert_eq!(num("1").priority(), 20);
    assert!(Tok::Operator(Op::Power).is_right_associtive());
    assert!(!Tok::Operator(Op::Mul).is_right_associtive());
    assert!(Tok::LParen.is_prefix() && Tok::Operator(Op::Umin).is_prefix());
    assert!(!Tok::Operator(Op::Sub).is_prefix());
    assert!(Tok::RParen.is_operand() && Tok::Factorial.is_operand());
    assert!(!Tok::Operator(Op::Add).is_operand());
}

#[test]
fn power_is_right_associative() {
    let p = Tok::Operator(Op::Power);
    assert_eq!(postfix("2^3^2"), vec![num("2"), num("3"), num("2"), p.clone(), p]);
    let m = Tok::Operator(Op::Sub);
    assert_eq!(postfix("5-3-1"), vec![num("5"), num("3"), m.clone(), num("1"), m]);
}

#[test]
fn implicit_multiplication_programs() {
    let mul = Instr::Operator(Op::Mul);
    assert_eq!(compile("2\u{d7}3").unwrap(), vec![n("2"), n("3"), mul.clone()]);
    assert_eq!(compile("3\u{221a}4").unwrap(), vec![n("3"), n("4"), Instr::Operator(Op::Sqrt), mul.clone()]);
    assert_eq!(compile("2 3 4").unwrap(), vec![n("2"), n("3"), mul.clone(), n("4"), mul.clone()]);
    assert_eq!(compile("2\u{3c0}").unwrap(), vec![n("2"), Instr::Const(Constant::Pi), mul]);
}

#[test]
fn unary_minus_programs() {
    let u = Instr::Operator(Op::Umin);
    assert_eq!(compile("--1").unwrap(), vec![n("1"), u.clone(), u.clone()]);
    assert_eq!(compile("1+-1").unwrap(), vec![n("1"), n("1"), u, Instr::Operator(Op::Add)]);
    assert_eq!(compile("+1e2").unwrap(), vec![n("1e2")]);
}

#[test]
fn power_with_unary_minus_programs() {
    let u = Instr::Operator(Op::Umin);
    let p = Instr::Operator(Op::Power);
    assert_eq!(compile("-2^1^2").unwrap(), vec![n("2"), n("1"), n("2"), p.clone(), p.clone(), u.clone()]);
    assert_eq!(compile("-3^--2").unwrap(), vec![n("3"), n("2"), u.clone(), u.clone(), p, u]);
}

#[test]
fn lenient_parentheses() {
    let add = Instr::Operator(Op::Add);
    assert_eq!(
        compile("1+2)(2+3").unwrap(),
        vec![n("1"), n("2"), add.clone(), n("2"), n("3"), add, Instr::Operator(Op::Mul)]
    );
    assert_eq!(compile("(1").unwrap(), vec![n("1")]);
    assert_eq!(syntax_at(compile("(2,")), 2);
    assert_eq!(syntax_at(compile("()")), 1);
    assert_eq!(syntax_at(compile("sin()")), 4);
}

#[test]
fn trailing_operator_is_a_syntax_error() {
    assert_eq!(syntax_at(compile("1+")), 2);
    assert_eq!(syntax_at(compile("*2")), 0);
}

#[test]
fn function_arguments_keep_their_order() {
    assert_eq!(compile("log(2,8)").unwrap(), vec![n("2"), n("8"), Instr::Call(Function::Log)]);
    assert_eq!(compile("max(1,2)").unwrap(), vec![n("1"), n("2"), Instr::Call(Function::Max)]);
}

#[test]
fn factorial_after_lenient_close() {
    assert_eq!(
        compile("1+2)!^-2").unwrap(),
        vec![
            n("1"),
            n("2"),
            Instr::Operator(Op::Add),
            Instr::Factorial,
            n("2"),
            Instr::Operator(Op::Umin),
            Instr::Operator(Op::Power),
        ]
    );
}

#[test]
fn names_resolve_through_tables() {
    assert_eq!(resolve_constant("pi"), Some(Constant::Pi));
    assert_eq!(resolve_constant("\u{3c0}"), Some(Constant::Pi));
    assert_eq!(resolve_constant("Infinity"), Some(Constant::Infinity));
    assert_eq!(resolve_constant("NaN"), Some(Constant::NaN));
    assert_eq!(resolve_constant("nan"), None);
    assert_eq!(resolve_function("lb"), Some(Function::Lb));
    assert_eq!(resolve_function("log10"), Some(Function::Log10));
    assert_eq!(resolve_function("tan"), None);
    assert_eq!(Function::Rnd.arity(), 2);
    assert_eq!(Function::Cbrt.arity(), 1);
}

#[test]
fn runtime_errors() {
    assert!(is_runtime(compile("foo")));
    assert!(is_runtime(compile("foo(1)")));
    assert!(is_runtime(compile("log(2)")));
    assert!(is_runtime(compile("sin(1,2)")));
}

#[test]
fn plan_skips_structural_tokens() {
    let rpn = vec![num("1"), Tok::LParen, Tok::Const("e".to_string()), Tok::Operator(Op::Mul), Tok::End];
    assert_eq!(plan(&rpn).unwrap(), vec![n("1"), Instr::Const(Constant::E), Instr::Operator(Op::Mul)]);
    assert!(plan(&vec![num("1"), num("2")]).is_err());
    assert!(plan(&vec![]).is_err());
}

#[test]
fn numeric_literals_compile_to_themselves() {
    assert_eq!(compile("12.5e3").unwrap(), vec![n("12.5e3")]);
    assert_eq!(compile("-7").unwrap(), vec![n("7"), Instr::Operator(Op::Umin)]);
}

#[test]
fn compiling_twice_agrees() {
    for e in ["1+2)(2+3", "rnd(0,10)*0", "1+", "foo"] {
        assert_eq!(compile(e), compile(e));
    }
}
