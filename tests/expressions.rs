use calculator::calculator::compile;
use calculator::code_gen::{Constant, Function, Instr};
use calculator::errors::CalculatorError;
use calculator::token::Op;

/// A numeric stack machine for checked programs, used to check values end to end.
fn run(program: &[Instr]) -> f64 {
    let mut s: Vec<f64> = Vec::new();
    for i in program {
        let v = match i {
            Instr::Number(t) => t.parse::<f64>().unwrap(),
            Instr::Const(Constant::Pi) => std::f64::consts::PI,
            Instr::Const(Constant::E) => std::f64::consts::E,
            Instr::Const(Constant::NaN) => f64::NAN,
            Instr::Const(Constant::Infinity) => f64::INFINITY,
            Instr::Call(f) => {
                let x = s.pop().unwrap();
                match f {
                    Function::Sin => x.sin(),
                    Function::Cos => x.cos(),
                    Function::Log => x.log(s.pop().unwrap()),
                    Function::Ln => x.ln(),
                    Function::Log10 | Function::Lg => x.log(10.0),
                    Function::Log2 | Function::Lb => x.log(2.0),
                    Function::Asin => x.asin(),
                    Function::Acos => x.acos(),
                    Function::Rnd => {
                        let lo = s.pop().unwrap();
                        (lo + x) / 2.0
                    }
                    Function::Max => x.max(s.pop().unwrap()),
                    Function::Min => x.min(s.pop().unwrap()),
                    Function::Sqrt => x.sqrt(),
                    Function::Cbrt => x.cbrt(),
                }
            }
            Instr::Operator(Op::Umin) => -s.pop().unwrap(),
            Instr::Operator(Op::Sqrt) => s.pop().unwrap().sqrt(),
            Instr::Operator(Op::Cbrt) => s.pop().unwrap().cbrt(),
            Instr::Operator(op) => {
                let b = s.pop().unwrap();
                let a = s.pop().unwrap();
                match op {
                    Op::Add => a + b,
                    Op::Sub => a - b,
                    Op::Mul => a * b,
                    Op::Div => a / b,
                    Op::Mod => a % b,
                    _ => a.powi(b as i32),
                }
            }
            Instr::Factorial => mathru::special::gamma::gamma(s.pop().unwrap() + 1.0),
        };
        s.push(v);
    }
    assert_eq!(s.len(), 1);
    s[0]
}

fn value(e: &str) -> Result<f64, CalculatorError> {
    compile(e).map(|p| run(&p))
}

fn approx(a: f64, b: f64) {
    assert!((a - b).abs() < 1e-6, "{} != {}", a, b);
}

#[test]
fn eq1() {
    assert!(value("1+").is_err());
}

#[test]
fn eq2() {
    assert!(value("=").is_err());
}

#[test]
fn eq3() {
    assert!(value("1E1.5").is_err());
}

#[test]
fn eq4() {
    assert!(value("NaN").unwrap().is_nan());
}

#[test]
fn eq5() {
    assert!(value("Inf").unwrap().is_infinite());
}

#[test]
fn eq6() {
    assert!(value("Infinity").unwrap().is_infinite());
}

#[test]
fn eq7() {
    assert!(value("-Inf").unwrap().is_infinite());
}

#[test]
fn eq8() {
    assert!(value("0/0").unwrap().is_nan());
}

#[test]
fn eq9() {
    assert!(value("(2,").is_err());
}

#[test]
fn ok1() {
    approx(value("1").unwrap(), 1 as f64);
}

#[test]
fn ok2() {
    approx(value("π").unwrap(), std::f64::consts::PI as f64);
}

#[test]
fn ok3() {
    approx(value("2×3").unwrap(), 6 as f64);
}

#[test]
fn ok4() {
    approx(value("1+√9*2").unwrap(), 7 as f64);
}

#[test]
fn ok5() {
    approx(value("3√4").unwrap(), 6 as f64);
}

#[test]
fn ok6() {
    approx(value("√16*sin(2pi/4)").unwrap(), 4 as f64);
}

#[test]
fn ok7() {
    approx(value("1+1").unwrap(), 2 as f64);
}

#[test]
fn ok8() {
    approx(value("1+-1").unwrap(), 0 as f64);
}

#[test]
fn ok9() {
    approx(value("1+1").unwrap(), 2 as f64);
}

#[test]
fn ok10() {
    approx(value("-0.5").unwrap(), -0.5 as f64);
}

#[test]
fn ok12() {
    approx(value("+1e2").unwrap(), 100 as f64);
}

#[test]
fn ok13() {
    approx(value("1e-1").unwrap(), 0.1 as f64);
}

#[test]
fn ok14() {
    approx(value("1e−1").unwrap(), 0.1 as f64);
}

#[test]
fn ok15() {
    approx(value("-2^3!").unwrap(), -64 as f64);
}

#[test]
fn ok16() {
    approx(value("(-2)^3!").unwrap(), 64 as f64);
}

#[test]
fn ok17() {
    approx(value("-2^1^2").unwrap(), -2 as f64);
}

#[test]
fn ok18() {
    approx(value("--1").unwrap(), 1 as f64);
}

#[test]
fn ok19() {
    approx(value("-3^--2").unwrap(), -9 as f64);
}

#[test]
fn ok20() {
    approx(value("1+2)(2+3").unwrap(), 15 as f64);
}

#[test]
fn ok21() {
    approx(value("1+2)!^-2").unwrap(), 1.0 / 36.0 as f64);
}

#[test]
fn ok22() {
    approx(value("sin(0)").unwrap(), 0 as f64);
}

#[test]
fn ok23() {
    approx(value("cos(0)").unwrap(), 1 as f64);
}

#[test]
fn ok24() {
    approx(value("sin(-1--1)").unwrap(), 0 as f64);
}

#[test]
fn ok25() {
    approx(value("-(2+1)*-(4/2)").unwrap(), 6 as f64);
}

#[test]
fn ok26() {
    approx(value("-0.5E-1").unwrap(), -0.05 as f64);
}

#[test]
fn ok28() {
    approx(value("2 3 4").unwrap(), 24 as f64);
}

#[test]
fn ok29() {
    approx(value("pi").unwrap(), std::f64::consts::PI as f64);
}

#[test]
fn ok30() {
    approx(value("e").unwrap(), std::f64::consts::E as f64);
}

#[test]
fn ok36() {
    approx(value("5 % 3").unwrap(), 2 as f64);
}

#[test]
fn ok37() {
    approx(value("5.2 % 3.2").unwrap(), 2 as f64);
}

#[test]
fn ok38() {
    approx(value("100.1-100-0.1").unwrap(), 0 as f64);
}

#[test]
fn ok39() {
    approx(value("1.1-1+(-0.1)").unwrap(), 0 as f64);
}

#[test]
fn ok40() {
    approx(value("log(2,8)").unwrap(), 3 as f64);
}

#[test]
fn ok41() {
    approx(value("log(9,81)").unwrap(), 2 as f64);
}

#[test]
fn ok42() {
    approx(value("log(4,2)").unwrap(), 0.5 as f64);
}

#[test]
fn ok43() {
    approx(value("ln(e)").unwrap(), 1 as f64);
}

#[test]
fn ok44() {
    approx(value("log10(10)").unwrap(), 1 as f64);
}

#[test]
fn ok45() {
    approx(value("log10(100)").unwrap(), 2 as f64);
}

#[test]
fn ok46() {
    approx(value("lg(0.1)").unwrap(), -1 as f64);
}

#[test]
fn ok47() {
    approx(value("log2(2)").unwrap(), 1 as f64);
}

#[test]
fn ok48() {
    approx(value("lb(256)").unwrap(), 8 as f64);
}

#[test]
fn ok49() {
    approx(value("rnd(0,10)*0").unwrap(), 0 as f64);
}

#[test]
fn ok50() {
    approx(value("max(2,3)").unwrap(), 3 as f64);
}

#[test]
fn ok51() {
    approx(value("min(2,3)").unwrap(), 2 as f64);
}

#[test]
fn ok52() {
    approx(value("cbrt(8)").unwrap(), 2 as f64);
}

#[test]
fn ok53() {
    approx(value("cbrt(-8)").unwrap(), -2 as f64);
}

#[test]
fn ok54() {
    approx(value("∛-8").unwrap(), -2 as f64);
}

#[test]
fn exponent_then_subtraction() {
    approx(value("1e1-1").unwrap(), 9.0);
}
