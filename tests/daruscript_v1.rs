use daru_script::daruscript_v1::typed::{Type, TypeVars};
use daru_script::language::{check_ast, gen_ast, run_ast};
use daru_script::daruscript_v1::run;
use daru_script::language::RunError;
use daru_script::language::interp::EvalError;
use daru_script::daruscript_v1::type_checker::TypeError;

#[test]
fn daruscript_v1_addition() {
    assert_eq!(run("(3-1)+2").unwrap().to_string(), "4");
    assert_eq!(run("3-1+2").unwrap().to_string(), "4");
    assert_eq!(run("3-(1+2)").unwrap().to_string(), "0");
    assert_eq!(run("{val x = 3; x + 1}").unwrap().to_string(), "4");
}

#[test]
fn daruscript_v1_multiplication() {
    assert_eq!(run("3*2").unwrap().to_string(), "6");
    assert_eq!(run("3*2+1").unwrap().to_string(), "7");
    assert_eq!(run("3*(2+1)").unwrap().to_string(), "9");
    assert_eq!(run("{val x = 3; x * 2}").unwrap().to_string(), "6");
}

#[test]
fn daruscript_v1_division() {
    assert_eq!(run("6/2").unwrap().to_string(), "3");
    assert_eq!(run("6/2+1").unwrap().to_string(), "4");
    assert_eq!(run("6/(2+1)").unwrap().to_string(), "2");
    assert_eq!(run("{val x = 6; x / 2}").unwrap().to_string(), "3");
}

#[test]
fn closure() {
    assert_eq!(run("{x => x}(26) + {x => x}(4)").unwrap().to_string(), "30");
    assert_eq!(run("{x => {y => x + y} }(3)(5)").unwrap().to_string(), "8");
    assert_eq!(run("{t => t}(26) * {k => k}(6)").unwrap().to_string(), "156");
    assert_eq!(run("{v => v}(24) / {z => z}(3)").unwrap().to_string(), "8");
    assert_eq!(run("{l => l}({m => 2*m})(10) + 2").unwrap().to_string(), "22");
}

#[test]
fn run_negative_and_truncating_division() {
    assert_eq!(run("-7/2").unwrap().to_string(), "-3");
    assert_eq!(run("7/-2").unwrap().to_string(), "-3");
    assert_eq!(run("0-12").unwrap().to_string(), "-12");
}

#[test]
fn run_errors() {
    assert_eq!(run("1/0"), Err(RunError::Eval(EvalError::DivisionByZero)));
    assert_eq!(run("9223372036854775807 + 1"), Err(RunError::Eval(EvalError::Overflow)));
    assert_eq!(run("y + 1"), Err(RunError::Type(TypeError::FreeIdentifier)));
    assert_eq!(run("1 + {x => x}"), Err(RunError::Type(TypeError::IncompatibleTypes)));
    assert_eq!(run("{x => x(x)}"), Err(RunError::Type(TypeError::RecursiveType)));
    assert_eq!(run(""), Err(RunError::Empty));
    assert!(matches!(run("1 == 1"), Err(RunError::Parse(_))));
    assert!(matches!(run("1 @ 1"), Err(RunError::Scan(_))));
}

#[test]
fn run_closure_value_is_shown() {
    assert_eq!(run("{x => x}").unwrap().to_string(), "Closure(x, Id(\"x\"), [])");
    assert_eq!(
        run("{val a = 1; {x => a}}").unwrap().to_string(),
        "Closure(x, Id(\"a\"), [(\"a\", Num(1))])"
    );
}

#[test]
fn evaluation_scoping_and_closures() {
    assert_eq!(run("{x => x}({x => 100})(10)").unwrap().to_string(), "100");
    assert_eq!(run("{val x = 1; {val x = 2; x}}").unwrap().to_string(), "1");
    assert_eq!(run("{val a = 5; {f => f(1)}({y => a + y})}").unwrap().to_string(), "6");
    assert_eq!(run("1 + 2 * (4 / 0)"), Err(RunError::Eval(EvalError::DivisionByZero)));
}

#[test]
fn run_and_check_parsed_tree() {
    let mut vars = TypeVars::new();
    let ast = gen_ast("{val x = 2; {y => x * y}}(21)", &mut vars).unwrap();
    assert_eq!(vars.len(), 2);
    let mut vars2 = TypeVars::new();
    let ast2 = gen_ast("{val x = 2; {y => x * y}}(21)", &mut vars2).unwrap();
    assert!(matches!(check_ast(&ast2, &mut vars2), Ok(Type::Var(2))));
    assert_eq!(run_ast(&ast, &mut vars).unwrap().to_string(), "42");
}
