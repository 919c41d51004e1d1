use daru_script::daruscript_v1::untyped::Value;
use daru_script::language::run;

#[test]
fn calculator_addition() {
    assert_eq!(run("(3-1)+2").unwrap(), Value::Num(4));
    assert_eq!(run("3-1+2").unwrap(), Value::Num(4));
    assert_eq!(run("3-(1+2)").unwrap(), Value::Num(0));
    assert_eq!(run("{val x = 3; x + 1}").unwrap(), Value::Num(4));
}

#[test]
fn calculator_multiplication() {
    assert_eq!(run("3*2").unwrap(), Value::Num(6));
    assert_eq!(run("3*2+1").unwrap(), Value::Num(7));
    assert_eq!(run("3*(2+1)").unwrap(), Value::Num(9));
    assert_eq!(run("{val x = 3; x * 2}").unwrap(), Value::Num(6));
}

#[test]
fn calculator_division() {
    assert_eq!(run("6/2").unwrap(), Value::Num(3));
    assert_eq!(run("6/2+1").unwrap(), Value::Num(4));
    assert_eq!(run("6/(2+1)").unwrap(), Value::Num(2));
    assert_eq!(run("{val x = 6; x / 2}").unwrap(), Value::Num(3));
}
