use daru_script::daruscript_v1::typed::TypeVars;
use daru_script::daruscript_v1::untyped::Expr;
use daru_script::daruscript_v1::untyped::Expr::{Add, Div, Fun, Id, Mul, Num, Sub, Val};
use daru_script::language;

fn gen_ast(source: &str) -> Expr {
    let mut vars = TypeVars::new();
    language::gen_ast(source, &mut vars).unwrap().type_erase()
}

#[test]
fn untyped_addition_ast() {
    assert_eq!(gen_ast("1+2"), Add(Box::new(Num(1)), Box::new(Num(2))));
    assert_eq!(
        gen_ast("1+2+3"),
        Add(Box::new(Add(Box::new(Num(1)), Box::new(Num(2)))), Box::new(Num(3)))
    );
    assert_eq!(
        gen_ast("1+(2+3)"),
        Add(Box::new(Num(1)), Box::new(Add(Box::new(Num(2)), Box::new(Num(3)))))
    );
    assert_eq!(gen_ast("5-3"), Sub(Box::new(Num(5)), Box::new(Num(3))));
    assert_eq!(
        gen_ast("{val x = 6; 1 + x}"),
        Val(
            String::from("x"),
            Box::new(Num(6)),
            Box::new(Add(Box::new(Num(1)), Box::new(Id(String::from("x")))))
        )
    );
    assert_eq!(gen_ast("4*2"), Mul(Box::new(Num(4)), Box::new(Num(2))));
    assert_eq!(gen_ast("8/4"), Div(Box::new(Num(8)), Box::new(Num(4))));
    assert_eq!(
        gen_ast("6*3+2"),
        Add(Box::new(Mul(Box::new(Num(6)), Box::new(Num(3)))), Box::new(Num(2)))
    );
    assert_eq!(
        gen_ast("10/(5-3)"),
        Div(Box::new(Num(10)), Box::new(Sub(Box::new(Num(5)), Box::new(Num(3)))))
    );
}

#[test]
fn first_class_functions() {
    assert_eq!(gen_ast("{x => 100}"), Fun(String::from("x"), Box::new(Num(100))),);
    assert_eq!(
        gen_ast("{x => x}({x => 100})(10)").to_string(),
        r#"App(App(Fun("x", Id("x")), Fun("x", Num(100))), Num(10))"#,
    );
}

#[test]
fn comments_and_negation_parse() {
    assert_eq!(gen_ast("// note\n-3 /* a /* nested */ comment */"), Sub(Box::new(Num(0)), Box::new(Num(3))));
    assert_eq!(gen_ast("\"s\"").to_string(), "Id(\"s\")");
    assert_eq!(gen_ast("{val x = 6; x}").to_string(), "Val(\"x\", Num(6), Id(\"x\"))");
    assert_eq!(gen_ast("-12").to_string(), "Sub(Num(0), Num(12))");
}
