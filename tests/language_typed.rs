use daru_script::daruscript_v1::type_checker::TypeError;
use daru_script::language::type_checker::type_check;
use daru_script::language::typed::Expr::{Add, App, Fun, Id, Num, Val};
use daru_script::language::typed::Type;

#[test]
fn language_typed_addition_type_check() {
    assert_eq!(
        type_check(&Add(Box::new(Add(Box::new(Num(1)), Box::new(Num(2)))), Box::new(Num(3))), vec![]),
        Ok(Type::Num)
    );
    assert_eq!(
        type_check(
            &Val(
                String::from("x"),
                Type::Num,
                Box::new(Num(6)),
                Box::new(Add(Box::new(Num(1)), Box::new(Id(String::from("x")))))
            ),
            vec![]
        ),
        Ok(Type::Num)
    );
}

#[test]
fn language_typed_addition_type_check_invalid() {
    assert_eq!(
        type_check(
            &Add(
                Box::new(Add(Box::new(Num(1)), Box::new(Num(2)))),
                Box::new(Fun(String::from("x"), Type::Num, Box::new(Num(100))))
            ),
            vec![]
        ),
        Err(TypeError::IncompatibleTypes)
    );
    assert_eq!(
        type_check(
            &Val(
                String::from("x"),
                Type::Fun(Box::new(Type::Num), Box::new(Type::Num)),
                Box::new(Num(6)),
                Box::new(Add(Box::new(Num(1)), Box::new(Id(String::from("x")))))
            ),
            vec![]
        ),
        Err(TypeError::IncompatibleTypes)
    );
}

#[test]
fn language_typed_functions() {
    let f = Fun(String::from("x"), Type::Num, Box::new(Id(String::from("x"))));
    let num_to_num = Type::Fun(Box::new(Type::Num), Box::new(Type::Num));
    assert_eq!(type_check(&App(Box::new(f), Box::new(Num(3))), vec![]), Ok(Type::Num));
    let f = Fun(String::from("x"), Type::Num, Box::new(Id(String::from("x"))));
    assert_eq!(type_check(&f, vec![]), Ok(num_to_num));
    assert_eq!(type_check(&Id(String::from("y")), vec![]), Err(TypeError::FreeIdentifier));
}
