use daru_script::daruscript_v1::type_checker::{TypeError, occurs, resolve, type_check, unify};
use daru_script::daruscript_v1::typed::Expr::{Add, App, Div, Fun, Id, Mul, Num, Sub, Val};
use daru_script::daruscript_v1::typed::{Expr, Type, TypeVars};
use daru_script::daruscript_v1::untyped::Expr as U;
use daru_script::language::type_check as check_source;

fn b(e: Expr) -> Box<Expr> {
    Box::new(e)
}

fn id(x: &str) -> Expr {
    Id(x.to_string())
}

/// Checks `e` in an empty environment and writes out the type.
fn shown(e: &Expr, vars: &mut TypeVars) -> String {
    let t = type_check(e, vec![], vars).unwrap();
    t.to_string(vars)
}

#[test]
fn typed_addition_type_check() {
    let mut vars = TypeVars::new();
    assert_eq!(
        shown(&Add(b(Add(b(Num(1)), b(Num(2)))), b(Num(3))), &mut vars),
        "Num".to_string()
    );
    assert_eq!(
        shown(
            &Val(String::from("x"), Type::Num, b(Num(6)), b(Add(b(Num(1)), b(id("x"))))),
            &mut vars
        ),
        "Num".to_string()
    );
}

#[test]
fn type_inferred() {
    let mut vars = TypeVars::new();
    // {x => y => x}(1)
    let (vx, vy) = (vars.fresh(), vars.fresh());
    let e = App(b(Fun("x".to_string(), vx, b(Fun("y".to_string(), vy, b(id("x")))))), b(Num(1)));
    assert_eq!(shown(&e, &mut vars), "Var(None) -> Num".to_string());

    // {x => x + 1}(2)
    let vx = vars.fresh();
    let e = App(b(Fun("x".to_string(), vx, b(Add(b(id("x")), b(Num(1)))))), b(Num(2)));
    assert_eq!(shown(&e, &mut vars), "Num".to_string());

    // val x = 1; val x = x + 1; x
    let (v1, v2) = (vars.fresh(), vars.fresh());
    let e = Val(
        "x".to_string(),
        v1,
        b(Num(1)),
        b(Val("x".to_string(), v2, b(Add(b(id("x")), b(Num(1)))), b(id("x")))),
    );
    assert_eq!(shown(&e, &mut vars), "Num".to_string());

    // val f = x => x + 1; f(3)
    let (vf, vx) = (vars.fresh(), vars.fresh());
    let e = Val(
        "f".to_string(),
        vf,
        b(Fun("x".to_string(), vx, b(Add(b(id("x")), b(Num(1)))))),
        b(App(b(id("f")), b(Num(3)))),
    );
    assert_eq!(shown(&e, &mut vars), "Num".to_string());

    // x = 6; 1 + x
    let vx = vars.fresh();
    let e = Val(String::from("x"), vx, b(Num(6)), b(Add(b(Num(1)), b(id("x")))));
    assert_eq!(shown(&e, &mut vars), "Num".to_string());

    // val x1 = x => x; val x2 = x1; val x3 = x2(1); x1
    let (v1, vx, v2, v3) = (vars.fresh(), vars.fresh(), vars.fresh(), vars.fresh());
    let e = Val(
        "x1".to_string(),
        v1,
        b(Fun("x".to_string(), vx, b(id("x")))),
        b(Val(
            "x2".to_string(),
            v2,
            b(id("x1")),
            b(Val("x3".to_string(), v3, b(App(b(id("x2")), b(Num(1)))), b(id("x1")))),
        )),
    );
    assert_eq!(shown(&e, &mut vars), "Num -> Num".to_string());
}

#[test]
fn type_inferred_invalid() {
    let mut vars = TypeVars::new();
    // x => x(x)
    let vx = vars.fresh();
    let e = Fun("x".to_string(), vx, b(App(b(id("x")), b(id("x")))));
    assert_eq!(type_check(&e, vec![], &mut vars), Err(TypeError::RecursiveType));

    // x = x => x; 1 + x
    let vx = vars.fresh();
    let e = Val(
        String::from("x"),
        vx,
        b(Fun("x".to_string(), Type::Num, b(id("x")))),
        b(Add(b(Num(1)), b(id("x")))),
    );
    assert_eq!(type_check(&e, vec![], &mut vars), Err(TypeError::IncompatibleTypes));

    let e = App(b(Num(1)), b(Num(2)));
    assert_eq!(type_check(&e, vec![], &mut vars), Err(TypeError::IncompatibleTypes));
}

#[test]
fn typed_addition_type_check_invalid() {
    let mut vars = TypeVars::new();
    let e = Add(
        b(Add(b(Num(1)), b(Num(2)))),
        b(Fun(String::from("x"), Type::Num, b(Num(100)))),
    );
    assert_eq!(type_check(&e, vec![], &mut vars), Err(TypeError::IncompatibleTypes));
    let e = Val(
        String::from("x"),
        Type::Fun(Box::new(Type::Num), Box::new(Type::Num)),
        b(Num(6)),
        b(Add(b(Num(1)), b(id("x")))),
    );
    assert_eq!(type_check(&e, vec![], &mut vars), Err(TypeError::IncompatibleTypes));
}

#[test]
fn arithmetic_only_checks_to_num() {
    let mut vars = TypeVars::new();
    let e = Div(b(Mul(b(Num(6)), b(Sub(b(Num(3)), b(Num(-2)))))), b(Num(0)));
    assert_eq!(type_check(&e, vec![], &mut vars), Ok(Type::Num));
    assert_eq!(vars.len(), 0);
}

#[test]
fn unify_equal_types_is_a_no_op() {
    let mut vars = TypeVars::new();
    let t = Type::Fun(Box::new(Type::Num), Box::new(Type::Fun(Box::new(Type::Num), Box::new(Type::Num))));
    assert_eq!(unify(&mut vars, &t, &t.copy()), Ok(()));
    let v = vars.fresh();
    assert_eq!(unify(&mut vars, &v, &v.copy()), Ok(()));
    assert_eq!(vars.cell(0), None);
}

#[test]
fn occurs_through_function_domain() {
    let mut vars = TypeVars::new();
    let v = vars.fresh();
    let t = Type::Fun(Box::new(v.copy()), Box::new(Type::Num));
    assert!(occurs(&vars, 0, &t));
    assert!(!occurs(&vars, 0, &Type::Fun(Box::new(Type::Num), Box::new(Type::Num))));
    assert_eq!(unify(&mut vars, &v, &t), Err(TypeError::RecursiveType));
    assert_eq!(vars.cell(0), None);
}

#[test]
fn occurs_follows_bindings() {
    let mut vars = TypeVars::new();
    let a = vars.fresh();
    let c = vars.fresh();
    assert_eq!(unify(&mut vars, &c, &Type::Fun(Box::new(a.copy()), Box::new(Type::Num))), Ok(()));
    assert!(occurs(&vars, 0, &c));
    assert!(!occurs(&vars, 1, &a));
}

#[test]
fn resolve_collapses_chains() {
    let mut vars = TypeVars::new();
    let a = vars.fresh();
    let c = vars.fresh();
    let d = vars.fresh();
    assert_eq!(unify(&mut vars, &a, &c), Ok(()));
    assert_eq!(unify(&mut vars, &c, &d), Ok(()));
    assert_eq!(resolve(&vars, &a), Type::Var(2));
    assert_eq!(unify(&mut vars, &d, &Type::Num), Ok(()));
    assert_eq!(resolve(&vars, &a), Type::Num);
    assert_eq!(a.to_string(&vars), "Num".to_string());
    assert_eq!(resolve(&vars, &Type::Num), Type::Num);
}

#[test]
fn unify_num_with_function_fails() {
    let mut vars = TypeVars::new();
    let f = Type::Fun(Box::new(Type::Num), Box::new(Type::Num));
    assert_eq!(unify(&mut vars, &Type::Num, &f), Err(TypeError::IncompatibleTypes));
    assert_eq!(unify(&mut vars, &f, &Type::Num), Err(TypeError::IncompatibleTypes));
}

#[test]
fn unify_binds_right_hand_variable() {
    let mut vars = TypeVars::new();
    let v = vars.fresh();
    assert_eq!(unify(&mut vars, &Type::Num, &v), Ok(()));
    assert_eq!(vars.cell(0), Some(Type::Num));
}

#[test]
fn application_result_is_recovered_from_unknown_callee() {
    // {f => f(1)}: the parameter becomes Num -> R, R still unknown
    let mut vars = TypeVars::new();
    let vf = vars.fresh();
    let e = Fun("f".to_string(), vf, b(App(b(id("f")), b(Num(1)))));
    assert_eq!(shown(&e, &mut vars), "Num -> Var(None) -> Var(None)".to_string());
}

#[test]
fn outer_application_fixes_parameter() {
    let mut vars = TypeVars::new();
    let v1 = vars.fresh();
    let v2 = vars.fresh();
    let e = App(b(Fun("x".to_string(), v1, b(Fun("y".to_string(), v2, b(id("x")))))), b(Num(1)));
    let t = type_check(&e, vec![], &mut vars).unwrap();
    assert_eq!(resolve(&vars, &t), Type::Fun(Box::new(Type::Var(1)), Box::new(Type::Var(0))));
    assert_eq!(resolve(&vars, &Type::Var(0)), Type::Num);
    assert_eq!(vars.cell(1), None);
}

#[test]
fn adding_a_function_is_incompatible() {
    let mut vars = TypeVars::new();
    let e = Add(b(Num(1)), b(Fun("x".to_string(), Type::Num, b(Num(100)))));
    assert_eq!(type_check(&e, vec![], &mut vars), Err(TypeError::IncompatibleTypes));
}

#[test]
fn repeated_name_with_compatible_bindings_is_num() {
    let mut vars = TypeVars::new();
    let v1 = vars.fresh();
    let v2 = vars.fresh();
    let e = Val(
        "x".to_string(),
        v1,
        b(Num(1)),
        b(Val("x".to_string(), v2, b(Add(b(id("x")), b(Num(1)))), b(id("x")))),
    );
    let t = type_check(&e, vec![], &mut vars).unwrap();
    assert_eq!(resolve(&vars, &t), Type::Num);
}

#[test]
fn earliest_binding_wins_lookup() {
    let mut vars = TypeVars::new();
    let (v1, v2, v3) = (vars.fresh(), vars.fresh(), vars.fresh());
    let e = Val(
        "x".to_string(),
        v1,
        b(Num(1)),
        b(Val(
            "x".to_string(),
            v2,
            b(Fun("y".to_string(), v3, b(id("y")))),
            b(App(b(id("x")), b(Num(2)))),
        )),
    );
    assert_eq!(type_check(&e, vec![], &mut vars), Err(TypeError::IncompatibleTypes));
}

#[test]
fn environment_lookup_is_front_to_back() {
    let mut vars = TypeVars::new();
    let env = vec![
        ("x".to_string(), Type::Num),
        ("x".to_string(), Type::Fun(Box::new(Type::Num), Box::new(Type::Num))),
    ];
    assert_eq!(type_check(&id("x"), env, &mut vars), Ok(Type::Num));
    assert_eq!(type_check(&id("z"), vec![], &mut vars), Err(TypeError::FreeIdentifier));
}

#[test]
fn type_erase_drops_annotations() {
    let e = Val("x".to_string(), Type::Num, b(Num(1)), b(Fun("y".to_string(), Type::Num, b(id("x")))));
    assert_eq!(
        e.type_erase(),
        U::Val("x".to_string(), Box::new(U::Num(1)), Box::new(U::Fun("y".to_string(), Box::new(U::Id("x".to_string())))))
    );
}

#[test]
fn source_type_check_writes_inferred_type() {
    let (t, vars) = check_source("{x => x}(1)").unwrap();
    assert_eq!(t.to_string(&vars), "Num".to_string());
    let (t, vars) = check_source("{f => f(1)}").unwrap();
    assert_eq!(t.to_string(&vars), "Num -> Var(None) -> Var(None)".to_string());
    let (t, vars) = check_source("{x => {y => x}}").unwrap();
    assert_eq!(t.to_string(&vars), "Var(None) -> Var(None) -> Var(None)".to_string());
}

#[test]
fn typed_expr_is_written_without_annotations() {
    let e = App(b(Fun("x".to_string(), Type::Num, b(id("x")))), b(Num(-5)));
    assert_eq!(e.to_string(), "App(Fun(\"x\", Id(\"x\")), Num(-5))".to_string());
}

#[test]
fn type_error_messages() {
    assert_eq!(TypeError::FreeIdentifier.message(), "free identifier".to_string());
    assert_eq!(TypeError::RecursiveType.message(), "recursive type".to_string());
    assert_eq!(
        TypeError::IncompatibleTypes.message(),
        "incompatible types: Num and Function".to_string()
    );
}

#[test]
fn unify_keeps_domain_binding_after_codomain_failure() {
    let mut vars = TypeVars::new();
    let a = vars.fresh();
    let t1 = Type::Fun(Box::new(a.copy()), Box::new(Type::Num));
    let t2 = Type::Fun(
        Box::new(Type::Num),
        Box::new(Type::Fun(Box::new(Type::Num), Box::new(Type::Num))),
    );
    assert_eq!(unify(&mut vars, &t1, &t2), Err(TypeError::IncompatibleTypes));
    assert_eq!(vars.cell(0), Some(Type::Num));
}

#[test]
fn identifier_gives_earliest_entry_own_variable() {
    let mut vars = TypeVars::new();
    let (v1, v2) = (vars.fresh(), vars.fresh());
    let e = Val(
        "x".to_string(),
        v1,
        b(Num(1)),
        b(Val("x".to_string(), v2, b(Add(b(id("x")), b(Num(1)))), b(id("x")))),
    );
    assert_eq!(type_check(&e, vec![], &mut vars), Ok(Type::Var(0)));
    assert_eq!(resolve(&vars, &Type::Var(0)), Type::Num);
    assert_eq!(resolve(&vars, &Type::Var(1)), Type::Num);
}

#[test]
fn application_returns_new_variable() {
    let mut vars = TypeVars::new();
    let vx = vars.fresh();
    let e = App(b(Fun("x".to_string(), vx, b(id("x")))), b(Num(1)));
    assert_eq!(type_check(&e, vec![], &mut vars), Ok(Type::Var(1)));
    assert_eq!(vars.len(), 2);
    assert_eq!(resolve(&vars, &Type::Var(1)), Type::Num);
}

#[test]
fn sibling_binding_is_not_visible() {
    let mut vars = TypeVars::new();
    let e = Add(b(Val("x".to_string(), Type::Num, b(Num(1)), b(id("x")))), b(id("x")));
    assert_eq!(type_check(&e, vec![], &mut vars), Err(TypeError::FreeIdentifier));
}

#[test]
fn self_application_leaves_parameter_unbound() {
    let mut vars = TypeVars::new();
    let fv = vars.fresh();
    let e = Fun("x".to_string(), fv, b(App(b(id("x")), b(id("x")))));
    assert_eq!(type_check(&e, vec![], &mut vars), Err(TypeError::RecursiveType));
    assert_eq!(vars.cell(0), None);
}

#[test]
fn inner_parameter_cell_stays_unbound() {
    let mut vars = TypeVars::new();
    let (v1, v2) = (vars.fresh(), vars.fresh());
    let e = App(b(Fun("x".to_string(), v1, b(Fun("y".to_string(), v2, b(id("x")))))), b(Num(1)));
    let t = type_check(&e, vec![], &mut vars).unwrap();
    assert_eq!(vars.cell(1), None);
    assert_eq!(resolve(&vars, &t), Type::Fun(Box::new(Type::Var(1)), Box::new(Type::Var(0))));
}
