use vstd::prelude::*;
use vstd::string::StringExecFns;

use super::bindings::{
    agrees, lemma_agrees_zonk, lemma_bind_new_cell, lemma_occurs_size, lemma_resolve,
    lemma_satisfies_back, lemma_satisfies_eq, lemma_satisfies_zonk, lemma_zonk_eq_extend,
    lemma_zonk_extend, lemma_zonk_in_range, lemma_zonk_unbound,
};
use super::typed::lemma_bind_wf;
use super::typed::{
    Bindings, Expr, TEnv, Type, TypeVars, env_in_range, expr_in_range, free_count, in_range,
    lemma_env_in_range_mono, lemma_expr_in_range_mono, lemma_free_count_bind, lemma_in_range_mono,
    occurs_in, size,
};

verus! {

/// Why a type check fails.
#[derive(Debug, Clone, Copy, PartialEq, Eq, Structural)]
pub enum TypeError {
    /// An identifier that no enclosing binding names.
    FreeIdentifier,
    /// A variable would be bound to a type that contains it.
    RecursiveType,
    /// `Num` met a function type.
    IncompatibleTypes,
}

/// The message that goes with each kind of type error.
pub open spec fn error_text(e: TypeError) -> Seq<char> {
    match e {
        TypeError::FreeIdentifier => "free identifier"@,
        TypeError::RecursiveType => "recursive type"@,
        TypeError::IncompatibleTypes => "incompatible types: Num and Function"@,
    }
}

impl TypeError {
    /// A message describing the error.
    pub fn message(&self) -> (r: String)
        ensures
            r@ == error_text(*self),
    {
        match self {
            TypeError::FreeIdentifier => String::from_str("free identifier"),
            TypeError::RecursiveType => String::from_str("recursive type"),
            TypeError::IncompatibleTypes => String::from_str("incompatible types: Num and Function"),
        }
    }
}

/// Follows the bindings of `typ` until a type that is not a bound variable.
/// Nothing is changed.
pub fn resolve(vars: &TypeVars, typ: &Type) -> (r: Type)
    requires
        vars@.wf(),
        in_range(*typ, vars@.len()),
    ensures
        r == vars@.resolve(*typ),
    decreases vars@.rank_of(*typ),
{
    match typ {
        Type::Var(v) => match vars.cell(*v) {
            Some(inner) => {
                assert(vars@.cells[*v as int] is Some);
                resolve(vars, &inner)
            },
            None => Type::Var(*v),
        },
        _ => typ.copy(),
    }
}

/// Whether the variable `v` occurs in what `t` stands for.
pub fn occurs(vars: &TypeVars, v: usize, t: &Type) -> (r: bool)
    requires
        vars@.wf(),
        in_range(*t, vars@.len()),
    ensures
        r == occurs_in(v, vars@.zonk(*t)),
    decreases vars@.rank_of(*t), *t,
{
    let rt = resolve(vars, t);
    proof {
        lemma_resolve(vars@, *t);
    }
    match rt {
        Type::Num => false,
        Type::Fun(l, r) => {
            proof {
                if t is Var {
                    assert(vars@.is_bound(t->Var_0));
                }
            }
            let a = occurs(vars, v, &*l);
            a || occurs(vars, v, &*r)
        },
        Type::Var(w) => w == v,
    }
}

/// Binding the unbound variable `a` to the resolved type `u`: refused with
/// `RecursiveType`, nothing changed, when `a` occurs in what `u` stands for.
pub open spec fn bind_step(b: Bindings, a: usize, u: Type) -> (Bindings, Result<(), TypeError>) {
    if occurs_in(a, b.zonk(u)) {
        (b, Err(TypeError::RecursiveType))
    } else {
        (b.bind(a, u), Ok(()))
    }
}

/// Unification, step by step: both sides are resolved; the same variable
/// twice is done; an unbound variable on the left, else on the right, is
/// bound to the other side; `Num` with `Num` is done; two function types are
/// unified domain first, then codomain, and a failure keeps what came before;
/// `Num` against a function type is `IncompatibleTypes`.
pub open spec fn unify_spec(b: Bindings, t1: Type, t2: Type) -> (Bindings, Result<(), TypeError>)
    decreases free_count(b.cells), size(b.zonk(t1)) + size(b.zonk(t2)),
    when b.wf() && in_range(t1, b.len()) && in_range(t2, b.len())
{
    let r1 = b.resolve(t1);
    let r2 = b.resolve(t2);
    proof {
        lemma_resolve(b, t1);
        lemma_resolve(b, t2);
        lemma_zonk_in_range(b, t1);
        lemma_zonk_in_range(b, t2);
    }
    match r1 {
        Type::Var(a) => if r2 == Type::Var(a) {
            (b, Ok(()))
        } else {
            bind_step(b, a, r2)
        },
        Type::Num => match r2 {
            Type::Var(c) => bind_step(b, c, r1),
            Type::Num => (b, Ok(())),
            Type::Fun(_, _) => (b, Err(TypeError::IncompatibleTypes)),
        },
        Type::Fun(a1, s1) => match r2 {
            Type::Var(c) => bind_step(b, c, r1),
            Type::Num => (b, Err(TypeError::IncompatibleTypes)),
            Type::Fun(a2, s2) => {
                let (b1, first) = unify_spec(b, *a1, *a2);
                if first is Err {
                    (b1, first)
                } else if b1.wf() && b1.len() == b.len() && (b1 == b || free_count(b1.cells)
                    < free_count(b.cells)) {
                    unify_spec(b1, *s1, *s2)
                } else {
                    (b1, first)
                }
            },
        },
    }
}

/// What unifying leaves: well-formed bindings with the same cells, of which
/// only unbound ones may have become bound, and either nothing changed or
/// fewer cells are unbound.
pub open spec fn unify_shape(b: Bindings, b1: Bindings) -> bool {
    &&& b1.wf()
    &&& b1.len() == b.len()
    &&& b1.extends(b)
    &&& (b1 == b || free_count(b1.cells) < free_count(b.cells))
}

proof fn lemma_bind_step_shape(b: Bindings, a: usize, u: Type)
    requires
        b.wf(),
        a < b.len(),
        !b.is_bound(a),
        in_range(u, b.len()),
    ensures
        unify_shape(b, bind_step(b, a, u).0),
{
    if !occurs_in(a, b.zonk(u)) {
        lemma_bind_wf(b, a, u);
        lemma_free_count_bind(b.cells, a as int, u);
    }
}

/// Unification always leaves bindings of the shape [`unify_shape`] states,
/// so in [`unify_spec`] the codomains of two function types are always
/// unified once their domains are: the last branch there is never taken.
pub proof fn lemma_unify_spec_shape(b: Bindings, t1: Type, t2: Type)
    requires
        b.wf(),
        in_range(t1, b.len()),
        in_range(t2, b.len()),
    ensures
        unify_shape(b, unify_spec(b, t1, t2).0),
    decreases free_count(b.cells), size(b.zonk(t1)) + size(b.zonk(t2)),
{
    lemma_resolve(b, t1);
    lemma_resolve(b, t2);
    lemma_zonk_in_range(b, t1);
    lemma_zonk_in_range(b, t2);
    let r1 = b.resolve(t1);
    let r2 = b.resolve(t2);
    match r1 {
        Type::Var(a) => {
            if r2 != Type::Var(a) {
                lemma_bind_step_shape(b, a, r2);
            }
        },
        Type::Num => {
            if let Type::Var(c) = r2 {
                lemma_bind_step_shape(b, c, r1);
            }
        },
        Type::Fun(a1, s1) => match r2 {
            Type::Var(c) => {
                lemma_bind_step_shape(b, c, r1);
            },
            Type::Num => {},
            Type::Fun(a2, s2) => {
                lemma_unify_spec_shape(b, *a1, *a2);
                let (b1, first) = unify_spec(b, *a1, *a2);
                if first is Ok {
                    lemma_unify_spec_shape(b1, *s1, *s2);
                }
            },
        },
    }
}

/// The step of `unify` where `ta` stands for the unbound variable `a` and `tb`
/// for `u`, which is resolved and is not `a`.
fn bind_checked(vars: &mut TypeVars, a: usize, u: Type, ta: Ghost<Type>, tb: Ghost<Type>) -> (r:
    Result<(), TypeError>)
    requires
        old(vars)@.wf(),
        a < old(vars)@.len(),
        !old(vars)@.is_bound(a),
        in_range(u, old(vars)@.len()),
        in_range(ta@, old(vars)@.len()),
        in_range(tb@, old(vars)@.len()),
        u != Type::Var(a),
        u is Var ==> !old(vars)@.is_bound(u->Var_0),
        old(vars)@.zonk(ta@) == Type::Var(a),
        old(vars)@.zonk(tb@) == old(vars)@.zonk(u),
    ensures
        final(vars)@.wf(),
        final(vars)@.len() == old(vars)@.len(),
        final(vars)@.extends(old(vars)@),
        final(vars)@ == old(vars)@ || free_count(final(vars)@.cells) < free_count(
            old(vars)@.cells,
        ),
        r is Ok ==> final(vars)@.zonk(ta@) == final(vars)@.zonk(tb@),
        old(vars)@.zonk(ta@) != old(vars)@.zonk(tb@),
        r != Err::<(), TypeError>(TypeError::FreeIdentifier),
        forall|b2: Bindings| #[trigger]
            b2.satisfies(old(vars)@) && b2.wf() && b2.zonk(ta@) == b2.zonk(tb@) ==> r is Ok
                && b2.satisfies(final(vars)@),
        (final(vars)@, r) == bind_step(old(vars)@, a, u),
{
    let ghost b0 = vars@;
    if occurs(vars, a, &u) {
        proof {
            lemma_zonk_in_range(b0, u);
            assert forall|b2: Bindings| #[trigger]
                b2.satisfies(b0) && b2.wf() implies b2.zonk(ta@) != b2.zonk(tb@) by {
                lemma_in_range_mono(ta@, b0.len(), b2.len());
                lemma_satisfies_eq(b0, b2, ta@, Type::Var(a));
                lemma_satisfies_eq(b0, b2, tb@, u);
                let zu = b0.zonk(u);
                lemma_satisfies_zonk(b0, b2, u);
                lemma_in_range_mono(zu, b0.len(), b2.len());
                if let Type::Fun(l, r) = zu {
                    if occurs_in(a, *l) {
                        lemma_occurs_size(b2, *l, a);
                    } else {
                        lemma_occurs_size(b2, *r, a);
                    }
                }
            }
        }
        return Err(TypeError::RecursiveType);
    }
    proof {
        lemma_free_count_bind(b0.cells, a as int, u);
    }
    vars.bind(a, u);
    proof {
        let b1 = vars@;
        assert(b1.cells[a as int] is Some);
        assert(b1.zonk(Type::Var(a)) == b1.zonk(u));
        lemma_zonk_eq_extend(b0, b1, ta@, Type::Var(a));
        lemma_zonk_eq_extend(b0, b1, tb@, u);
        assert forall|b2: Bindings| #[trigger]
            b2.satisfies(b0) && b2.wf() && b2.zonk(ta@) == b2.zonk(tb@) implies b2.satisfies(b1) by {
            lemma_satisfies_eq(b0, b2, ta@, Type::Var(a));
            lemma_satisfies_eq(b0, b2, tb@, u);
            assert forall|v: usize| #[trigger] b1.is_bound(v) implies b2.zonk(Type::Var(v))
                == b2.zonk(b1.binding(v)) by {
                if v != a {
                    assert(b0.is_bound(v));
                }
            }
        }
    }
    Ok(())
}

/// Makes `t1` and `t2` stand for the same type, binding unbound variables on
/// the way. Bindings made before a failure stay.
///
/// On success both stand for the same type. Equal types leave everything as
/// it was. It succeeds whenever some solution of the starting bindings makes
/// the two equal, and every such solution is also a solution of the bindings
/// it leaves: the bindings it adds are the most general ones.
pub fn unify(vars: &mut TypeVars, t1: &Type, t2: &Type) -> (r: Result<(), TypeError>)
    requires
        old(vars)@.wf(),
        in_range(*t1, old(vars)@.len()),
        in_range(*t2, old(vars)@.len()),
    ensures
        final(vars)@.wf(),
        final(vars)@.len() == old(vars)@.len(),
        final(vars)@.extends(old(vars)@),
        final(vars)@ == old(vars)@ || free_count(final(vars)@.cells) < free_count(
            old(vars)@.cells,
        ),
        r is Ok ==> final(vars)@.zonk(*t1) == final(vars)@.zonk(*t2),
        old(vars)@.zonk(*t1) == old(vars)@.zonk(*t2) ==> r is Ok && final(vars)@ == old(vars)@,
        r != Err::<(), TypeError>(TypeError::FreeIdentifier),
        forall|b2: Bindings| #[trigger]
            b2.satisfies(old(vars)@) && b2.wf() && b2.zonk(*t1) == b2.zonk(*t2) ==> r is Ok
                && b2.satisfies(final(vars)@),
        (final(vars)@, r) == unify_spec(old(vars)@, *t1, *t2),
        ({
            let (x, y) = (old(vars)@.resolve(*t1), old(vars)@.resolve(*t2));
            (x is Num && y is Fun) || (x is Fun && y is Num)
        }) ==> r == Err::<(), TypeError>(TypeError::IncompatibleTypes) && final(vars)@ == old(
            vars,
        )@,
        ({
            let (x, y) = (old(vars)@.resolve(*t1), old(vars)@.resolve(*t2));
            x matches Type::Var(c) && y != x && occurs_in(c, old(vars)@.zonk(y))
        }) ==> r == Err::<(), TypeError>(TypeError::RecursiveType) && final(vars)@ == old(vars)@,
        ({
            let (x, y) = (old(vars)@.resolve(*t1), old(vars)@.resolve(*t2));
            x matches Type::Var(c) && y != x && !occurs_in(c, old(vars)@.zonk(y))
        }) ==> r is Ok && final(vars)@.cells == old(vars)@.cells.update(
            old(vars)@.resolve(*t1)->Var_0 as int,
            Some(old(vars)@.resolve(*t2)),
        ),
        ({
            let (x, y) = (old(vars)@.resolve(*t1), old(vars)@.resolve(*t2));
            y matches Type::Var(c) && !(x is Var) && occurs_in(c, old(vars)@.zonk(x))
        }) ==> r == Err::<(), TypeError>(TypeError::RecursiveType) && final(vars)@ == old(vars)@,
        ({
            let (x, y) = (old(vars)@.resolve(*t1), old(vars)@.resolve(*t2));
            y matches Type::Var(c) && !(x is Var) && !occurs_in(c, old(vars)@.zonk(x))
        }) ==> r is Ok && final(vars)@.cells == old(vars)@.cells.update(
            old(vars)@.resolve(*t2)->Var_0 as int,
            Some(old(vars)@.resolve(*t1)),
        ),
    decreases free_count(old(vars)@.cells), size(old(vars)@.zonk(*t1)) + size(old(vars)@.zonk(*t2)),
{
    let ghost b0 = vars@;
    let r1 = resolve(vars, t1);
    let r2 = resolve(vars, t2);
    proof {
        lemma_resolve(b0, *t1);
        lemma_resolve(b0, *t2);
    }
    match (r1, r2) {
        (Type::Var(a), Type::Var(c)) if a == c => Ok(()),
        (Type::Var(a), u) => bind_checked(vars, a, u, Ghost(*t1), Ghost(*t2)),
        (u, Type::Var(c)) => bind_checked(vars, c, u, Ghost(*t2), Ghost(*t1)),
        (Type::Num, Type::Num) => Ok(()),
        (Type::Fun(a1, res1), Type::Fun(a2, res2)) => {
            proof {
                lemma_zonk_in_range(b0, *t1);
                lemma_zonk_in_range(b0, *t2);
            }
            proof {
                assert forall|b3: Bindings| #[trigger]
                    b3.satisfies(b0) && b3.wf() && b3.zonk(*t1) == b3.zonk(*t2) implies b3.zonk(*a1)
                    == b3.zonk(*a2) && b3.zonk(*res1) == b3.zonk(*res2) by {
                    lemma_satisfies_eq(b0, b3, *t1, Type::Fun(a1, res1));
                    lemma_satisfies_eq(b0, b3, *t2, Type::Fun(a2, res2));
                }
            }
            let first = unify(vars, &*a1, &*a2);
            if first.is_err() {
                return first;
            }
            let ghost b1 = vars@;
            let second = unify(vars, &*res1, &*res2);
            proof {
                let b2 = vars@;
                lemma_zonk_eq_extend(b1, b2, *a1, *a2);
                lemma_zonk_eq_extend(b0, b2, *t1, Type::Fun(a1, res1));
                lemma_zonk_eq_extend(b0, b2, *t2, Type::Fun(a2, res2));
            }
            second
        },
        _ => {
            proof {
                assert forall|b2: Bindings| #[trigger]
                    b2.satisfies(b0) && b2.wf() implies b2.zonk(*t1) != b2.zonk(*t2) by {
                    lemma_satisfies_eq(b0, b2, *t1, r1);
                    lemma_satisfies_eq(b0, b2, *t2, r2);
                    lemma_in_range_mono(r1, b0.len(), b2.len());
                    lemma_in_range_mono(r2, b0.len(), b2.len());
                }
            }
            Err(TypeError::IncompatibleTypes)
        },
    }
}

/// The type bound to `x` by the earliest entry of `env` that names it.
pub open spec fn lookup(env: Seq<(String, Type)>, x: Seq<char>) -> Option<Type>
    decreases env.len(),
{
    if env.len() == 0 {
        None
    } else {
        match lookup(env.drop_last(), x) {
            Some(t) => Some(t),
            None => if env.last().0@ == x {
                Some(env.last().1)
            } else {
                None
            },
        }
    }
}

/// Both operands of an arithmetic operator have type `Num`.
pub open spec fn arith_type(l: Option<Type>, r: Option<Type>) -> Option<Type> {
    if l == Some(Type::Num) && r == Some(Type::Num) {
        Some(Type::Num)
    } else {
        None
    }
}

/// The type that `e` has in `env` under the bindings `b`, written with every
/// bound variable replaced; `None` where `e` has no type there.
pub open spec fn type_of(b: Bindings, env: Seq<(String, Type)>, e: Expr) -> Option<Type>
    decreases e,
{
    match e {
        Expr::Num(_) => Some(Type::Num),
        Expr::Add(l, r) => arith_type(type_of(b, env, *l), type_of(b, env, *r)),
        Expr::Sub(l, r) => arith_type(type_of(b, env, *l), type_of(b, env, *r)),
        Expr::Mul(l, r) => arith_type(type_of(b, env, *l), type_of(b, env, *r)),
        Expr::Div(l, r) => arith_type(type_of(b, env, *l), type_of(b, env, *r)),
        Expr::Val(x, t, init, body) => if type_of(b, env, *init) == Some(b.zonk(t)) {
            type_of(b, env.push((x, t)), *body)
        } else {
            None
        },
        Expr::Id(x) => match lookup(env, x@) {
            Some(t) => Some(b.zonk(t)),
            None => None,
        },
        Expr::Fun(x, t, body) => match type_of(b, env.push((x, t)), *body) {
            Some(c) => Some(Type::Fun(Box::new(b.zonk(t)), Box::new(c))),
            None => None,
        },
        Expr::App(f, a) => match type_of(b, env, *f) {
            Some(Type::Fun(d, c)) => if type_of(b, env, *a) == Some(*d) {
                Some(*c)
            } else {
                None
            },
            _ => None,
        },
    }
}

/// Every identifier of `e` is named by `env` or by a binding around it.
pub open spec fn names_bound(env: Seq<(String, Type)>, e: Expr) -> bool
    decreases e,
{
    match e {
        Expr::Num(_) => true,
        Expr::Add(l, r) => names_bound(env, *l) && names_bound(env, *r),
        Expr::Sub(l, r) => names_bound(env, *l) && names_bound(env, *r),
        Expr::Mul(l, r) => names_bound(env, *l) && names_bound(env, *r),
        Expr::Div(l, r) => names_bound(env, *l) && names_bound(env, *r),
        Expr::App(l, r) => names_bound(env, *l) && names_bound(env, *r),
        Expr::Val(x, t, init, body) => names_bound(env, *init) && names_bound(
            env.push((x, t)),
            *body,
        ),
        Expr::Id(x) => lookup(env, x@) is Some,
        Expr::Fun(x, t, body) => names_bound(env.push((x, t)), *body),
    }
}

/// `e` is made of numbers and the four arithmetic operators alone.
pub open spec fn arith_only(e: Expr) -> bool
    decreases e,
{
    match e {
        Expr::Num(_) => true,
        Expr::Add(l, r) => arith_only(*l) && arith_only(*r),
        Expr::Sub(l, r) => arith_only(*l) && arith_only(*r),
        Expr::Mul(l, r) => arith_only(*l) && arith_only(*r),
        Expr::Div(l, r) => arith_only(*l) && arith_only(*r),
        _ => false,
    }
}

proof fn lemma_lookup_first(env: Seq<(String, Type)>, x: Seq<char>, i: int)
    requires
        0 <= i < env.len(),
        env[i].0@ == x,
        forall|j: int| 0 <= j < i ==> (#[trigger] env[j]).0@ != x,
    ensures
        lookup(env, x) == Some(env[i].1),
    decreases env.len(),
{
    if i < env.len() - 1 {
        lemma_lookup_first(env.drop_last(), x, i);
    } else {
        lemma_lookup_none(env.drop_last(), x);
    }
}

proof fn lemma_lookup_none(env: Seq<(String, Type)>, x: Seq<char>)
    requires
        forall|j: int| 0 <= j < env.len() ==> (#[trigger] env[j]).0@ != x,
    ensures
        lookup(env, x) is None,
    decreases env.len(),
{
    if env.len() > 0 {
        lemma_lookup_none(env.drop_last(), x);
    }
}

proof fn lemma_lookup_in_range(env: Seq<(String, Type)>, x: Seq<char>, n: nat)
    requires
        env_in_range(env, n),
    ensures
        lookup(env, x) matches Some(t) ==> in_range(t, n),
    decreases env.len(),
{
    if env.len() > 0 {
        lemma_lookup_in_range(env.drop_last(), x, n);
    }
}

/// A type that an expression has stays its type, with the new bindings
/// applied, when bindings are added.
pub proof fn lemma_type_of_extend(b: Bindings, b2: Bindings, env: Seq<(String, Type)>, e: Expr)
    requires
        b.wf(),
        b2.wf(),
        b2.extends(b),
        expr_in_range(e, b.len()),
        env_in_range(env, b.len()),
        type_of(b, env, e) is Some,
    ensures
        in_range(type_of(b, env, e)->Some_0, b.len()),
        type_of(b2, env, e) == Some(b2.zonk(type_of(b, env, e)->Some_0)),
    decreases e,
{
    match e {
        Expr::Add(l, r) | Expr::Sub(l, r) | Expr::Mul(l, r) | Expr::Div(l, r) => {
            lemma_type_of_extend(b, b2, env, *l);
            lemma_type_of_extend(b, b2, env, *r);
        },
        Expr::Val(x, t, init, body) => {
            let env2 = env.push((x, t));
            lemma_type_of_extend(b, b2, env, *init);
            lemma_zonk_extend(b, b2, t);
            lemma_type_of_extend(b, b2, env2, *body);
        },
        Expr::Id(x) => {
            lemma_lookup_in_range(env, x@, b.len());
            let t = lookup(env, x@)->Some_0;
            lemma_zonk_in_range(b, t);
            lemma_zonk_extend(b, b2, t);
        },
        Expr::Fun(x, t, body) => {
            let env2 = env.push((x, t));
            lemma_type_of_extend(b, b2, env2, *body);
            lemma_zonk_in_range(b, t);
            lemma_zonk_extend(b, b2, t);
        },
        Expr::App(f, a) => {
            lemma_type_of_extend(b, b2, env, *f);
            lemma_type_of_extend(b, b2, env, *a);
        },
        Expr::Num(_) => {},
    }
}

/// Finds the type of `x` in `env`, front to back.
fn lookup_env(env: &TEnv, x: &String) -> (r: Option<Type>)
    ensures
        r == lookup(env@, x@),
{
    let mut i: usize = 0;
    while i < env.len()
        invariant
            i <= env@.len(),
            forall|j: int| 0 <= j < i ==> (#[trigger] env@[j]).0@ != x@,
        decreases env@.len() - i,
    {
        if env[i].0 == *x {
            proof {
                lemma_lookup_first(env@, x@, i as int);
            }
            return Some(env[i].1.copy());
        }
        i = i + 1;
    }
    proof {
        lemma_lookup_none(env@, x@);
    }
    None
}

/// `b3` is a solution of `b1` with exactly its cells, and agrees with `b2`
/// on the first `n` variables.
pub open spec fn carries(b3: Bindings, b1: Bindings, b2: Bindings, n: nat) -> bool {
    &&& b3.wf()
    &&& b3.len() == b1.len()
    &&& b3.satisfies(b1)
    &&& agrees(b3, b2, n)
}

/// Bindings that agree on the variables of `e` and `env` give `e` the same type.
pub proof fn lemma_agrees_type_of(
    b3: Bindings,
    b2: Bindings,
    n: nat,
    env: Seq<(String, Type)>,
    e: Expr,
)
    requires
        b3.wf(),
        b2.wf(),
        agrees(b3, b2, n),
        expr_in_range(e, n),
        env_in_range(env, n),
    ensures
        type_of(b3, env, e) == type_of(b2, env, e),
    decreases e,
{
    match e {
        Expr::Add(l, r) | Expr::Sub(l, r) | Expr::Mul(l, r) | Expr::Div(l, r) | Expr::App(l, r) => {
            lemma_agrees_type_of(b3, b2, n, env, *l);
            lemma_agrees_type_of(b3, b2, n, env, *r);
        },
        Expr::Val(x, t, init, body) => {
            lemma_agrees_type_of(b3, b2, n, env, *init);
            lemma_agrees_zonk(b3, b2, n, t);
            lemma_agrees_type_of(b3, b2, n, env.push((x, t)), *body);
        },
        Expr::Fun(x, t, body) => {
            lemma_agrees_zonk(b3, b2, n, t);
            lemma_agrees_type_of(b3, b2, n, env.push((x, t)), *body);
        },
        Expr::Id(x) => {
            lemma_lookup_in_range(env, x@, n);
            if let Some(t) = lookup(env, x@) {
                lemma_agrees_zonk(b3, b2, n, t);
            }
        },
        Expr::Num(_) => {},
    }
}

/// A type that an expression has under `b` becomes, under a solution of `b`,
/// what that type stands for there.
pub proof fn lemma_type_of_satisfies(b: Bindings, b2: Bindings, env: Seq<(String, Type)>, e: Expr)
    requires
        b.wf(),
        b2.wf(),
        b2.satisfies(b),
        expr_in_range(e, b.len()),
        env_in_range(env, b.len()),
        type_of(b, env, e) is Some,
    ensures
        type_of(b2, env, e) == Some(b2.zonk(type_of(b, env, e)->Some_0)),
    decreases e,
{
    lemma_type_of_extend(b, b, env, e);
    match e {
        Expr::Add(l, r) | Expr::Sub(l, r) | Expr::Mul(l, r) | Expr::Div(l, r) => {
            lemma_type_of_satisfies(b, b2, env, *l);
            lemma_type_of_satisfies(b, b2, env, *r);
        },
        Expr::Val(x, t, init, body) => {
            let env2 = env.push((x, t));
            lemma_type_of_satisfies(b, b2, env, *init);
            lemma_satisfies_zonk(b, b2, t);
            lemma_type_of_satisfies(b, b2, env2, *body);
        },
        Expr::Id(x) => {
            lemma_lookup_in_range(env, x@, b.len());
            let t = lookup(env, x@)->Some_0;
            lemma_satisfies_zonk(b, b2, t);
        },
        Expr::Fun(x, t, body) => {
            let env2 = env.push((x, t));
            lemma_type_of_satisfies(b, b2, env2, *body);
            lemma_zonk_in_range(b, t);
            lemma_satisfies_zonk(b, b2, t);
        },
        Expr::App(f, a) => {
            lemma_type_of_satisfies(b, b2, env, *f);
            lemma_type_of_satisfies(b, b2, env, *a);
            lemma_type_of_extend(b, b, env, *f);
            lemma_type_of_extend(b, b, env, *a);
        },
        Expr::Num(_) => {},
    }
}

/// The checker, step by step, from bindings `b` in environment `env`: the
/// bindings it leaves and its result. Operands are checked left to right and
/// then unified with `Num`; a `val` initializer is unified with its annotation
/// before the body is checked with the name added; an identifier gives the
/// type of the earliest entry that names it; a function gives its annotation
/// to the body's type; an application allocates a new variable for its result
/// and unifies the callee with a function from the argument to it. The first
/// error ends the check and keeps the bindings made so far.
pub open spec fn infer(b: Bindings, env: Seq<(String, Type)>, e: Expr) -> (
    Bindings,
    Result<Type, TypeError>,
)
    decreases e,
{
    match e {
        Expr::Num(_) => (b, Ok(Type::Num)),
        Expr::Add(l, r) | Expr::Sub(l, r) | Expr::Mul(l, r) | Expr::Div(l, r) => {
            let (b1, rl) = infer(b, env, *l);
            match rl {
                Err(k) => (b1, Err(k)),
                Ok(lt) => {
                    let (b2, rr) = infer(b1, env, *r);
                    match rr {
                        Err(k) => (b2, Err(k)),
                        Ok(rt) => {
                            let (b3, u1) = unify_spec(b2, lt, Type::Num);
                            match u1 {
                                Err(k) => (b3, Err(k)),
                                Ok(_) => {
                                    let (b4, u2) = unify_spec(b3, rt, Type::Num);
                                    match u2 {
                                        Err(k) => (b4, Err(k)),
                                        Ok(_) => (b4, Ok(Type::Num)),
                                    }
                                },
                            }
                        },
                    }
                },
            }
        },
        Expr::Val(x, t, init, body) => {
            let (b1, ri) = infer(b, env, *init);
            match ri {
                Err(k) => (b1, Err(k)),
                Ok(et) => {
                    let (b2, u) = unify_spec(b1, et, t);
                    match u {
                        Err(k) => (b2, Err(k)),
                        Ok(_) => infer(b2, env.push((x, t)), *body),
                    }
                },
            }
        },
        Expr::Id(x) => match lookup(env, x@) {
            Some(t) => (b, Ok(t)),
            None => (b, Err(TypeError::FreeIdentifier)),
        },
        Expr::Fun(x, t, body) => {
            let (b1, rb) = infer(b, env.push((x, t)), *body);
            match rb {
                Err(k) => (b1, Err(k)),
                Ok(c) => (b1, Ok(Type::Fun(Box::new(t), Box::new(c)))),
            }
        },
        Expr::App(f, a) => {
            let (b1, rf) = infer(b, env, *f);
            match rf {
                Err(k) => (b1, Err(k)),
                Ok(ft) => {
                    let (b2, ra) = infer(b1, env, *a);
                    match ra {
                        Err(k) => (b2, Err(k)),
                        Ok(at) => {
                            let rt = Type::Var(b2.len() as usize);
                            let (b4, u) = unify_spec(
                                b2.fresh(),
                                ft,
                                Type::Fun(Box::new(at), Box::new(rt)),
                            );
                            match u {
                                Err(k) => (b4, Err(k)),
                                Ok(_) => (b4, Ok(rt)),
                            }
                        },
                    }
                },
            }
        },
    }
}

/// What `check` ensures of a run from bindings `b0` and environment `env0`
/// that ended in `b1`, `env1` with `res`:
/// - the bindings and result are those of the step-by-step model [`infer`];
/// - an identifier gives its earliest entry's own type, binding nothing, or
///   `FreeIdentifier`; an application returns a variable it allocated;
/// - bindings are only added, and the environment is given back unchanged;
/// - on success, `e` has the returned type under the final bindings;
/// - `FreeIdentifier` comes only when an identifier is free, and a free
///   identifier always makes the check fail;
/// - numbers and arithmetic alone check to `Num` and bind nothing;
/// - whenever some solution of `b0` gives `e` a type, the check succeeds, and
///   that solution carries over to a solution of the final bindings.
pub open spec fn check_post(
    b0: Bindings,
    b1: Bindings,
    env0: Seq<(String, Type)>,
    env1: Seq<(String, Type)>,
    e: Expr,
    res: Result<Type, TypeError>,
) -> bool {
    &&& (b1, res) == infer(b0, env0, e)
    &&& b1.wf()
    &&& b1.extends(b0)
    &&& env1 == env0
    &&& e matches Expr::Id(x) ==> b1 == b0 && res == match lookup(env0, x@) {
        Some(t) => Ok::<Type, TypeError>(t),
        None => Err(TypeError::FreeIdentifier),
    }
    &&& e is App ==> (res matches Ok(t) ==> t matches Type::Var(k) && b0.len() <= k < b1.len()
        && !b0.is_bound(k))
    &&& res matches Ok(t) ==> in_range(t, b1.len()) && type_of(b1, env0, e) == Some(b1.zonk(t))
    &&& res == Err::<Type, TypeError>(TypeError::FreeIdentifier) ==> !names_bound(env0, e)
    &&& !names_bound(env0, e) ==> res is Err
    &&& arith_only(e) ==> res == Ok::<Type, TypeError>(Type::Num) && b1 == b0
    &&& forall|b2: Bindings| #[trigger]
        typable_from(b0, b2, env0, e) ==> res is Ok && exists|b3: Bindings| #[trigger]
            carries(b3, b1, b2, b0.len())
}

/// `b2` is a solution of `b0` with exactly its cells under which `e` has a
/// type in `env`.
pub open spec fn typable_from(b0: Bindings, b2: Bindings, env: Seq<(String, Type)>, e: Expr) -> bool {
    &&& b2.wf()
    &&& b2.len() == b0.len()
    &&& b2.satisfies(b0)
    &&& type_of(b2, env, e) is Some
}

/// Where the checker went on from `b0` to `b1` carrying `b3` for `b2`, a
/// part `sub` of the expression that `b2` types is typable from `b1`.
proof fn lemma_carry_sub(
    b0: Bindings,
    b1: Bindings,
    b2: Bindings,
    b3: Bindings,
    env: Seq<(String, Type)>,
    sub: Expr,
)
    requires
        b2.wf(),
        carries(b3, b1, b2, b0.len()),
        expr_in_range(sub, b0.len()),
        env_in_range(env, b0.len()),
        type_of(b2, env, sub) is Some,
    ensures
        typable_from(b1, b3, env, sub),
        type_of(b3, env, sub) == type_of(b2, env, sub),
{
    lemma_agrees_type_of(b3, b2, b0.len(), env, sub);
}

/// Under a solution `b4` of bindings `bc` that extend `b1`, a part `sub` that
/// was found to have type `ts` under `b1` has what `ts` stands for under `b4`.
proof fn lemma_solution_type(
    b1: Bindings,
    bc: Bindings,
    b4: Bindings,
    env: Seq<(String, Type)>,
    sub: Expr,
    ts: Type,
)
    requires
        b1.wf(),
        bc.wf(),
        b4.wf(),
        bc.extends(b1),
        b4.satisfies(bc),
        in_range(ts, b1.len()),
        expr_in_range(sub, b1.len()),
        env_in_range(env, b1.len()),
        type_of(b1, env, sub) == Some(b1.zonk(ts)),
    ensures
        type_of(b4, env, sub) == Some(b4.zonk(ts)),
{
    lemma_satisfies_back(b1, bc, b4);
    lemma_type_of_satisfies(b1, b4, env, sub);
    lemma_satisfies_zonk(b1, b4, ts);
}

/// Checks an arithmetic operation: both operands must be numbers.
fn check_arith(e: &Expr, env: &mut TEnv, vars: &mut TypeVars) -> (res: Result<Type, TypeError>)
    requires
        e is Add || e is Sub || e is Mul || e is Div,
        old(vars)@.wf(),
        expr_in_range(*e, old(vars)@.len()),
        env_in_range(old(env)@, old(vars)@.len()),
    ensures
        check_post(old(vars)@, final(vars)@, old(env)@, final(env)@, *e, res),
    decreases *e, 0nat,
{
    let ghost b0 = vars@;
    match e {
        Expr::Add(l, r) | Expr::Sub(l, r) | Expr::Mul(l, r) | Expr::Div(l, r) => {
            let lt = check(l, env, vars);
            let lt = match lt {
                Ok(t) => t,
                Err(err) => {
                    proof {
                        assert forall|b2: Bindings| #[trigger]
                            typable_from(b0, b2, env@, *e) implies typable_from(b0, b2, env@, **l) by {}
                    }
                    return Err(err);
                },
            };
            let ghost b1 = vars@;
            proof {
                lemma_env_in_range_mono(env@, b0.len(), b1.len());
                lemma_expr_in_range_mono(**r, b0.len(), b1.len());
                lemma_expr_in_range_mono(**l, b0.len(), b1.len());
                assert forall|b2: Bindings| #[trigger]
                    typable_from(b0, b2, env@, *e) implies exists|b3: Bindings| #[trigger]
                    carries(b3, b1, b2, b0.len()) && typable_from(b1, b3, env@, **r) && type_of(
                    b3, env@, **l) == Some(Type::Num) by {
                    assert(typable_from(b0, b2, env@, **l));
                    let b3 = choose|b3: Bindings| #[trigger] carries(b3, b1, b2, b0.len());
                    lemma_carry_sub(b0, b1, b2, b3, env@, **r);
                    lemma_carry_sub(b0, b1, b2, b3, env@, **l);
                }
            }
            let rt = check(r, env, vars);
            let rt = match rt {
                Ok(t) => t,
                Err(err) => {
                    proof {
                        assert forall|b2: Bindings| #[trigger]
                            typable_from(b0, b2, env@, *e) implies false by {
                            let b3 = choose|b3: Bindings| #[trigger]
                                carries(b3, b1, b2, b0.len()) && typable_from(b1, b3, env@, **r)
                                    && type_of(b3, env@, **l) == Some(Type::Num);
                            assert(typable_from(b1, b3, env@, **r));
                        }
                    }
                    return Err(err);
                },
            };
            let ghost b2 = vars@;
            proof {
                lemma_in_range_mono(lt, b1.len(), b2.len());
                lemma_env_in_range_mono(env@, b0.len(), b2.len());
                lemma_expr_in_range_mono(**r, b0.len(), b2.len());
                // a solution carried this far makes both operands numbers
                assert forall|bs: Bindings| #[trigger]
                    typable_from(b0, bs, env@, *e) implies exists|b4: Bindings| #[trigger]
                    carries(b4, b2, bs, b0.len()) && b4.zonk(lt) == Type::Num && b4.zonk(rt)
                    == Type::Num by {
                    let b3 = choose|b3: Bindings| #[trigger]
                        carries(b3, b1, bs, b0.len()) && typable_from(b1, b3, env@, **r) && type_of(
                            b3, env@, **l) == Some(Type::Num);
                    assert(typable_from(b1, b3, env@, **r));
                    let b4 = choose|b4: Bindings| #[trigger] carries(b4, b2, b3, b1.len());
                    lemma_solution_type(b1, b2, b4, env@, **l, lt);
                    lemma_solution_type(b2, b2, b4, env@, **r, rt);
                    lemma_agrees_type_of(b4, b3, b1.len(), env@, **l);
                    lemma_agrees_type_of(b4, b3, b1.len(), env@, **r);
                    lemma_agrees_type_of(b3, bs, b0.len(), env@, **r);
                    assert(type_of(bs, env@, **r) == Some(Type::Num));
                    assert(agrees(b4, bs, b0.len()));
                    assert(carries(b4, b2, bs, b0.len()));
                }
            }
            let u1 = unify(vars, &lt, &Type::Num);
            if u1.is_err() {
                proof {
                    assert forall|bs: Bindings| #[trigger]
                        typable_from(b0, bs, env@, *e) implies false by {
                        let b4 = choose|b4: Bindings| #[trigger]
                            carries(b4, b2, bs, b0.len()) && b4.zonk(lt) == Type::Num && b4.zonk(rt)
                                == Type::Num;
                        assert(b4.satisfies(b2));
                    }
                }
                return Err(u1.unwrap_err());
            }
            let ghost b3 = vars@;
            let u2 = unify(vars, &rt, &Type::Num);
            if u2.is_err() {
                proof {
                    assert forall|bs: Bindings| #[trigger]
                        typable_from(b0, bs, env@, *e) implies false by {
                        let b4 = choose|b4: Bindings| #[trigger]
                            carries(b4, b2, bs, b0.len()) && b4.zonk(lt) == Type::Num && b4.zonk(rt)
                                == Type::Num;
                        assert(b4.satisfies(b2));
                        assert(b4.satisfies(b3));
                    }
                }
                return Err(u2.unwrap_err());
            }
            proof {
                let b4 = vars@;
                lemma_expr_in_range_mono(**l, b0.len(), b1.len());
                lemma_type_of_extend(b1, b4, env@, **l);
                lemma_type_of_extend(b2, b4, env@, **r);
                lemma_zonk_extend(b1, b4, lt);
                lemma_zonk_extend(b2, b4, rt);
                lemma_zonk_eq_extend(b3, b4, lt, Type::Num);
                assert forall|bs: Bindings| #[trigger]
                    typable_from(b0, bs, env@, *e) implies exists|b5: Bindings| #[trigger]
                    carries(b5, b4, bs, b0.len()) by {
                    let b5 = choose|b5: Bindings| #[trigger]
                        carries(b5, b2, bs, b0.len()) && b5.zonk(lt) == Type::Num && b5.zonk(rt)
                            == Type::Num;
                    assert(b5.satisfies(b2));
                    assert(b5.satisfies(b3));
                    assert(b5.satisfies(b4));
                    assert(carries(b5, b4, bs, b0.len()));
                }
            }
            Ok(Type::Num)
        },
        // excluded by the precondition
        _ => Err(TypeError::IncompatibleTypes),
    }
}

/// Checks `Val(x, t, init, body)`: `init` must have type `t`, and `body` is checked with `x: t`.
fn check_val(e: &Expr, env: &mut TEnv, vars: &mut TypeVars) -> (res: Result<Type, TypeError>)
    requires
        e is Val,
        old(vars)@.wf(),
        expr_in_range(*e, old(vars)@.len()),
        env_in_range(old(env)@, old(vars)@.len()),
    ensures
        check_post(old(vars)@, final(vars)@, old(env)@, final(env)@, *e, res),
    decreases *e, 0nat,
{
    let ghost b0 = vars@;
    match e {
        Expr::Val(x, t, init, body) => {
            let et = check(init, env, vars);
            let et = match et {
                Ok(ty) => ty,
                Err(err) => {
                    proof {
                        assert forall|b2: Bindings| #[trigger]
                            typable_from(b0, b2, env@, *e) implies typable_from(
                            b0,
                            b2,
                            env@,
                            **init,
                        ) by {}
                    }
                    return Err(err);
                },
            };
            let ghost b1 = vars@;
            let ghost env1 = env@.push((*x, *t));
            proof {
                lemma_in_range_mono(*t, b0.len(), b1.len());
                lemma_expr_in_range_mono(**init, b0.len(), b1.len());
                lemma_env_in_range_mono(env@, b0.len(), b1.len());
                assert forall|bs: Bindings| #[trigger]
                    typable_from(b0, bs, env@, *e) implies exists|b3: Bindings| #[trigger]
                    carries(b3, b1, bs, b0.len()) && b3.zonk(et) == b3.zonk(*t) && type_of(
                    b3, env1, **body) is Some by {
                    assert(typable_from(b0, bs, env@, **init));
                    let b3 = choose|b3: Bindings| #[trigger] carries(b3, b1, bs, b0.len());
                    lemma_solution_type(b1, b1, b3, env@, **init, et);
                    lemma_agrees_type_of(b3, bs, b0.len(), env@, **init);
                    lemma_agrees_zonk(b3, bs, b0.len(), *t);
                    lemma_agrees_type_of(b3, bs, b0.len(), env1, **body);
                }
            }
            let u = unify(vars, &et, t);
            if u.is_err() {
                proof {
                    assert forall|bs: Bindings| #[trigger]
                        typable_from(b0, bs, env@, *e) implies false by {
                        let b3 = choose|b3: Bindings| #[trigger]
                            carries(b3, b1, bs, b0.len()) && b3.zonk(et) == b3.zonk(*t) && type_of(
                                b3, env1, **body) is Some;
                        assert(b3.satisfies(b1));
                    }
                }
                return Err(u.unwrap_err());
            }
            let ghost b2 = vars@;
            proof {
                lemma_env_in_range_mono(env@, b0.len(), b2.len());
                lemma_expr_in_range_mono(**body, b0.len(), b2.len());
                assert forall|bs: Bindings| #[trigger]
                    typable_from(b0, bs, env@, *e) implies exists|b3: Bindings| #[trigger]
                    carries(b3, b1, bs, b0.len()) && typable_from(b2, b3, env1, **body) by {
                    let b3 = choose|b3: Bindings| #[trigger]
                        carries(b3, b1, bs, b0.len()) && b3.zonk(et) == b3.zonk(*t) && type_of(
                            b3, env1, **body) is Some;
                    assert(b3.satisfies(b1));
                    assert(b3.satisfies(b2));
                }
            }
            env.push((x.clone(), t.copy()));
            let bt = check(body, env, vars);
            let _ = env.pop();
            let ghost b3 = vars@;
            proof {
                assert(env@ =~= old(env)@);
                if bt is Ok {
                    lemma_type_of_extend(b1, b3, env@, **init);
                    lemma_zonk_extend(b1, b3, et);
                    lemma_zonk_eq_extend(b2, b3, et, *t);
                }
                assert forall|bs: Bindings| #[trigger]
                    typable_from(b0, bs, env@, *e) implies bt is Ok && exists|b4: Bindings| #[trigger]
                    carries(b4, b3, bs, b0.len()) by {
                    let b3s = choose|b3: Bindings| #[trigger]
                        carries(b3, b1, bs, b0.len()) && typable_from(b2, b3, env1, **body);
                    assert(typable_from(b2, b3s, env1, **body));
                    let b4 = choose|b4: Bindings| #[trigger] carries(b4, b3, b3s, b2.len());
                    assert(carries(b4, b3, bs, b0.len()));
                }
            }
            bt
        },
        // excluded by the precondition
        _ => Err(TypeError::IncompatibleTypes),
    }
}

/// Checks `Fun(x, t, body)`: its type is `t -> ` the type of `body` with `x: t`.
fn check_fun(e: &Expr, env: &mut TEnv, vars: &mut TypeVars) -> (res: Result<Type, TypeError>)
    requires
        e is Fun,
        old(vars)@.wf(),
        expr_in_range(*e, old(vars)@.len()),
        env_in_range(old(env)@, old(vars)@.len()),
    ensures
        check_post(old(vars)@, final(vars)@, old(env)@, final(env)@, *e, res),
    decreases *e, 0nat,
{
    let ghost b0 = vars@;
    match e {
        Expr::Fun(x, t, body) => {
            let ghost env1 = env@.push((*x, *t));
            env.push((x.clone(), t.copy()));
            let bt = check(body, env, vars);
            let _ = env.pop();
            proof {
                assert(env@ =~= old(env)@);
                assert forall|bs: Bindings| #[trigger]
                    typable_from(b0, bs, env@, *e) implies typable_from(b0, bs, env1, **body) by {}
            }
            match bt {
                Ok(bt) => {
                    proof {
                        lemma_in_range_mono(*t, b0.len(), vars@.len());
                    }
                    Ok(Type::Fun(Box::new(t.copy()), Box::new(bt)))
                },
                Err(err) => Err(err),
            }
        },
        // excluded by the precondition
        _ => Err(TypeError::IncompatibleTypes),
    }
}

/// Checks `App(f, a)`: `f` must be a function from the type of `a` to a new variable, which is the result.
fn check_app(e: &Expr, env: &mut TEnv, vars: &mut TypeVars) -> (res: Result<Type, TypeError>)
    requires
        e is App,
        old(vars)@.wf(),
        expr_in_range(*e, old(vars)@.len()),
        env_in_range(old(env)@, old(vars)@.len()),
    ensures
        check_post(old(vars)@, final(vars)@, old(env)@, final(env)@, *e, res),
    decreases *e, 0nat,
{
    let ghost b0 = vars@;
    match e {
        Expr::App(f, a) => {
            let ft = check(f, env, vars);
            let ft = match ft {
                Ok(ty) => ty,
                Err(err) => {
                    proof {
                        assert forall|b2: Bindings| #[trigger]
                            typable_from(b0, b2, env@, *e) implies typable_from(b0, b2, env@, **f) by {}
                    }
                    return Err(err);
                },
            };
            let ghost b1 = vars@;
            proof {
                lemma_env_in_range_mono(env@, b0.len(), b1.len());
                lemma_expr_in_range_mono(**a, b0.len(), b1.len());
                lemma_expr_in_range_mono(**f, b0.len(), b1.len());
                assert forall|b2: Bindings| #[trigger]
                    typable_from(b0, b2, env@, *e) implies exists|b3: Bindings| #[trigger]
                    carries(b3, b1, b2, b0.len()) && typable_from(b1, b3, env@, **a) && type_of(
                    b3, env@, **f) == type_of(b2, env@, **f) by {
                    assert(typable_from(b0, b2, env@, **f));
                    let b3 = choose|b3: Bindings| #[trigger] carries(b3, b1, b2, b0.len());
                    lemma_carry_sub(b0, b1, b2, b3, env@, **a);
                    lemma_carry_sub(b0, b1, b2, b3, env@, **f);
                }
            }
            let at = check(a, env, vars);
            let at = match at {
                Ok(ty) => ty,
                Err(err) => {
                    proof {
                        assert forall|b2: Bindings| #[trigger]
                            typable_from(b0, b2, env@, *e) implies false by {
                            let b3 = choose|b3: Bindings| #[trigger]
                                carries(b3, b1, b2, b0.len()) && typable_from(b1, b3, env@, **a)
                                    && type_of(b3, env@, **f) == type_of(b2, env@, **f);
                            assert(typable_from(b1, b3, env@, **a));
                        }
                    }
                    return Err(err);
                },
            };
            let ghost b2 = vars@;
            let rt = vars.fresh();
            let ghost b3 = vars@;
            proof {
                lemma_in_range_mono(ft, b1.len(), b3.len());
                lemma_in_range_mono(at, b2.len(), b3.len());
            }
            let fun_t = Type::Fun(Box::new(at), Box::new(rt.copy()));
            assert(in_range(at, b3.len()));
            assert(in_range(rt, b3.len()));
            assert(in_range(fun_t, b3.len()));
            proof {
                lemma_env_in_range_mono(env@, b0.len(), b2.len());
                lemma_expr_in_range_mono(**a, b0.len(), b2.len());
                lemma_in_range_mono(ft, b1.len(), b2.len());
                // a solution carried this far, with the new variable bound to the
                // result type, makes the callee the function it is applied as
                assert forall|bs: Bindings| #[trigger]
                    typable_from(b0, bs, env@, *e) implies exists|b5: Bindings| #[trigger]
                    carries(b5, b3, bs, b0.len()) && b5.zonk(ft) == b5.zonk(fun_t) by {
                    let b3s = choose|b3: Bindings| #[trigger]
                        carries(b3, b1, bs, b0.len()) && typable_from(b1, b3, env@, **a) && type_of(
                            b3, env@, **f) == type_of(bs, env@, **f);
                    assert(typable_from(b1, b3s, env@, **a));
                    let b4 = choose|b4: Bindings| #[trigger] carries(b4, b2, b3s, b1.len());
                    lemma_solution_type(b1, b2, b4, env@, **f, ft);
                    lemma_solution_type(b2, b2, b4, env@, **a, at);
                    lemma_agrees_type_of(b4, b3s, b1.len(), env@, **f);
                    lemma_agrees_type_of(b4, b3s, b1.len(), env@, **a);
                    lemma_agrees_type_of(b3s, bs, b0.len(), env@, **a);
                    let zf = b4.zonk(ft);
                    assert(zf is Fun);
                    let c = *zf->Fun_1;
                    lemma_zonk_in_range(b4, ft);
                    assert forall|v: usize| #[trigger] occurs_in(v, c) implies !b4.is_bound(v) by {
                        assert(occurs_in(v, zf));
                        lemma_zonk_unbound(b4, ft, v);
                    }
                    let b5 = lemma_bind_new_cell(b4, c);
                    assert(b5.len() == b3.len());
                    assert forall|v: usize| #[trigger] b3.is_bound(v) implies b5.zonk(Type::Var(v))
                        == b5.zonk(b3.binding(v)) by {
                        assert(b2.is_bound(v));
                        assert(b2.cells[v as int] is Some);
                        let u = b2.binding(v);
                        lemma_agrees_zonk(b5, b4, b2.len(), u);
                        assert(b5.zonk(Type::Var(v)) == b4.zonk(Type::Var(v)));
                    }
                    assert(b5.satisfies(b3));
                    lemma_agrees_zonk(b5, b4, b2.len(), ft);
                    lemma_agrees_zonk(b5, b4, b2.len(), at);
                    assert(b5.zonk(rt) == c);
                    assert(b5.zonk(fun_t) == Type::Fun(Box::new(b5.zonk(at)), Box::new(b5.zonk(rt))));
                    assert(agrees(b5, bs, b0.len()));
                    assert(carries(b5, b3, bs, b0.len()));
                }
            }
            let u = unify(vars, &ft, &fun_t);
            if u.is_err() {
                proof {
                    assert forall|bs: Bindings| #[trigger]
                        typable_from(b0, bs, env@, *e) implies false by {
                        let b5 = choose|b5: Bindings| #[trigger]
                            carries(b5, b3, bs, b0.len()) && b5.zonk(ft) == b5.zonk(fun_t);
                        assert(b5.satisfies(b3));
                    }
                }
                return Err(u.unwrap_err());
            }
            proof {
                let b4 = vars@;
                lemma_expr_in_range_mono(**f, b0.len(), b1.len());
                lemma_type_of_extend(b1, b4, env@, **f);
                lemma_env_in_range_mono(env@, b0.len(), b2.len());
                lemma_expr_in_range_mono(**a, b0.len(), b2.len());
                lemma_type_of_extend(b2, b4, env@, **a);
                lemma_zonk_extend(b1, b4, ft);
                lemma_zonk_extend(b2, b4, at);
                assert forall|bs: Bindings| #[trigger]
                    typable_from(b0, bs, env@, *e) implies exists|b6: Bindings| #[trigger]
                    carries(b6, b4, bs, b0.len()) by {
                    let b5 = choose|b5: Bindings| #[trigger]
                        carries(b5, b3, bs, b0.len()) && b5.zonk(ft) == b5.zonk(fun_t);
                    assert(b5.satisfies(b3));
                    assert(b5.satisfies(b4));
                    assert(carries(b5, b4, bs, b0.len()));
                }
            }
            Ok(rt)
        },
        // excluded by the precondition
        _ => Err(TypeError::IncompatibleTypes),
    }
}

fn check(e: &Expr, env: &mut TEnv, vars: &mut TypeVars) -> (res: Result<Type, TypeError>)
    requires
        old(vars)@.wf(),
        expr_in_range(*e, old(vars)@.len()),
        env_in_range(old(env)@, old(vars)@.len()),
    ensures
        check_post(old(vars)@, final(vars)@, old(env)@, final(env)@, *e, res),
    decreases *e, 1nat,
{
    let ghost b0 = vars@;
    proof {
        assert forall|b2: Bindings| #[trigger]
            typable_from(b0, b2, env@, *e) implies carries(b2, b0, b2, b0.len()) by {}
    }
    match e {
        Expr::Num(_) => Ok(Type::Num),
        Expr::Add(..) | Expr::Sub(..) | Expr::Mul(..) | Expr::Div(..) => check_arith(e, env, vars),
        Expr::Val(..) => check_val(e, env, vars),
        Expr::Id(x) => match lookup_env(env, x) {
            Some(ty) => {
                proof {
                    lemma_lookup_in_range(env@, x@, b0.len());
                }
                Ok(ty)
            },
            None => Err(TypeError::FreeIdentifier),
        },
        Expr::Fun(..) => check_fun(e, env, vars),
        Expr::App(..) => check_app(e, env, vars),
    }
}

/// Infers the type of `expr` in `tenv`, binding the variables of `vars` that
/// this requires. The first error found ends the check; bindings made before
/// it stay. See [`check_post`] for what is guaranteed.
pub fn type_check(expr: &Expr, tenv: TEnv, vars: &mut TypeVars) -> (r: Result<Type, TypeError>)
    requires
        old(vars)@.wf(),
        expr_in_range(*expr, old(vars)@.len()),
        env_in_range(tenv@, old(vars)@.len()),
    ensures
        check_post(old(vars)@, final(vars)@, tenv@, tenv@, *expr, r),
{
    let mut env = tenv;
    check(expr, &mut env, vars)
}

/// How a type is written once every bound variable is replaced: `Num`,
/// `a -> b` for a function, `Var(None)` for a variable that is still unknown.
pub open spec fn show(t: Type) -> Seq<char>
    decreases t,
{
    match t {
        Type::Num => "Num"@,
        Type::Fun(l, r) => show(*l) + " -> "@ + show(*r),
        Type::Var(_) => "Var(None)"@,
    }
}

impl Type {
    /// This type written out under the bindings of `vars`.
    pub fn to_string(&self, vars: &TypeVars) -> (r: String)
        requires
            vars@.wf(),
            in_range(*self, vars@.len()),
        ensures
            r@ == show(vars@.zonk(*self)),
        decreases vars@.rank_of(*self), *self,
    {
        let t = resolve(vars, self);
        proof {
            lemma_resolve(vars@, *self);
        }
        match t {
            Type::Num => String::from_str("Num"),
            Type::Fun(l, r) => {
                proof {
                    if self is Var {
                        assert(vars@.is_bound(self->Var_0));
                    }
                }
                let mut s = l.to_string(vars);
                s.append(" -> ");
                let rs = r.to_string(vars);
                s.append(rs.as_str());
                s
            },
            Type::Var(_) => String::from_str("Var(None)"),
        }
    }
}

} // verus!
