use vstd::prelude::*;

use crate::daruscript_v1::type_checker::TypeError;
use super::typed::{Expr, TEnv, Type};

verus! {

/// The type bound to `x` by the earliest entry of `env` that names it.
pub open spec fn lookup(env: Seq<(String, Type)>, x: Seq<char>) -> Option<Type>
    decreases env.len(),
{
    if env.len() == 0 {
        None
    } else {
        match lookup(env.drop_last(), x) {
            Some(t) => Some(t),
            None => if env.last().0@ == x {
                Some(env.last().1)
            } else {
                None
            },
        }
    }
}

pub open spec fn num_pair(l: Option<Type>, r: Option<Type>) -> Option<Type> {
    if l == Some(Type::Num) && r == Some(Type::Num) {
        Some(Type::Num)
    } else {
        None
    }
}

/// The type of `e` in `env`: every annotation must match exactly.
pub open spec fn type_of(env: Seq<(String, Type)>, e: Expr) -> Option<Type>
    decreases e,
{
    match e {
        Expr::Num(_) => Some(Type::Num),
        Expr::Add(l, r) => num_pair(type_of(env, *l), type_of(env, *r)),
        Expr::Sub(l, r) => num_pair(type_of(env, *l), type_of(env, *r)),
        Expr::Mul(l, r) => num_pair(type_of(env, *l), type_of(env, *r)),
        Expr::Div(l, r) => num_pair(type_of(env, *l), type_of(env, *r)),
        Expr::Val(x, t, init, body) => if type_of(env, *init) == Some(t) {
            type_of(env.push((x, t)), *body)
        } else {
            None
        },
        Expr::Id(x) => lookup(env, x@),
        Expr::Fun(x, t, body) => match type_of(env.push((x, t)), *body) {
            Some(c) => Some(Type::Fun(Box::new(t), Box::new(c))),
            None => None,
        },
        Expr::App(f, a) => match type_of(env, *f) {
            Some(Type::Fun(d, c)) => if type_of(env, *a) == Some(*d) {
                Some(*c)
            } else {
                None
            },
            _ => None,
        },
    }
}

/// The checker step by step: operands left to right, each checked to be
/// `Num` as soon as it is typed; the first error ends the check.
pub open spec fn check_result(env: Seq<(String, Type)>, e: Expr) -> Result<Type, TypeError>
    decreases e,
{
    match e {
        Expr::Num(_) => Ok(Type::Num),
        Expr::Add(l, r) | Expr::Sub(l, r) | Expr::Mul(l, r) | Expr::Div(l, r) => match check_result(
            env,
            *l,
        ) {
            Err(k) => Err(k),
            Ok(lt) => if lt != Type::Num {
                Err(TypeError::IncompatibleTypes)
            } else {
                match check_result(env, *r) {
                    Err(k) => Err(k),
                    Ok(rt) => if rt != Type::Num {
                        Err(TypeError::IncompatibleTypes)
                    } else {
                        Ok(Type::Num)
                    },
                }
            },
        },
        Expr::Val(x, t, init, body) => match check_result(env, *init) {
            Err(k) => Err(k),
            Ok(et) => if et != t {
                Err(TypeError::IncompatibleTypes)
            } else {
                check_result(env.push((x, t)), *body)
            },
        },
        Expr::Id(x) => match lookup(env, x@) {
            Some(t) => Ok(t),
            None => Err(TypeError::FreeIdentifier),
        },
        Expr::Fun(x, t, body) => match check_result(env.push((x, t)), *body) {
            Err(k) => Err(k),
            Ok(c) => Ok(Type::Fun(Box::new(t), Box::new(c))),
        },
        Expr::App(f, a) => match check_result(env, *f) {
            Err(k) => Err(k),
            Ok(Type::Fun(d, c)) => match check_result(env, *a) {
                Err(k) => Err(k),
                Ok(at) => if *d == at {
                    Ok(*c)
                } else {
                    Err(TypeError::IncompatibleTypes)
                },
            },
            Ok(_) => Err(TypeError::IncompatibleTypes),
        },
    }
}

proof fn lemma_lookup_first(env: Seq<(String, Type)>, x: Seq<char>, i: int)
    requires
        0 <= i < env.len(),
        env[i].0@ == x,
        forall|j: int| 0 <= j < i ==> (#[trigger] env[j]).0@ != x,
    ensures
        lookup(env, x) == Some(env[i].1),
    decreases env.len(),
{
    if i < env.len() - 1 {
        lemma_lookup_first(env.drop_last(), x, i);
    } else {
        lemma_lookup_none(env.drop_last(), x);
    }
}

proof fn lemma_lookup_none(env: Seq<(String, Type)>, x: Seq<char>)
    requires
        forall|j: int| 0 <= j < env.len() ==> (#[trigger] env[j]).0@ != x,
    ensures
        lookup(env, x) is None,
    decreases env.len(),
{
    if env.len() > 0 {
        lemma_lookup_none(env.drop_last(), x);
    }
}

fn lookup_env(env: &TEnv, x: &String) -> (r: Option<Type>)
    ensures
        r == lookup(env@, x@),
{
    let mut i: usize = 0;
    while i < env.len()
        invariant
            i <= env@.len(),
            forall|j: int| 0 <= j < i ==> (#[trigger] env@[j]).0@ != x@,
        decreases env@.len() - i,
    {
        if env[i].0 == *x {
            proof {
                lemma_lookup_first(env@, x@, i as int);
            }
            return Some(env[i].1.copy());
        }
        i = i + 1;
    }
    proof {
        lemma_lookup_none(env@, x@);
    }
    None
}

fn check(expr: &Expr, env: &mut TEnv) -> (r: Result<Type, TypeError>)
    ensures
        final(env)@ == old(env)@,
        r is Ok <==> type_of(old(env)@, *expr) is Some,
        r matches Ok(t) ==> type_of(old(env)@, *expr) == Some(t),
        r == check_result(old(env)@, *expr),
    decreases expr,
{
    match expr {
        Expr::Num(_) => Ok(Type::Num),
        Expr::Add(l, r) | Expr::Sub(l, r) | Expr::Mul(l, r) | Expr::Div(l, r) => {
            let lt = check(l, env)?;
            if lt != Type::Num {
                return Err(TypeError::IncompatibleTypes);
            }
            let rt = check(r, env)?;
            if rt != Type::Num {
                return Err(TypeError::IncompatibleTypes);
            }
            Ok(Type::Num)
        },
        Expr::Val(x, t, init, body) => {
            let et = check(init, env)?;
            if et != *t {
                return Err(TypeError::IncompatibleTypes);
            }
            env.push((x.clone(), t.copy()));
            let bt = check(body, env);
            let _ = env.pop();
            proof {
                assert(env@ =~= old(env)@);
            }
            bt
        },
        Expr::Id(x) => match lookup_env(env, x) {
            Some(t) => Ok(t),
            None => Err(TypeError::FreeIdentifier),
        },
        Expr::Fun(x, t, body) => {
            env.push((x.clone(), t.copy()));
            let bt = check(body, env);
            let _ = env.pop();
            proof {
                assert(env@ =~= old(env)@);
            }
            let bt = bt?;
            Ok(Type::Fun(Box::new(t.copy()), Box::new(bt)))
        },
        Expr::App(f, a) => {
            let ft = check(f, env)?;
            match ft {
                Type::Fun(d, c) => {
                    let at = check(a, env)?;
                    if *d == at {
                        Ok(*c)
                    } else {
                        Err(TypeError::IncompatibleTypes)
                    }
                },
                _ => Err(TypeError::IncompatibleTypes),
            }
        },
    }
}

/// Checks `expr` in `env` with every annotation taken as given: an
/// initializer must have its binding's type exactly, an argument its
/// function's parameter type. Succeeds exactly when `expr` has a type.
pub fn type_check(expr: &Expr, env: TEnv) -> (r: Result<Type, TypeError>)
    ensures
        r is Ok <==> type_of(env@, *expr) is Some,
        r matches Ok(t) ==> type_of(env@, *expr) == Some(t),
        r == check_result(env@, *expr),
{
    let mut env = env;
    check(expr, &mut env)
}

} // verus!
