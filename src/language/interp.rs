use vstd::prelude::*;

use crate::daruscript_v1::untyped::{
    Env, Expr, SValue, Value, copy_env, env_view, lemma_env_view_index, lemma_env_view_push,
    value_view,
};

verus! {

/// Why evaluation stops.
#[derive(Debug, Clone, Copy, PartialEq, Eq, Structural)]
pub enum EvalError {
    /// An identifier that the environment does not name.
    FreeIdentifier,
    /// An arithmetic operand that is not a number.
    NotANumber,
    /// An application of something that is not a closure.
    NotAFunction,
    /// An arithmetic result outside the range of `isize`.
    Overflow,
    /// A division by zero.
    DivisionByZero,
    /// Evaluation nested deeper than the evaluator allows.
    TooDeep,
}

/// How deep evaluation may nest before it gives up.
pub const MAX_DEPTH: u64 = 10000;

/// Integer division rounding toward zero.
pub open spec fn trunc_div(a: int, b: int) -> int
    recommends
        b != 0,
{
    let q = (if a < 0 { -a } else { a }) / (if b < 0 { -b } else { b });
    if (a < 0) != (b < 0) {
        -q
    } else {
        q
    }
}

pub open spec fn in_isize(n: int) -> bool {
    isize::MIN <= n <= isize::MAX
}

/// The result of an arithmetic operator `op` (0 add, 1 subtract, 2 multiply,
/// 3 divide) on two values.
pub open spec fn arith_step(op: int, l: SValue, r: SValue) -> Result<SValue, EvalError> {
    match (l, r) {
        (SValue::Num(a), SValue::Num(b)) => {
            if op == 3 && b == 0 {
                Err(EvalError::DivisionByZero)
            } else {
                let v = if op == 0 {
                    a + b
                } else if op == 1 {
                    a - b
                } else if op == 2 {
                    a * b
                } else {
                    trunc_div(a as int, b as int)
                };
                if in_isize(v) {
                    Ok(SValue::Num(v as isize))
                } else {
                    Err(EvalError::Overflow)
                }
            }
        },
        _ => Err(EvalError::NotANumber),
    }
}

/// The value of the earliest entry of `env` named `x`.
pub open spec fn lookup_value_spec(env: Seq<(Seq<char>, SValue)>, x: Seq<char>) -> Option<SValue>
    decreases env.len(),
{
    if env.len() == 0 {
        None
    } else {
        match lookup_value_spec(env.drop_last(), x) {
            Some(v) => Some(v),
            None => if env.last().0 == x {
                Some(env.last().1)
            } else {
                None
            },
        }
    }
}

pub open spec fn op_of(e: Expr) -> int {
    match e {
        Expr::Add(..) => 0,
        Expr::Sub(..) => 1,
        Expr::Mul(..) => 2,
        _ => 3,
    }
}

/// Evaluation of `e` in `env`, nesting at most `depth` deep: operands left to
/// right; `val` evaluates its initializer and adds it at the end of the
/// environment; an identifier is looked up front to back; a function captures
/// the whole environment; an application evaluates the callee, then the
/// argument, then the body in the captured environment with the parameter
/// added. The first error ends evaluation; deeper nesting is `TooDeep`.
pub open spec fn eval_spec(e: Expr, env: Seq<(Seq<char>, SValue)>, depth: nat) -> Result<SValue, EvalError>
    decreases depth,
{
    if depth == 0 {
        Err(EvalError::TooDeep)
    } else {
        let d = (depth - 1) as nat;
        match e {
            Expr::Num(n) => Ok(SValue::Num(n)),
            Expr::Add(l, r) | Expr::Sub(l, r) | Expr::Mul(l, r) | Expr::Div(l, r) => match eval_spec(*l, env, d) {
                Err(k) => Err(k),
                Ok(a) => match eval_spec(*r, env, d) {
                    Err(k) => Err(k),
                    Ok(b) => arith_step(op_of(e), a, b),
                },
            },
            Expr::Val(x, v, b) => match eval_spec(*v, env, d) {
                Err(k) => Err(k),
                Ok(val) => eval_spec(*b, env.push((x@, val)), d),
            },
            Expr::Id(x) => match lookup_value_spec(env, x@) {
                Some(v) => Ok(v),
                None => Err(EvalError::FreeIdentifier),
            },
            Expr::Fun(p, b) => Ok(SValue::Closure(p@, *b, env)),
            Expr::App(f, a) => match eval_spec(*f, env, d) {
                Err(k) => Err(k),
                Ok(SValue::Closure(x, body, captured)) => match eval_spec(*a, env, d) {
                    Err(k) => Err(k),
                    Ok(av) => eval_spec(body, captured.push((x, av)), d),
                },
                Ok(_) => Err(EvalError::NotAFunction),
            },
        }
    }
}

/// An evaluation that did not run out of depth gives the same result with
/// one more level: the depth limit only ever turns results into `TooDeep`.
pub proof fn lemma_eval_more_depth(e: Expr, env: Seq<(Seq<char>, SValue)>, d: nat)
    requires
        eval_spec(e, env, d) != Err::<SValue, EvalError>(EvalError::TooDeep),
    ensures
        eval_spec(e, env, d + 1) == eval_spec(e, env, d),
    decreases d,
{
    if d > 0 {
        let d1 = (d - 1) as nat;
        let too_deep = Err::<SValue, EvalError>(EvalError::TooDeep);
        match e {
            Expr::Add(l, r) | Expr::Sub(l, r) | Expr::Mul(l, r) | Expr::Div(l, r) => {
                if eval_spec(*l, env, d1) != too_deep {
                    lemma_eval_more_depth(*l, env, d1);
                }
                if eval_spec(*r, env, d1) != too_deep {
                    lemma_eval_more_depth(*r, env, d1);
                }
            },
            Expr::Val(x, v, b) => {
                if eval_spec(*v, env, d1) != too_deep {
                    lemma_eval_more_depth(*v, env, d1);
                }
                if let Ok(val) = eval_spec(*v, env, d1) {
                    if eval_spec(*b, env.push((x@, val)), d1) != too_deep {
                        lemma_eval_more_depth(*b, env.push((x@, val)), d1);
                    }
                }
            },
            Expr::App(f, a) => {
                if eval_spec(*f, env, d1) != too_deep {
                    lemma_eval_more_depth(*f, env, d1);
                }
                if eval_spec(*a, env, d1) != too_deep {
                    lemma_eval_more_depth(*a, env, d1);
                }
                if let Ok(SValue::Closure(x, body, captured)) = eval_spec(*f, env, d1) {
                    if let Ok(av) = eval_spec(*a, env, d1) {
                        if eval_spec(body, captured.push((x, av)), d1) != too_deep {
                            lemma_eval_more_depth(body, captured.push((x, av)), d1);
                        }
                    }
                }
            },
            _ => {},
        }
    }
}

/// An evaluation that did not run out of depth gives the same result with
/// any larger depth.
pub proof fn lemma_eval_any_more_depth(e: Expr, env: Seq<(Seq<char>, SValue)>, d: nat, d2: nat)
    requires
        eval_spec(e, env, d) != Err::<SValue, EvalError>(EvalError::TooDeep),
        d <= d2,
    ensures
        eval_spec(e, env, d2) == eval_spec(e, env, d),
    decreases d2 - d,
{
    if d < d2 {
        lemma_eval_more_depth(e, env, d);
        lemma_eval_any_more_depth(e, env, d + 1, d2);
    }
}

/// An arithmetic operator on operands that evaluate to values gives what the
/// operator gives on those values, one level deeper.
pub proof fn lemma_eval_arith(e: Expr, env: Seq<(Seq<char>, SValue)>, d: nat, a: SValue, b: SValue)
    requires
        e matches Expr::Add(l, r) || e matches Expr::Sub(l, r) || e matches Expr::Mul(l, r)
            || e matches Expr::Div(l, r),
        ({
            let (l, r) = match e {
                Expr::Add(l, r) | Expr::Sub(l, r) | Expr::Mul(l, r) | Expr::Div(l, r) => (*l, *r),
                _ => (e, e),
            };
            eval_spec(l, env, d) == Ok::<SValue, EvalError>(a) && eval_spec(r, env, d) == Ok::<
                SValue,
                EvalError,
            >(b)
        }),
    ensures
        eval_spec(e, env, d + 1) == arith_step(op_of(e), a, b),
{
}

/// An application of a callee that evaluates to a closure, to an argument
/// that evaluates to a value, gives what the closure's body gives in its
/// captured environment with the parameter added, one level deeper.
pub proof fn lemma_eval_app(f: Expr, a: Expr, env: Seq<(Seq<char>, SValue)>, d: nat)
    requires
        eval_spec(f, env, d) matches Ok(SValue::Closure(_, _, _)),
        eval_spec(a, env, d) is Ok,
    ensures
        ({
            let (x, body, captured) = match eval_spec(f, env, d) {
                Ok(SValue::Closure(x, body, captured)) => (x, body, captured),
                _ => (Seq::empty(), f, env),
            };
            eval_spec(Expr::App(Box::new(f), Box::new(a)), env, d + 1) == eval_spec(
                body,
                captured.push((x, eval_spec(a, env, d)->Ok_0)),
                d,
            )
        }),
{
}

/// The mathematical form of an evaluation result.
pub open spec fn result_view(r: Result<Value, EvalError>) -> Result<SValue, EvalError> {
    match r {
        Ok(v) => Ok(value_view(v)),
        Err(k) => Err(k),
    }
}

proof fn lemma_lookup_value_first(env: Seq<(Seq<char>, SValue)>, x: Seq<char>, i: int)
    requires
        0 <= i < env.len(),
        env[i].0 == x,
        forall|j: int| 0 <= j < i ==> (#[trigger] env[j]).0 != x,
    ensures
        lookup_value_spec(env, x) == Some(env[i].1),
    decreases env.len(),
{
    if i < env.len() - 1 {
        lemma_lookup_value_first(env.drop_last(), x, i);
    } else {
        lemma_lookup_value_none(env.drop_last(), x);
    }
}

proof fn lemma_lookup_value_none(env: Seq<(Seq<char>, SValue)>, x: Seq<char>)
    requires
        forall|j: int| 0 <= j < env.len() ==> (#[trigger] env[j]).0 != x,
    ensures
        lookup_value_spec(env, x) is None,
    decreases env.len(),
{
    if env.len() > 0 {
        lemma_lookup_value_none(env.drop_last(), x);
    }
}

/// The value that the earliest entry of `env` named `x` holds.
fn lookup_value(env: &Env, x: &String) -> (r: Option<Value>)
    ensures
        match r {
            Some(v) => lookup_value_spec(env_view(env@), x@) == Some(value_view(v)),
            None => lookup_value_spec(env_view(env@), x@) is None,
        },
{
    let mut i: usize = 0;
    while i < env.len()
        invariant
            i <= env@.len(),
            forall|j: int| 0 <= j < i ==> (#[trigger] env_view(env@)[j]).0 != x@,
        decreases env@.len() - i,
    {
        proof {
            lemma_env_view_index(env@, i as int);
        }
        if env[i].0 == *x {
            proof {
                lemma_lookup_value_first(env_view(env@), x@, i as int);
            }
            return Some(env[i].1.copy());
        }
        i = i + 1;
    }
    proof {
        crate::daruscript_v1::untyped::lemma_env_view_len(env@);
        lemma_lookup_value_none(env_view(env@), x@);
    }
    None
}

/// Applies an arithmetic operator to two evaluated operands.
fn arith(op: u8, l: Value, r: Value) -> (res: Result<Value, EvalError>)
    requires
        op < 4,
    ensures
        result_view(res) == arith_step(op as int, value_view(l), value_view(r)),
{
    match (l, r) {
        (Value::Num(a), Value::Num(b)) => {
            let x = a as i128;
            let y = b as i128;
            let v: i128 = if op == 0 {
                x + y
            } else if op == 1 {
                x - y
            } else if op == 2 {
                proof {
                    assert(x * y <= 0x4000_0000_0000_0000_0000_0000_0000_0000) by (nonlinear_arith)
                        requires
                            -0x8000_0000_0000_0000 <= x <= 0x7fff_ffff_ffff_ffff,
                            -0x8000_0000_0000_0000 <= y <= 0x7fff_ffff_ffff_ffff,
                    ;
                    assert(x * y >= -0x4000_0000_0000_0000_0000_0000_0000_0000) by (nonlinear_arith)
                        requires
                            -0x8000_0000_0000_0000 <= x <= 0x7fff_ffff_ffff_ffff,
                            -0x8000_0000_0000_0000 <= y <= 0x7fff_ffff_ffff_ffff,
                    ;
                }
                x * y
            } else {
                if y == 0 {
                    return Err(EvalError::DivisionByZero);
                }
                let ua: u128 = if x < 0 { (-x) as u128 } else { x as u128 };
                let ub: u128 = if y < 0 { (-y) as u128 } else { y as u128 };
                let q = (ua / ub) as i128;
                if (x < 0) != (y < 0) {
                    -q
                } else {
                    q
                }
            };
            if v < isize::MIN as i128 || v > isize::MAX as i128 {
                Err(EvalError::Overflow)
            } else {
                Ok(Value::Num(v as isize))
            }
        },
        _ => Err(EvalError::NotANumber),
    }
}

/// Evaluates `expr` in `env`, nesting at most `depth` deep.
fn eval(expr: &Expr, env: &Env, depth: u64) -> (r: Result<Value, EvalError>)
    ensures
        result_view(r) == eval_spec(*expr, env_view(env@), depth as nat),
    decreases depth,
{
    if depth == 0 {
        return Err(EvalError::TooDeep);
    }
    let d = depth - 1;
    match expr {
        Expr::Num(n) => Ok(Value::Num(*n)),
        Expr::Add(l, r) | Expr::Sub(l, r) | Expr::Mul(l, r) | Expr::Div(l, r) => {
            let op: u8 = match expr {
                Expr::Add(..) => 0,
                Expr::Sub(..) => 1,
                Expr::Mul(..) => 2,
                _ => 3,
            };
            let a = eval(l, env, d)?;
            let b = eval(r, env, d)?;
            arith(op, a, b)
        },
        Expr::Val(x, v, b) => {
            let value = eval(v, env, d)?;
            let mut inner = copy_env(env);
            let item = (x.clone(), value);
            proof {
                lemma_env_view_push(inner@, item);
            }
            inner.push(item);
            eval(b, &inner, d)
        },
        Expr::Id(x) => match lookup_value(env, x) {
            Some(v) => Ok(v),
            None => Err(EvalError::FreeIdentifier),
        },
        Expr::Fun(p, b) => Ok(Value::Closure(p.clone(), b.copy(), copy_env(env))),
        Expr::App(f, a) => {
            let fv = eval(f, env, d)?;
            match fv {
                Value::Closure(x, body, captured) => {
                    let av = eval(a, env, d)?;
                    let mut inner = captured;
                    let item = (x, av);
                    proof {
                        lemma_env_view_push(inner@, item);
                    }
                    inner.push(item);
                    eval(&body, &inner, d)
                },
                _ => Err(EvalError::NotAFunction),
            }
        },
    }
}

/// Evaluates `expr` in `env` as [`eval_spec`] describes, nesting at most
/// `MAX_DEPTH` deep. Arithmetic is checked: overflow and division by zero
/// are errors.
pub fn interp(expr: &Expr, env: &Env) -> (r: Result<Value, EvalError>)
    ensures
        result_view(r) == eval_spec(*expr, env_view(env@), MAX_DEPTH as nat),
{
    eval(expr, env, MAX_DEPTH)
}

} // verus!
