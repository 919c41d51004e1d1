pub mod ast;
pub mod interp;
pub mod parser;
pub mod type_checker;
pub mod typed;

use vstd::prelude::*;
use vstd::string::StringExecFns;

use crate::daruscript_v1::scanner::{ScanError, Scanner, Token, scan_spec, tokens_view};
use crate::daruscript_v1::type_checker::{TypeError, infer, type_check as infer_type};
use crate::daruscript_v1::typed::{Bindings, Expr, Type, TypeVars, erased, expr_in_range, in_range};
use crate::daruscript_v1::untyped::{SValue, Value, env_view, value_view};
use interp::{EvalError, MAX_DEPTH, eval_spec};
use parser::{ParseError, Parser, annotations, only_fresh_cells, parse_spec, var_run};

verus! {

/// Why running a piece of source text fails.
#[derive(Debug, Clone, Copy, PartialEq, Eq, Structural)]
pub enum RunError {
    Scan(ScanError),
    Parse(ParseError),
    /// The source holds no expression.
    Empty,
    Type(TypeError),
    Eval(EvalError),
}

/// `toks` is a token list whose contents are what `src` scans to. (Names are
/// `String`s, which a specification cannot build: a token list is pinned down
/// by its view.)
pub open spec fn scans_to(src: Seq<char>, toks: Seq<Token>) -> bool {
    scan_spec(src) matches Ok(tv) ==> tokens_view(toks) == tv
}

/// What parsing `src` gives from bindings `b`, with `toks` its tokens: the
/// scanning error, the parsing error, `Empty` when no token stands before
/// `Eof`, or the tree.
pub open spec fn source_tree(src: Seq<char>, toks: Seq<Token>, b: Bindings) -> (Bindings, Result<Expr, RunError>) {
    match scan_spec(src) {
        Err(e) => (b, Err(RunError::Scan(e))),
        Ok(_) => {
            let (b1, r) = parse_spec(toks, 0, b);
            (
                b1,
                match r {
                    Err(k) => Err(RunError::Parse(k)),
                    Ok(None) => Err(RunError::Empty),
                    Ok(Some(e)) => Ok(e),
                },
            )
        },
    }
}

/// Parses `source` into an expression whose left-out annotations are new
/// variables of `vars`: distinct, unbound, and in the order the parser makes
/// them. The tree is the one [`parse_spec`] gives for the tokens that
/// [`scan_spec`] gives for `source`.
pub fn gen_ast(source: &str, vars: &mut TypeVars) -> (r: Result<Expr, RunError>)
    requires
        old(vars)@.wf(),
    ensures
        final(vars)@.wf(),
        final(vars)@.extends(old(vars)@),
        r matches Ok(e) ==> expr_in_range(e, final(vars)@.len()) && annotations(e) == var_run(
            old(vars)@.len(),
            final(vars)@.len(),
        ),
        only_fresh_cells(old(vars)@, final(vars)@),
        exists|toks: Seq<Token>|
            scans_to(source@, toks) && (final(vars)@, r) == source_tree(source@, toks, old(vars)@),
{
    let scanner = Scanner::new(String::from_str(source));
    let tokens = match scanner.scan() {
        Ok(t) => t,
        Err(e) => {
            proof {
                assert(scans_to(source@, Seq::empty()));
            }
            return Err(RunError::Scan(e));
        },
    };
    let ghost toks = tokens@;
    proof {
        assert(scans_to(source@, toks));
    }
    let mut parser = Parser::new(tokens);
    let r = match parser.parse(vars) {
        Ok(Some(e)) => Ok(e),
        Ok(None) => Err(RunError::Empty),
        Err(e) => Err(RunError::Parse(e)),
    };
    proof {
        assert(scans_to(source@, toks) && (vars@, r) == source_tree(source@, toks, old(vars)@));
    }
    r
}

/// The outcome of checking `e` from bindings `b` in the empty environment,
/// as a run error where it fails.
pub open spec fn check_outcome(b: Bindings, e: Expr) -> (Bindings, Result<Type, RunError>) {
    let (b1, r) = infer(b, Seq::empty(), e);
    (
        b1,
        match r {
            Ok(t) => Ok(t),
            Err(k) => Err(RunError::Type(k)),
        },
    )
}

/// The outcome of running `e` from bindings `b`: the check's error, or what
/// evaluating `e` without its annotations in the empty environment gives.
pub open spec fn run_outcome(b: Bindings, e: Expr) -> Result<SValue, RunError> {
    match infer(b, Seq::empty(), e).1 {
        Err(k) => Err(RunError::Type(k)),
        Ok(_) => match eval_spec(erased(e), Seq::empty(), MAX_DEPTH as nat) {
            Ok(v) => Ok(v),
            Err(k) => Err(RunError::Eval(k)),
        },
    }
}

/// The mathematical form of a run's result.
pub open spec fn run_view(r: Result<Value, RunError>) -> Result<SValue, RunError> {
    match r {
        Ok(v) => Ok(value_view(v)),
        Err(k) => Err(k),
    }
}

/// Checks `ast`, whose annotations are cells of `vars`, in the empty
/// environment.
pub fn check_ast(ast: &Expr, vars: &mut TypeVars) -> (r: Result<Type, RunError>)
    requires
        old(vars)@.wf(),
        expr_in_range(*ast, old(vars)@.len()),
    ensures
        (final(vars)@, r) == check_outcome(old(vars)@, *ast),
        final(vars)@.wf(),
        r matches Ok(t) ==> in_range(t, final(vars)@.len()),
{
    let env: Vec<(String, Type)> = Vec::new();
    assert(env@ =~= Seq::empty());
    match infer_type(ast, env, vars) {
        Ok(t) => Ok(t),
        Err(e) => Err(RunError::Type(e)),
    }
}

/// Checks `ast`, then evaluates it without its annotations. The type only
/// validates: a type error stops the run before evaluation.
pub fn run_ast(ast: &Expr, vars: &mut TypeVars) -> (r: Result<Value, RunError>)
    requires
        old(vars)@.wf(),
        expr_in_range(*ast, old(vars)@.len()),
    ensures
        run_view(r) == run_outcome(old(vars)@, *ast),
{
    let untyped = ast.type_erase();
    if let Err(e) = check_ast(ast, vars) {
        return Err(e);
    }
    let env: Vec<(String, Value)> = Vec::new();
    assert(env@ =~= Seq::empty());
    assert(env_view(env@) =~= Seq::empty());
    match interp::interp(&untyped, &env) {
        Ok(v) => Ok(v),
        Err(e) => Err(RunError::Eval(e)),
    }
}

/// What checking `src` gives, with `toks` its tokens: the error, or the
/// type with the bindings it leaves.
pub open spec fn source_check(src: Seq<char>, toks: Seq<Token>) -> (Bindings, Result<Type, RunError>) {
    let (b1, r) = source_tree(src, toks, Bindings::empty());
    match r {
        Err(k) => (b1, Err(k)),
        Ok(e) => check_outcome(b1, e),
    }
}

/// What running `src` gives, with `toks` its tokens: the error of scanning,
/// parsing or checking, or what evaluating the parsed tree gives.
pub open spec fn source_run(src: Seq<char>, toks: Seq<Token>) -> Result<SValue, RunError> {
    let (b1, r) = source_tree(src, toks, Bindings::empty());
    match r {
        Err(k) => Err(k),
        Ok(e) => run_outcome(b1, e),
    }
}

/// Parses and checks `source`; the type comes with the variables it may
/// mention.
pub fn type_check(source: &str) -> (r: Result<(Type, TypeVars), RunError>)
    ensures
        r matches Ok((t, vars)) ==> vars@.wf() && in_range(t, vars@.len()),
        exists|toks: Seq<Token>|
            scans_to(source@, toks) && match source_check(source@, toks) {
                (b, Ok(t)) => r matches Ok((t2, vars)) && t2 == t && vars@ == b,
                (_, Err(k)) => r == Err::<(Type, TypeVars), RunError>(k),
            },
{
    let mut vars = TypeVars::new();
    let ast = gen_ast(source, &mut vars)?;
    match check_ast(&ast, &mut vars) {
        Ok(t) => Ok((t, vars)),
        Err(e) => Err(e),
    }
}

/// Parses, checks and evaluates `source`: [`run_ast`] on the parsed tree. A
/// type error stops the run before evaluation.
pub fn run(source: &str) -> (r: Result<Value, RunError>)
    ensures
        exists|toks: Seq<Token>| scans_to(source@, toks) && run_view(r) == source_run(source@, toks),
{
    let mut vars = TypeVars::new();
    let ast = gen_ast(source, &mut vars)?;
    run_ast(&ast, &mut vars)
}

} // verus!
