use vstd::prelude::*;

use crate::daruscript_v1::scanner::{Literal, Token, TokenKind, ends_with_eof};
use crate::daruscript_v1::typed::{
    Bindings, Expr, Type, TypeVars, expr_in_range, in_range, lemma_expr_in_range_mono,
};

verus! {

/// Why parsing stops.
#[derive(Debug, Clone, Copy, PartialEq, Eq, Structural)]
pub enum ParseError {
    /// A token that cannot stand where it was found, on the given line.
    UnexpectedToken(usize),
    /// A construct the language does not support yet (comparisons, `!`,
    /// `var`, fractional numbers), on the given line.
    Unsupported(usize),
    /// Tokens left after a complete expression, on the given line.
    ExpectedEof(usize),
    /// The token list does not end with its only `Eof`.
    MissingEof,
}

/// Builds an expression from tokens. Each annotation that the source leaves
/// out becomes a fresh type variable.
pub struct Parser {
    pub tokens: Vec<Token>,
    /// Where the next parse starts.
    pub current: usize,
}

/// The annotations of `e`, in the order the parser makes them: children
/// first, then the node's own.
pub open spec fn annotations(e: Expr) -> Seq<Type>
    decreases e,
{
    match e {
        Expr::Num(_) | Expr::Id(_) => Seq::empty(),
        Expr::Add(l, r) | Expr::Sub(l, r) | Expr::Mul(l, r) | Expr::Div(l, r) | Expr::App(l, r) =>
            annotations(*l) + annotations(*r),
        Expr::Val(_, t, init, body) => annotations(*init) + annotations(*body) + seq![t],
        Expr::Fun(_, t, body) => annotations(*body) + seq![t],
    }
}

/// The variables of the cells `a` up to `b`, in order.
pub open spec fn var_run(a: nat, b: nat) -> Seq<Type> {
    Seq::new((b - a) as nat, |i: int| Type::Var((a + i) as usize))
}

/// `b1` is `b0` with unbound cells added, and nothing else changed.
pub open spec fn only_fresh_cells(b0: Bindings, b1: Bindings) -> bool {
    &&& b0.len() <= b1.len()
    &&& forall|i: int| 0 <= i < b0.len() ==> #[trigger] b1.cells[i] == b0.cells[i]
    &&& forall|i: int| b0.len() <= i < b1.len() ==> #[trigger] b1.cells[i] is None
}

proof fn lemma_var_run_concat(a: nat, m: nat, c: nat)
    requires
        a <= m <= c,
    ensures
        var_run(a, m) + var_run(m, c) == var_run(a, c),
{
    assert(var_run(a, m) + var_run(m, c) =~= var_run(a, c));
}

/// A parse result: the bindings afterwards, and the expression with the
/// position after it, or the error.
pub type Parsed = (Bindings, Result<(Expr, usize), ParseError>);

/// Moving past a token of kind `kind` at `q`.
pub open spec fn expect_spec(tokens: Seq<Token>, q: usize, kind: TokenKind) -> Result<usize, ParseError> {
    if q < tokens.len() && tokens[q as int].kind == kind {
        Ok((q + 1) as usize)
    } else {
        Err(ParseError::UnexpectedToken(tokens[q as int].line))
    }
}

pub open spec fn expression_spec(tokens: Seq<Token>, pos: usize, b: Bindings) -> Parsed
    decreases tokens.len() - pos, 10nat,
{
    if pos >= tokens.len() || tokens.len() > usize::MAX {
        (b, Err(ParseError::MissingEof))
    } else {
        equality_spec(tokens, pos, b)
    }
}

pub open spec fn equality_spec(tokens: Seq<Token>, pos: usize, b: Bindings) -> Parsed
    decreases tokens.len() - pos, 9nat,
{
    if pos >= tokens.len() || tokens.len() > usize::MAX {
        (b, Err(ParseError::MissingEof))
    } else {
        let (b1, r) = comparison_spec(tokens, pos, b);
        match r {
            Err(k) => (b1, Err(k)),
            Ok((e, p)) => if p < tokens.len() && (tokens[p as int].kind == TokenKind::BangEquals
                || tokens[p as int].kind == TokenKind::EqualsEquals) {
                (b1, Err(ParseError::Unsupported(tokens[p as int].line)))
            } else {
                (b1, Ok((e, p)))
            },
        }
    }
}

pub open spec fn is_comparison(k: TokenKind) -> bool {
    k == TokenKind::Greater || k == TokenKind::GreaterOrEquals || k == TokenKind::Less || k
        == TokenKind::LessOrEquals
}

pub open spec fn comparison_spec(tokens: Seq<Token>, pos: usize, b: Bindings) -> Parsed
    decreases tokens.len() - pos, 8nat,
{
    if pos >= tokens.len() || tokens.len() > usize::MAX {
        (b, Err(ParseError::MissingEof))
    } else {
        let (b1, r) = term_spec(tokens, pos, b);
        match r {
            Err(k) => (b1, Err(k)),
            Ok((e, p)) => if p < tokens.len() && is_comparison(tokens[p as int].kind) {
                (b1, Err(ParseError::Unsupported(tokens[p as int].line)))
            } else {
                (b1, Ok((e, p)))
            },
        }
    }
}

pub open spec fn term_spec(tokens: Seq<Token>, pos: usize, b: Bindings) -> Parsed
    decreases tokens.len() - pos, 7nat,
{
    if pos >= tokens.len() || tokens.len() > usize::MAX {
        (b, Err(ParseError::MissingEof))
    } else {
        let (b1, r) = factor_spec(tokens, pos, b);
        match r {
            Err(k) => (b1, Err(k)),
            Ok((e, p)) => if pos <= p < tokens.len() {
                term_rest(tokens, p, b1, e)
            } else {
                (b1, Ok((e, p)))
            },
        }
    }
}

/// Further `+ f` and `- f` after `acc`, left-associative.
pub open spec fn term_rest(tokens: Seq<Token>, p: usize, b: Bindings, acc: Expr) -> Parsed
    decreases tokens.len() - p, 6nat,
{
    if p >= tokens.len() || tokens.len() > usize::MAX {
        (b, Ok((acc, p)))
    } else {
        let k = tokens[p as int].kind;
        if k != TokenKind::Plus && k != TokenKind::Minus {
            (b, Ok((acc, p)))
        } else {
            let (b1, r) = factor_spec(tokens, (p + 1) as usize, b);
            match r {
                Err(e) => (b1, Err(e)),
                Ok((right, q)) => {
                    let acc2 = if k == TokenKind::Plus {
                        Expr::Add(Box::new(acc), Box::new(right))
                    } else {
                        Expr::Sub(Box::new(acc), Box::new(right))
                    };
                    if p < q < tokens.len() {
                        term_rest(tokens, q, b1, acc2)
                    } else {
                        (b1, Ok((acc2, q)))
                    }
                },
            }
        }
    }
}

pub open spec fn factor_spec(tokens: Seq<Token>, pos: usize, b: Bindings) -> Parsed
    decreases tokens.len() - pos, 5nat,
{
    if pos >= tokens.len() || tokens.len() > usize::MAX {
        (b, Err(ParseError::MissingEof))
    } else {
        let (b1, r) = unary_spec(tokens, pos, b);
        match r {
            Err(k) => (b1, Err(k)),
            Ok((e, p)) => if pos <= p < tokens.len() {
                factor_rest(tokens, p, b1, e)
            } else {
                (b1, Ok((e, p)))
            },
        }
    }
}

/// Further `/ u` and `* u` after `acc`, left-associative.
pub open spec fn factor_rest(tokens: Seq<Token>, p: usize, b: Bindings, acc: Expr) -> Parsed
    decreases tokens.len() - p, 4nat,
{
    if p >= tokens.len() || tokens.len() > usize::MAX {
        (b, Ok((acc, p)))
    } else {
        let k = tokens[p as int].kind;
        if k != TokenKind::Slash && k != TokenKind::Star {
            (b, Ok((acc, p)))
        } else {
            let (b1, r) = unary_spec(tokens, (p + 1) as usize, b);
            match r {
                Err(e) => (b1, Err(e)),
                Ok((right, q)) => {
                    let acc2 = if k == TokenKind::Slash {
                        Expr::Div(Box::new(acc), Box::new(right))
                    } else {
                        Expr::Mul(Box::new(acc), Box::new(right))
                    };
                    if p < q < tokens.len() {
                        factor_rest(tokens, q, b1, acc2)
                    } else {
                        (b1, Ok((acc2, q)))
                    }
                },
            }
        }
    }
}

pub open spec fn unary_spec(tokens: Seq<Token>, pos: usize, b: Bindings) -> Parsed
    decreases tokens.len() - pos, 3nat,
{
    if pos >= tokens.len() || tokens.len() > usize::MAX {
        (b, Err(ParseError::MissingEof))
    } else {
        let k = tokens[pos as int].kind;
        if k == TokenKind::Bang {
            (b, Err(ParseError::Unsupported(tokens[pos as int].line)))
        } else if k == TokenKind::Minus {
            let (b1, r) = unary_spec(tokens, (pos + 1) as usize, b);
            match r {
                Err(e) => (b1, Err(e)),
                Ok((right, q)) => (b1, Ok((Expr::Sub(Box::new(Expr::Num(0)), Box::new(right)), q))),
            }
        } else {
            postfix_spec(tokens, pos, b)
        }
    }
}

pub open spec fn postfix_spec(tokens: Seq<Token>, pos: usize, b: Bindings) -> Parsed
    decreases tokens.len() - pos, 2nat,
{
    if pos >= tokens.len() || tokens.len() > usize::MAX {
        (b, Err(ParseError::MissingEof))
    } else {
        let (b1, r) = primary_spec(tokens, pos, b);
        match r {
            Err(k) => (b1, Err(k)),
            Ok((e, p)) => if pos <= p < tokens.len() {
                postfix_rest(tokens, p, b1, e)
            } else {
                (b1, Ok((e, p)))
            },
        }
    }
}

/// Further applications `(arg)` after `acc`.
pub open spec fn postfix_rest(tokens: Seq<Token>, p: usize, b: Bindings, acc: Expr) -> Parsed
    decreases tokens.len() - p, 1nat,
{
    if p >= tokens.len() || tokens.len() > usize::MAX || tokens[p as int].kind
        != TokenKind::LeftParen {
        (b, Ok((acc, p)))
    } else {
        let (b1, r) = expression_spec(tokens, (p + 1) as usize, b);
        match r {
            Err(e) => (b1, Err(e)),
            Ok((arg, q)) => match expect_spec(tokens, q, TokenKind::RightParen) {
                Err(e) => (b1, Err(e)),
                Ok(q2) => {
                    let acc2 = Expr::App(Box::new(acc), Box::new(arg));
                    if p < q2 < tokens.len() {
                        postfix_rest(tokens, q2, b1, acc2)
                    } else {
                        (b1, Ok((acc2, q2)))
                    }
                },
            },
        }
    }
}

/// The name of an identifier token at `p`.
pub open spec fn ident_spec(tokens: Seq<Token>, p: usize) -> Result<String, ParseError> {
    if tokens[p as int].kind == TokenKind::Ident {
        Ok(tokens[p as int].lexeme)
    } else {
        Err(ParseError::UnexpectedToken(tokens[p as int].line))
    }
}

pub open spec fn primary_spec(tokens: Seq<Token>, pos: usize, b: Bindings) -> Parsed
    decreases tokens.len() - pos, 0nat,
{
    if pos >= tokens.len() || tokens.len() > usize::MAX {
        (b, Err(ParseError::MissingEof))
    } else {
        let k = tokens[pos as int].kind;
        let line = tokens[pos as int].line;
        let next = (pos + 1) as usize;
        if k == TokenKind::Literal {
            match tokens[pos as int].literal {
                Some(Literal::Str(x)) => (b, Ok((Expr::Id(x), next))),
                Some(Literal::Num(n)) => (b, Ok((Expr::Num(n), next))),
                Some(Literal::Float(_)) => (b, Err(ParseError::Unsupported(line))),
                None => (b, Err(ParseError::UnexpectedToken(line))),
            }
        } else if k == TokenKind::LeftParen {
            let (b1, r) = expression_spec(tokens, next, b);
            match r {
                Err(e) => (b1, Err(e)),
                Ok((e, q)) => match expect_spec(tokens, q, TokenKind::RightParen) {
                    Err(err) => (b1, Err(err)),
                    Ok(q2) => (b1, Ok((e, q2))),
                },
            }
        } else if k == TokenKind::LeftBrace {
            if next >= tokens.len() {
                (b, Err(ParseError::MissingEof))
            } else if tokens[next as int].kind == TokenKind::Var {
                (b, Err(ParseError::Unsupported(tokens[next as int].line)))
            } else if tokens[next as int].kind == TokenKind::Val {
                // { val x = init; body }
                match ident_spec(tokens, (next + 1) as usize) {
                    Err(e) => (b, Err(e)),
                    Ok(name) => match expect_spec(tokens, (next + 2) as usize, TokenKind::Equals) {
                        Err(e) => (b, Err(e)),
                        Ok(q) => if pos < q < tokens.len() {
                            let (b1, r) = expression_spec(tokens, q, b);
                            match r {
                                Err(e) => (b1, Err(e)),
                                Ok((init, q1)) => match expect_spec(tokens, q1, TokenKind::Semicolon) {
                                    Err(e) => (b1, Err(e)),
                                    Ok(q2) => if pos < q2 < tokens.len() {
                                        let (b2, r2) = expression_spec(tokens, q2, b1);
                                        match r2 {
                                            Err(e) => (b2, Err(e)),
                                            Ok((body, q3)) => match expect_spec(tokens, q3, TokenKind::RightBrace) {
                                                Err(e) => (b2, Err(e)),
                                                Ok(q4) => (
                                                    b2.fresh(),
                                                    Ok((Expr::Val(name, Type::Var(b2.len() as usize), Box::new(init), Box::new(body)), q4)),
                                                ),
                                            },
                                        }
                                    } else {
                                        (b1, Err(ParseError::MissingEof))
                                    },
                                },
                            }
                        } else {
                            (b, Err(ParseError::MissingEof))
                        },
                    },
                }
            } else {
                // { x => body }
                match ident_spec(tokens, next) {
                    Err(e) => (b, Err(e)),
                    Ok(name) => match expect_spec(tokens, (next + 1) as usize, TokenKind::Equals) {
                        Err(e) => (b, Err(e)),
                        Ok(q) => match expect_spec(tokens, q, TokenKind::Greater) {
                            Err(e) => (b, Err(e)),
                            Ok(q1) => if pos < q1 < tokens.len() {
                                let (b1, r) = expression_spec(tokens, q1, b);
                                match r {
                                    Err(e) => (b1, Err(e)),
                                    Ok((body, q2)) => match expect_spec(tokens, q2, TokenKind::RightBrace) {
                                        Err(e) => (b1, Err(e)),
                                        Ok(q3) => (
                                            b1.fresh(),
                                            Ok((Expr::Fun(name, Type::Var(b1.len() as usize), Box::new(body)), q3)),
                                        ),
                                    },
                                }
                            } else {
                                (b, Err(ParseError::MissingEof))
                            },
                        },
                    },
                }
            }
        } else if k == TokenKind::Ident {
            (b, Ok((Expr::Id(tokens[pos as int].lexeme), next)))
        } else {
            (b, Err(ParseError::UnexpectedToken(line)))
        }
    }
}

/// What [`Parser::parse`] gives from `current` in `tokens`: `None` when no
/// token stands before `Eof`, else one expression that must reach `Eof`.
pub open spec fn parse_spec(tokens: Seq<Token>, current: usize, b: Bindings) -> (Bindings, Result<Option<Expr>, ParseError>) {
    if !ends_with_eof(tokens) {
        (b, Err(ParseError::MissingEof))
    } else if current >= tokens.len() || tokens[current as int].kind == TokenKind::Eof {
        (b, Ok(None))
    } else {
        let (b1, r) = expression_spec(tokens, current, b);
        match r {
            Err(e) => (b1, Err(e)),
            Ok((e, p)) => if p < tokens.len() && tokens[p as int].kind != TokenKind::Eof {
                (b1, Err(ParseError::ExpectedEof(tokens[p as int].line)))
            } else {
                (b1, Ok(Some(e)))
            },
        }
    }
}

/// What every parsing step ensures: on success it returns an expression whose
/// annotations are exactly the cells added during the step, in order, all
/// unbound, and a position at or after `pos` that is still a token.
pub open spec fn step_post(
    tokens: Seq<Token>,
    pos: usize,
    b0: Bindings,
    b1: Bindings,
    r: Result<(Expr, usize), ParseError>,
) -> bool {
    &&& b1.wf()
    &&& b1.extends(b0)
    &&& only_fresh_cells(b0, b1)
    &&& r matches Ok((e, p)) ==> pos <= p < tokens.len() && expr_in_range(e, b1.len())
        && annotations(e) == var_run(b0.len(), b1.len())
}

/// Tokens that the parsing steps can walk.
pub open spec fn parsable(tokens: Seq<Token>) -> bool {
    ends_with_eof(tokens) && tokens.len() <= usize::MAX
}

/// A fresh type variable for an annotation that the source leaves out, to be
/// inferred by the type checker.
fn omit_type(vars: &mut TypeVars) -> (t: Type)
    requires
        old(vars)@.wf(),
    ensures
        final(vars)@.wf(),
        final(vars)@.extends(old(vars)@),
        final(vars)@.len() == old(vars)@.len() + 1,
        in_range(t, final(vars)@.len()),
        only_fresh_cells(old(vars)@, final(vars)@),
        t == Type::Var(old(vars)@.len() as usize),
        final(vars)@ == old(vars)@.fresh(),
{
    vars.fresh()
}

fn kind_at(tokens: &Vec<Token>, p: usize) -> (r: TokenKind)
    requires
        p < tokens@.len(),
    ensures
        r == tokens@[p as int].kind,
{
    tokens[p].kind
}

/// Moves past a token that must be of kind `kind`.
fn consume(tokens: &Vec<Token>, p: usize, kind: TokenKind) -> (r: Result<usize, ParseError>)
    requires
        parsable(tokens@),
        p < tokens@.len(),
        kind != TokenKind::Eof,
    ensures
        r matches Ok(q) ==> q == p + 1 && q < tokens@.len(),
        r == expect_spec(tokens@, p, kind),
{
    if tokens[p].kind == kind {
        Ok(p + 1)
    } else {
        Err(ParseError::UnexpectedToken(tokens[p].line))
    }
}

fn expression(tokens: &Vec<Token>, pos: usize, vars: &mut TypeVars) -> (r: Result<(Expr, usize), ParseError>)
    requires
        parsable(tokens@),
        pos < tokens@.len(),
        old(vars)@.wf(),
    ensures
        step_post(tokens@, pos, old(vars)@, final(vars)@, r),
        (final(vars)@, r) == expression_spec(tokens@, pos, old(vars)@),
    decreases tokens@.len() - pos, 10nat,
{
    parse_equality(tokens, pos, vars)
}

/// `==` and `!=` are recognised and refused.
fn parse_equality(tokens: &Vec<Token>, pos: usize, vars: &mut TypeVars) -> (r: Result<(Expr, usize), ParseError>)
    requires
        parsable(tokens@),
        pos < tokens@.len(),
        old(vars)@.wf(),
    ensures
        step_post(tokens@, pos, old(vars)@, final(vars)@, r),
        (final(vars)@, r) == equality_spec(tokens@, pos, old(vars)@),
    decreases tokens@.len() - pos, 9nat,
{
    let (e, p) = parse_comparison(tokens, pos, vars)?;
    let k = kind_at(tokens, p);
    if k == TokenKind::BangEquals || k == TokenKind::EqualsEquals {
        return Err(ParseError::Unsupported(tokens[p].line));
    }
    Ok((e, p))
}

/// `>`, `>=`, `<` and `<=` are recognised and refused.
fn parse_comparison(tokens: &Vec<Token>, pos: usize, vars: &mut TypeVars) -> (r: Result<(Expr, usize), ParseError>)
    requires
        parsable(tokens@),
        pos < tokens@.len(),
        old(vars)@.wf(),
    ensures
        step_post(tokens@, pos, old(vars)@, final(vars)@, r),
        (final(vars)@, r) == comparison_spec(tokens@, pos, old(vars)@),
    decreases tokens@.len() - pos, 8nat,
{
    let (e, p) = parse_term(tokens, pos, vars)?;
    let k = kind_at(tokens, p);
    if k == TokenKind::Greater || k == TokenKind::GreaterOrEquals || k == TokenKind::Less || k
        == TokenKind::LessOrEquals {
        return Err(ParseError::Unsupported(tokens[p].line));
    }
    Ok((e, p))
}

/// Left-associative `+` and `-`.
fn parse_term(tokens: &Vec<Token>, pos: usize, vars: &mut TypeVars) -> (r: Result<(Expr, usize), ParseError>)
    requires
        parsable(tokens@),
        pos < tokens@.len(),
        old(vars)@.wf(),
    ensures
        step_post(tokens@, pos, old(vars)@, final(vars)@, r),
        (final(vars)@, r) == term_spec(tokens@, pos, old(vars)@),
    decreases tokens@.len() - pos, 7nat,
{
    let (first, p0) = parse_factor(tokens, pos, vars)?;
    let mut expr = first;
    let mut p = p0;
    while is_add_op(kind_at(tokens, p))
        invariant
            parsable(tokens@),
            pos <= p < tokens@.len(),
            vars@.wf(),
            vars@.extends(old(vars)@),
            only_fresh_cells(old(vars)@, vars@),
            annotations(expr) == var_run(old(vars)@.len(), vars@.len()),
            expr_in_range(expr, vars@.len()),
            term_rest(tokens@, p, vars@, expr) == term_spec(tokens@, pos, old(vars)@),
        decreases tokens@.len() - p,
    {
        let k = kind_at(tokens, p);
        let ghost n0 = vars@.len();
        let (right, q) = parse_factor(tokens, p + 1, vars)?;
        proof {
            lemma_expr_in_range_mono(expr, n0, vars@.len());
            lemma_var_run_concat(old(vars)@.len(), n0, vars@.len());
        }
        expr = if k == TokenKind::Plus {
            Expr::Add(Box::new(expr), Box::new(right))
        } else {
            Expr::Sub(Box::new(expr), Box::new(right))
        };
        p = q;
    }
    Ok((expr, p))
}

/// Left-associative `*` and `/`.
fn parse_factor(tokens: &Vec<Token>, pos: usize, vars: &mut TypeVars) -> (r: Result<(Expr, usize), ParseError>)
    requires
        parsable(tokens@),
        pos < tokens@.len(),
        old(vars)@.wf(),
    ensures
        step_post(tokens@, pos, old(vars)@, final(vars)@, r),
        (final(vars)@, r) == factor_spec(tokens@, pos, old(vars)@),
    decreases tokens@.len() - pos, 5nat,
{
    let (first, p0) = parse_unary(tokens, pos, vars)?;
    let mut expr = first;
    let mut p = p0;
    while is_mul_op(kind_at(tokens, p))
        invariant
            parsable(tokens@),
            pos <= p < tokens@.len(),
            vars@.wf(),
            vars@.extends(old(vars)@),
            only_fresh_cells(old(vars)@, vars@),
            annotations(expr) == var_run(old(vars)@.len(), vars@.len()),
            expr_in_range(expr, vars@.len()),
            factor_rest(tokens@, p, vars@, expr) == factor_spec(tokens@, pos, old(vars)@),
        decreases tokens@.len() - p,
    {
        let k = kind_at(tokens, p);
        let ghost n0 = vars@.len();
        let (right, q) = parse_unary(tokens, p + 1, vars)?;
        proof {
            lemma_expr_in_range_mono(expr, n0, vars@.len());
            lemma_var_run_concat(old(vars)@.len(), n0, vars@.len());
        }
        expr = if k == TokenKind::Slash {
            Expr::Div(Box::new(expr), Box::new(right))
        } else {
            Expr::Mul(Box::new(expr), Box::new(right))
        };
        p = q;
    }
    Ok((expr, p))
}

/// Prefix `-e`, read as `0 - e`; prefix `!` is refused.
fn parse_unary(tokens: &Vec<Token>, pos: usize, vars: &mut TypeVars) -> (r: Result<(Expr, usize), ParseError>)
    requires
        parsable(tokens@),
        pos < tokens@.len(),
        old(vars)@.wf(),
    ensures
        step_post(tokens@, pos, old(vars)@, final(vars)@, r),
        (final(vars)@, r) == unary_spec(tokens@, pos, old(vars)@),
    decreases tokens@.len() - pos, 3nat,
{
    let k = kind_at(tokens, pos);
    if k == TokenKind::Bang {
        return Err(ParseError::Unsupported(tokens[pos].line));
    }
    if k == TokenKind::Minus {
        let (right, q) = parse_unary(tokens, pos + 1, vars)?;
        let e = Expr::Sub(Box::new(Expr::Num(0)), Box::new(right));
        assert(expr_in_range(Expr::Num(0), vars@.len()));
        assert(expr_in_range(e, vars@.len()));
        assert(annotations(Expr::Num(0)) =~= Seq::<Type>::empty());
        assert(annotations(e) =~= annotations(right));
        return Ok((e, q));
    }
    parse_postfix_unary(tokens, pos, vars)
}

/// Applications `f(a)(b)...`.
fn parse_postfix_unary(tokens: &Vec<Token>, pos: usize, vars: &mut TypeVars) -> (r: Result<(Expr, usize), ParseError>)
    requires
        parsable(tokens@),
        pos < tokens@.len(),
        old(vars)@.wf(),
    ensures
        step_post(tokens@, pos, old(vars)@, final(vars)@, r),
        (final(vars)@, r) == postfix_spec(tokens@, pos, old(vars)@),
    decreases tokens@.len() - pos, 2nat,
{
    let (first, p0) = parse_primary(tokens, pos, vars)?;
    let mut left = first;
    let mut p = p0;
    while kind_at(tokens, p) == TokenKind::LeftParen
        invariant
            parsable(tokens@),
            pos <= p < tokens@.len(),
            vars@.wf(),
            vars@.extends(old(vars)@),
            only_fresh_cells(old(vars)@, vars@),
            annotations(left) == var_run(old(vars)@.len(), vars@.len()),
            expr_in_range(left, vars@.len()),
            postfix_rest(tokens@, p, vars@, left) == postfix_spec(tokens@, pos, old(vars)@),
        decreases tokens@.len() - p,
    {
        let ghost n0 = vars@.len();
        let (arg, q) = expression(tokens, p + 1, vars)?;
        let q = consume(tokens, q, TokenKind::RightParen)?;
        proof {
            lemma_expr_in_range_mono(left, n0, vars@.len());
            lemma_var_run_concat(old(vars)@.len(), n0, vars@.len());
        }
        left = Expr::App(Box::new(left), Box::new(arg));
        p = q;
    }
    Ok((left, p))
}

fn is_add_op(k: TokenKind) -> (r: bool)
    ensures
        r == (k == TokenKind::Plus || k == TokenKind::Minus),
{
    k == TokenKind::Plus || k == TokenKind::Minus
}

fn is_mul_op(k: TokenKind) -> (r: bool)
    ensures
        r == (k == TokenKind::Slash || k == TokenKind::Star),
{
    k == TokenKind::Slash || k == TokenKind::Star
}

/// The name of an identifier token at `p`.
fn ident_at(tokens: &Vec<Token>, p: usize) -> (r: Result<String, ParseError>)
    requires
        parsable(tokens@),
        p < tokens@.len(),
    ensures
        r is Ok ==> tokens@[p as int].kind == TokenKind::Ident && p + 1 < tokens@.len(),
        r == ident_spec(tokens@, p),
{
    if tokens[p].kind == TokenKind::Ident {
        Ok(tokens[p].lexeme.clone())
    } else {
        Err(ParseError::UnexpectedToken(tokens[p].line))
    }
}

/// Literals, identifiers, `( e )`, `{ val x = e; body }` and `{ x => body }`.
fn parse_primary(tokens: &Vec<Token>, pos: usize, vars: &mut TypeVars) -> (r: Result<(Expr, usize), ParseError>)
    requires
        parsable(tokens@),
        pos < tokens@.len(),
        old(vars)@.wf(),
    ensures
        step_post(tokens@, pos, old(vars)@, final(vars)@, r),
        (final(vars)@, r) == primary_spec(tokens@, pos, old(vars)@),
    decreases tokens@.len() - pos, 1nat,
{
    proof {
        assert(var_run(old(vars)@.len(), old(vars)@.len()) =~= Seq::<Type>::empty());
    }
    let k = kind_at(tokens, pos);
    let line = tokens[pos].line;
    if k == TokenKind::Literal {
        match &tokens[pos].literal {
            Some(Literal::Str(x)) => Ok((Expr::Id(x.clone()), pos + 1)),
            Some(Literal::Num(n)) => Ok((Expr::Num(*n), pos + 1)),
            Some(Literal::Float(_)) => Err(ParseError::Unsupported(line)),
            None => Err(ParseError::UnexpectedToken(line)),
        }
    } else if k == TokenKind::LeftParen {
        let (e, q) = expression(tokens, pos + 1, vars)?;
        let q = consume(tokens, q, TokenKind::RightParen)?;
        Ok((e, q))
    } else if k == TokenKind::LeftBrace {
        let k2 = kind_at(tokens, pos + 1);
        if k2 == TokenKind::Var {
            Err(ParseError::Unsupported(tokens[pos + 1].line))
        } else if k2 == TokenKind::Val {
            parse_val_block(tokens, pos, vars)
        } else {
            parse_fun_block(tokens, pos, vars)
        }
    } else if k == TokenKind::Ident {
        Ok((Expr::Id(tokens[pos].lexeme.clone()), pos + 1))
    } else {
        Err(ParseError::UnexpectedToken(line))
    }
}

/// `{ val x = init; body }`, from its opening brace.
#[verifier::rlimit(60)]
fn parse_val_block(tokens: &Vec<Token>, pos: usize, vars: &mut TypeVars) -> (r: Result<(Expr, usize), ParseError>)
    requires
        parsable(tokens@),
        pos + 1 < tokens@.len(),
        tokens@[pos as int].kind == TokenKind::LeftBrace,
        tokens@[pos + 1].kind == TokenKind::Val,
        old(vars)@.wf(),
    ensures
        step_post(tokens@, pos, old(vars)@, final(vars)@, r),
        (final(vars)@, r) == primary_spec(tokens@, pos, old(vars)@),
    decreases tokens@.len() - pos, 0nat,
{
    let p = pos + 1;
    let name = ident_at(tokens, p + 1)?;
    let q = consume(tokens, p + 2, TokenKind::Equals)?;
    let ghost b0 = vars@;
    let (init, q) = expression(tokens, q, vars)?;
    let ghost b1 = vars@;
    let q = consume(tokens, q, TokenKind::Semicolon)?;
    let (body, q) = expression(tokens, q, vars)?;
    let ghost b2 = vars@;
    let q = consume(tokens, q, TokenKind::RightBrace)?;
    let t = omit_type(vars);
    proof {
        lemma_expr_in_range_mono(init, b1.len(), vars@.len());
        lemma_expr_in_range_mono(body, b2.len(), vars@.len());
        lemma_var_run_concat(b0.len(), b1.len(), b2.len());
        lemma_var_run_concat(b0.len(), b2.len(), vars@.len());
        assert(var_run(b2.len(), vars@.len()) =~= seq![t]);
    }
    Ok((Expr::Val(name, t, Box::new(init), Box::new(body)), q))
}

/// `{ x => body }`, from its opening brace.
fn parse_fun_block(tokens: &Vec<Token>, pos: usize, vars: &mut TypeVars) -> (r: Result<(Expr, usize), ParseError>)
    requires
        parsable(tokens@),
        pos + 1 < tokens@.len(),
        tokens@[pos as int].kind == TokenKind::LeftBrace,
        tokens@[pos + 1].kind != TokenKind::Val,
        tokens@[pos + 1].kind != TokenKind::Var,
        old(vars)@.wf(),
    ensures
        step_post(tokens@, pos, old(vars)@, final(vars)@, r),
        (final(vars)@, r) == primary_spec(tokens@, pos, old(vars)@),
    decreases tokens@.len() - pos, 0nat,
{
    let p = pos + 1;
    let name = ident_at(tokens, p)?;
    let q = consume(tokens, p + 1, TokenKind::Equals)?;
    let q = consume(tokens, q, TokenKind::Greater)?;
    let ghost b0 = vars@;
    let (body, q) = expression(tokens, q, vars)?;
    let ghost b1 = vars@;
    let q = consume(tokens, q, TokenKind::RightBrace)?;
    let t = omit_type(vars);
    proof {
        lemma_expr_in_range_mono(body, b1.len(), vars@.len());
        lemma_var_run_concat(b0.len(), b1.len(), vars@.len());
        assert(var_run(b1.len(), vars@.len()) =~= seq![t]);
    }
    Ok((Expr::Fun(name, t, Box::new(body)), q))
}

/// Whether `tokens` ends with its only `Eof`.
fn check_eof_layout(tokens: &Vec<Token>) -> (r: bool)
    ensures
        r == ends_with_eof(tokens@),
{
    let n = tokens.len();
    if n == 0 {
        return false;
    }
    let mut i: usize = 0;
    while i < n - 1
        invariant
            n == tokens@.len(),
            n > 0,
            i <= n - 1,
            forall|j: int| 0 <= j < i ==> (#[trigger] tokens@[j]).kind != TokenKind::Eof,
        decreases n - i,
    {
        if tokens[i].kind == TokenKind::Eof {
            return false;
        }
        i = i + 1;
    }
    tokens[n - 1].kind == TokenKind::Eof
}

impl Parser {
    pub fn new(tokens: Vec<Token>) -> (r: Parser)
        ensures
            r.tokens == tokens,
            r.current == 0,
    {
        Parser { tokens, current: 0 }
    }

    /// Parses one expression that spans the tokens up to `Eof`; `None` when
    /// there are no tokens before `Eof`.
    pub fn parse(&mut self, vars: &mut TypeVars) -> (r: Result<Option<Expr>, ParseError>)
        requires
            old(vars)@.wf(),
        ensures
            final(vars)@.wf(),
            final(vars)@.extends(old(vars)@),
            r matches Ok(Some(e)) ==> expr_in_range(e, final(vars)@.len()) && annotations(e)
                == var_run(old(vars)@.len(), final(vars)@.len()),
            only_fresh_cells(old(vars)@, final(vars)@),
            !ends_with_eof(old(self).tokens@) ==> r == Err::<Option<Expr>, ParseError>(
                ParseError::MissingEof,
            ),
            (final(vars)@, r) == parse_spec(old(self).tokens@, old(self).current, old(vars)@),
            ends_with_eof(old(self).tokens@) && (old(self).current >= old(self).tokens@.len()
                || old(self).tokens@[old(self).current as int].kind == TokenKind::Eof) ==> r == Ok::<
                Option<Expr>,
                ParseError,
            >(None),
    {
        if !check_eof_layout(&self.tokens) {
            return Err(ParseError::MissingEof);
        }
        if self.current >= self.tokens.len() || self.tokens[self.current].kind == TokenKind::Eof {
            return Ok(None);
        }
        assert(self.tokens@.len() == self.tokens.len());
        let (e, p) = expression(&self.tokens, self.current, vars)?;
        if self.tokens[p].kind != TokenKind::Eof {
            return Err(ParseError::ExpectedEof(self.tokens[p].line));
        }
        self.current = p;
        Ok(Some(e))
    }
}

} // verus!
