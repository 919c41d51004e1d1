use vstd::prelude::*;

use super::typed::{
    Bindings, Type, in_range, lemma_in_range_mono, lemma_in_range_occurs, lemma_rank_of_agree,
    occurs_in, size,
};

verus! {

/// `resolve` keeps the variables in range, never raises the rank, stops at a
/// type that is not a bound variable, and stands for the same type.
pub proof fn lemma_resolve(b: Bindings, t: Type)
    requires
        b.wf(),
        in_range(t, b.len()),
    ensures
        in_range(b.resolve(t), b.len()),
        b.rank_of(b.resolve(t)) <= b.rank_of(t),
        b.resolve(t) is Var ==> !b.is_bound(b.resolve(t)->Var_0),
        b.zonk(b.resolve(t)) == b.zonk(t),
        t is Var && b.is_bound(t->Var_0) ==> b.rank_of(b.resolve(t)) < b.rank_of(t),
        !(t is Var) ==> b.resolve(t) == t,
    decreases b.rank_of(t),
{
    if let Type::Var(v) = t {
        if b.is_bound(v) {
            let u = b.binding(v);
            assert(b.cells[v as int] is Some);
            lemma_resolve(b, u);
        }
    }
}

/// What a type stands for mentions only cells of the arena.
pub proof fn lemma_zonk_in_range(b: Bindings, t: Type)
    requires
        b.wf(),
        in_range(t, b.len()),
    ensures
        in_range(b.zonk(t), b.len()),
    decreases b.rank_of(t), t,
{
    match t {
        Type::Var(v) => {
            if b.is_bound(v) {
                assert(b.cells[v as int] is Some);
                lemma_zonk_in_range(b, b.binding(v));
            }
        },
        Type::Fun(l, r) => {
            lemma_zonk_in_range(b, *l);
            lemma_zonk_in_range(b, *r);
        },
        Type::Num => {},
    }
}

/// Under bindings that extend `b`, a type and what it stands for under `b`
/// stand for the same type.
pub proof fn lemma_zonk_extend(b: Bindings, b2: Bindings, t: Type)
    requires
        b.wf(),
        b2.wf(),
        b2.extends(b),
        in_range(t, b.len()),
    ensures
        b2.zonk(b.zonk(t)) == b2.zonk(t),
    decreases b.rank_of(t), t,
{
    match t {
        Type::Var(v) => {
            if b.is_bound(v) {
                assert(b.cells[v as int] is Some);
                lemma_zonk_extend(b, b2, b.binding(v));
            }
        },
        Type::Fun(l, r) => {
            lemma_zonk_extend(b, b2, *l);
            lemma_zonk_extend(b, b2, *r);
        },
        Type::Num => {},
    }
}

/// Under a solution `b2` of `b`, a type and what it stands for under `b` stand
/// for the same type.
pub proof fn lemma_satisfies_zonk(b: Bindings, b2: Bindings, t: Type)
    requires
        b.wf(),
        b2.wf(),
        b2.satisfies(b),
        in_range(t, b.len()),
    ensures
        b2.zonk(b.zonk(t)) == b2.zonk(t),
    decreases b.rank_of(t), t,
{
    match t {
        Type::Var(v) => {
            if b.is_bound(v) {
                assert(b.cells[v as int] is Some);
                lemma_satisfies_zonk(b, b2, b.binding(v));
            }
        },
        Type::Fun(l, r) => {
            lemma_satisfies_zonk(b, b2, *l);
            lemma_satisfies_zonk(b, b2, *r);
        },
        Type::Num => {},
    }
}

/// Two types that stand for the same type under `b` do so under every
/// solution of `b`.
pub proof fn lemma_satisfies_eq(b: Bindings, b2: Bindings, t1: Type, t2: Type)
    requires
        b.wf(),
        b2.wf(),
        b2.satisfies(b),
        in_range(t1, b.len()),
        in_range(t2, b.len()),
        b.zonk(t1) == b.zonk(t2),
    ensures
        b2.zonk(t1) == b2.zonk(t2),
{
    lemma_satisfies_zonk(b, b2, t1);
    lemma_satisfies_zonk(b, b2, t2);
}

/// Two types that stand for the same type keep doing so when bindings are added.
pub proof fn lemma_zonk_eq_extend(b: Bindings, b2: Bindings, t1: Type, t2: Type)
    requires
        b.wf(),
        b2.wf(),
        b2.extends(b),
        in_range(t1, b.len()),
        in_range(t2, b.len()),
        b.zonk(t1) == b.zonk(t2),
    ensures
        b2.zonk(t1) == b2.zonk(t2),
{
    lemma_zonk_extend(b, b2, t1);
    lemma_zonk_extend(b, b2, t2);
}

/// A type in which `a` occurs stands, under any bindings, for a type at least
/// as large as what `a` stands for.
pub proof fn lemma_occurs_size(b: Bindings, t: Type, a: usize)
    requires
        b.wf(),
        in_range(t, b.len()),
        occurs_in(a, t),
    ensures
        size(b.zonk(t)) >= size(b.zonk(Type::Var(a))),
    decreases t,
{
    if let Type::Fun(l, r) = t {
        if occurs_in(a, *l) {
            lemma_occurs_size(b, *l, a);
        } else {
            lemma_occurs_size(b, *r, a);
        }
    }
}

/// An unbound variable occurs in a function type whose parameter is that
/// variable, so `unify` refuses to bind the variable to such a type.
pub proof fn lemma_occurs_in_own_function(b: Bindings, v: usize)
    requires
        b.wf(),
        v < b.len(),
        !b.is_bound(v),
    ensures
        occurs_in(v, b.zonk(Type::Fun(Box::new(Type::Var(v)), Box::new(Type::Num)))),
{
    let t = Type::Fun(Box::new(Type::Var(v)), Box::new(Type::Num));
    assert(b.zonk(Type::Var(v)) == Type::Var(v));
    assert(b.zonk(Type::Num) == Type::Num);
    assert(b.zonk(t) == Type::Fun(Box::new(Type::Var(v)), Box::new(Type::Num)));
    assert(occurs_in(v, Type::Var(v)));
}

/// `b3` and `b2` give the same meaning to the first `n` variables.
pub open spec fn agrees(b3: Bindings, b2: Bindings, n: nat) -> bool {
    forall|v: usize| v < n ==> #[trigger] b3.zonk(Type::Var(v)) == b2.zonk(Type::Var(v))
}

pub proof fn lemma_agrees_zonk(b3: Bindings, b2: Bindings, n: nat, t: Type)
    requires
        b3.wf(),
        b2.wf(),
        agrees(b3, b2, n),
        in_range(t, n),
    ensures
        b3.zonk(t) == b2.zonk(t),
    decreases t,
{
    match t {
        Type::Var(v) => {
            assert(b3.zonk(Type::Var(v)) == b2.zonk(Type::Var(v)));
        },
        Type::Fun(l, r) => {
            lemma_agrees_zonk(b3, b2, n, *l);
            lemma_agrees_zonk(b3, b2, n, *r);
        },
        Type::Num => {},
    }
}

/// Every variable of what a type stands for is unbound.
pub proof fn lemma_zonk_unbound(b: Bindings, t: Type, v: usize)
    requires
        b.wf(),
        in_range(t, b.len()),
        occurs_in(v, b.zonk(t)),
    ensures
        !b.is_bound(v),
    decreases b.rank_of(t), t,
{
    match t {
        Type::Var(w) => {
            if b.is_bound(w) {
                assert(b.cells[w as int] is Some);
                lemma_zonk_unbound(b, b.binding(w), v);
            }
        },
        Type::Fun(l, r) => {
            if occurs_in(v, b.zonk(*l)) {
                lemma_zonk_unbound(b, *l, v);
            } else {
                lemma_zonk_unbound(b, *r, v);
            }
        },
        Type::Num => {},
    }
}

/// A type whose variables are all unbound stands for itself.
pub proof fn lemma_zonk_unbound_fixed(b: Bindings, t: Type)
    requires
        b.wf(),
        forall|v: usize| #[trigger] occurs_in(v, t) ==> !b.is_bound(v),
    ensures
        b.zonk(t) == t,
    decreases t,
{
    match t {
        Type::Fun(l, r) => {
            assert forall|v: usize| #[trigger] occurs_in(v, *l) implies !b.is_bound(v) by {
                assert(occurs_in(v, t));
            }
            assert forall|v: usize| #[trigger] occurs_in(v, *r) implies !b.is_bound(v) by {
                assert(occurs_in(v, t));
            }
            lemma_zonk_unbound_fixed(b, *l);
            lemma_zonk_unbound_fixed(b, *r);
        },
        Type::Var(w) => {
            assert(occurs_in(w, t));
        },
        Type::Num => {},
    }
}

/// A solution `b` extended by one more cell, bound to `c`, whose variables
/// are all unbound in `b`.
pub proof fn lemma_bind_new_cell(b: Bindings, c: Type) -> (b4: Bindings)
    requires
        b.wf(),
        b.len() <= usize::MAX,
        in_range(c, b.len()),
        forall|v: usize| #[trigger] occurs_in(v, c) ==> !b.is_bound(v),
    ensures
        b4.wf(),
        b4.len() == b.len() + 1,
        b4.extends(b),
        b4.zonk(Type::Var(b.len() as usize)) == c,
        agrees(b4, b, b.len()),
{
    let n = b.len();
    let b4 = Bindings { cells: b.cells.push(Some(c)), rank: b.rank.push(b.rank_of(c)) };
    lemma_rank_of_agree(b, b4, c, n);
    lemma_in_range_mono(c, n, n + 1);
    assert forall|i: int| 0 <= i < b4.cells.len() && (#[trigger] b4.cells[i]) is Some implies {
        &&& in_range(b4.cells[i].unwrap(), b4.cells.len())
        &&& b4.rank_of(b4.cells[i].unwrap()) <= b4.rank[i]
    } by {
        if i < n {
            assert(b.cells[i] is Some);
            lemma_in_range_mono(b.cells[i].unwrap(), n, n + 1);
            lemma_rank_of_agree(b, b4, b.cells[i].unwrap(), n);
        }
    }
    assert forall|v: usize| #[trigger] occurs_in(v, c) implies !b4.is_bound(v) by {
        lemma_in_range_occurs(c, v, n);
    }
    lemma_zonk_unbound_fixed(b4, c);
    assert(b4.cells[n as int] is Some);
    assert(b4.zonk(Type::Var(n as usize)) == b4.zonk(c));
    assert forall|v: usize| v < n implies #[trigger] b4.zonk(Type::Var(v)) == b.zonk(Type::Var(v)) by {
        let z = b.zonk(Type::Var(v));
        lemma_zonk_extend(b, b4, Type::Var(v));
        lemma_zonk_in_range(b, Type::Var(v));
        assert forall|w: usize| #[trigger] occurs_in(w, z) implies !b4.is_bound(w) by {
            lemma_zonk_unbound(b, Type::Var(v), w);
            lemma_in_range_occurs(z, w, n);
        }
        lemma_zonk_unbound_fixed(b4, z);
    }
    b4
}

/// A solution of bindings is a solution of every bindings that they extend.
pub proof fn lemma_satisfies_back(b: Bindings, b1: Bindings, b2: Bindings)
    requires
        b1.extends(b),
        b2.satisfies(b1),
    ensures
        b2.satisfies(b),
{
    assert forall|v: usize| #[trigger] b.is_bound(v) implies b2.zonk(Type::Var(v)) == b2.zonk(
        b.binding(v),
    ) by {
        assert(b.cells[v as int] is Some);
        assert(b1.is_bound(v));
    }
}

} // verus!
