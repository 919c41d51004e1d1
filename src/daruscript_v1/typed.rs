use vstd::prelude::*;

use super::untyped::{Expr as Untyped, expr_text};

verus! {

/// A type of the checked language. `Var(i)` names cell `i` of a [`TypeVars`]
/// arena: two variables are the same exactly when their indices agree.
#[derive(Debug)]
pub enum Type {
    Num,
    Fun(Box<Type>, Box<Type>),
    Var(usize),
}

/// Number of nodes of a type tree.
pub open spec fn size(t: Type) -> nat
    decreases t,
{
    match t {
        Type::Num => 1,
        Type::Var(_) => 1,
        Type::Fun(l, r) => 1 + size(*l) + size(*r),
    }
}

/// Whether the variable `v` appears anywhere in `t` (no resolution).
pub open spec fn occurs_in(v: usize, t: Type) -> bool
    decreases t,
{
    match t {
        Type::Num => false,
        Type::Var(w) => w == v,
        Type::Fun(l, r) => occurs_in(v, *l) || occurs_in(v, *r),
    }
}

/// Every variable of `t` is a cell of an arena with `n` cells.
pub open spec fn in_range(t: Type, n: nat) -> bool
    decreases t,
{
    match t {
        Type::Num => true,
        Type::Var(w) => w < n,
        Type::Fun(l, r) => in_range(*l, n) && in_range(*r, n),
    }
}

/// The mathematical content of a [`TypeVars`] arena: what each cell is bound
/// to, and a rank per cell that witnesses that the bindings have no cycle
/// (a bound cell only mentions cells of smaller rank).
pub ghost struct Bindings {
    pub cells: Seq<Option<Type>>,
    pub rank: Seq<nat>,
}

impl Bindings {
    /// No cells at all.
    pub open spec fn empty() -> Bindings {
        Bindings { cells: Seq::empty(), rank: Seq::empty() }
    }

    pub open spec fn len(self) -> nat {
        self.cells.len()
    }

    pub open spec fn is_bound(self, v: usize) -> bool {
        v < self.cells.len() && self.cells[v as int] is Some
    }

    pub open spec fn binding(self, v: usize) -> Type {
        self.cells[v as int].unwrap()
    }

    /// One more than the largest rank of a variable of `t`, 0 without variables.
    pub open spec fn rank_of(self, t: Type) -> nat
        decreases t,
    {
        match t {
            Type::Num => 0,
            Type::Var(w) => if w < self.rank.len() {
                self.rank[w as int] + 1
            } else {
                1
            },
            Type::Fun(l, r) => {
                let a = self.rank_of(*l);
                let b = self.rank_of(*r);
                if a >= b {
                    a
                } else {
                    b
                }
            },
        }
    }

    pub open spec fn wf(self) -> bool {
        &&& self.rank.len() == self.cells.len()
        &&& forall|i: int|
            0 <= i < self.cells.len() && (#[trigger] self.cells[i]) is Some ==> {
                &&& in_range(self.cells[i].unwrap(), self.cells.len())
                &&& self.rank_of(self.cells[i].unwrap()) <= self.rank[i]
            }
    }

    /// Follows bound variables until a type that is not a bound variable.
    pub open spec fn resolve(self, t: Type) -> Type
        decreases self.rank_of(t),
        when self.wf()
    {
        match t {
            Type::Var(v) => if self.is_bound(v) {
                self.resolve(self.binding(v))
            } else {
                t
            },
            _ => t,
        }
    }

    /// The type `t` with every bound variable replaced, recursively, by what it
    /// is bound to: what `t` stands for under these bindings.
    pub open spec fn zonk(self, t: Type) -> Type
        decreases self.rank_of(t), t,
        when self.wf()
    {
        match t {
            Type::Num => Type::Num,
            Type::Var(v) => if self.is_bound(v) {
                self.zonk(self.binding(v))
            } else {
                t
            },
            Type::Fun(l, r) => Type::Fun(Box::new(self.zonk(*l)), Box::new(self.zonk(*r))),
        }
    }

    /// Under `self`, each variable that `prev` binds stands for the same type
    /// as what `prev` binds it to: `self` is a solution of `prev`'s bindings.
    pub open spec fn satisfies(self, prev: Bindings) -> bool {
        &&& prev.cells.len() <= self.cells.len()
        &&& forall|v: usize| #[trigger]
            prev.is_bound(v) ==> self.zonk(Type::Var(v)) == self.zonk(prev.binding(v))
    }

    /// The bindings with cell `v` bound to `t`. The ranks of the cells that
    /// lead to `v` rise so that the bindings stay free of cycles.
    pub open spec fn bind(self, v: usize, t: Type) -> Bindings {
        let k = self.rank_of(t);
        Bindings {
            cells: self.cells.update(v as int, Some(t)),
            rank: Seq::new(
                self.len(),
                |i: int|
                    if i > usize::MAX || occurs_in(v, self.zonk(Type::Var(i as usize))) {
                        self.rank[i] + k
                    } else {
                        self.rank[i]
                    },
            ),
        }
    }

    /// The bindings with one more cell, unbound.
    pub open spec fn fresh(self) -> Bindings {
        Bindings { cells: self.cells.push(None), rank: self.rank.push(0) }
    }

    /// `self` keeps every cell of `prev`, and every binding that `prev` made.
    pub open spec fn extends(self, prev: Bindings) -> bool {
        &&& prev.cells.len() <= self.cells.len()
        &&& forall|i: int|
            0 <= i < prev.cells.len() && (#[trigger] prev.cells[i]) is Some ==> self.cells[i]
                == prev.cells[i]
    }
}

pub proof fn lemma_in_range_mono(t: Type, n: nat, m: nat)
    requires
        in_range(t, n),
        n <= m,
    ensures
        in_range(t, m),
    decreases t,
{
    if let Type::Fun(l, r) = t {
        lemma_in_range_mono(*l, n, m);
        lemma_in_range_mono(*r, n, m);
    }
}

/// Ranks only matter for the variables that occur.
pub proof fn lemma_rank_of_agree(a: Bindings, b: Bindings, t: Type, n: nat)
    requires
        in_range(t, n),
        n <= a.rank.len(),
        n <= b.rank.len(),
        forall|i: int| 0 <= i < n ==> a.rank[i] == b.rank[i],
    ensures
        a.rank_of(t) == b.rank_of(t),
    decreases t,
{
    if let Type::Fun(l, r) = t {
        lemma_rank_of_agree(a, b, *l, n);
        lemma_rank_of_agree(a, b, *r, n);
    }
}

pub proof fn lemma_in_range_occurs(t: Type, y: usize, n: nat)
    requires
        in_range(t, n),
        occurs_in(y, t),
    ensures
        y < n,
    decreases t,
{
    if let Type::Fun(l, r) = t {
        if occurs_in(y, *l) {
            lemma_in_range_occurs(*l, y, n);
        } else {
            lemma_in_range_occurs(*r, y, n);
        }
    }
}

/// Ranks only matter for the variables that occur.
pub proof fn lemma_rank_of_same_vars(a: Bindings, b: Bindings, t: Type)
    requires
        forall|i: usize| #[trigger] occurs_in(i, t) ==> i < a.rank.len() && i < b.rank.len() && a.rank[i as int] == b.rank[i as int],
    ensures
        a.rank_of(t) == b.rank_of(t),
    decreases t,
{
    match t {
        Type::Fun(l, r) => {
            assert forall|i: usize| #[trigger] occurs_in(i, *l) implies occurs_in(i, t) by {}
            assert forall|i: usize| #[trigger] occurs_in(i, *r) implies occurs_in(i, t) by {}
            lemma_rank_of_same_vars(a, b, *l);
            lemma_rank_of_same_vars(a, b, *r);
        },
        Type::Var(w) => {
            assert(occurs_in(w, t));
        },
        Type::Num => {},
    }
}

/// Raising each rank by at most `k` raises the rank of a type by at most `k`.
pub proof fn lemma_rank_of_raise(a: Bindings, b: Bindings, t: Type, k: nat)
    requires
        in_range(t, a.rank.len()),
        a.rank.len() == b.rank.len(),
        forall|i: int| 0 <= i < a.rank.len() ==> b.rank[i] <= a.rank[i] + k,
    ensures
        b.rank_of(t) <= a.rank_of(t) + k,
    decreases t,
{
    if let Type::Fun(l, r) = t {
        lemma_rank_of_raise(a, b, *l, k);
        lemma_rank_of_raise(a, b, *r, k);
    }
}

/// If `y` occurs in `t` and `c` occurs in what `y` stands for, then `c` occurs
/// in what `t` stands for.
pub proof fn lemma_occurs_through(b: Bindings, t: Type, y: usize, c: usize)
    requires
        b.wf(),
        occurs_in(y, t),
        occurs_in(c, b.zonk(Type::Var(y))),
    ensures
        occurs_in(c, b.zonk(t)),
    decreases t,
{
    if let Type::Fun(l, r) = t {
        if occurs_in(y, *l) {
            lemma_occurs_through(b, *l, y, c);
        } else {
            lemma_occurs_through(b, *r, y, c);
        }
    }
}

/// Number of unbound cells.
pub open spec fn free_count(cells: Seq<Option<Type>>) -> nat
    decreases cells.len(),
{
    if cells.len() == 0 {
        0
    } else {
        free_count(cells.drop_last()) + if cells.last() is None {
            1nat
        } else {
            0nat
        }
    }
}

/// Binding an unbound cell leaves one unbound cell fewer.
pub proof fn lemma_free_count_bind(cells: Seq<Option<Type>>, v: int, t: Type)
    requires
        0 <= v < cells.len(),
        cells[v] is None,
    ensures
        free_count(cells.update(v, Some(t))) + 1 == free_count(cells),
    decreases cells.len(),
{
    let c2 = cells.update(v, Some(t));
    if v < cells.len() - 1 {
        assert(c2.drop_last() =~= cells.drop_last().update(v, Some(t)));
        lemma_free_count_bind(cells.drop_last(), v, t);
    } else {
        assert(c2.drop_last() =~= cells.drop_last());
    }
}

/// Binding an unbound cell to a type that does not lead back to it keeps the
/// bindings well formed.
pub proof fn lemma_bind_wf(b: Bindings, v: usize, t: Type)
    requires
        b.wf(),
        v < b.len(),
        !b.is_bound(v),
        in_range(t, b.len()),
        !occurs_in(v, b.zonk(t)),
    ensures
        b.bind(v, t).wf(),
{
    let k = b.rank_of(t);
    let reach = |i: int| i > usize::MAX || occurs_in(v, b.zonk(Type::Var(i as usize)));
    let rank2 = b.bind(v, t).rank;
    let b2 = Bindings { cells: b.cells.update(v as int, Some(t)), rank: rank2 };
    assert(reach(v as int));
    assert forall|y: usize| #[trigger] occurs_in(y, t) implies y < b.rank.len() && y < rank2.len() && b.rank[y as int] == rank2[y as int] by {
        lemma_in_range_occurs(t, y, b.len());
        if reach(y as int) {
            lemma_occurs_through(b, t, y, v);
        }
    }
    lemma_rank_of_same_vars(b, b2, t);
    assert forall|i: int| 0 <= i < b2.cells.len() && (#[trigger] b2.cells[i]) is Some implies {
        &&& in_range(b2.cells[i].unwrap(), b2.cells.len())
        &&& b2.rank_of(b2.cells[i].unwrap()) <= b2.rank[i]
    } by {
        if i != v {
            let u = b.cells[i].unwrap();
            assert(b.cells[i] is Some);
            if reach(i) {
                lemma_rank_of_raise(b, b2, u, k);
            } else {
                assert forall|y: usize| #[trigger] occurs_in(y, u) implies y < b.rank.len() && y < rank2.len() && b.rank[y as int] == rank2[y as int] by {
                    lemma_in_range_occurs(u, y, b.len());
                    if reach(y as int) {
                        lemma_occurs_through(b, u, y, v);
                        assert(b.zonk(Type::Var(i as usize)) == b.zonk(u));
                    }
                }
                lemma_rank_of_same_vars(b, b2, u);
            }
        }
    }
    assert(b2.cells =~= b.bind(v, t).cells);
    assert(b2.rank =~= b.bind(v, t).rank);
}

/// The arena of type-variable cells. A cell starts unbound and is bound at most
/// once, to a type that does not lead back to it.
pub struct TypeVars {
    cells: Vec<Option<Type>>,
    rank: Ghost<Seq<nat>>,
}

impl View for TypeVars {
    type V = Bindings;

    closed spec fn view(&self) -> Bindings {
        Bindings { cells: self.cells@, rank: self.rank@ }
    }
}

impl PartialEq for Type {
    /// Structural equality; variables are equal when they name the same cell.
    fn eq(&self, other: &Type) -> (r: bool)
        decreases self,
    {
        match (self, other) {
            (Type::Num, Type::Num) => true,
            (Type::Var(a), Type::Var(b)) => *a == *b,
            (Type::Fun(l1, r1), Type::Fun(l2, r2)) => {
                let a = (**l1).eq(&**l2);
                a && (**r1).eq(&**r2)
            },
            _ => false,
        }
    }
}

impl vstd::std_specs::cmp::PartialEqSpecImpl for Type {
    open spec fn obeys_eq_spec() -> bool {
        true
    }

    open spec fn eq_spec(&self, other: &Type) -> bool {
        *self == *other
    }
}

impl Eq for Type {

}

impl Type {
    /// A copy of this type.
    pub fn copy(&self) -> (r: Type)
        ensures
            r == *self,
        decreases self,
    {
        match self {
            Type::Num => Type::Num,
            Type::Var(v) => Type::Var(*v),
            Type::Fun(l, r) => Type::Fun(Box::new(l.copy()), Box::new(r.copy())),
        }
    }
}

impl TypeVars {
    /// An arena without cells.
    pub fn new() -> (r: TypeVars)
        ensures
            r@.wf(),
            r@.len() == 0,
            r@ == Bindings::empty(),
    {
        TypeVars { cells: Vec::new(), rank: Ghost(Seq::empty()) }
    }

    /// Number of cells.
    pub fn len(&self) -> (r: usize)
        ensures
            r == self@.len(),
    {
        self.cells.len()
    }

    /// What cell `v` holds.
    pub fn cell(&self, v: usize) -> (r: Option<Type>)
        requires
            v < self@.len(),
        ensures
            r == self@.cells[v as int],
    {
        match &self.cells[v] {
            Some(t) => Some(t.copy()),
            None => None,
        }
    }

    /// Binds the unbound cell `v` to `t`, which must not stand for a type that
    /// contains `v`.
    pub(crate) fn bind(&mut self, v: usize, t: Type)
        requires
            old(self)@.wf(),
            v < old(self)@.len(),
            !old(self)@.is_bound(v),
            in_range(t, old(self)@.len()),
            !occurs_in(v, old(self)@.zonk(t)),
        ensures
            final(self)@.wf(),
            final(self)@ == old(self)@.bind(v, t),
    {
        let ghost b = self@;
        proof {
            lemma_bind_wf(b, v, t);
        }
        self.cells.set(v, Some(t));
        self.rank = Ghost(b.bind(v, t).rank);
        assert(self@.cells =~= b.bind(v, t).cells);
        assert(self@.rank =~= b.bind(v, t).rank);
    }

    /// A new unbound variable.
    pub fn fresh(&mut self) -> (t: Type)
        requires
            old(self)@.wf(),
        ensures
            final(self)@.wf(),
            final(self)@ == old(self)@.fresh(),
            final(self)@.cells == old(self)@.cells.push(None),
            final(self)@.extends(old(self)@),
            old(self)@.len() <= usize::MAX,
            t == Type::Var(old(self)@.len() as usize),
    {
        let n = self.cells.len();
        self.cells.push(None);
        self.rank = Ghost(self.rank@.push(0));
        proof {
            let prev = old(self)@;
            let cur = self@;
            assert forall|i: int| 0 <= i < cur.cells.len() && (#[trigger] cur.cells[i]) is Some implies {
                &&& in_range(cur.cells[i].unwrap(), cur.cells.len())
                &&& cur.rank_of(cur.cells[i].unwrap()) <= cur.rank[i]
            } by {
                assert(prev.cells[i] is Some);
                lemma_in_range_mono(prev.cells[i].unwrap(), prev.len(), cur.len());
                lemma_rank_of_agree(prev, cur, prev.cells[i].unwrap(), prev.len());
            }
        }
        Type::Var(n)
    }
}

/// An expression of the checked language. Every annotation is a type; one
/// that the source left out is a fresh variable.
#[derive(Debug, PartialEq)]
pub enum Expr {
    Num(isize),
    Add(Box<Expr>, Box<Expr>),
    Sub(Box<Expr>, Box<Expr>),
    Mul(Box<Expr>, Box<Expr>),
    Div(Box<Expr>, Box<Expr>),
    /// `Val(name, annotation, initializer, body)`
    Val(String, Type, Box<Expr>, Box<Expr>),
    Id(String),
    /// A one-parameter function: `Fun(parameter, annotation, body)`.
    Fun(String, Type, Box<Expr>),
    /// `App(callee, argument)`
    App(Box<Expr>, Box<Expr>),
}

/// The typing environment: names with their types, looked up front to back.
pub type TEnv = Vec<(String, Type)>;

/// Every annotation of `e` mentions only cells of an arena with `n` cells.
pub open spec fn expr_in_range(e: Expr, n: nat) -> bool
    decreases e,
{
    match e {
        Expr::Num(_) => true,
        Expr::Id(_) => true,
        Expr::Add(l, r) => expr_in_range(*l, n) && expr_in_range(*r, n),
        Expr::Sub(l, r) => expr_in_range(*l, n) && expr_in_range(*r, n),
        Expr::Mul(l, r) => expr_in_range(*l, n) && expr_in_range(*r, n),
        Expr::Div(l, r) => expr_in_range(*l, n) && expr_in_range(*r, n),
        Expr::App(l, r) => expr_in_range(*l, n) && expr_in_range(*r, n),
        Expr::Val(_, t, init, body) => in_range(t, n) && expr_in_range(*init, n)
            && expr_in_range(*body, n),
        Expr::Fun(_, t, body) => in_range(t, n) && expr_in_range(*body, n),
    }
}

pub open spec fn env_in_range(env: Seq<(String, Type)>, n: nat) -> bool {
    forall|i: int| 0 <= i < env.len() ==> in_range(#[trigger] env[i].1, n)
}

pub proof fn lemma_expr_in_range_mono(e: Expr, n: nat, m: nat)
    requires
        expr_in_range(e, n),
        n <= m,
    ensures
        expr_in_range(e, m),
    decreases e,
{
    match e {
        Expr::Add(l, r) | Expr::Sub(l, r) | Expr::Mul(l, r) | Expr::Div(l, r) | Expr::App(l, r) => {
            lemma_expr_in_range_mono(*l, n, m);
            lemma_expr_in_range_mono(*r, n, m);
        },
        Expr::Val(_, t, init, body) => {
            lemma_in_range_mono(t, n, m);
            lemma_expr_in_range_mono(*init, n, m);
            lemma_expr_in_range_mono(*body, n, m);
        },
        Expr::Fun(_, t, body) => {
            lemma_in_range_mono(t, n, m);
            lemma_expr_in_range_mono(*body, n, m);
        },
        _ => {},
    }
}

pub proof fn lemma_env_in_range_mono(env: Seq<(String, Type)>, n: nat, m: nat)
    requires
        env_in_range(env, n),
        n <= m,
    ensures
        env_in_range(env, m),
{
    assert forall|i: int| 0 <= i < env.len() implies in_range(#[trigger] env[i].1, m) by {
        lemma_in_range_mono(env[i].1, n, m);
    }
}

/// `e` with its type annotations taken away.
pub open spec fn erased(e: Expr) -> Untyped
    decreases e,
{
    match e {
        Expr::Num(n) => Untyped::Num(n),
        Expr::Add(l, r) => Untyped::Add(Box::new(erased(*l)), Box::new(erased(*r))),
        Expr::Sub(l, r) => Untyped::Sub(Box::new(erased(*l)), Box::new(erased(*r))),
        Expr::Mul(l, r) => Untyped::Mul(Box::new(erased(*l)), Box::new(erased(*r))),
        Expr::Div(l, r) => Untyped::Div(Box::new(erased(*l)), Box::new(erased(*r))),
        Expr::Val(x, _, v, b) => Untyped::Val(x, Box::new(erased(*v)), Box::new(erased(*b))),
        Expr::Id(x) => Untyped::Id(x),
        Expr::Fun(x, _, b) => Untyped::Fun(x, Box::new(erased(*b))),
        Expr::App(f, a) => Untyped::App(Box::new(erased(*f)), Box::new(erased(*a))),
    }
}

impl Expr {
    /// This expression without its type annotations.
    pub fn type_erase(&self) -> (r: Untyped)
        ensures
            r == erased(*self),
    {
        Expr::erase(self)
    }

    /// This expression written out; annotations are not shown.
    pub fn to_string(&self) -> (r: String)
        ensures
            r@ == expr_text(erased(*self)),
    {
        self.type_erase().to_string()
    }

    fn erase(expr: &Expr) -> (r: Untyped)
        ensures
            r == erased(*expr),
        decreases expr,
    {
        match expr {
            Expr::Num(n) => Untyped::Num(*n),
            Expr::Add(l, r) => Untyped::Add(Box::new(Expr::erase(l)), Box::new(Expr::erase(r))),
            Expr::Sub(l, r) => Untyped::Sub(Box::new(Expr::erase(l)), Box::new(Expr::erase(r))),
            Expr::Mul(l, r) => Untyped::Mul(Box::new(Expr::erase(l)), Box::new(Expr::erase(r))),
            Expr::Div(l, r) => Untyped::Div(Box::new(Expr::erase(l)), Box::new(Expr::erase(r))),
            Expr::Val(x, _, e, b) => Untyped::Val(
                x.clone(),
                Box::new(Expr::erase(e)),
                Box::new(Expr::erase(b)),
            ),
            Expr::Id(x) => Untyped::Id(x.clone()),
            Expr::Fun(p, _, b) => Untyped::Fun(p.clone(), Box::new(Expr::erase(b))),
            Expr::App(f, a) => Untyped::App(Box::new(Expr::erase(f)), Box::new(Expr::erase(a))),
        }
    }
}

} // verus!
