use vstd::prelude::*;

verus! {

/// A type of the explicitly annotated language.
#[derive(Debug)]
pub enum Type {
    Num,
    Fun(Box<Type>, Box<Type>),
}

impl PartialEq for Type {
    /// Structural equality.
    fn eq(&self, other: &Type) -> (r: bool)
        decreases self,
    {
        match (self, other) {
            (Type::Num, Type::Num) => true,
            (Type::Fun(l1, r1), Type::Fun(l2, r2)) => {
                let a = (**l1).eq(&**l2);
                a && (**r1).eq(&**r2)
            },
            _ => false,
        }
    }
}

impl vstd::std_specs::cmp::PartialEqSpecImpl for Type {
    open spec fn obeys_eq_spec() -> bool {
        true
    }

    open spec fn eq_spec(&self, other: &Type) -> bool {
        *self == *other
    }
}

impl Eq for Type {

}

impl Type {
    /// A copy of this type.
    pub fn copy(&self) -> (r: Type)
        ensures
            r == *self,
        decreases self,
    {
        match self {
            Type::Num => Type::Num,
            Type::Fun(l, r) => Type::Fun(Box::new(l.copy()), Box::new(r.copy())),
        }
    }
}

/// An expression whose every binding carries its type.
#[derive(Debug, PartialEq, Eq)]
pub enum Expr {
    Num(isize),
    Add(Box<Expr>, Box<Expr>),
    Sub(Box<Expr>, Box<Expr>),
    Mul(Box<Expr>, Box<Expr>),
    Div(Box<Expr>, Box<Expr>),
    /// `Val(name, type, initializer, body)`
    Val(String, Type, Box<Expr>, Box<Expr>),
    Id(String),
    /// `Fun(parameter, parameter type, body)`
    Fun(String, Type, Box<Expr>),
    /// `App(callee, argument)`
    App(Box<Expr>, Box<Expr>),
}

/// Names with their types, looked up front to back.
pub type TEnv = Vec<(String, Type)>;

} // verus!
