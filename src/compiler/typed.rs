use vstd::prelude::*;

verus! {

/// A whole program: its declarations in order.
#[derive(Debug)]
pub struct Program {
    pub declarations: Vec<Decl>,
}

#[derive(Debug)]
pub enum Decl {
    Struct(StructDecl),
    Function(FnDecl),
    MutVal(MutValDecl),
    Val(ValDecl),
    Expr(Expr),
}

pub type Ident = String;

/// Parameter
#[derive(Debug)]
pub struct Param {
    pub name: Ident,
}

/// Function signature
#[derive(Debug)]
pub struct FnSig {
    pub params: Vec<Param>,
}

#[derive(Debug)]
pub struct StructDecl {
    pub name: Ident,
    pub methods: Vec<FnDecl>,
}

#[derive(Debug)]
pub struct FnDecl {
    pub name: Ident,
    pub sig: FnSig,
    pub body: Box<Expr>,
}

#[derive(Debug)]
pub struct MutValDecl {
    pub name: Ident,
    pub initializer: Option<Expr>,
}

#[derive(Debug)]
pub struct ValDecl {
    pub name: Ident,
    pub initializer: Option<Expr>,
}

#[derive(Debug)]
pub struct Expr {
    pub kind: ExprKind,
}

#[derive(Debug)]
pub enum ExprKind {
    /// An array (e.g. `[a, b, c]`).
    Array(Vec<Expr>),
    /// A function call: the function, then the arguments.
    Call(Box<Expr>, Vec<Expr>),
    /// A binary operation (e.g., `a + b`, `a * b`).
    Binary(BinOp, Box<Expr>, Box<Expr>),
    /// A unary operation (e.g., `-x`, `!x`).
    Unary(UnOp, Box<Expr>),
    /// `if (expr) { block } else { block }`, the `else` being optional.
    If(Box<Expr>, Box<Block>, Option<Box<Block>>),
    /// `while expr { block }`
    While(Box<Expr>, Box<Block>),
    /// `for (x in range(10)) { block }`: the element, what is walked, the body.
    For(Ident, Box<Expr>, Box<Block>),
    /// A print to standard output.
    Print(Option<Box<Expr>>),
    /// A closure.
    Closure(Closure),
    /// A block (`{ ... }`).
    Block(Box<Block>),
    /// A break (`break "value"`).
    Break(Option<Box<Expr>>),
    /// A `return` (`return "value"`).
    Ret(Option<Box<Expr>>),
}

/// A block (`{ .. }`).
#[derive(Debug)]
pub struct Block {
    pub stmts: Vec<Decl>,
}

/// Binary operator.
#[derive(Debug, Clone, Copy, PartialEq, Eq, Structural)]
pub enum BinOp {
    /// `+`
    Add,
    /// `-`
    Sub,
    /// `*`
    Mul,
    /// `/`
    Div,
    /// `%`
    Rem,
    /// `&&`
    And,
    /// `||`
    Or,
    /// `==`
    Eq,
    /// `<`
    Lt,
    /// `<=`
    Le,
    /// `!=`
    Ne,
    /// `>=`
    Ge,
    /// `>`
    Gt,
}

/// Unary operator.
#[derive(Debug, Clone, Copy, PartialEq, Eq, Structural)]
pub enum UnOp {
    /// `!`, logical inversion
    Not,
    /// `-`, negation
    Neg,
}

#[derive(Debug)]
pub struct Closure {
    pub capture_args: Vec<Ident>,
    pub fn_sig: Box<FnSig>,
    pub body: Box<Expr>,
}

} // verus!
