use vstd::prelude::*;
use vstd::string::StringExecFns;

verus! {

/// An expression with its type annotations taken away, as the evaluator runs it.
#[derive(Debug, PartialEq, Eq)]
pub enum Expr {
    Num(isize),
    Add(Box<Expr>, Box<Expr>),
    Sub(Box<Expr>, Box<Expr>),
    Mul(Box<Expr>, Box<Expr>),
    Div(Box<Expr>, Box<Expr>),
    /// `Val(name, initializer, body)`
    Val(String, Box<Expr>, Box<Expr>),
    Id(String),
    /// `Fun(parameter, body)`
    Fun(String, Box<Expr>),
    /// `App(callee, argument)`
    App(Box<Expr>, Box<Expr>),
}

/// The evaluation environment: names with their values, looked up front to back.
pub type Env = Vec<(String, Value)>;

/// What an expression evaluates to.
#[derive(Debug, PartialEq, Eq)]
pub enum Value {
    Num(isize),
    /// `Closure(parameter, body, captured environment)`
    Closure(String, Expr, Env),
}

/// The decimal digit `d` as text.
pub open spec fn digit_text(d: int) -> Seq<char> {
    if d == 0 {
        "0"@
    } else if d == 1 {
        "1"@
    } else if d == 2 {
        "2"@
    } else if d == 3 {
        "3"@
    } else if d == 4 {
        "4"@
    } else if d == 5 {
        "5"@
    } else if d == 6 {
        "6"@
    } else if d == 7 {
        "7"@
    } else if d == 8 {
        "8"@
    } else {
        "9"@
    }
}

/// The decimal digits of `n`, most significant first, without leading zeros.
pub open spec fn nat_text(n: nat) -> Seq<char>
    decreases n,
{
    if n < 10 {
        digit_text(n as int)
    } else {
        nat_text(n / 10) + digit_text((n % 10) as int)
    }
}

/// `n` in decimal, with a leading `-` when negative.
pub open spec fn int_text(n: int) -> Seq<char> {
    if n < 0 {
        "-"@ + nat_text((-n) as nat)
    } else {
        nat_text(n as nat)
    }
}

fn digit_string(d: u128) -> (r: String)
    requires
        d < 10,
    ensures
        r@ == digit_text(d as int),
{
    if d == 0 {
        String::from_str("0")
    } else if d == 1 {
        String::from_str("1")
    } else if d == 2 {
        String::from_str("2")
    } else if d == 3 {
        String::from_str("3")
    } else if d == 4 {
        String::from_str("4")
    } else if d == 5 {
        String::from_str("5")
    } else if d == 6 {
        String::from_str("6")
    } else if d == 7 {
        String::from_str("7")
    } else if d == 8 {
        String::from_str("8")
    } else {
        String::from_str("9")
    }
}

fn nat_string(n: u128) -> (r: String)
    ensures
        r@ == nat_text(n as nat),
    decreases n,
{
    if n < 10 {
        digit_string(n)
    } else {
        let mut s = nat_string(n / 10);
        let d = digit_string(n % 10);
        s.append(d.as_str());
        s
    }
}

/// `n` in decimal.
pub fn int_string(n: isize) -> (r: String)
    ensures
        r@ == int_text(n as int),
{
    if n < 0 {
        let m = (-(n as i128)) as u128;
        let mut s = String::from_str("-");
        let digits = nat_string(m);
        s.append(digits.as_str());
        s
    } else {
        nat_string(n as u128)
    }
}

impl Expr {
    /// A copy of this expression.
    pub fn copy(&self) -> (r: Expr)
        ensures
            r == *self,
        decreases self,
    {
        match self {
            Expr::Num(n) => Expr::Num(*n),
            Expr::Add(l, r) => Expr::Add(Box::new(l.copy()), Box::new(r.copy())),
            Expr::Sub(l, r) => Expr::Sub(Box::new(l.copy()), Box::new(r.copy())),
            Expr::Mul(l, r) => Expr::Mul(Box::new(l.copy()), Box::new(r.copy())),
            Expr::Div(l, r) => Expr::Div(Box::new(l.copy()), Box::new(r.copy())),
            Expr::Val(x, e, b) => Expr::Val(x.clone(), Box::new(e.copy()), Box::new(b.copy())),
            Expr::Id(x) => Expr::Id(x.clone()),
            Expr::Fun(x, b) => Expr::Fun(x.clone(), Box::new(b.copy())),
            Expr::App(f, a) => Expr::App(Box::new(f.copy()), Box::new(a.copy())),
        }
    }
}

/// `head(a, b)`
pub open spec fn call2_text(head: Seq<char>, a: Seq<char>, b: Seq<char>) -> Seq<char> {
    head + "("@ + a + ", "@ + b + ")"@
}

/// `"x"`: a name in double quotes.
pub open spec fn quoted(x: Seq<char>) -> Seq<char> {
    "\""@ + x + "\""@
}

/// How an expression is written: `Num(1)`, `Add(Num(1), Id("x"))`,
/// `Fun("x", Id("x"))`, `Val("x", Num(1), Id("x"))`.
pub open spec fn expr_text(e: Expr) -> Seq<char>
    decreases e,
{
    match e {
        Expr::Num(n) => "Num("@ + int_text(n as int) + ")"@,
        Expr::Add(l, r) => call2_text("Add"@, expr_text(*l), expr_text(*r)),
        Expr::Sub(l, r) => call2_text("Sub"@, expr_text(*l), expr_text(*r)),
        Expr::Mul(l, r) => call2_text("Mul"@, expr_text(*l), expr_text(*r)),
        Expr::Div(l, r) => call2_text("Div"@, expr_text(*l), expr_text(*r)),
        Expr::App(l, r) => call2_text("App"@, expr_text(*l), expr_text(*r)),
        Expr::Val(x, v, b) => "Val("@ + quoted(x@) + ", "@ + expr_text(*v) + ", "@ + expr_text(*b)
            + ")"@,
        Expr::Id(x) => "Id("@ + quoted(x@) + ")"@,
        Expr::Fun(x, b) => call2_text("Fun"@, quoted(x@), expr_text(*b)),
    }
}

fn call2_string(head: &str, a: String, b: String) -> (r: String)
    ensures
        r@ == call2_text(head@, a@, b@),
{
    let mut s = String::from_str(head);
    s.append("(");
    s.append(a.as_str());
    s.append(", ");
    s.append(b.as_str());
    s.append(")");
    s
}

fn quoted_string(x: &String) -> (r: String)
    ensures
        r@ == quoted(x@),
{
    let mut s = String::from_str("\"");
    s.append(x.as_str());
    s.append("\"");
    s
}

impl Expr {
    /// This expression written out.
    pub fn to_string(&self) -> (r: String)
        ensures
            r@ == expr_text(*self),
        decreases self,
    {
        match self {
            Expr::Num(n) => {
                let mut s = String::from_str("Num(");
                s.append(int_string(*n).as_str());
                s.append(")");
                s
            },
            Expr::Add(l, r) => call2_string("Add", l.to_string(), r.to_string()),
            Expr::Sub(l, r) => call2_string("Sub", l.to_string(), r.to_string()),
            Expr::Mul(l, r) => call2_string("Mul", l.to_string(), r.to_string()),
            Expr::Div(l, r) => call2_string("Div", l.to_string(), r.to_string()),
            Expr::App(l, r) => call2_string("App", l.to_string(), r.to_string()),
            Expr::Val(x, v, b) => {
                let mut s = String::from_str("Val(");
                s.append(quoted_string(x).as_str());
                s.append(", ");
                s.append(v.to_string().as_str());
                s.append(", ");
                s.append(b.to_string().as_str());
                s.append(")");
                s
            },
            Expr::Id(x) => {
                let mut s = String::from_str("Id(");
                s.append(quoted_string(x).as_str());
                s.append(")");
                s
            },
            Expr::Fun(x, b) => call2_string("Fun", quoted_string(x), b.to_string()),
        }
    }
}

/// How a value is written in debug form: `Num(1)`, or
/// `Closure("x", body, [("y", Num(2))])`.
pub open spec fn value_debug(v: Value) -> Seq<char>
    decreases v, 0nat,
{
    match v {
        Value::Num(n) => "Num("@ + int_text(n as int) + ")"@,
        Value::Closure(p, b, env) => "Closure("@ + quoted(p@) + ", "@ + expr_text(b) + ", "@
            + env_debug(env, env.len() as nat) + ")"@,
    }
}

/// The first `n` entries of `env` in debug form: `[("x", Num(1)), ...]`.
pub open spec fn env_debug(env: Env, n: nat) -> Seq<char>
    decreases env, n + 1,
{
    "["@ + env_entries_debug(env, n) + "]"@
}

pub open spec fn env_entries_debug(env: Env, n: nat) -> Seq<char>
    decreases env, n,
{
    if n == 0 || n > env.len() {
        Seq::empty()
    } else {
        proof {
            vstd::std_specs::vec::axiom_vec_index_decreases(env, n - 1);
        }
        let entry = "("@ + quoted(env[n - 1].0@) + ", "@ + value_debug(env[n - 1].1) + ")"@;
        if n == 1 {
            entry
        } else {
            env_entries_debug(env, (n - 1) as nat) + ", "@ + entry
        }
    }
}

/// How a value is shown: a number in decimal, a closure as
/// `Closure(x, body, [captured entries])`.
pub open spec fn value_text(v: Value) -> Seq<char> {
    match v {
        Value::Num(n) => int_text(n as int),
        Value::Closure(p, b, env) => "Closure("@ + p@ + ", "@ + expr_text(b) + ", "@ + env_debug(
            env,
            env.len() as nat,
        ) + ")"@,
    }
}

impl Value {
    /// This value in debug form.
    pub fn debug_string(&self) -> (r: String)
        ensures
            r@ == value_debug(*self),
        decreases self, 0nat,
    {
        match self {
            Value::Num(n) => {
                let mut s = String::from_str("Num(");
                s.append(int_string(*n).as_str());
                s.append(")");
                s
            },
            Value::Closure(p, b, env) => {
                let mut s = String::from_str("Closure(");
                s.append(quoted_string(p).as_str());
                s.append(", ");
                s.append(b.to_string().as_str());
                s.append(", ");
                s.append(env_string(env).as_str());
                s.append(")");
                s
            },
        }
    }

    /// This value as shown to a user.
    pub fn to_string(&self) -> (r: String)
        ensures
            r@ == value_text(*self),
    {
        match self {
            Value::Num(n) => int_string(*n),
            Value::Closure(p, b, env) => {
                let mut s = String::from_str("Closure(");
                s.append(p.as_str());
                s.append(", ");
                s.append(b.to_string().as_str());
                s.append(", ");
                s.append(env_string(env).as_str());
                s.append(")");
                s
            },
        }
    }
}

fn env_string(env: &Env) -> (r: String)
    ensures
        r@ == env_debug(*env, env.len() as nat),
    decreases env, 1nat,
{
    let mut s = String::new();
    let mut i: usize = 0;
    while i < env.len()
        invariant
            i <= env.len(),
            s@ == env_entries_debug(*env, i as nat),
        decreases env.len() - i,
    {
        proof {
            vstd::std_specs::vec::axiom_vec_index_decreases(*env, i as int);
        }
        if i > 0 {
            s.append(", ");
        }
        s.append("(");
        s.append(quoted_string(&env[i].0).as_str());
        s.append(", ");
        s.append(env[i].1.debug_string().as_str());
        s.append(")");
        i = i + 1;
    }
    let mut r = String::from_str("[");
    r.append(s.as_str());
    r.append("]");
    r
}

/// What a value is, mathematically: a number, or a closure with its
/// parameter, body and captured environment as a sequence.
pub ghost enum SValue {
    Num(isize),
    Closure(Seq<char>, Expr, Seq<(Seq<char>, SValue)>),
}

/// The mathematical form of a value.
pub open spec fn value_view(v: Value) -> SValue
    decreases v,
{
    match v {
        Value::Num(n) => SValue::Num(n),
        Value::Closure(p, b, env) => {
            proof {
                vstd::std_specs::vec::axiom_vec_decreases_to_view(env);
            }
            SValue::Closure(p@, b, env_view(env@))
        },
    }
}

/// The mathematical form of an environment.
pub open spec fn env_view(s: Seq<(String, Value)>) -> Seq<(Seq<char>, SValue)>
    decreases s,
{
    if s.len() == 0 {
        Seq::empty()
    } else {
        proof {
            vstd::seq::axiom_seq_index_decreases(s, s.len() - 1);
            vstd::seq::axiom_seq_subrange_decreases(s, 0, s.len() - 1);
        }
        env_view(s.drop_last()).push((s.last().0@, value_view(s.last().1)))
    }
}

pub proof fn lemma_env_view_push(s: Seq<(String, Value)>, p: (String, Value))
    ensures
        env_view(s.push(p)) == env_view(s).push((p.0@, value_view(p.1))),
{
    assert(s.push(p).drop_last() =~= s);
}

pub proof fn lemma_env_view_index(s: Seq<(String, Value)>, i: int)
    requires
        0 <= i < s.len(),
    ensures
        env_view(s).len() == s.len(),
        env_view(s)[i] == (s[i].0@, value_view(s[i].1)),
    decreases s.len(),
{
    if i < s.len() - 1 {
        lemma_env_view_index(s.drop_last(), i);
    } else {
        lemma_env_view_len(s.drop_last());
    }
}

pub proof fn lemma_env_view_len(s: Seq<(String, Value)>)
    ensures
        env_view(s).len() == s.len(),
    decreases s.len(),
{
    if s.len() > 0 {
        lemma_env_view_len(s.drop_last());
    }
}

impl Value {
    /// A copy of this value.
    pub fn copy(&self) -> (r: Value)
        ensures
            value_view(r) == value_view(*self),
            self is Num ==> r == *self,
        decreases self, 0nat,
    {
        match self {
            Value::Num(n) => Value::Num(*n),
            Value::Closure(p, b, env) => Value::Closure(p.clone(), b.copy(), copy_env(env)),
        }
    }
}

/// A copy of an environment.
pub fn copy_env(env: &Env) -> (r: Env)
    ensures
        env_view(r@) == env_view(env@),
    decreases env, 1nat,
{
    let mut out: Env = Vec::new();
    let mut i: usize = 0;
    assert(env@.subrange(0, 0) =~= Seq::empty());
    assert(out@ =~= Seq::empty());
    while i < env.len()
        invariant
            i <= env.len(),
            env_view(out@) == env_view(env@.subrange(0, i as int)),
        decreases env.len() - i,
    {
        proof {
            vstd::std_specs::vec::axiom_vec_index_decreases(*env, i as int);
        }
        let item = (env[i].0.clone(), env[i].1.copy());
        proof {
            lemma_env_view_push(out@, item);
            let sub = env@.subrange(0, i as int + 1);
            assert(sub.drop_last() =~= env@.subrange(0, i as int));
        }
        out.push(item);
        i = i + 1;
    }
    assert(env@.subrange(0, env@.len() as int) =~= env@);
    out
}

} // verus!
