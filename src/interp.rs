use vstd::prelude::*;
use crate::ast::{is_stmt, no_bind, Ast, AstKind, BinOp, BinOpKind, UniOp, UniOpKind};
use crate::loc::{Annot, Loc};
use vstd::string::StringExecFns;
use crate::text::{decimal, push_char, push_decimal};

verus! {

/// What a statement yields: an integer, or nothing for a binding.
#[derive(Debug, Clone, Copy, PartialEq, Eq, Structural)]
pub enum Value {
    Int(i64),
    Void,
}

/// How a value is printed: an integer in decimal, with a `-` when it is
/// negative; nothing for `Void`.
pub open spec fn value_text(v: Value) -> Seq<char> {
    match v {
        Value::Int(n) => if n < 0 {
            seq!['-'] + decimal((-n) as nat)
        } else {
            decimal(n as nat)
        },
        Value::Void => Seq::empty(),
    }
}

impl Value {
    pub fn render(&self) -> (r: String)
        ensures
            r@ == value_text(*self),
    {
        let mut out = String::new();
        match self {
            Value::Int(n) => {
                if *n < 0 {
                    push_char(&mut out, '-');
                    let magnitude = (-(*n as i128)) as u64;
                    push_decimal(&mut out, magnitude);
                } else {
                    push_decimal(&mut out, *n as u64);
                }
            },
            Value::Void => {},
        }
        assert(out@ =~= value_text(*self));
        out
    }
}

#[derive(Debug, Clone, PartialEq, Eq, Hash)]
pub enum InterpreterErrorKind {
    /// The right operand of a division is zero.
    DivisionByZero,
    /// The variable has no value.
    UnboundVariable(String),
}

pub type InterpreterError = Annot<InterpreterErrorKind>;

/// The message of an interpreter error.
pub open spec fn interpreter_error_text(e: InterpreterError) -> Seq<char> {
    match e.value {
        InterpreterErrorKind::DivisionByZero => "division by zero"@,
        InterpreterErrorKind::UnboundVariable(v) => "variable "@ + v@ + " is not bound"@,
    }
}

impl InterpreterError {
    /// The message of the error.
    pub fn message(&self) -> (r: String)
        ensures
            r@ == interpreter_error_text(*self),
    {
        match &self.value {
            InterpreterErrorKind::DivisionByZero => String::from_str("division by zero"),
            InterpreterErrorKind::UnboundVariable(v) => {
                let mut out = String::from_str("variable ");
                out.append(v.as_str());
                out.append(" is not bound");
                out
            },
        }
    }

    /// A longer account of what went wrong, the same for every error of a kind.
    pub fn description(&self) -> (r: &'static str)
        ensures
            self.value is DivisionByZero ==> r@ == "the right hand expression of the division evaluates to zero"@,
            self.value is UnboundVariable ==> r@ == "variable is not bound"@,
    {
        match &self.value {
            InterpreterErrorKind::DivisionByZero => "the right hand expression of the division evaluates to zero",
            InterpreterErrorKind::UnboundVariable(_) => "variable is not bound",
        }
    }
}

/// A literal read as a signed 64-bit integer, wrapping around.
pub open spec fn literal_int(n: u64) -> i64 {
    if n <= i64::MAX {
        n as i64
    } else {
        (n - 0x1_0000_0000_0000_0000) as i64
    }
}

/// Integer division rounding toward zero (`/` here divides Euclid's way,
/// which for a nonnegative dividend rounds toward zero too).
pub open spec fn quotient(a: int, b: int) -> int {
    if a >= 0 {
        a / b
    } else {
        -((-a) / b)
    }
}

proof fn lemma_quotient_bounds(a: int, b: int)
    requires
        b != 0,
        b != -1,
        i64::MIN <= a <= i64::MAX,
    ensures
        i64::MIN <= quotient(a, b) <= i64::MAX,
{
    let n = if a >= 0 { a } else { -a };
    if b > 0 {
        vstd::arithmetic::div_mod::lemma_div_pos_is_pos(n, b);
        vstd::arithmetic::div_mod::lemma_div_is_ordered_by_denominator(n, 1, b);
        assert(n / 1 == n);
    } else {
        let q = n / b;
        let r = n % b;
        vstd::arithmetic::div_mod::lemma_fundamental_div_mod(n, b);
        assert(0 <= r < -b);
        assert(-n <= q <= 0 && -2 * q <= n) by (nonlinear_arith)
            requires
                n == b * q + r,
                0 <= r < -b,
                b < -1,
                n >= 0,
        ;
    }
}

/// `a / b` on 64-bit integers, with the one overflowing case wrapping around.
pub open spec fn wrapping_quotient(a: i64, b: i64) -> i64 {
    if b == -1 {
        0i64.wrapping_sub(a)
    } else {
        quotient(a as int, b as int) as i64
    }
}

pub open spec fn apply_uniop(op: UniOpKind, n: i64) -> i64 {
    match op {
        UniOpKind::Plus => n,
        UniOpKind::Minus => 0i64.wrapping_sub(n),
    }
}

/// A binary operation on 64-bit integers; `None` for a division by zero.
pub open spec fn apply_binop(op: BinOpKind, l: i64, r: i64) -> Option<i64> {
    match op {
        BinOpKind::Add => Some(l.wrapping_add(r)),
        BinOpKind::Sub => Some(l.wrapping_sub(r)),
        BinOpKind::Mul => Some(l.wrapping_mul(r)),
        BinOpKind::Div => if r == 0 {
            None
        } else {
            Some(wrapping_quotient(l, r))
        },
    }
}

/// The value of an expression without bindings under `env`, or the first
/// error met, the left operand before the right.
pub open spec fn value_of(a: Ast, env: Map<Seq<char>, i64>) -> Result<i64, InterpreterError>
    decreases a,
{
    match a.value {
        AstKind::Num(n) => Ok(literal_int(n)),
        AstKind::UniOp { op, e } => match value_of(*e, env) {
            Ok(n) => Ok(apply_uniop(op.value, n)),
            Err(err) => Err(err),
        },
        AstKind::BinOp { op, lhs, rhs } => match value_of(*lhs, env) {
            Ok(l) => match value_of(*rhs, env) {
                Ok(r) => match apply_binop(op.value, l, r) {
                    Some(n) => Ok(n),
                    None => Err(Annot { value: InterpreterErrorKind::DivisionByZero, loc: a.loc }),
                },
                Err(err) => Err(err),
            },
            Err(err) => Err(err),
        },
        AstKind::Var(name) => if env.contains_key(name@) {
            Ok(env[name@])
        } else {
            Err(Annot { value: InterpreterErrorKind::UnboundVariable(name), loc: a.loc })
        },
        AstKind::Bind { .. } => Ok(0),
    }
}

/// What a statement yields under `env`, and the bindings after it: a
/// binding stores its body's value and yields `Void`; an expression yields
/// its value and leaves the bindings as they are.
pub open spec fn run(a: Ast, env: Map<Seq<char>, i64>) -> (Result<Value, InterpreterError>, Map<Seq<char>, i64>) {
    match a.value {
        AstKind::Bind { var, body } => match value_of(*body, env) {
            Ok(n) => (Ok(Value::Void), env.insert(var@, n)),
            Err(err) => (Err(err), env),
        },
        _ => match value_of(a, env) {
            Ok(n) => (Ok(Value::Int(n)), env),
            Err(err) => (Err(err), env),
        },
    }
}

/// Reads a literal as a signed 64-bit integer, wrapping around.
fn literal_to_int(n: u64) -> (r: i64)
    ensures
        r == literal_int(n),
{
    if n <= i64::MAX as u64 {
        n as i64
    } else {
        ((n - 0x8000_0000_0000_0000u64) as i64) + i64::MIN
    }
}

/// A binding that succeeds leaves its name bound to the value of its body:
/// reading the name afterwards gives that value.
pub proof fn lemma_bind_then_read(a: Ast, env: Map<Seq<char>, i64>, r: Ast)
    requires
        a.value is Bind,
        run(a, env).0 is Ok,
        r.value is Var,
        r.value->Var_0@ == a.value->var@,
    ensures
        value_of(r, run(a, env).1) == value_of(*a.value->body, env),
{
}

/// The bindings of a session: each name at most once, each with the
/// integer it was last bound to.
pub struct Interpreter {
    bindings: Vec<(String, i64)>,
    env: Ghost<Map<Seq<char>, i64>>,
}

impl Interpreter {
    /// The names bound so far, each with its value.
    pub closed spec fn env(&self) -> Map<Seq<char>, i64> {
        self.env@
    }

    pub closed spec fn wf(&self) -> bool {
        let bs = self.bindings@;
        &&& forall|i: int, j: int|
            0 <= i < j < bs.len() ==> (#[trigger] bs[i]).0@ != (#[trigger] bs[j]).0@
        &&& forall|i: int|
            0 <= i < bs.len() ==> self.env@.contains_key((#[trigger] bs[i]).0@) && self.env@[bs[i].0@]
                == bs[i].1
        &&& forall|k: Seq<char>|
            #[trigger] self.env@.contains_key(k) ==> exists|i: int| 0 <= i < bs.len() && (#[trigger] bs[i]).0@ == k
    }

    /// A session with no bindings.
    pub fn new() -> (r: Self)
        ensures
            r.wf(),
            r.env() == Map::<Seq<char>, i64>::empty(),
    {
        Interpreter { bindings: Vec::new(), env: Ghost(Map::empty()) }
    }

    /// Evaluates a statement: a binding stores the value of its body under
    /// its name, overwriting an earlier value, and yields `Void`; an
    /// expression yields its value.
    pub fn eval(&mut self, expr: &Ast) -> (r: Result<Value, InterpreterError>)
        requires
            old(self).wf(),
            is_stmt(*expr),
        ensures
            final(self).wf(),
            (r, final(self).env()) == run(*expr, old(self).env()),
    {
        match &expr.value {
            AstKind::Bind { var, body } => {
                let n = match self.eval_expr(body) {
                    Ok(n) => n,
                    Err(err) => return Err(err),
                };
                self.assign(var.clone(), n);
                Ok(Value::Void)
            },
            _ => match self.eval_expr(expr) {
                Ok(n) => Ok(Value::Int(n)),
                Err(err) => Err(err),
            },
        }
    }

    fn eval_expr(&self, expr: &Ast) -> (r: Result<i64, InterpreterError>)
        requires
            self.wf(),
            no_bind(*expr),
        ensures
            r == value_of(*expr, self.env()),
        decreases expr,
    {
        match &expr.value {
            AstKind::Num(n) => Ok(literal_to_int(*n)),
            AstKind::UniOp { op, e } => {
                let n = match self.eval_expr(e) {
                    Ok(n) => n,
                    Err(err) => return Err(err),
                };
                Ok(self.eval_uniop(op, n))
            },
            AstKind::BinOp { op, lhs, rhs } => {
                let l = match self.eval_expr(lhs) {
                    Ok(n) => n,
                    Err(err) => return Err(err),
                };
                let r = match self.eval_expr(rhs) {
                    Ok(n) => n,
                    Err(err) => return Err(err),
                };
                match self.eval_binop(op, l, r) {
                    Ok(n) => Ok(n),
                    Err(kind) => Err(InterpreterError::new(kind, expr.loc)),
                }
            },
            AstKind::Var(name) => match self.lookup(name) {
                Some(n) => Ok(n),
                None => Err(InterpreterError::new(InterpreterErrorKind::UnboundVariable(name.clone()), expr.loc)),
            },
            AstKind::Bind { .. } => Ok(0),
        }
    }

    fn eval_uniop(&self, op: &UniOp, n: i64) -> (r: i64)
        ensures
            r == apply_uniop(op.value, n),
    {
        match op.value {
            UniOpKind::Plus => n,
            UniOpKind::Minus => 0i64.wrapping_sub(n),
        }
    }

    fn eval_binop(&self, op: &BinOp, lhs: i64, rhs: i64) -> (r: Result<i64, InterpreterErrorKind>)
        ensures
            r == (match apply_binop(op.value, lhs, rhs) {
                Some(n) => Ok::<i64, InterpreterErrorKind>(n),
                None => Err(InterpreterErrorKind::DivisionByZero),
            }),
    {
        match op.value {
            BinOpKind::Add => Ok(lhs.wrapping_add(rhs)),
            BinOpKind::Sub => Ok(lhs.wrapping_sub(rhs)),
            BinOpKind::Mul => Ok(lhs.wrapping_mul(rhs)),
            BinOpKind::Div => if rhs == 0 {
                Err(InterpreterErrorKind::DivisionByZero)
            } else if rhs == -1 {
                Ok(0i64.wrapping_sub(lhs))
            } else {
                let q = lhs / rhs;
                proof {
                    lemma_quotient_bounds(lhs as int, rhs as int);
                }
                assert(q == quotient(lhs as int, rhs as int));
                Ok(q)
            },
        }
    }

    fn lookup(&self, name: &String) -> (r: Option<i64>)
        requires
            self.wf(),
        ensures
            r == (if self.env().contains_key(name@) {
                Some(self.env()[name@])
            } else {
                None
            }),
    {
        let mut i: usize = 0;
        while i < self.bindings.len()
            invariant
                self.wf(),
                i <= self.bindings.len(),
                forall|j: int| 0 <= j < i ==> (#[trigger] self.bindings@[j]).0@ != name@,
            decreases self.bindings.len() - i,
        {
            if self.bindings[i].0 == *name {
                return Some(self.bindings[i].1);
            }
            i = i + 1;
        }
        None
    }

    fn assign(&mut self, name: String, v: i64)
        requires
            old(self).wf(),
        ensures
            final(self).wf(),
            final(self).env() == old(self).env().insert(name@, v),
    {
        let ghost target = self.env@.insert(name@, v);
        let ghost bs0 = self.bindings@;
        let mut i: usize = 0;
        while i < self.bindings.len()
            invariant
                self.wf(),
                self.env@ == old(self).env@,
                self.bindings@ == bs0,
                target == old(self).env@.insert(name@, v),
                i <= self.bindings.len(),
                forall|j: int| 0 <= j < i ==> (#[trigger] self.bindings@[j]).0@ != name@,
            decreases self.bindings.len() - i,
        {
            if self.bindings[i].0 == name {
                let ghost key = name@;
                self.bindings.set(i, (name, v));
                self.env = Ghost(target);
                proof {
                    let bs = self.bindings@;
                    assert(bs == bs0.update(i as int, bs[i as int]));
                    assert forall|k: Seq<char>| #[trigger] target.contains_key(k) implies exists|j: int|
                        0 <= j < bs.len() && (#[trigger] bs[j]).0@ == k by {
                        if k == key {
                            assert(bs[i as int].0@ == k);
                        } else {
                            let j = choose|j: int| 0 <= j < bs0.len() && (#[trigger] bs0[j]).0@ == k;
                            assert(bs[j].0@ == k);
                        }
                    }
                }
                return;
            }
            i = i + 1;
        }
        let ghost key = name@;
        self.bindings.push((name, v));
        self.env = Ghost(target);
        proof {
            let bs = self.bindings@;
            assert(bs[bs0.len() as int].0@ == key);
            assert forall|k: Seq<char>| #[trigger] target.contains_key(k) implies exists|j: int|
                0 <= j < bs.len() && (#[trigger] bs[j]).0@ == k by {
                if k == key {
                    assert(bs[bs0.len() as int].0@ == k);
                } else {
                    let j = choose|j: int| 0 <= j < bs0.len() && (#[trigger] bs0[j]).0@ == k;
                    assert(bs[j].0@ == k);
                }
            }
        }
    }
}

} // verus!
