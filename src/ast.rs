use vstd::prelude::*;
use crate::loc::{Annot, Loc};

verus! {

#[derive(Debug, Clone, Copy, PartialEq, Eq, Structural)]
pub enum UniOpKind {
    Plus,
    Minus,
}

/// A unary sign, with the span of the sign itself.
pub type UniOp = Annot<UniOpKind>;

impl UniOp {
    pub fn plus(loc: Loc) -> (r: Self)
        ensures
            r == (UniOp { value: UniOpKind::Plus, loc }),
    {
        Self::new(UniOpKind::Plus, loc)
    }

    pub fn minus(loc: Loc) -> (r: Self)
        ensures
            r == (UniOp { value: UniOpKind::Minus, loc }),
    {
        Self::new(UniOpKind::Minus, loc)
    }
}

#[derive(Debug, Clone, Copy, PartialEq, Eq, Structural)]
pub enum BinOpKind {
    Add,
    Sub,
    Mul,
    Div,
}

/// A binary operator, with the span of the operator itself.
pub type BinOp = Annot<BinOpKind>;

impl BinOp {
    pub fn add(loc: Loc) -> (r: Self)
        ensures
            r == (BinOp { value: BinOpKind::Add, loc }),
    {
        Self::new(BinOpKind::Add, loc)
    }

    pub fn sub(loc: Loc) -> (r: Self)
        ensures
            r == (BinOp { value: BinOpKind::Sub, loc }),
    {
        Self::new(BinOpKind::Sub, loc)
    }

    pub fn mul(loc: Loc) -> (r: Self)
        ensures
            r == (BinOp { value: BinOpKind::Mul, loc }),
    {
        Self::new(BinOpKind::Mul, loc)
    }

    pub fn div(loc: Loc) -> (r: Self)
        ensures
            r == (BinOp { value: BinOpKind::Div, loc }),
    {
        Self::new(BinOpKind::Div, loc)
    }
}

/// A node of the syntax tree; each node owns its children.
#[derive(Debug, PartialEq)]
pub enum AstKind {
    Num(u64),
    UniOp { op: UniOp, e: Box<Ast> },
    BinOp { op: BinOp, lhs: Box<Ast>, rhs: Box<Ast> },
    /// `var := body`
    Bind { var: String, body: Box<Ast> },
    /// A reference to a variable.
    Var(String),
}

pub type Ast = Annot<AstKind>;

/// The tree holds no binding.
pub open spec fn no_bind(a: Ast) -> bool
    decreases a,
{
    match a.value {
        AstKind::Num(_) => true,
        AstKind::UniOp { e, .. } => no_bind(*e),
        AstKind::BinOp { lhs, rhs, .. } => no_bind(*lhs) && no_bind(*rhs),
        AstKind::Bind { .. } => false,
        AstKind::Var(_) => true,
    }
}

/// The tree is a statement: an expression, or a binding of an expression, as
/// the parser builds them.
pub open spec fn is_stmt(a: Ast) -> bool {
    match a.value {
        AstKind::Bind { body, .. } => no_bind(*body),
        _ => no_bind(a),
    }
}

impl Ast {
    pub fn num(n: u64, loc: Loc) -> (r: Self)
        ensures
            r == (Ast { value: AstKind::Num(n), loc }),
    {
        Self::new(AstKind::Num(n), loc)
    }

    pub fn uniop(op: UniOp, e: Ast, loc: Loc) -> (r: Self)
        ensures
            r == (Ast { value: AstKind::UniOp { op, e: Box::new(e) }, loc }),
    {
        Self::new(AstKind::UniOp { op, e: Box::new(e) }, loc)
    }

    pub fn binop(op: BinOp, lhs: Ast, rhs: Ast, loc: Loc) -> (r: Self)
        ensures
            r == (Ast { value: AstKind::BinOp { op, lhs: Box::new(lhs), rhs: Box::new(rhs) }, loc }),
    {
        Self::new(AstKind::BinOp { op, lhs: Box::new(lhs), rhs: Box::new(rhs) }, loc)
    }

    pub fn bind(var: String, body: Box<Ast>, loc: Loc) -> (r: Self)
        ensures
            r == (Ast { value: AstKind::Bind { var, body }, loc }),
    {
        Self::new(AstKind::Bind { var, body }, loc)
    }

    pub fn var(name: String, loc: Loc) -> (r: Self)
        ensures
            r == (Ast { value: AstKind::Var(name), loc }),
    {
        Self::new(AstKind::Var(name), loc)
    }
}

} // verus!
