//! The syntax model: expression and statement trees built by the parser and
//! walked by the interpreter, plus the literal value domain, all pure data.
use crate::number::{Decimal, MAG_LIMIT};
use crate::token::{Token, TokenV};
use vstd::prelude::*;

verus! {

/// The abstract value domain: what a literal or a runtime value denotes.
/// Numbers appear as their scaled integer value (units of 10^-12), text as
/// its character sequence.
pub ghost enum ValV {
    Num(int),
    Str(Seq<char>),
    Bool(bool),
    Nil,
}

/// A number value lies strictly within the representable range.
pub open spec fn val_wf(v: ValV) -> bool {
    match v {
        ValV::Num(n) => -(MAG_LIMIT as int) < n < MAG_LIMIT as int,
        _ => true,
    }
}

/// A literal value: the payload of a number or string token, and also the
/// runtime value an expression evaluates to.
#[derive(Debug, PartialEq)]
pub enum Literal {
    Number(Decimal),
    Str(String),
    Bool(bool),
    Nil,
}

impl Clone for Literal {
    /// Clones preserve the value exactly.
    fn clone(&self) -> (r: Literal)
        ensures
            r == *self,
    {
        match self {
            Literal::Number(d) => Literal::Number(*d),
            Literal::Str(s) => Literal::Str(s.clone()),
            Literal::Bool(b) => Literal::Bool(*b),
            Literal::Nil => Literal::Nil,
        }
    }
}

impl View for Literal {
    type V = ValV;

    open spec fn view(&self) -> ValV {
        match self {
            Literal::Number(d) => ValV::Num(d.to_int()),
            Literal::Str(s) => ValV::Str(s@),
            Literal::Bool(b) => ValV::Bool(*b),
            Literal::Nil => ValV::Nil,
        }
    }
}

/// A literal's number representation satisfies its invariant, and its
/// abstract value is well formed.
pub open spec fn lit_wf(l: Literal) -> bool {
    &&& val_wf(l@)
    &&& (l matches Literal::Number(d) ==> d.inv())
}

/// The expression variants: a closed set; composite variants exclusively own
/// their children, so the structures are trees.
#[derive(Debug)]
pub enum Expr {
    Binary(Binary),
    Grouping(Grouping),
    Literal(Literal),
    Unary(Unary),
    Varibale(Varibale),
}

#[derive(Debug)]
pub struct Binary {
    pub left: Box<Expr>,
    pub operator: Token,
    pub right: Box<Expr>,
}

#[derive(Debug)]
pub struct Grouping {
    pub expression: Box<Expr>,
}

#[derive(Debug)]
pub struct Unary {
    pub operator: Token,
    pub right: Box<Expr>,
}

/// A reference to a variable by name.
#[derive(Debug)]
pub struct Varibale {
    pub name: Token,
}

/// The statement variants: printing an expression's value, evaluating a bare
/// expression for its effect, declaring a variable, and the no-op
/// placeholder the parser leaves behind when a declaration fails to parse
/// and is recovered.
#[derive(Debug)]
pub enum Stmt {
    Print(Expr),
    Expression(Expr),
    Var(VarStmt),
    Nop,
}

#[derive(Debug)]
pub struct VarStmt {
    pub name: Token,
    pub initializer: Expr,
}

/// The mathematical shadow of an expression tree.
pub ghost enum ExprV {
    Binary { operator: TokenV, left: Box<ExprV>, right: Box<ExprV> },
    Grouping(Box<ExprV>),
    Literal(ValV),
    Unary { operator: TokenV, right: Box<ExprV> },
    Varibale(TokenV),
}

/// The mathematical shadow of a statement tree.
pub ghost enum StmtV {
    Print(ExprV),
    Expression(ExprV),
    Var { name: TokenV, initializer: ExprV },
    Nop,
}

pub open spec fn expr_v(e: Expr) -> ExprV
    decreases e,
{
    match e {
        Expr::Binary(b) => ExprV::Binary {
            operator: b.operator@,
            left: Box::new(expr_v(*b.left)),
            right: Box::new(expr_v(*b.right)),
        },
        Expr::Grouping(g) => ExprV::Grouping(Box::new(expr_v(*g.expression))),
        Expr::Literal(l) => ExprV::Literal(l@),
        Expr::Unary(u) => ExprV::Unary { operator: u.operator@, right: Box::new(expr_v(*u.right)) },
        Expr::Varibale(v) => ExprV::Varibale(v.name@),
    }
}

pub open spec fn stmt_v(s: Stmt) -> StmtV {
    match s {
        Stmt::Print(e) => StmtV::Print(expr_v(e)),
        Stmt::Expression(e) => StmtV::Expression(expr_v(e)),
        Stmt::Var(v) => StmtV::Var { name: v.name@, initializer: expr_v(v.initializer) },
        Stmt::Nop => StmtV::Nop,
    }
}

/// Every literal in the tree is well formed.
pub open spec fn expr_wf(e: Expr) -> bool
    decreases e,
{
    match e {
        Expr::Binary(b) => expr_wf(*b.left) && expr_wf(*b.right),
        Expr::Grouping(g) => expr_wf(*g.expression),
        Expr::Literal(l) => lit_wf(l),
        Expr::Unary(u) => expr_wf(*u.right),
        Expr::Varibale(_) => true,
    }
}

pub open spec fn stmt_wf(s: Stmt) -> bool {
    match s {
        Stmt::Print(e) => expr_wf(e),
        Stmt::Expression(e) => expr_wf(e),
        Stmt::Var(v) => expr_wf(v.initializer),
        Stmt::Nop => true,
    }
}

impl Expr {
    pub fn new_binary(left: Expr, operator: Token, right: Expr) -> (r: Expr)
        ensures
            expr_v(r) == (ExprV::Binary {
                operator: operator@,
                left: Box::new(expr_v(left)),
                right: Box::new(expr_v(right)),
            }),
            expr_wf(r) <==> expr_wf(left) && expr_wf(right),
    {
        Expr::Binary(Binary { left: Box::new(left), operator, right: Box::new(right) })
    }

    pub fn new_grouping(expr: Expr) -> (r: Expr)
        ensures
            expr_v(r) == ExprV::Grouping(Box::new(expr_v(expr))),
            expr_wf(r) <==> expr_wf(expr),
    {
        Expr::Grouping(Grouping { expression: Box::new(expr) })
    }

    pub fn new_unary(operator: Token, right: Expr) -> (r: Expr)
        ensures
            expr_v(r) == (ExprV::Unary { operator: operator@, right: Box::new(expr_v(right)) }),
            expr_wf(r) <==> expr_wf(right),
    {
        Expr::Unary(Unary { operator, right: Box::new(right) })
    }
}

impl Stmt {
    pub fn new_variable(name: Token, initializer: Expr) -> (r: Stmt)
        ensures
            stmt_v(r) == (StmtV::Var { name: name@, initializer: expr_v(initializer) }),
            stmt_wf(r) <==> expr_wf(initializer),
    {
        Stmt::Var(VarStmt { name, initializer })
    }
}

} // verus!
