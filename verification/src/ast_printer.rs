//! A diagnostic pretty-printer for expression trees: a pure rendering in
//! fully parenthesized prefix form, a debugging aid with no semantic role.
use crate::ast::{expr_v, expr_wf, Expr, ExprV};
use crate::interpreter::render_val;
use vstd::prelude::*;

verus! {

/// The rendering: operators prefixed and parenthesized, groupings spelled
/// `(group ...)`, literals as the evaluator renders them, variables by name.
pub open spec fn sp_print(e: ExprV) -> Seq<char>
    decreases e,
{
    match e {
        ExprV::Binary { operator, left, right } => seq!['('] + operator.lexeme + seq![' ']
            + sp_print(*left) + seq![' '] + sp_print(*right) + seq![')'],
        ExprV::Grouping(inner) => "(group "@ + sp_print(*inner) + seq![')'],
        ExprV::Literal(v) => render_val(v),
        ExprV::Unary { operator, right } => seq!['('] + operator.lexeme + seq![' '] + sp_print(
            *right,
        ) + seq![')'],
        ExprV::Varibale(name) => name.lexeme,
    }
}

pub struct AstPrinter;

impl AstPrinter {
    /// Renders an expression tree for inspection.
    pub fn print(expr: &Expr) -> (r: String)
        requires
            expr_wf(*expr),
        ensures
            r@ == sp_print(expr_v(*expr)),
        decreases *expr,
    {
        match expr {
            Expr::Binary(binary) => {
                let mut out = String::from_str("(");
                out.append(binary.operator.lexeme.as_str());
                out.push(' ');
                out.append(AstPrinter::print(&binary.left).as_str());
                out.push(' ');
                out.append(AstPrinter::print(&binary.right).as_str());
                out.push(')');
                proof {
                    reveal_strlit("(");
                    assert(out@ =~= sp_print(expr_v(*expr)));
                }
                out
            },
            Expr::Grouping(grouping) => {
                let mut out = String::from_str("(group ");
                out.append(AstPrinter::print(&grouping.expression).as_str());
                out.push(')');
                proof {
                    reveal_strlit("(group ");
                    assert(out@ =~= sp_print(expr_v(*expr)));
                }
                out
            },
            Expr::Literal(literal) => crate::interpreter::Interpreter.stringify(literal),
            Expr::Unary(unary) => {
                let mut out = String::from_str("(");
                out.append(unary.operator.lexeme.as_str());
                out.push(' ');
                out.append(AstPrinter::print(&unary.right).as_str());
                out.push(')');
                proof {
                    reveal_strlit("(");
                    assert(out@ =~= sp_print(expr_v(*expr)));
                }
                out
            },
            Expr::Varibale(v) => v.name.lexeme.clone(),
        }
    }
}

} // verus!
