//! The evaluator: a post-order walk of expression trees producing runtime
//! values, and statement execution producing printed lines, under the
//! dynamic-typing rules of the language. Every outcome is pinned by the
//! specification functions `spec_eval`, `spec_execute` and `spec_interpret`.
use crate::ast::{expr_v, expr_wf, lit_wf, stmt_v, stmt_wf, Expr, ExprV, Literal, Stmt, StmtV, ValV};
use crate::number::{trunc_div, Decimal, MAG_LIMIT, SCALE};
use crate::token::{Token, TokenType, TokenV};
use vstd::prelude::*;

verus! {

/// A runtime error: the operator token that raised it and a message.
#[derive(Debug)]
pub struct InterpreterError {
    pub operator: Token,
    pub message: String,
}

/// The mathematical shadow of a runtime error.
pub ghost struct ErrV {
    pub op: TokenV,
    pub msg: Seq<char>,
}

pub open spec fn err_v(e: InterpreterError) -> ErrV {
    ErrV { op: e.operator@, msg: e.message@ }
}

/// Truthiness: `false` and `nil` are falsey, every other value is truthy.
pub open spec fn truthy(v: ValV) -> bool {
    match v {
        ValV::Bool(b) => b,
        ValV::Nil => false,
        _ => true,
    }
}

/// Structural equality across the value domain: values of different tags are
/// unequal, never a type error.
pub open spec fn val_eq(a: ValV, b: ValV) -> bool {
    match (a, b) {
        (ValV::Num(x), ValV::Num(y)) => x == y,
        (ValV::Str(x), ValV::Str(y)) => x == y,
        (ValV::Bool(x), ValV::Bool(y)) => x == y,
        (ValV::Nil, ValV::Nil) => true,
        _ => false,
    }
}

/// `s` repeated `n` times.
pub open spec fn repeat_seq(s: Seq<char>, n: nat) -> Seq<char>
    decreases n,
{
    if n == 0 {
        Seq::empty()
    } else {
        repeat_seq(s, (n - 1) as nat) + s
    }
}

/// The scaled value is representable.
pub open spec fn num_in_range(v: int) -> bool {
    -(MAG_LIMIT as int) < v < MAG_LIMIT as int
}

/// The repetition count a number contributes when multiplying a string: the
/// value truncated toward zero, clamped below at zero.
pub open spec fn repeat_count_of(n: int) -> nat {
    if n < 0 {
        0
    } else {
        (n / (SCALE as int)) as nat
    }
}

/// A value's textual rendering: numbers in decimal, strings verbatim,
/// booleans as `true`/`false`, nil as `nil`.
pub open spec fn render_val(v: ValV) -> Seq<char> {
    match v {
        ValV::Num(n) => crate::number::spec_render_val(n),
        ValV::Str(s) => s,
        ValV::Bool(b) => if b {
            "true"@
        } else {
            "false"@
        },
        ValV::Nil => "nil"@,
    }
}

pub open spec fn operands_err(op: TokenV) -> ErrV {
    ErrV { op, msg: "Both operands must be numbers."@ }
}

pub open spec fn plus_operands_err(op: TokenV) -> ErrV {
    ErrV { op, msg: "Both operands must be numbers or strings."@ }
}

pub open spec fn operand_err(op: TokenV) -> ErrV {
    ErrV { op, msg: "Operand must be a number."@ }
}

pub open spec fn div_zero_err(op: TokenV) -> ErrV {
    ErrV { op, msg: "Division by 0"@ }
}

pub open spec fn range_err(op: TokenV) -> ErrV {
    ErrV { op, msg: "Number out of range."@ }
}

pub open spec fn undefined_var_err(name: TokenV) -> ErrV {
    ErrV { op: name, msg: "Undefined variable."@ }
}

/// What a unary operator yields on an evaluated operand.
pub open spec fn spec_eval_unary(op: TokenV, v: ValV) -> Result<ValV, ErrV> {
    if op.token_type == TokenType::Minus {
        match v {
            ValV::Num(n) => Ok(ValV::Num(-n)),
            _ => Err(operand_err(op)),
        }
    } else if op.token_type == TokenType::Bang {
        Ok(ValV::Bool(!truthy(v)))
    } else {
        Err(operand_err(op))
    }
}

/// What a binary operator yields on two evaluated operands: the
/// dynamic-typing table of the language. Arithmetic whose result leaves the
/// representable range is a runtime error rather than a wrapped value.
pub open spec fn spec_eval_binary(op: TokenV, l: ValV, r: ValV) -> Result<ValV, ErrV> {
    match op.token_type {
        TokenType::Minus => match (l, r) {
            (ValV::Num(a), ValV::Num(b)) => if num_in_range(a - b) {
                Ok(ValV::Num(a - b))
            } else {
                Err(range_err(op))
            },
            _ => Err(operands_err(op)),
        },
        TokenType::Slash => match (l, r) {
            (ValV::Num(a), ValV::Num(b)) => if b == 0 {
                Err(div_zero_err(op))
            } else {
                let v = trunc_div(a * (SCALE as int), b);
                if num_in_range(v) {
                    Ok(ValV::Num(v))
                } else {
                    Err(range_err(op))
                }
            },
            _ => Err(operands_err(op)),
        },
        TokenType::Star => match (l, r) {
            (ValV::Num(a), ValV::Num(b)) => {
                let v = trunc_div(a * b, SCALE as int);
                if num_in_range(v) {
                    Ok(ValV::Num(v))
                } else {
                    Err(range_err(op))
                }
            },
            (ValV::Num(a), ValV::Str(s)) => Ok(ValV::Str(repeat_seq(s, repeat_count_of(a)))),
            (ValV::Str(s), ValV::Num(b)) => Ok(ValV::Str(repeat_seq(s, repeat_count_of(b)))),
            _ => Err(operands_err(op)),
        },
        TokenType::Plus => match (l, r) {
            (ValV::Num(a), ValV::Num(b)) => if num_in_range(a + b) {
                Ok(ValV::Num(a + b))
            } else {
                Err(range_err(op))
            },
            (ValV::Str(a), ValV::Str(b)) => Ok(ValV::Str(a + b)),
            (ValV::Str(a), ValV::Num(b)) => Ok(ValV::Str(a + crate::number::spec_render_val(b))),
            (ValV::Num(a), ValV::Str(b)) => Ok(ValV::Str(crate::number::spec_render_val(a) + b)),
            _ => Err(plus_operands_err(op)),
        },
        TokenType::Greater => match (l, r) {
            (ValV::Num(a), ValV::Num(b)) => Ok(ValV::Bool(a > b)),
            _ => Err(operands_err(op)),
        },
        TokenType::GreaterEqual => match (l, r) {
            (ValV::Num(a), ValV::Num(b)) => Ok(ValV::Bool(a >= b)),
            _ => Err(operands_err(op)),
        },
        TokenType::Less => match (l, r) {
            (ValV::Num(a), ValV::Num(b)) => Ok(ValV::Bool(a < b)),
            _ => Err(operands_err(op)),
        },
        TokenType::LessEqual => match (l, r) {
            (ValV::Num(a), ValV::Num(b)) => Ok(ValV::Bool(a <= b)),
            _ => Err(operands_err(op)),
        },
        TokenType::BangEqual => Ok(ValV::Bool(!val_eq(l, r))),
        TokenType::EqualEqual => Ok(ValV::Bool(val_eq(l, r))),
        _ => Ok(ValV::Nil),
    }
}

/// What an expression evaluates to: the value of the post-order walk, or the
/// first runtime error it raises. Evaluating a variable reference is a
/// runtime error, since this core wires no environment.
pub open spec fn spec_eval(e: ExprV) -> Result<ValV, ErrV>
    decreases e,
{
    match e {
        ExprV::Literal(v) => Ok(v),
        ExprV::Grouping(inner) => spec_eval(*inner),
        ExprV::Unary { operator, right } => match spec_eval(*right) {
            Ok(rv) => spec_eval_unary(operator, rv),
            Err(er) => Err(er),
        },
        ExprV::Binary { operator, left, right } => match spec_eval(*left) {
            Ok(lv) => match spec_eval(*right) {
                Ok(rv) => spec_eval_binary(operator, lv, rv),
                Err(er) => Err(er),
            },
            Err(er) => Err(er),
        },
        ExprV::Varibale(name) => Err(undefined_var_err(name)),
    }
}

/// What executing one statement yields: the printed line for a print
/// statement, nothing for a bare expression, a declaration or the recovery
/// no-op, or the runtime error its expression raises.
pub open spec fn spec_execute(s: StmtV) -> Result<Option<Seq<char>>, ErrV> {
    match s {
        StmtV::Print(e) => match spec_eval(e) {
            Ok(v) => Ok(Some(render_val(v))),
            Err(er) => Err(er),
        },
        StmtV::Expression(e) => match spec_eval(e) {
            Ok(_) => Ok(None),
            Err(er) => Err(er),
        },
        StmtV::Var { name, initializer } => match spec_eval(initializer) {
            Ok(_) => Ok(None),
            Err(er) => Err(er),
        },
        StmtV::Nop => Ok(None),
    }
}

/// What running a statement sequence yields: the printed lines of the
/// longest error-free prefix, in order, and the first runtime error if one
/// stops the run.
pub open spec fn spec_interpret(ss: Seq<StmtV>) -> (Seq<Seq<char>>, Option<ErrV>)
    decreases ss.len(),
{
    if ss.len() == 0 {
        (Seq::empty(), None)
    } else {
        match spec_execute(ss[0]) {
            Err(e) => (Seq::empty(), Some(e)),
            Ok(out) => {
                let rest = spec_interpret(ss.drop_first());
                match out {
                    Some(line) => (seq![line] + rest.0, rest.1),
                    None => rest,
                }
            },
        }
    }
}

/// The evaluation result `r` is exactly what the specification assigns to
/// the expression `e`.
pub open spec fn eval_rel(e: ExprV, r: Result<Literal, InterpreterError>) -> bool {
    match r {
        Ok(l) => lit_wf(l) && spec_eval(e) == Ok::<ValV, ErrV>(l@),
        Err(er) => spec_eval(e) == Err::<ValV, ErrV>(err_v(er)),
    }
}

/// The tree-walking evaluator.
pub struct Interpreter;

impl Interpreter {
    /// Evaluates an expression to its runtime value or first runtime error.
    pub fn evaluate(&self, expr: &Expr) -> (r: Result<Literal, InterpreterError>)
        requires
            expr_wf(*expr),
        ensures
            eval_rel(expr_v(*expr), r),
        decreases *expr,
    {
        match expr {
            Expr::Literal(l) => Ok(l.clone()),
            Expr::Grouping(g) => self.evaluate(&g.expression),
            Expr::Unary(u) => {
                let right = self.evaluate(&u.right)?;
                self.eval_unary(&u.operator, right)
            },
            Expr::Binary(b) => {
                let left = self.evaluate(&b.left)?;
                let right = self.evaluate(&b.right)?;
                self.eval_binary(&b.operator, left, right)
            },
            Expr::Varibale(v) => Err(
                InterpreterError {
                    operator: v.name.clone(),
                    message: String::from_str("Undefined variable."),
                },
            ),
        }
    }

    /// Applies a unary operator to its evaluated operand.
    fn eval_unary(&self, operator: &Token, right: Literal) -> (r: Result<
        Literal,
        InterpreterError,
    >)
        requires
            lit_wf(right),
        ensures
            ({
                match r {
                    Ok(l) => lit_wf(l) && spec_eval_unary(operator@, right@) == Ok::<ValV, ErrV>(
                        l@,
                    ),
                    Err(er) => spec_eval_unary(operator@, right@) == Err::<ValV, ErrV>(err_v(er)),
                }
            }),
    {
        if operator.token_type == TokenType::Minus {
            match right {
                Literal::Number(n) => Ok(Literal::Number(n.negated())),
                _ => self.make_unary_err(operator),
            }
        } else if operator.token_type == TokenType::Bang {
            Ok(Literal::Bool(!self.is_truthy(&right)))
        } else {
            self.make_unary_err(operator)
        }
    }

    fn make_unary_err(&self, operator: &Token) -> (r: Result<Literal, InterpreterError>)
        ensures
            r matches Err(er) && err_v(er) == operand_err(operator@),
    {
        Err(
            InterpreterError {
                operator: operator.clone(),
                message: String::from_str("Operand must be a number."),
            },
        )
    }

    fn make_binary_err(&self, operator: &Token) -> (r: Result<Literal, InterpreterError>)
        ensures
            r matches Err(er) && err_v(er) == operands_err(operator@),
    {
        Err(
            InterpreterError {
                operator: operator.clone(),
                message: String::from_str("Both operands must be numbers."),
            },
        )
    }

    fn make_range_err(&self, operator: &Token) -> (r: Result<Literal, InterpreterError>)
        ensures
            r matches Err(er) && err_v(er) == range_err(operator@),
    {
        Err(
            InterpreterError {
                operator: operator.clone(),
                message: String::from_str("Number out of range."),
            },
        )
    }

    /// Applies a binary operator to its evaluated operands, left first.
    fn eval_binary(&self, operator: &Token, left: Literal, right: Literal) -> (r: Result<
        Literal,
        InterpreterError,
    >)
        requires
            lit_wf(left),
            lit_wf(right),
        ensures
            ({
                match r {
                    Ok(l) => lit_wf(l) && spec_eval_binary(operator@, left@, right@) == Ok::<
                        ValV,
                        ErrV,
                    >(l@),
                    Err(er) => spec_eval_binary(operator@, left@, right@) == Err::<ValV, ErrV>(
                        err_v(er),
                    ),
                }
            }),
    {
        match operator.token_type {
            TokenType::Minus => match (left, right) {
                (Literal::Number(a), Literal::Number(b)) => match a.sub_val(&b) {
                    Some(d) => Ok(Literal::Number(d)),
                    None => self.make_range_err(operator),
                },
                _ => self.make_binary_err(operator),
            },
            TokenType::Slash => match (left, right) {
                (Literal::Number(a), Literal::Number(b)) => {
                    if b.is_zero() {
                        Err(
                            InterpreterError {
                                operator: operator.clone(),
                                message: String::from_str("Division by 0"),
                            },
                        )
                    } else {
                        match a.div_val(&b) {
                            Some(d) => Ok(Literal::Number(d)),
                            None => self.make_range_err(operator),
                        }
                    }
                },
                _ => self.make_binary_err(operator),
            },
            TokenType::Star => match (left, right) {
                (Literal::Number(a), Literal::Number(b)) => match a.mul_val(&b) {
                    Some(d) => Ok(Literal::Number(d)),
                    None => self.make_range_err(operator),
                },
                (Literal::Number(a), Literal::Str(s)) => Ok(
                    Literal::Str(repeat_string(&s, a.repeat_count())),
                ),
                (Literal::Str(s), Literal::Number(b)) => Ok(
                    Literal::Str(repeat_string(&s, b.repeat_count())),
                ),
                _ => self.make_binary_err(operator),
            },
            TokenType::Plus => match (left, right) {
                (Literal::Number(a), Literal::Number(b)) => match a.add_val(&b) {
                    Some(d) => Ok(Literal::Number(d)),
                    None => self.make_range_err(operator),
                },
                (Literal::Str(a), Literal::Str(b)) => Ok(Literal::Str(a.concat(b.as_str()))),
                (Literal::Str(a), Literal::Number(b)) => Ok(
                    Literal::Str(a.concat(b.render().as_str())),
                ),
                (Literal::Number(a), Literal::Str(b)) => Ok(
                    Literal::Str(a.render().concat(b.as_str())),
                ),
                _ => Err(
                    InterpreterError {
                        operator: operator.clone(),
                        message: String::from_str("Both operands must be numbers or strings."),
                    },
                ),
            },
            TokenType::Greater => match (left, right) {
                (Literal::Number(a), Literal::Number(b)) => Ok(Literal::Bool(b.lt(&a))),
                _ => self.make_binary_err(operator),
            },
            TokenType::GreaterEqual => match (left, right) {
                (Literal::Number(a), Literal::Number(b)) => Ok(Literal::Bool(!a.lt(&b))),
                _ => self.make_binary_err(operator),
            },
            TokenType::Less => match (left, right) {
                (Literal::Number(a), Literal::Number(b)) => Ok(Literal::Bool(a.lt(&b))),
                _ => self.make_binary_err(operator),
            },
            TokenType::LessEqual => match (left, right) {
                (Literal::Number(a), Literal::Number(b)) => Ok(Literal::Bool(!b.lt(&a))),
                _ => self.make_binary_err(operator),
            },
            TokenType::BangEqual => Ok(Literal::Bool(!self.is_equal(&left, &right))),
            TokenType::EqualEqual => Ok(Literal::Bool(self.is_equal(&left, &right))),
            _ => Ok(Literal::Nil),
        }
    }

    /// Structural equality of runtime values; cross-tag comparisons are
    /// false, never an error.
    pub fn is_equal(&self, left: &Literal, right: &Literal) -> (r: bool)
        requires
            lit_wf(*left),
            lit_wf(*right),
        ensures
            r == val_eq(left@, right@),
    {
        match (left, right) {
            (Literal::Number(a), Literal::Number(b)) => {
                proof {
                    Decimal::lemma_eq_iff_value_eq(*a, *b);
                }
                *a == *b
            },
            (Literal::Str(a), Literal::Str(b)) => a.eq(b),
            (Literal::Bool(a), Literal::Bool(b)) => *a == *b,
            (Literal::Nil, Literal::Nil) => true,
            _ => false,
        }
    }

    /// Truthiness of a runtime value.
    pub fn is_truthy(&self, literal: &Literal) -> (r: bool)
        ensures
            r == truthy(literal@),
    {
        match literal {
            Literal::Bool(b) => *b,
            Literal::Nil => false,
            _ => true,
        }
    }

    /// The textual rendering of a runtime value, as the print statement
    /// emits it.
    pub fn stringify(&self, literal: &Literal) -> (r: String)
        requires
            lit_wf(*literal),
        ensures
            r@ == render_val(literal@),
    {
        match literal {
            Literal::Number(d) => d.render(),
            Literal::Str(s) => s.clone(),
            Literal::Bool(b) => if *b {
                String::from_str("true")
            } else {
                String::from_str("false")
            },
            Literal::Nil => String::from_str("nil"),
        }
    }

    /// Executes one statement: the line a print statement emits, nothing for
    /// a declaration or the recovery no-op, or the runtime error raised.
    pub fn execute(&self, statement: &Stmt) -> (r: Result<Option<String>, InterpreterError>)
        requires
            stmt_wf(*statement),
        ensures
            ({
                match r {
                    Ok(Some(line)) => spec_execute(stmt_v(*statement)) == Ok::<
                        Option<Seq<char>>,
                        ErrV,
                    >(Some(line@)),
                    Ok(None) => spec_execute(stmt_v(*statement)) == Ok::<Option<Seq<char>>, ErrV>(
                        None,
                    ),
                    Err(er) => spec_execute(stmt_v(*statement)) == Err::<Option<Seq<char>>, ErrV>(
                        err_v(er),
                    ),
                }
            }),
    {
        match statement {
            Stmt::Print(e) => {
                let value = self.evaluate(e)?;
                Ok(Some(self.stringify(&value)))
            },
            Stmt::Expression(e) => {
                let _value = self.evaluate(e)?;
                Ok(None)
            },
            Stmt::Var(v) => {
                let _value = self.evaluate(&v.initializer)?;
                Ok(None)
            },
            Stmt::Nop => Ok(None),
        }
    }

    /// Runs the statements in order, collecting the printed lines; stops at
    /// the first runtime error, which aborts the remainder of the run.
    pub fn interpret(&self, statements: &Vec<Stmt>) -> (r: (Vec<String>, Option<InterpreterError>))
        requires
            forall|i: int| 0 <= i < statements@.len() ==> stmt_wf(#[trigger] statements@[i]),
        ensures
            ({
                let full = spec_interpret(statements@.map_values(|s: Stmt| stmt_v(s)));
                &&& full.0 == r.0@.map_values(|line: String| line@)
                &&& match r.1 {
                    Some(er) => full.1 == Some(err_v(er)),
                    None => full.1 is None,
                }
            }),
    {
        let ghost views = statements@.map_values(|s: Stmt| stmt_v(s));
        let mut outputs: Vec<String> = Vec::new();
        let mut i: usize = 0;
        proof {
            assert(views.skip(0) =~= views);
            assert(outputs@.map_values(|line: String| line@) =~= Seq::<Seq<char>>::empty());
        }
        while i < statements.len()
            invariant
                i <= statements@.len(),
                views == statements@.map_values(|s: Stmt| stmt_v(s)),
                forall|j: int| 0 <= j < statements@.len() ==> stmt_wf(#[trigger] statements@[j]),
                spec_interpret(views).0 == outputs@.map_values(|line: String| line@)
                    + spec_interpret(views.skip(i as int)).0,
                spec_interpret(views).1 == spec_interpret(views.skip(i as int)).1,
            decreases statements@.len() - i,
        {
            let ghost rest = views.skip(i as int);
            let ghost pre_out = outputs@.map_values(|line: String| line@);
            proof {
                assert(rest[0] == views[i as int]);
                assert(rest.drop_first() =~= views.skip(i as int + 1));
            }
            match self.execute(&statements[i]) {
                Ok(out) => {
                    match out {
                        Some(line) => {
                            let ghost lv = line@;
                            outputs.push(line);
                            proof {
                                assert(outputs@.map_values(|line: String| line@) =~= pre_out.push(
                                    lv,
                                ));
                                assert(pre_out + (seq![lv] + spec_interpret(
                                    views.skip(i as int + 1),
                                ).0) =~= pre_out.push(lv) + spec_interpret(
                                    views.skip(i as int + 1),
                                ).0);
                            }
                        },
                        None => {
                        },
                    }
                    i += 1;
                },
                Err(er) => {
                    proof {
                        assert(pre_out + Seq::<Seq<char>>::empty() =~= pre_out);
                    }
                    return (outputs, Some(er));
                },
            }
        }
        proof {
            assert(views.skip(i as int) =~= Seq::<StmtV>::empty());
            assert(outputs@.map_values(|line: String| line@) + Seq::<Seq<char>>::empty()
                =~= outputs@.map_values(|line: String| line@));
        }
        (outputs, None)
    }
}

/// `s` repeated `n` times, built by appending.
pub fn repeat_string(s: &String, n: u64) -> (r: String)
    ensures
        r@ == repeat_seq(s@, n as nat),
{
    let mut out = String::new();
    let mut i: u64 = 0;
    while i < n
        invariant
            i <= n,
            out@ == repeat_seq(s@, i as nat),
        decreases n - i,
    {
        out.append(s.as_str());
        i += 1;
    }
    out
}

} // verus!
