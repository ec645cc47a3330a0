//! The parser: recursive descent over the token sequence, one rule per
//! precedence level, building expression and statement trees. Syntax errors
//! are collected, and panic-mode synchronization resumes parsing at the next
//! statement boundary, leaving a no-op placeholder for the failed
//! declaration. The spec functions `sp_expression` down to `sp_primary`, and
//! `sp_parse`, state exactly what any token sequence parses to.
use crate::ast::{expr_v, expr_wf, stmt_v, stmt_wf, Expr, ExprV, Literal, Stmt, StmtV, ValV};
use crate::token::{token_wf, Token, TokenType, TokenV};
use vstd::prelude::*;

verus! {

/// A syntax error: the offending token and a message.
#[derive(Debug)]
pub struct ParseError {
    pub token: Token,
    pub message: String,
}

/// The mathematical shadow of a syntax error.
pub ghost struct PErrV {
    pub token: TokenV,
    pub msg: Seq<char>,
}

pub open spec fn perr_v(e: ParseError) -> PErrV {
    PErrV { token: e.token@, msg: e.message@ }
}

/// The outcome of one grammar rule: the parsed value or the error, together
/// with the position where parsing stands afterwards.
pub ghost enum PRes<T> {
    Parsed(T, int),
    Failed(PErrV, int),
}

/// The token at a position; past the end it reads as the end-of-input
/// sentinel, which every scanned sequence ends with anyway.
pub open spec fn peek_tv(ts: Seq<TokenV>, i: int) -> TokenV {
    if 0 <= i < ts.len() {
        ts[i]
    } else {
        TokenV { token_type: TokenType::Eof, lexeme: Seq::empty(), literal: None, line: 0 }
    }
}

pub open spec fn is_end_at(ts: Seq<TokenV>, i: int) -> bool {
    peek_tv(ts, i).token_type == TokenType::Eof
}

/// `primary -> NUMBER | STRING | "true" | "false" | "nil" | IDENTIFIER |
/// "(" expression ")"`. Anything else is the error "Expected expression",
/// which consumes nothing.
pub open spec fn sp_primary(ts: Seq<TokenV>, i: int) -> PRes<ExprV>
    decreases ts.len() - i, 1int,
{
    let t = peek_tv(ts, i);
    if t.token_type == TokenType::False {
        PRes::Parsed(ExprV::Literal(ValV::Bool(false)), i + 1)
    } else if t.token_type == TokenType::True {
        PRes::Parsed(ExprV::Literal(ValV::Bool(true)), i + 1)
    } else if t.token_type == TokenType::Nil {
        PRes::Parsed(ExprV::Literal(ValV::Nil), i + 1)
    } else if (t.token_type == TokenType::Number || t.token_type == TokenType::Str)
        && t.literal is Some {
        PRes::Parsed(ExprV::Literal(t.literal->Some_0), i + 1)
    } else if t.token_type == TokenType::Identifier {
        PRes::Parsed(ExprV::Varibale(t), i + 1)
    } else if t.token_type == TokenType::LeftParen {
        match sp_expression(ts, i + 1) {
            PRes::Parsed(e, j) => {
                if peek_tv(ts, j).token_type == TokenType::RightParen {
                    PRes::Parsed(ExprV::Grouping(Box::new(e)), j + 1)
                } else {
                    PRes::Failed(
                        PErrV { token: peek_tv(ts, j), msg: "Expect ')' after expression"@ },
                        j,
                    )
                }
            },
            PRes::Failed(e, j) => PRes::Failed(e, j),
        }
    } else {
        PRes::Failed(PErrV { token: t, msg: "Expected expression"@ }, i)
    }
}

/// `unary -> ("!" | "-") unary | primary`.
pub open spec fn sp_unary(ts: Seq<TokenV>, i: int) -> PRes<ExprV>
    decreases ts.len() - i, 2int,
{
    let t = peek_tv(ts, i);
    if t.token_type == TokenType::Bang || t.token_type == TokenType::Minus {
        match sp_unary(ts, i + 1) {
            PRes::Parsed(right, j) => PRes::Parsed(
                ExprV::Unary { operator: t, right: Box::new(right) },
                j,
            ),
            PRes::Failed(e, j) => PRes::Failed(e, j),
        }
    } else {
        sp_primary(ts, i)
    }
}

/// The left-associative folding loop shared by the binary-operator rules:
/// while the token at hand is one of the rule's operators, parse the operand
/// of the next-higher level and fold the accumulated expression as the left
/// child. The bound guards only restate that operands consume tokens.
pub open spec fn sp_factor_tail(ts: Seq<TokenV>, i: int, acc: ExprV) -> PRes<ExprV>
    decreases ts.len() - i, 3int,
{
    let t = peek_tv(ts, i);
    if t.token_type == TokenType::Slash || t.token_type == TokenType::Star {
        match sp_unary(ts, i + 1) {
            PRes::Parsed(right, j) => {
                if i < j <= ts.len() {
                    sp_factor_tail(
                        ts,
                        j,
                        ExprV::Binary { operator: t, left: Box::new(acc), right: Box::new(right) },
                    )
                } else {
                    PRes::Failed(PErrV { token: t, msg: Seq::empty() }, j)
                }
            },
            PRes::Failed(e, j) => PRes::Failed(e, j),
        }
    } else {
        PRes::Parsed(acc, i)
    }
}

/// `factor -> unary ( ("/" | "*") unary )*`.
pub open spec fn sp_factor(ts: Seq<TokenV>, i: int) -> PRes<ExprV>
    decreases ts.len() - i, 4int,
{
    match sp_unary(ts, i) {
        PRes::Parsed(e, j) => {
            if i < j <= ts.len() {
                sp_factor_tail(ts, j, e)
            } else {
                PRes::Failed(PErrV { token: peek_tv(ts, i), msg: Seq::empty() }, j)
            }
        },
        PRes::Failed(e, j) => PRes::Failed(e, j),
    }
}

pub open spec fn sp_term_tail(ts: Seq<TokenV>, i: int, acc: ExprV) -> PRes<ExprV>
    decreases ts.len() - i, 5int,
{
    let t = peek_tv(ts, i);
    if t.token_type == TokenType::Plus || t.token_type == TokenType::Minus {
        match sp_factor(ts, i + 1) {
            PRes::Parsed(right, j) => {
                if i < j <= ts.len() {
                    sp_term_tail(
                        ts,
                        j,
                        ExprV::Binary { operator: t, left: Box::new(acc), right: Box::new(right) },
                    )
                } else {
                    PRes::Failed(PErrV { token: t, msg: Seq::empty() }, j)
                }
            },
            PRes::Failed(e, j) => PRes::Failed(e, j),
        }
    } else {
        PRes::Parsed(acc, i)
    }
}

/// `term -> factor ( ("+" | "-") factor )*`.
pub open spec fn sp_term(ts: Seq<TokenV>, i: int) -> PRes<ExprV>
    decreases ts.len() - i, 6int,
{
    match sp_factor(ts, i) {
        PRes::Parsed(e, j) => {
            if i < j <= ts.len() {
                sp_term_tail(ts, j, e)
            } else {
                PRes::Failed(PErrV { token: peek_tv(ts, i), msg: Seq::empty() }, j)
            }
        },
        PRes::Failed(e, j) => PRes::Failed(e, j),
    }
}

pub open spec fn is_comparison_op(tt: TokenType) -> bool {
    ||| tt == TokenType::Greater
    ||| tt == TokenType::GreaterEqual
    ||| tt == TokenType::Less
    ||| tt == TokenType::LessEqual
}

pub open spec fn sp_comparison_tail(ts: Seq<TokenV>, i: int, acc: ExprV) -> PRes<ExprV>
    decreases ts.len() - i, 7int,
{
    let t = peek_tv(ts, i);
    if is_comparison_op(t.token_type) {
        match sp_term(ts, i + 1) {
            PRes::Parsed(right, j) => {
                if i < j <= ts.len() {
                    sp_comparison_tail(
                        ts,
                        j,
                        ExprV::Binary { operator: t, left: Box::new(acc), right: Box::new(right) },
                    )
                } else {
                    PRes::Failed(PErrV { token: t, msg: Seq::empty() }, j)
                }
            },
            PRes::Failed(e, j) => PRes::Failed(e, j),
        }
    } else {
        PRes::Parsed(acc, i)
    }
}

/// `comparison -> term ( (">" | ">=" | "<" | "<=") term )*`.
pub open spec fn sp_comparison(ts: Seq<TokenV>, i: int) -> PRes<ExprV>
    decreases ts.len() - i, 8int,
{
    match sp_term(ts, i) {
        PRes::Parsed(e, j) => {
            if i < j <= ts.len() {
                sp_comparison_tail(ts, j, e)
            } else {
                PRes::Failed(PErrV { token: peek_tv(ts, i), msg: Seq::empty() }, j)
            }
        },
        PRes::Failed(e, j) => PRes::Failed(e, j),
    }
}

pub open spec fn sp_equality_tail(ts: Seq<TokenV>, i: int, acc: ExprV) -> PRes<ExprV>
    decreases ts.len() - i, 9int,
{
    let t = peek_tv(ts, i);
    if t.token_type == TokenType::BangEqual || t.token_type == TokenType::EqualEqual {
        match sp_comparison(ts, i + 1) {
            PRes::Parsed(right, j) => {
                if i < j <= ts.len() {
                    sp_equality_tail(
                        ts,
                        j,
                        ExprV::Binary { operator: t, left: Box::new(acc), right: Box::new(right) },
                    )
                } else {
                    PRes::Failed(PErrV { token: t, msg: Seq::empty() }, j)
                }
            },
            PRes::Failed(e, j) => PRes::Failed(e, j),
        }
    } else {
        PRes::Parsed(acc, i)
    }
}

/// `equality -> comparison ( ("!=" | "==") comparison )*`.
pub open spec fn sp_equality(ts: Seq<TokenV>, i: int) -> PRes<ExprV>
    decreases ts.len() - i, 10int,
{
    match sp_comparison(ts, i) {
        PRes::Parsed(e, j) => {
            if i < j <= ts.len() {
                sp_equality_tail(ts, j, e)
            } else {
                PRes::Failed(PErrV { token: peek_tv(ts, i), msg: Seq::empty() }, j)
            }
        },
        PRes::Failed(e, j) => PRes::Failed(e, j),
    }
}

/// `expression -> equality`.
pub open spec fn sp_expression(ts: Seq<TokenV>, i: int) -> PRes<ExprV>
    decreases ts.len() - i, 11int,
{
    sp_equality(ts, i)
}

/// `"print" expression ";"`, entered after the `print` keyword.
pub open spec fn sp_print_statement(ts: Seq<TokenV>, i: int) -> PRes<StmtV> {
    match sp_expression(ts, i) {
        PRes::Parsed(e, j) => {
            if peek_tv(ts, j).token_type == TokenType::Semicolon {
                PRes::Parsed(StmtV::Print(e), j + 1)
            } else {
                PRes::Failed(PErrV { token: peek_tv(ts, j), msg: "Expect ';' after value."@ }, j)
            }
        },
        PRes::Failed(e, j) => PRes::Failed(e, j),
    }
}

/// `expression ";"`: a bare expression statement.
pub open spec fn sp_expression_statement(ts: Seq<TokenV>, i: int) -> PRes<StmtV> {
    match sp_expression(ts, i) {
        PRes::Parsed(e, j) => {
            if peek_tv(ts, j).token_type == TokenType::Semicolon {
                PRes::Parsed(StmtV::Expression(e), j + 1)
            } else {
                PRes::Failed(
                    PErrV { token: peek_tv(ts, j), msg: "Expect ';' after expression."@ },
                    j,
                )
            }
        },
        PRes::Failed(e, j) => PRes::Failed(e, j),
    }
}

/// `statement -> "print" expression ";" | expression ";"`: a print statement
/// or a bare expression statement.
pub open spec fn sp_statement(ts: Seq<TokenV>, i: int) -> PRes<StmtV> {
    if peek_tv(ts, i).token_type == TokenType::Print {
        sp_print_statement(ts, i + 1)
    } else {
        sp_expression_statement(ts, i)
    }
}

/// `"var" IDENTIFIER ("=" expression)? ";"`, entered after the `var`
/// keyword; a missing initializer declares the variable as nil.
pub open spec fn sp_var_declaration(ts: Seq<TokenV>, i: int) -> PRes<StmtV> {
    if peek_tv(ts, i).token_type == TokenType::Identifier {
        let name = peek_tv(ts, i);
        let after = if peek_tv(ts, i + 1).token_type == TokenType::Equal {
            match sp_expression(ts, i + 2) {
                PRes::Parsed(e, j) => PRes::Parsed(e, j),
                PRes::Failed(e, j) => PRes::Failed(e, j),
            }
        } else {
            PRes::Parsed(ExprV::Literal(ValV::Nil), i + 1)
        };
        match after {
            PRes::Parsed(init, j) => {
                if peek_tv(ts, j).token_type == TokenType::Semicolon {
                    PRes::Parsed(StmtV::Var { name, initializer: init }, j + 1)
                } else {
                    PRes::Failed(
                        PErrV {
                            token: peek_tv(ts, j),
                            msg: "Expect ';' after variable declaration."@,
                        },
                        j,
                    )
                }
            },
            PRes::Failed(e, j) => PRes::Failed(e, j),
        }
    } else {
        PRes::Failed(PErrV { token: peek_tv(ts, i), msg: "Expect variable name."@ }, i)
    }
}

/// Does this token type begin a new statement, for panic-mode recovery?
pub open spec fn sync_start(tt: TokenType) -> bool {
    ||| tt == TokenType::Class
    ||| tt == TokenType::For
    ||| tt == TokenType::Fun
    ||| tt == TokenType::If
    ||| tt == TokenType::Print
    ||| tt == TokenType::Return
    ||| tt == TokenType::Var
    ||| tt == TokenType::While
}

pub open spec fn sp_sync_loop(ts: Seq<TokenV>, i: int) -> int
    decreases ts.len() - i,
{
    if is_end_at(ts, i) {
        i
    } else if 0 < i <= ts.len() && ts[i - 1].token_type == TokenType::Semicolon {
        i
    } else if sync_start(peek_tv(ts, i).token_type) {
        i
    } else if 0 <= i < ts.len() {
        sp_sync_loop(ts, i + 1)
    } else {
        i
    }
}

/// Panic-mode synchronization from the position of a syntax error: step past
/// the failing token, then discard tokens until just after a semicolon or
/// just before a token that begins a new statement.
pub open spec fn sp_sync(ts: Seq<TokenV>, i: int) -> int {
    if !is_end_at(ts, i) {
        sp_sync_loop(ts, i + 1)
    } else {
        sp_sync_loop(ts, i)
    }
}

/// `declaration -> "var" IDENTIFIER ("=" expression)? ";" | statement`, with
/// recovery: a syntax error inside one declaration yields the no-op
/// placeholder, the error, and the synchronized resume position.
pub open spec fn sp_declaration(ts: Seq<TokenV>, i: int) -> (StmtV, int, Option<PErrV>) {
    let res = if peek_tv(ts, i).token_type == TokenType::Var {
        sp_var_declaration(ts, i + 1)
    } else {
        sp_statement(ts, i)
    };
    match res {
        PRes::Parsed(st, j) => (st, j, None),
        PRes::Failed(e, j) => (StmtV::Nop, sp_sync(ts, j), Some(e)),
    }
}

/// What parsing a whole token sequence yields: the statements in order (a
/// no-op placeholder standing in for each failed declaration) and the syntax
/// errors collected along the way. The bound guard only restates that every
/// declaration makes progress.
pub open spec fn sp_parse(ts: Seq<TokenV>, i: int) -> (Seq<StmtV>, Seq<PErrV>)
    decreases ts.len() - i,
{
    if is_end_at(ts, i) || !(0 <= i < ts.len()) {
        (Seq::empty(), Seq::empty())
    } else {
        let d = sp_declaration(ts, i);
        let rest = if i < d.1 <= ts.len() {
            sp_parse(ts, d.1)
        } else {
            (Seq::<StmtV>::empty(), Seq::<PErrV>::empty())
        };
        (
            seq![d.0] + rest.0,
            (match d.2 {
                Some(e) => seq![e],
                None => Seq::<PErrV>::empty(),
            }) + rest.1,
        )
    }
}

/// The relation between a rule's executable outcome and its specification:
/// the parsed tree (well formed) or the error, and the position reached.
pub open spec fn rule_rel(sp: PRes<ExprV>, r: Result<Expr, ParseError>, endpos: int) -> bool {
    match r {
        Ok(e) => expr_wf(e) && sp == PRes::Parsed(expr_v(e), endpos),
        Err(pe) => sp == PRes::<ExprV>::Failed(perr_v(pe), endpos),
    }
}

pub open spec fn stmt_rel(sp: PRes<StmtV>, r: Result<Stmt, ParseError>, endpos: int) -> bool {
    match r {
        Ok(st) => stmt_wf(st) && sp == PRes::Parsed(stmt_v(st), endpos),
        Err(pe) => sp == PRes::<StmtV>::Failed(perr_v(pe), endpos),
    }
}

pub open spec fn contains_tt(ts: Seq<TokenType>, tt: TokenType) -> bool {
    exists|k: int| 0 <= k < ts.len() && ts[k] == tt
}

/// The parser's state: the token sequence, which must end in the
/// end-of-input sentinel, and the current position.
pub struct Parser {
    tokens: Vec<Token>,
    current: usize,
}

impl Parser {
    /// The shadows of the tokens being parsed.
    pub closed spec fn tviews(&self) -> Seq<TokenV> {
        self.tokens@.map_values(|t: Token| t@)
    }

    /// The current position.
    pub closed spec fn pos(&self) -> int {
        self.current as int
    }

    /// Well-formed: tokens present and ending in the sentinel, every token
    /// well formed, and the position inside the sequence.
    pub closed spec fn wf(&self) -> bool {
        &&& self.tokens@.len() > 0
        &&& self.tviews().last().token_type == TokenType::Eof
        &&& (self.current as int) < self.tokens@.len()
        &&& forall|k: int| 0 <= k < self.tokens@.len() ==> token_wf(#[trigger] self.tokens@[k])
    }

    pub fn new(tokens: Vec<Token>) -> (r: Parser)
        requires
            tokens@.len() > 0,
            tokens@.map_values(|t: Token| t@).last().token_type == TokenType::Eof,
            forall|k: int| 0 <= k < tokens@.len() ==> token_wf(#[trigger] tokens@[k]),
        ensures
            r.wf(),
            r.tviews() == tokens@.map_values(|t: Token| t@),
            r.pos() == 0,
    {
        Parser { tokens, current: 0 }
    }

    fn is_end(&self) -> (r: bool)
        requires
            self.wf(),
        ensures
            r == is_end_at(self.tviews(), self.pos()),
    {
        self.tokens[self.current].token_type == TokenType::Eof
    }

    fn peek(&self) -> (t: Token)
        requires
            self.wf(),
        ensures
            t == self.tokens@[self.pos()],
            t@ == peek_tv(self.tviews(), self.pos()),
            token_wf(t),
    {
        self.tokens[self.current].clone()
    }

    fn previous(&self) -> (t: Token)
        requires
            self.wf(),
            self.pos() >= 1,
        ensures
            t == self.tokens@[self.pos() - 1],
            t@ == self.tviews()[self.pos() - 1],
            token_wf(t),
    {
        self.tokens[self.current - 1].clone()
    }

    fn advance(&mut self) -> (t: Token)
        requires
            old(self).wf(),
            old(self).pos() >= 1 || !is_end_at(old(self).tviews(), old(self).pos()),
        ensures
            final (self).wf(),
            final (self).tokens == old(self).tokens,
            final (self).tviews() == old(self).tviews(),
            final (self).pos() == if is_end_at(old(self).tviews(), old(self).pos()) {
                old(self).pos()
            } else {
                old(self).pos() + 1
            },
            t == old(self).tokens@[final (self).pos() - 1],
            t@ == old(self).tviews()[final (self).pos() - 1],
            token_wf(t),
    {
        if !self.is_end() {
            proof {
                assert(self.tviews().last() == self.tviews()[self.tokens@.len() - 1]);
            }
            let n = self.tokens.len();
            self.current = self.current + 1;
        }
        self.previous()
    }

    fn check_token(&self, typ: TokenType) -> (r: bool)
        requires
            self.wf(),
        ensures
            r == (!is_end_at(self.tviews(), self.pos()) && peek_tv(
                self.tviews(),
                self.pos(),
            ).token_type == typ),
    {
        if self.is_end() {
            return false;
        }
        self.tokens[self.current].token_type == typ
    }

    fn match_type(&mut self, types: &[TokenType]) -> (r: bool)
        requires
            old(self).wf(),
        ensures
            final (self).wf(),
            final (self).tokens == old(self).tokens,
            final (self).tviews() == old(self).tviews(),
            r == (!is_end_at(old(self).tviews(), old(self).pos()) && contains_tt(
                types@,
                peek_tv(old(self).tviews(), old(self).pos()).token_type,
            )),
            r ==> final (self).pos() == old(self).pos() + 1,
            !r ==> final (self).pos() == old(self).pos(),
    {
        if self.is_end() {
            return false;
        }
        let pt = self.tokens[self.current].token_type;
        let mut found = false;
        let mut k: usize = 0;
        while k < types.len()
            invariant
                k <= types@.len(),
                found ==> contains_tt(types@, pt),
                !found ==> forall|m: int| 0 <= m < k ==> types@[m] != pt,
            decreases types@.len() - k,
        {
            if types[k] == pt {
                found = true;
            }
            k += 1;
        }
        if found {
            let _ = self.advance();
            true
        } else {
            false
        }
    }

    fn consume(&mut self, token_type: TokenType, message: &str) -> (r: Result<Token, ParseError>)
        requires
            old(self).wf(),
            token_type != TokenType::Eof,
        ensures
            final (self).wf(),
            final (self).tokens == old(self).tokens,
            final (self).tviews() == old(self).tviews(),
            match r {
                Ok(t) => {
                    &&& peek_tv(old(self).tviews(), old(self).pos()).token_type == token_type
                    &&& final (self).pos() == old(self).pos() + 1
                    &&& t == old(self).tokens@[old(self).pos()]
                    &&& t@ == peek_tv(old(self).tviews(), old(self).pos())
                    &&& token_wf(t)
                },
                Err(pe) => {
                    &&& peek_tv(old(self).tviews(), old(self).pos()).token_type != token_type
                    &&& final (self).pos() == old(self).pos()
                    &&& perr_v(pe) == (PErrV {
                        token: peek_tv(old(self).tviews(), old(self).pos()),
                        msg: message@,
                    })
                },
            },
    {
        if !self.check_token(token_type) {
            return Err(ParseError { token: self.peek(), message: String::from_str(message) });
        }
        Ok(self.advance())
    }
}


impl Parser {

    /// `primary -> NUMBER | STRING | "true" | "false" | "nil" | IDENTIFIER |
    /// "(" expression ")"`.
    fn primary(&mut self) -> (r: Result<Expr, ParseError>)
        requires
            old(self).wf(),
        ensures
            final (self).wf(),
            final (self).tokens == old(self).tokens,
            final (self).tviews() == old(self).tviews(),
            old(self).pos() <= final (self).pos(),
            r is Ok ==> old(self).pos() < final (self).pos(),
            rule_rel(sp_primary(old(self).tviews(), old(self).pos()), r, final (self).pos()),
        decreases self.tokens@.len() - self.current, 1int,
    {
        let ghost ts = self.tviews();
        let ghost i0 = self.pos();
        if self.match_type(&[TokenType::False]) {
            return Ok(Expr::Literal(Literal::Bool(false)));
        }
        if self.match_type(&[TokenType::True]) {
            return Ok(Expr::Literal(Literal::Bool(true)));
        }
        if self.match_type(&[TokenType::Nil]) {
            return Ok(Expr::Literal(Literal::Nil));
        }
        if self.match_type(&[TokenType::Number, TokenType::Str]) {
            let prev = self.previous();
            proof {
                assert(token_wf(prev));
            }
            match prev.literal {
                Some(l) => {
                    return Ok(Expr::Literal(l));
                },
                None => {
                    // a number or string token always carries its literal
                    return vstd::pervasive::unreached();
                },
            }
        }
        if self.match_type(&[TokenType::Identifier]) {
            let name = self.previous();
            return Ok(Expr::Varibale(crate::ast::Varibale { name }));
        }
        if self.match_type(&[TokenType::LeftParen]) {
            let expr = match self.expression() {
                Ok(e) => e,
                Err(pe) => {
                    return Err(pe);
                },
            };
            return match self.consume(TokenType::RightParen, "Expect ')' after expression") {
                Ok(_) => Ok(Expr::new_grouping(expr)),
                Err(pe) => Err(pe),
            };
        }
        Err(ParseError { token: self.peek(), message: String::from_str("Expected expression") })
    }

    /// `unary -> ("!" | "-") unary | primary`.
    fn unary(&mut self) -> (r: Result<Expr, ParseError>)
        requires
            old(self).wf(),
        ensures
            final (self).wf(),
            final (self).tokens == old(self).tokens,
            final (self).tviews() == old(self).tviews(),
            old(self).pos() <= final (self).pos(),
            r is Ok ==> old(self).pos() < final (self).pos(),
            rule_rel(sp_unary(old(self).tviews(), old(self).pos()), r, final (self).pos()),
        decreases self.tokens@.len() - self.current, 2int,
    {
        if self.match_type(&[TokenType::Bang, TokenType::Minus]) {
            let operator = self.previous();
            let right = match self.unary() {
                Ok(e) => e,
                Err(pe) => {
                    return Err(pe);
                },
            };
            return Ok(Expr::new_unary(operator, right));
        }
        self.primary()
    }

    /// `factor -> unary ( ("/" | "*") unary )*`, folded left.
    #[verifier::rlimit(50)]
    fn factor(&mut self) -> (r: Result<Expr, ParseError>)
        requires
            old(self).wf(),
        ensures
            final (self).wf(),
            final (self).tokens == old(self).tokens,
            final (self).tviews() == old(self).tviews(),
            old(self).pos() <= final (self).pos(),
            r is Ok ==> old(self).pos() < final (self).pos(),
            rule_rel(sp_factor(old(self).tviews(), old(self).pos()), r, final (self).pos()),
        decreases self.tokens@.len() - self.current, 4int,
    {
        let ghost ts = self.tviews();
        let ghost i0 = self.pos();
        let mut expr = match self.unary() {
            Ok(e) => e,
            Err(pe) => {
                return Err(pe);
            },
        };
        while self.match_type(&[TokenType::Slash, TokenType::Star])
            invariant
                self.wf(),
                ts == self.tviews(),
                self.tokens == old(self).tokens,
                i0 == old(self).pos(),
                ts == old(self).tviews(),
                expr_wf(expr),
                i0 < self.pos(),
                sp_factor(ts, i0) == sp_factor_tail(ts, self.pos(), expr_v(expr)),
            decreases ts.len() - self.pos(),
        {
            let operator = self.previous();
            let ghost q = self.pos() - 1;
            let ghost acc0 = expr_v(expr);
            proof {
                assert(operator@ == ts[q]);
            }
            let right = match self.unary() {
                Ok(e) => e,
                Err(pe) => {
                    proof {
                        assert(sp_factor_tail(ts, q, acc0) == PRes::<ExprV>::Failed(
                            perr_v(pe),
                            self.pos() as int,
                        ));
                    }
                    return Err(pe);
                },
            };
            proof {
                assert(sp_factor_tail(ts, q, acc0) == sp_factor_tail(
                    ts,
                    self.pos(),
                    ExprV::Binary {
                        operator: ts[q],
                        left: Box::new(acc0),
                        right: Box::new(expr_v(right)),
                    },
                ));
            }
            expr = Expr::new_binary(expr, operator, right);
        }
        Ok(expr)
    }

    /// `term -> factor ( ("+" | "-") factor )*`, folded left.
    #[verifier::rlimit(50)]
    fn term(&mut self) -> (r: Result<Expr, ParseError>)
        requires
            old(self).wf(),
        ensures
            final (self).wf(),
            final (self).tokens == old(self).tokens,
            final (self).tviews() == old(self).tviews(),
            old(self).pos() <= final (self).pos(),
            r is Ok ==> old(self).pos() < final (self).pos(),
            rule_rel(sp_term(old(self).tviews(), old(self).pos()), r, final (self).pos()),
        decreases self.tokens@.len() - self.current, 6int,
    {
        let ghost ts = self.tviews();
        let ghost i0 = self.pos();
        let mut expr = match self.factor() {
            Ok(e) => e,
            Err(pe) => {
                return Err(pe);
            },
        };
        while self.match_type(&[TokenType::Plus, TokenType::Minus])
            invariant
                self.wf(),
                ts == self.tviews(),
                self.tokens == old(self).tokens,
                i0 == old(self).pos(),
                ts == old(self).tviews(),
                expr_wf(expr),
                i0 < self.pos(),
                sp_term(ts, i0) == sp_term_tail(ts, self.pos(), expr_v(expr)),
            decreases ts.len() - self.pos(),
        {
            let operator = self.previous();
            let ghost q = self.pos() - 1;
            let ghost acc0 = expr_v(expr);
            proof {
                assert(operator@ == ts[q]);
            }
            let right = match self.factor() {
                Ok(e) => e,
                Err(pe) => {
                    proof {
                        assert(sp_term_tail(ts, q, acc0) == PRes::<ExprV>::Failed(
                            perr_v(pe),
                            self.pos() as int,
                        ));
                    }
                    return Err(pe);
                },
            };
            proof {
                assert(sp_term_tail(ts, q, acc0) == sp_term_tail(
                    ts,
                    self.pos(),
                    ExprV::Binary {
                        operator: ts[q],
                        left: Box::new(acc0),
                        right: Box::new(expr_v(right)),
                    },
                ));
            }
            expr = Expr::new_binary(expr, operator, right);
        }
        Ok(expr)
    }

    /// `comparison -> term ( (">" | ">=" | "<" | "<=") term )*`, folded left.
    #[verifier::rlimit(50)]
    fn comparison(&mut self) -> (r: Result<Expr, ParseError>)
        requires
            old(self).wf(),
        ensures
            final (self).wf(),
            final (self).tokens == old(self).tokens,
            final (self).tviews() == old(self).tviews(),
            old(self).pos() <= final (self).pos(),
            r is Ok ==> old(self).pos() < final (self).pos(),
            rule_rel(sp_comparison(old(self).tviews(), old(self).pos()), r, final (self).pos()),
        decreases self.tokens@.len() - self.current, 8int,
    {
        let ghost ts = self.tviews();
        let ghost i0 = self.pos();
        let mut expr = match self.term() {
            Ok(e) => e,
            Err(pe) => {
                return Err(pe);
            },
        };
        while self.match_type(&[TokenType::Greater, TokenType::GreaterEqual, TokenType::Less, TokenType::LessEqual])
            invariant
                self.wf(),
                ts == self.tviews(),
                self.tokens == old(self).tokens,
                i0 == old(self).pos(),
                ts == old(self).tviews(),
                expr_wf(expr),
                i0 < self.pos(),
                sp_comparison(ts, i0) == sp_comparison_tail(ts, self.pos(), expr_v(expr)),
            decreases ts.len() - self.pos(),
        {
            let operator = self.previous();
            let ghost q = self.pos() - 1;
            let ghost acc0 = expr_v(expr);
            proof {
                assert(operator@ == ts[q]);
            }
            let right = match self.term() {
                Ok(e) => e,
                Err(pe) => {
                    proof {
                        assert(sp_comparison_tail(ts, q, acc0) == PRes::<ExprV>::Failed(
                            perr_v(pe),
                            self.pos() as int,
                        ));
                    }
                    return Err(pe);
                },
            };
            proof {
                assert(sp_comparison_tail(ts, q, acc0) == sp_comparison_tail(
                    ts,
                    self.pos(),
                    ExprV::Binary {
                        operator: ts[q],
                        left: Box::new(acc0),
                        right: Box::new(expr_v(right)),
                    },
                ));
            }
            expr = Expr::new_binary(expr, operator, right);
        }
        Ok(expr)
    }

    /// `equality -> comparison ( ("!=" | "==") comparison )*`, folded left.
    #[verifier::rlimit(50)]
    fn equality(&mut self) -> (r: Result<Expr, ParseError>)
        requires
            old(self).wf(),
        ensures
            final (self).wf(),
            final (self).tokens == old(self).tokens,
            final (self).tviews() == old(self).tviews(),
            old(self).pos() <= final (self).pos(),
            r is Ok ==> old(self).pos() < final (self).pos(),
            rule_rel(sp_equality(old(self).tviews(), old(self).pos()), r, final (self).pos()),
        decreases self.tokens@.len() - self.current, 10int,
    {
        let ghost ts = self.tviews();
        let ghost i0 = self.pos();
        let mut expr = match self.comparison() {
            Ok(e) => e,
            Err(pe) => {
                return Err(pe);
            },
        };
        while self.match_type(&[TokenType::BangEqual, TokenType::EqualEqual])
            invariant
                self.wf(),
                ts == self.tviews(),
                self.tokens == old(self).tokens,
                i0 == old(self).pos(),
                ts == old(self).tviews(),
                expr_wf(expr),
                i0 < self.pos(),
                sp_equality(ts, i0) == sp_equality_tail(ts, self.pos(), expr_v(expr)),
            decreases ts.len() - self.pos(),
        {
            let operator = self.previous();
            let ghost q = self.pos() - 1;
            let ghost acc0 = expr_v(expr);
            proof {
                assert(operator@ == ts[q]);
            }
            let right = match self.comparison() {
                Ok(e) => e,
                Err(pe) => {
                    proof {
                        assert(sp_equality_tail(ts, q, acc0) == PRes::<ExprV>::Failed(
                            perr_v(pe),
                            self.pos() as int,
                        ));
                    }
                    return Err(pe);
                },
            };
            proof {
                assert(sp_equality_tail(ts, q, acc0) == sp_equality_tail(
                    ts,
                    self.pos(),
                    ExprV::Binary {
                        operator: ts[q],
                        left: Box::new(acc0),
                        right: Box::new(expr_v(right)),
                    },
                ));
            }
            expr = Expr::new_binary(expr, operator, right);
        }
        Ok(expr)
    }

    /// `expression -> equality`.
    fn expression(&mut self) -> (r: Result<Expr, ParseError>)
        requires
            old(self).wf(),
        ensures
            final (self).wf(),
            final (self).tokens == old(self).tokens,
            final (self).tviews() == old(self).tviews(),
            old(self).pos() <= final (self).pos(),
            r is Ok ==> old(self).pos() < final (self).pos(),
            rule_rel(sp_expression(old(self).tviews(), old(self).pos()), r, final (self).pos()),
        decreases self.tokens@.len() - self.current, 11int,
    {
        self.equality()
    }

    /// `"print" expression ";"`, entered after the `print` keyword.
    #[verifier::rlimit(50)]
    fn print_statement(&mut self) -> (r: Result<Stmt, ParseError>)
        requires
            old(self).wf(),
        ensures
            final (self).wf(),
            final (self).tokens == old(self).tokens,
            final (self).tviews() == old(self).tviews(),
            old(self).pos() <= final (self).pos(),
            r is Ok ==> old(self).pos() < final (self).pos(),
            stmt_rel(sp_print_statement(old(self).tviews(), old(self).pos()), r, final (self).pos()),
    {
        let expr = match self.expression() {
            Ok(e) => e,
            Err(pe) => {
                return Err(pe);
            },
        };
        match self.consume(TokenType::Semicolon, "Expect ';' after value.") {
            Ok(_) => Ok(Stmt::Print(expr)),
            Err(pe) => Err(pe),
        }
    }

    /// `expression ";"`, a bare expression statement.
    #[verifier::rlimit(50)]
    fn expression_statement(&mut self) -> (r: Result<Stmt, ParseError>)
        requires
            old(self).wf(),
        ensures
            final (self).wf(),
            final (self).tokens == old(self).tokens,
            final (self).tviews() == old(self).tviews(),
            old(self).pos() <= final (self).pos(),
            r is Ok ==> old(self).pos() < final (self).pos(),
            stmt_rel(
                sp_expression_statement(old(self).tviews(), old(self).pos()),
                r,
                final (self).pos(),
            ),
    {
        let expr = match self.expression() {
            Ok(e) => e,
            Err(pe) => {
                return Err(pe);
            },
        };
        match self.consume(TokenType::Semicolon, "Expect ';' after expression.") {
            Ok(_) => Ok(Stmt::Expression(expr)),
            Err(pe) => Err(pe),
        }
    }

    /// `statement -> "print" expression ";" | expression ";"`.
    #[verifier::rlimit(50)]
    fn statement(&mut self) -> (r: Result<Stmt, ParseError>)
        requires
            old(self).wf(),
        ensures
            final (self).wf(),
            final (self).tokens == old(self).tokens,
            final (self).tviews() == old(self).tviews(),
            old(self).pos() <= final (self).pos(),
            r is Ok ==> old(self).pos() < final (self).pos(),
            stmt_rel(sp_statement(old(self).tviews(), old(self).pos()), r, final (self).pos()),
    {
        if self.match_type(&[TokenType::Print]) {
            return self.print_statement();
        }
        self.expression_statement()
    }

    /// `"var" IDENTIFIER ("=" expression)? ";"`, entered after the `var`
    /// keyword; a missing initializer declares the variable as nil.
    #[verifier::rlimit(50)]
    fn var_declaration(&mut self) -> (r: Result<Stmt, ParseError>)
        requires
            old(self).wf(),
        ensures
            final (self).wf(),
            final (self).tokens == old(self).tokens,
            final (self).tviews() == old(self).tviews(),
            old(self).pos() <= final (self).pos(),
            r is Ok ==> old(self).pos() < final (self).pos(),
            stmt_rel(
                sp_var_declaration(old(self).tviews(), old(self).pos()),
                r,
                final (self).pos(),
            ),
    {
        let name = match self.consume(TokenType::Identifier, "Expect variable name.") {
            Ok(t) => t,
            Err(pe) => {
                return Err(pe);
            },
        };
        let mut initializer = Expr::Literal(Literal::Nil);
        if self.match_type(&[TokenType::Equal]) {
            initializer = match self.expression() {
                Ok(e) => e,
                Err(pe) => {
                    return Err(pe);
                },
            };
        }
        match self.consume(TokenType::Semicolon, "Expect ';' after variable declaration.") {
            Ok(_) => Ok(Stmt::new_variable(name, initializer)),
            Err(pe) => Err(pe),
        }
    }

    /// Panic-mode synchronization: discards tokens until just past a
    /// semicolon or just before a token that begins a new statement.
    #[verifier::rlimit(50)]
    fn synchronize(&mut self)
        requires
            old(self).wf(),
            old(self).pos() >= 1 || !is_end_at(old(self).tviews(), old(self).pos()),
        ensures
            final (self).wf(),
            final (self).tokens == old(self).tokens,
            final (self).tviews() == old(self).tviews(),
            final (self).pos() == sp_sync(old(self).tviews(), old(self).pos()),
            old(self).pos() <= final (self).pos(),
            !is_end_at(old(self).tviews(), old(self).pos()) ==> old(self).pos() < final (self).pos(),
    {
        let ghost ts = self.tviews();
        let _ = self.advance();
        let ghost i1 = self.pos();
        while !self.is_end()
            invariant
                self.wf(),
                ts == self.tviews(),
                self.tokens == old(self).tokens,
                ts == old(self).tviews(),
                old(self).pos() <= i1,
                !is_end_at(ts, old(self).pos()) ==> old(self).pos() < i1,
                sp_sync(ts, old(self).pos()) == sp_sync_loop(ts, i1),
                i1 <= self.pos(),
                self.pos() >= 1 || is_end_at(ts, self.pos()),
                sp_sync_loop(ts, i1) == sp_sync_loop(ts, self.pos()),
            decreases ts.len() - self.pos(),
        {
            if self.previous().token_type == TokenType::Semicolon {
                return ;
            }
            let pt = self.peek().token_type;
            match pt {
                TokenType::Class => {
                    return ;
                },
                TokenType::For => {
                    return ;
                },
                TokenType::Fun => {
                    return ;
                },
                TokenType::If => {
                    return ;
                },
                TokenType::Print => {
                    return ;
                },
                TokenType::Return => {
                    return ;
                },
                TokenType::Var => {
                    return ;
                },
                TokenType::While => {
                    return ;
                },
                _ => {},
            }
            let _ = self.advance();
        }
    }

    /// One declaration with recovery: a syntax error yields the no-op
    /// placeholder and the error, and parsing resumes at the next statement
    /// boundary.
    #[verifier::rlimit(100)]
    fn declaration(&mut self) -> (r: (Stmt, Option<ParseError>))
        requires
            old(self).wf(),
            !is_end_at(old(self).tviews(), old(self).pos()),
        ensures
            final (self).wf(),
            final (self).tokens == old(self).tokens,
            final (self).tviews() == old(self).tviews(),
            old(self).pos() < final (self).pos(),
            ({
                let d = sp_declaration(old(self).tviews(), old(self).pos());
                &&& stmt_v(r.0) == d.0
                &&& stmt_wf(r.0)
                &&& final (self).pos() == d.1
                &&& match r.1 {
                    Some(pe) => d.2 == Some(perr_v(pe)),
                    None => d.2 is None,
                }
            }),
    {
        let stmt = if self.match_type(&[TokenType::Var]) {
            self.var_declaration()
        } else {
            self.statement()
        };
        match stmt {
            Ok(st) => (st, None),
            Err(pe) => {
                self.synchronize();
                (Stmt::Nop, Some(pe))
            },
        }
    }

    /// Parses the whole token sequence into statements, collecting syntax
    /// errors; one error costs at most its own declaration, which the no-op
    /// placeholder stands in for.
    #[verifier::rlimit(50)]
    pub fn parse(&mut self) -> (r: (Vec<Stmt>, Vec<ParseError>))
        requires
            old(self).wf(),
        ensures
            final (self).wf(),
            r.0@.map_values(|st: Stmt| stmt_v(st)) == sp_parse(
                old(self).tviews(),
                old(self).pos(),
            ).0,
            r.1@.map_values(|pe: ParseError| perr_v(pe)) == sp_parse(
                old(self).tviews(),
                old(self).pos(),
            ).1,
            forall|k: int| 0 <= k < r.0@.len() ==> stmt_wf(#[trigger] r.0@[k]),
    {
        let ghost ts = self.tviews();
        let ghost i0 = self.pos();
        let mut statements: Vec<Stmt> = Vec::new();
        let mut errors: Vec<ParseError> = Vec::new();
        proof {
            assert(statements@.map_values(|st: Stmt| stmt_v(st)) =~= Seq::<StmtV>::empty());
            assert(errors@.map_values(|pe: ParseError| perr_v(pe)) =~= Seq::<PErrV>::empty());
            assert(Seq::<StmtV>::empty() + sp_parse(ts, i0).0 =~= sp_parse(ts, i0).0);
            assert(Seq::<PErrV>::empty() + sp_parse(ts, i0).1 =~= sp_parse(ts, i0).1);
        }
        while !self.is_end()
            invariant
                self.wf(),
                ts == self.tviews(),
                ts == old(self).tviews(),
                i0 == old(self).pos(),
                i0 <= self.pos(),
                sp_parse(ts, i0).0 == statements@.map_values(|st: Stmt| stmt_v(st)) + sp_parse(
                    ts,
                    self.pos(),
                ).0,
                sp_parse(ts, i0).1 == errors@.map_values(|pe: ParseError| perr_v(pe)) + sp_parse(
                    ts,
                    self.pos(),
                ).1,
                forall|k: int| 0 <= k < statements@.len() ==> stmt_wf(#[trigger] statements@[k]),
            decreases ts.len() - self.pos(),
        {
            let ghost p = self.pos();
            let ghost stmts0 = statements@.map_values(|st: Stmt| stmt_v(st));
            let ghost errs0 = errors@.map_values(|pe: ParseError| perr_v(pe));
            let (st, err) = self.declaration();
            let ghost d = sp_declaration(ts, p);
            proof {
                assert(sp_parse(ts, p).0 == seq![d.0] + sp_parse(ts, d.1).0);
                assert(sp_parse(ts, p).1 == (match d.2 {
                    Some(e) => seq![e],
                    None => Seq::<PErrV>::empty(),
                }) + sp_parse(ts, d.1).1);
            }
            let ghost stv = stmt_v(st);
            statements.push(st);
            proof {
                assert(statements@.map_values(|st: Stmt| stmt_v(st)) =~= stmts0.push(stv));
                assert(stmts0 + (seq![d.0] + sp_parse(ts, d.1).0) =~= stmts0.push(d.0) + sp_parse(
                    ts,
                    d.1,
                ).0);
            }
            match err {
                Some(pe) => {
                    let ghost pev = perr_v(pe);
                    errors.push(pe);
                    proof {
                        assert(errors@.map_values(|pe: ParseError| perr_v(pe)) =~= errs0.push(pev));
                        assert(errs0 + (seq![pev] + sp_parse(ts, d.1).1) =~= errs0.push(pev)
                            + sp_parse(ts, d.1).1);
                    }
                },
                None => {
                    proof {
                        assert(errs0 + (Seq::<PErrV>::empty() + sp_parse(ts, d.1).1) =~= errs0
                            + sp_parse(ts, d.1).1);
                    }
                },
            }
        }
        proof {
            assert(sp_parse(ts, self.pos()).0 =~= Seq::<StmtV>::empty());
            assert(sp_parse(ts, self.pos()).1 =~= Seq::<PErrV>::empty());
            assert(statements@.map_values(|st: Stmt| stmt_v(st)) + Seq::<StmtV>::empty()
                =~= statements@.map_values(|st: Stmt| stmt_v(st)));
            assert(errors@.map_values(|pe: ParseError| perr_v(pe)) + Seq::<PErrV>::empty()
                =~= errors@.map_values(|pe: ParseError| perr_v(pe)));
        }
        (statements, errors)
    }
}

} // verus!
