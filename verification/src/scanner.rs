//! The scanner: one left-to-right pass over the source text producing the
//! token sequence, collecting lexical errors without stopping, and tracking
//! a 1-based line counter for diagnostics. The function `spec_scan` states
//! exactly which tokens and errors a source text yields.
use crate::ast::{Literal, ValV};
use crate::number::{Decimal, SCALE};
use crate::text::chars_to_string;
use crate::token::{token_wf, Token, TokenType, TokenV};
use vstd::prelude::*;

verus! {

/// Largest whole part a numeric literal may have: the whole digits must
/// stay below 10^14 for the scaled value to be representable.
pub const WHOLE_LIMIT: u128 = 100_000_000_000_000;

/// A lexical error: the source line it was noticed on and a message.
#[derive(Debug)]
pub struct ScanError {
    pub line: usize,
    pub message: String,
}

/// The mathematical shadow of a lexical error.
pub ghost struct ScanErrV {
    pub line: int,
    pub msg: Seq<char>,
}

impl View for ScanError {
    type V = ScanErrV;

    open spec fn view(&self) -> ScanErrV {
        ScanErrV { line: self.line as int, msg: self.message@ }
    }
}

// ---------------------------------------------------------------------------
// Character classes
// ---------------------------------------------------------------------------
pub open spec fn is_digit(c: char) -> bool {
    '0' as int <= c as int <= '9' as int
}

/// Identifier start characters: ASCII letters and the underscore.
pub open spec fn is_alpha(c: char) -> bool {
    ||| 'a' as int <= c as int <= 'z' as int
    ||| 'A' as int <= c as int <= 'Z' as int
    ||| c == '_'
}

pub open spec fn is_alnum(c: char) -> bool {
    is_alpha(c) || is_digit(c)
}

pub open spec fn digit_val(c: char) -> int {
    c as int - '0' as int
}

pub fn ch_is_digit(c: char) -> (r: bool)
    ensures
        r == is_digit(c),
{
    c as u32 >= '0' as u32 && c as u32 <= '9' as u32
}

pub fn ch_is_alpha(c: char) -> (r: bool)
    ensures
        r == is_alpha(c),
{
    (c as u32 >= 'a' as u32 && c as u32 <= 'z' as u32) || (c as u32 >= 'A' as u32 && c as u32
        <= 'Z' as u32) || c == '_'
}

pub fn ch_is_alnum(c: char) -> (r: bool)
    ensures
        r == is_alnum(c),
{
    ch_is_alpha(c) || ch_is_digit(c)
}

fn ch_digit_val(c: char) -> (r: u128)
    requires
        is_digit(c),
    ensures
        r == digit_val(c),
        r < 10,
{
    (c as u32 - '0' as u32) as u128
}

// ---------------------------------------------------------------------------
// Position helpers: where a lexeme that starts at a position ends
// ---------------------------------------------------------------------------
/// The first position at or after `i` holding a newline, or the length.
pub open spec fn comment_end(s: Seq<char>, i: int) -> int
    decreases s.len() - i,
{
    if i < 0 || i >= s.len() {
        s.len() as int
    } else if s[i] == '\n' {
        i
    } else {
        comment_end(s, i + 1)
    }
}

/// The first position at or after `i` not holding a digit, or the length.
pub open spec fn digits_end(s: Seq<char>, i: int) -> int
    decreases s.len() - i,
{
    if i < 0 || i >= s.len() {
        s.len() as int
    } else if !is_digit(s[i]) {
        i
    } else {
        digits_end(s, i + 1)
    }
}

/// The first position at or after `i` not holding an identifier character,
/// or the length.
pub open spec fn ident_end(s: Seq<char>, i: int) -> int
    decreases s.len() - i,
{
    if i < 0 || i >= s.len() {
        s.len() as int
    } else if !is_alnum(s[i]) {
        i
    } else {
        ident_end(s, i + 1)
    }
}

/// The first position at or after `i` holding a double quote, or the length.
pub open spec fn string_end(s: Seq<char>, i: int) -> int
    decreases s.len() - i,
{
    if i < 0 || i >= s.len() {
        s.len() as int
    } else if s[i] == '"' {
        i
    } else {
        string_end(s, i + 1)
    }
}

/// How many newlines lie in `s[i..j)`.
pub open spec fn newlines_between(s: Seq<char>, i: int, j: int) -> int
    decreases j - i,
{
    if i < 0 || i >= j {
        0
    } else {
        (if i < s.len() && s[i] == '\n' {
            1int
        } else {
            0int
        }) + newlines_between(s, i + 1, j)
    }
}

proof fn lemma_comment_end(s: Seq<char>, i: int)
    requires
        0 <= i <= s.len(),
    ensures
        i <= comment_end(s, i) <= s.len(),
        comment_end(s, i) < s.len() ==> s[comment_end(s, i)] == '\n',
        forall|k: int| i <= k < comment_end(s, i) ==> s[k] != '\n',
    decreases s.len() - i,
{
    if i < s.len() && s[i] != '\n' {
        lemma_comment_end(s, i + 1);
    }
}

proof fn lemma_digits_end(s: Seq<char>, i: int)
    requires
        0 <= i <= s.len(),
    ensures
        i <= digits_end(s, i) <= s.len(),
        digits_end(s, i) < s.len() ==> !is_digit(s[digits_end(s, i)]),
        forall|k: int| i <= k < digits_end(s, i) ==> is_digit(#[trigger] s[k]),
    decreases s.len() - i,
{
    if i < s.len() && is_digit(s[i]) {
        lemma_digits_end(s, i + 1);
    }
}

proof fn lemma_ident_end(s: Seq<char>, i: int)
    requires
        0 <= i <= s.len(),
    ensures
        i <= ident_end(s, i) <= s.len(),
        ident_end(s, i) < s.len() ==> !is_alnum(s[ident_end(s, i)]),
        forall|k: int| i <= k < ident_end(s, i) ==> is_alnum(#[trigger] s[k]),
    decreases s.len() - i,
{
    if i < s.len() && is_alnum(s[i]) {
        lemma_ident_end(s, i + 1);
    }
}

pub proof fn lemma_string_end(s: Seq<char>, i: int)
    requires
        0 <= i <= s.len(),
    ensures
        i <= string_end(s, i) <= s.len(),
        string_end(s, i) < s.len() ==> s[string_end(s, i)] == '"',
        forall|k: int| i <= k < string_end(s, i) ==> s[k] != '"',
    decreases s.len() - i,
{
    if i < s.len() && s[i] != '"' {
        lemma_string_end(s, i + 1);
    }
}

proof fn lemma_newlines_bounds(s: Seq<char>, i: int, j: int)
    requires
        0 <= i,
    ensures
        0 <= newlines_between(s, i, j) <= (if j >= i {
            j - i
        } else {
            0
        }),
    decreases j - i,
{
    if i < j {
        lemma_newlines_bounds(s, i + 1, j);
    }
}

/// Extending the right end of the range by one position adds one newline
/// exactly when that position holds one.
proof fn lemma_newlines_snoc(s: Seq<char>, i: int, j: int)
    requires
        0 <= i <= j < s.len(),
    ensures
        newlines_between(s, i, j + 1) == newlines_between(s, i, j) + (if s[j] == '\n' {
            1int
        } else {
            0int
        }),
    decreases j - i,
{
    if i < j {
        lemma_newlines_snoc(s, i + 1, j);
    } else {
        assert(newlines_between(s, j + 1, j + 1) == 0);
    }
}

// ---------------------------------------------------------------------------
// Numeric and keyword values
// ---------------------------------------------------------------------------
/// The value of a digit string read in base ten.
pub open spec fn digits_value(ds: Seq<char>) -> int
    decreases ds.len(),
{
    if ds.len() == 0 {
        0
    } else {
        digits_value(ds.drop_last()) * 10 + digit_val(ds.last())
    }
}

pub open spec fn pow10(e: nat) -> int
    decreases e,
{
    if e == 0 {
        1
    } else {
        10 * pow10((e - 1) as nat)
    }
}

/// The scaled value contributed by the fraction digits: only the first
/// twelve count, weighted down to the representation's granularity.
pub open spec fn frac_value(ds: Seq<char>) -> int {
    if ds.len() == 0 {
        0
    } else {
        let c = if ds.len() > 12 {
            12int
        } else {
            ds.len() as int
        };
        digits_value(ds.take(c)) * pow10((12 - c) as nat)
    }
}

/// The scaled value of a numeric literal with the given whole and fraction
/// digit strings.
pub open spec fn number_value(whole: Seq<char>, frac: Seq<char>) -> int {
    digits_value(whole) * (SCALE as int) + frac_value(frac)
}

/// The keyword table: the fixed reserved words of the language.
pub open spec fn spec_keyword(lex: Seq<char>) -> Option<TokenType> {
    if lex == "and"@ {
        Some(TokenType::And)
    } else if lex == "class"@ {
        Some(TokenType::Class)
    } else if lex == "else"@ {
        Some(TokenType::Else)
    } else if lex == "false"@ {
        Some(TokenType::False)
    } else if lex == "for"@ {
        Some(TokenType::For)
    } else if lex == "fun"@ {
        Some(TokenType::Fun)
    } else if lex == "if"@ {
        Some(TokenType::If)
    } else if lex == "nil"@ {
        Some(TokenType::Nil)
    } else if lex == "or"@ {
        Some(TokenType::Or)
    } else if lex == "print"@ {
        Some(TokenType::Print)
    } else if lex == "return"@ {
        Some(TokenType::Return)
    } else if lex == "super"@ {
        Some(TokenType::Super)
    } else if lex == "this"@ {
        Some(TokenType::This)
    } else if lex == "true"@ {
        Some(TokenType::True)
    } else if lex == "var"@ {
        Some(TokenType::Var)
    } else if lex == "while"@ {
        Some(TokenType::While)
    } else {
        None
    }
}

/// The token type a reserved word scans to, or None for a user identifier.
pub fn is_keyword(lexeme: &String) -> (r: Option<TokenType>)
    ensures
        r == spec_keyword(lexeme@),
{
    if lexeme.eq(&String::from_str("and")) {
        Some(TokenType::And)
    } else if lexeme.eq(&String::from_str("class")) {
        Some(TokenType::Class)
    } else if lexeme.eq(&String::from_str("else")) {
        Some(TokenType::Else)
    } else if lexeme.eq(&String::from_str("false")) {
        Some(TokenType::False)
    } else if lexeme.eq(&String::from_str("for")) {
        Some(TokenType::For)
    } else if lexeme.eq(&String::from_str("fun")) {
        Some(TokenType::Fun)
    } else if lexeme.eq(&String::from_str("if")) {
        Some(TokenType::If)
    } else if lexeme.eq(&String::from_str("nil")) {
        Some(TokenType::Nil)
    } else if lexeme.eq(&String::from_str("or")) {
        Some(TokenType::Or)
    } else if lexeme.eq(&String::from_str("print")) {
        Some(TokenType::Print)
    } else if lexeme.eq(&String::from_str("return")) {
        Some(TokenType::Return)
    } else if lexeme.eq(&String::from_str("super")) {
        Some(TokenType::Super)
    } else if lexeme.eq(&String::from_str("this")) {
        Some(TokenType::This)
    } else if lexeme.eq(&String::from_str("true")) {
        Some(TokenType::True)
    } else if lexeme.eq(&String::from_str("var")) {
        Some(TokenType::Var)
    } else if lexeme.eq(&String::from_str("while")) {
        Some(TokenType::While)
    } else {
        None
    }
}

// ---------------------------------------------------------------------------
// One scanning step
// ---------------------------------------------------------------------------
/// The effect of scanning one logical token starting at position `i` on
/// line `line`: where scanning resumes, the line counter there, and the
/// token or lexical error produced, if any.
pub ghost struct ScanStep {
    pub next: int,
    pub line: int,
    pub token: Option<TokenV>,
    pub error: Option<ScanErrV>,
}

pub open spec fn single_token(tt: TokenType, s: Seq<char>, i: int, width: int, line: int) -> TokenV {
    TokenV { token_type: tt, lexeme: s.subrange(i, i + width), literal: None, line }
}

pub open spec fn step_token(tt: TokenType, s: Seq<char>, i: int, width: int, line: int) -> ScanStep {
    ScanStep { next: i + width, line, token: Some(single_token(tt, s, i, width, line)), error: None }
}

pub open spec fn step_skip(i: int, line: int) -> ScanStep {
    ScanStep { next: i + 1, line, token: None, error: None }
}

/// A one- or two-character operator: the two-character form when the next
/// character is `=`.
pub open spec fn step_operator(one: TokenType, two: TokenType, s: Seq<char>, i: int, line: int) -> ScanStep {
    if i + 1 < s.len() && s[i + 1] == '=' {
        step_token(two, s, i, 2, line)
    } else {
        step_token(one, s, i, 1, line)
    }
}

/// A string literal: runs to the closing quote, counting embedded newlines;
/// reaching the end of input first is a lexical error and yields no token.
pub open spec fn step_string(s: Seq<char>, i: int, line: int) -> ScanStep {
    let e = string_end(s, i + 1);
    let l2 = line + newlines_between(s, i + 1, e);
    if e >= s.len() {
        ScanStep {
            next: s.len() as int,
            line: l2,
            token: None,
            error: Some(ScanErrV { line: l2, msg: "Unterminated string"@ }),
        }
    } else {
        ScanStep {
            next: e + 1,
            line: l2,
            token: Some(
                TokenV {
                    token_type: TokenType::Str,
                    lexeme: s.subrange(i, e + 1),
                    literal: Some(ValV::Str(s.subrange(i + 1, e))),
                    line: l2,
                },
            ),
            error: None,
        }
    }
}

/// A numeric literal: one or more digits, optionally one point and one or
/// more digits. A whole part at or above 10^14 does not fit the value range
/// and is a lexical error; fraction digits past the twelfth are dropped.
pub open spec fn step_number(s: Seq<char>, i: int, line: int) -> ScanStep {
    let j1 = digits_end(s, i);
    let has_frac = j1 + 1 < s.len() && s[j1] == '.' && is_digit(s[j1 + 1]);
    let end = if has_frac {
        digits_end(s, j1 + 1)
    } else {
        j1
    };
    let whole = s.subrange(i, j1);
    let frac = if has_frac {
        s.subrange(j1 + 1, end)
    } else {
        Seq::<char>::empty()
    };
    if digits_value(whole) >= WHOLE_LIMIT as int {
        ScanStep {
            next: end,
            line,
            token: None,
            error: Some(ScanErrV { line, msg: "Number too large"@ }),
        }
    } else {
        ScanStep {
            next: end,
            line,
            token: Some(
                TokenV {
                    token_type: TokenType::Number,
                    lexeme: s.subrange(i, end),
                    literal: Some(ValV::Num(number_value(whole, frac))),
                    line,
                },
            ),
            error: None,
        }
    }
}

/// An identifier or reserved word.
pub open spec fn step_ident(s: Seq<char>, i: int, line: int) -> ScanStep {
    let j = ident_end(s, i);
    let lex = s.subrange(i, j);
    let tt = match spec_keyword(lex) {
        Some(k) => k,
        None => TokenType::Identifier,
    };
    ScanStep {
        next: j,
        line,
        token: Some(TokenV { token_type: tt, lexeme: lex, literal: None, line }),
        error: None,
    }
}

/// One scanning step at position `i` (which must hold a character): the
/// dispatch on the character there.
pub open spec fn spec_step(s: Seq<char>, i: int, line: int) -> ScanStep {
    let c = s[i];
    if c == '(' {
        step_token(TokenType::LeftParen, s, i, 1, line)
    } else if c == ')' {
        step_token(TokenType::RightParen, s, i, 1, line)
    } else if c == '{' {
        step_token(TokenType::LeftBrace, s, i, 1, line)
    } else if c == '}' {
        step_token(TokenType::RightBrace, s, i, 1, line)
    } else if c == ',' {
        step_token(TokenType::Comma, s, i, 1, line)
    } else if c == '.' {
        step_token(TokenType::Dot, s, i, 1, line)
    } else if c == '-' {
        step_token(TokenType::Minus, s, i, 1, line)
    } else if c == '+' {
        step_token(TokenType::Plus, s, i, 1, line)
    } else if c == ';' {
        step_token(TokenType::Semicolon, s, i, 1, line)
    } else if c == '*' {
        step_token(TokenType::Star, s, i, 1, line)
    } else if c == '/' {
        if i + 1 < s.len() && s[i + 1] == '/' {
            ScanStep { next: comment_end(s, i + 2), line, token: None, error: None }
        } else {
            step_token(TokenType::Slash, s, i, 1, line)
        }
    } else if c == '!' {
        step_operator(TokenType::Bang, TokenType::BangEqual, s, i, line)
    } else if c == '=' {
        step_operator(TokenType::Equal, TokenType::EqualEqual, s, i, line)
    } else if c == '<' {
        step_operator(TokenType::Less, TokenType::LessEqual, s, i, line)
    } else if c == '>' {
        step_operator(TokenType::Greater, TokenType::GreaterEqual, s, i, line)
    } else if c == '"' {
        step_string(s, i, line)
    } else if is_digit(c) {
        step_number(s, i, line)
    } else if is_alpha(c) {
        step_ident(s, i, line)
    } else if c == ' ' || c == '\r' || c == '\t' {
        step_skip(i, line)
    } else if c == '\n' {
        ScanStep { next: i + 1, line: line + 1, token: None, error: None }
    } else {
        ScanStep {
            next: i + 1,
            line,
            token: None,
            error: Some(ScanErrV { line, msg: "Unexpected character: "@.push(c) }),
        }
    }
}

pub open spec fn opt_seq<T>(o: Option<T>) -> Seq<T> {
    match o {
        Some(x) => seq![x],
        None => Seq::empty(),
    }
}

pub open spec fn eof_token(line: int) -> TokenV {
    TokenV { token_type: TokenType::Eof, lexeme: Seq::empty(), literal: None, line }
}

/// Everything scanning produces: the token sequence (ending in the
/// end-of-input sentinel) and the lexical errors, in source order.
pub ghost struct ScanOut {
    pub tokens: Seq<TokenV>,
    pub errors: Seq<ScanErrV>,
}

/// Scanning from position `i` on line `line` to the end of the text.
pub open spec fn spec_scan_from(s: Seq<char>, i: int, line: int) -> ScanOut
    decreases s.len() - i,
{
    if i < 0 || i >= s.len() {
        ScanOut { tokens: seq![eof_token(line)], errors: Seq::empty() }
    } else {
        let st = spec_step(s, i, line);
        let nx = if i < st.next <= s.len() {
            st.next
        } else {
            i + 1
        };
        let rest = spec_scan_from(s, nx, st.line);
        ScanOut { tokens: opt_seq(st.token) + rest.tokens, errors: opt_seq(st.error) + rest.errors }
    }
}

/// What scanning a whole source text yields.
pub open spec fn spec_scan(s: Seq<char>) -> ScanOut {
    spec_scan_from(s, 0, 1)
}

/// Every step moves forward and stays within the text, so the clamp in
/// `spec_scan_from` never alters the step's own next position.
proof fn lemma_step_bounds(s: Seq<char>, i: int, line: int)
    requires
        0 <= i < s.len(),
    ensures
        i < spec_step(s, i, line).next <= s.len(),
    decreases 0int,
{
    let c = s[i];
    if c == '/' && i + 1 < s.len() && s[i + 1] == '/' {
        lemma_comment_end(s, i + 2);
    } else if c == '"' {
        lemma_string_end(s, i + 1);
    } else if !(c == '(' || c == ')' || c == '{' || c == '}' || c == ',' || c == '.' || c == '-'
        || c == '+' || c == ';' || c == '*' || c == '/' || c == '!' || c == '=' || c == '<' || c
        == '>') && is_digit(c) {
        let j1 = digits_end(s, i);
        lemma_digits_end(s, i);
        assert(j1 > i);
        if j1 + 1 < s.len() && s[j1] == '.' && is_digit(s[j1 + 1]) {
            lemma_digits_end(s, j1 + 1);
        }
    } else if !(c == '(' || c == ')' || c == '{' || c == '}' || c == ',' || c == '.' || c == '-'
        || c == '+' || c == ';' || c == '*' || c == '/' || c == '!' || c == '=' || c == '<' || c
        == '>') && is_alpha(c) {
        lemma_ident_end(s, i);
        assert(ident_end(s, i) > i);
    }
}

// ---------------------------------------------------------------------------
// Value lemmas for numeric literals
// ---------------------------------------------------------------------------
pub open spec fn all_digits(ds: Seq<char>) -> bool {
    forall|k: int| 0 <= k < ds.len() ==> is_digit(#[trigger] ds[k])
}

proof fn lemma_dv_nonneg(ds: Seq<char>)
    requires
        all_digits(ds),
    ensures
        digits_value(ds) >= 0,
    decreases ds.len(),
{
    if ds.len() > 0 {
        assert(all_digits(ds.drop_last()));
        lemma_dv_nonneg(ds.drop_last());
    }
}

/// Dropping trailing digits cannot increase the value.
proof fn lemma_dv_prefix(ds: Seq<char>, k: int)
    requires
        all_digits(ds),
        0 <= k <= ds.len(),
    ensures
        digits_value(ds.take(k)) <= digits_value(ds),
    decreases ds.len(),
{
    if k < ds.len() {
        assert(all_digits(ds.drop_last()));
        assert(ds.take(k) =~= ds.drop_last().take(k));
        lemma_dv_prefix(ds.drop_last(), k);
        lemma_dv_nonneg(ds.drop_last());
    } else {
        assert(ds.take(k) =~= ds);
    }
}

/// A digit string's value is below ten to its length.
proof fn lemma_dv_bound(ds: Seq<char>)
    requires
        all_digits(ds),
    ensures
        digits_value(ds) < pow10(ds.len()),
    decreases ds.len(),
{
    if ds.len() > 0 {
        assert(all_digits(ds.drop_last()));
        lemma_dv_bound(ds.drop_last());
    }
}

proof fn lemma_pow10_pos(e: nat)
    ensures
        pow10(e) >= 1,
    decreases e,
{
    if e > 0 {
        lemma_pow10_pos((e - 1) as nat);
    }
}

proof fn lemma_pow10_adds(a: nat, b: nat)
    ensures
        pow10(a + b) == pow10(a) * pow10(b),
    decreases a,
{
    if a == 0 {
    } else {
        lemma_pow10_adds((a - 1) as nat, b);
        assert(pow10(a + b) == 10 * pow10((a + b - 1) as nat));
        assert(10 * (pow10((a - 1) as nat) * pow10(b)) == (10 * pow10((a - 1) as nat)) * pow10(b))
            by (nonlinear_arith);
    }
}

#[verifier::rlimit(50)]
fn pow10_exec(e: usize) -> (r: u128)
    requires
        e <= 26,
    ensures
        r as int == pow10(e as nat),
{
    let mut r: u128 = 1;
    let mut j: usize = 0;
    proof {
        lemma_pow10_pos(26);
    }
    while j < e
        invariant
            j <= e <= 26,
            r as int == pow10(j as nat),
            r as int <= pow10(26),
        decreases e - j,
    {
        proof {
            lemma_pow10_adds(j as nat, (26 - j) as nat);
            lemma_pow10_pos((26 - j) as nat);
            lemma_pow10_pos((25 - j) as nat);
            lemma_pow10_pos((j + 1) as nat);
            assert(pow10(26) == pow10((j + 1) as nat) * pow10((25 - j) as nat)) by {
                lemma_pow10_adds((j + 1) as nat, (25 - j) as nat);
            }
            assert(pow10((j + 1) as nat) <= pow10(26)) by (nonlinear_arith)
                requires
                    pow10(26) == pow10((j + 1) as nat) * pow10((25 - j) as nat),
                    pow10((25 - j) as nat) >= 1,
                    pow10((j + 1) as nat) >= 1,
            ;
            assert(pow10(26) == 100_000_000_000_000_000_000_000_000) by {
                reveal_with_fuel(pow10, 27);
            }
        }
        r = r * 10;
        j += 1;
    }
    r
}

// ---------------------------------------------------------------------------
// The scanner itself
// ---------------------------------------------------------------------------
/// The relation between a token vector before and after one scanning step:
/// the old tokens stay in place and the appended ones (at most one) have the
/// given shadows and are well formed.
pub open spec fn tokens_appended(old_t: Seq<Token>, new_t: Seq<Token>, added: Seq<TokenV>) -> bool {
    &&& new_t.map_values(|t: Token| t@) == old_t.map_values(|t: Token| t@) + added
    &&& forall|k: int| 0 <= k < old_t.len() ==> new_t[k] == old_t[k]
    &&& forall|k: int| old_t.len() <= k < new_t.len() ==> token_wf(#[trigger] new_t[k])
}

pub open spec fn errors_appended(old_e: Seq<ScanError>, new_e: Seq<ScanError>, added: Seq<ScanErrV>) -> bool {
    &&& new_e.map_values(|e: ScanError| e@) == old_e.map_values(|e: ScanError| e@) + added
    &&& forall|k: int| 0 <= k < old_e.len() ==> new_e[k] == old_e[k]
}

/// The scanner's single pass: source characters, the tokens and errors
/// collected so far, the start of the lexeme in hand, the current position,
/// and the line counter.
pub struct Scanner {
    source: Vec<char>,
    tokens: Vec<Token>,
    errors: Vec<ScanError>,
    start: usize,
    current: usize,
    line: usize,
}

impl Scanner {
    /// The characters being scanned.
    pub closed spec fn src(&self) -> Seq<char> {
        self.source@
    }

    /// A scanner as `new` returns it: at the start, nothing collected.
    pub closed spec fn fresh(&self) -> bool {
        &&& self.current == 0
        &&& self.start == 0
        &&& self.line == 1
        &&& self.tokens@.len() == 0
        &&& self.errors@.len() == 0
    }

    spec fn same_except_pos(self, other: Scanner) -> bool {
        &&& self.source == other.source
        &&& self.tokens == other.tokens
        &&& self.errors == other.errors
        &&& self.start == other.start
        &&& self.line == other.line
    }

    pub fn new(source: String) -> (r: Scanner)
        ensures
            r.src() == source@,
            r.fresh(),
    {
        Scanner {
            current: 0,
            line: 1,
            source: crate::text::str_chars(source.as_str()),
            start: 0,
            tokens: Vec::new(),
            errors: Vec::new(),
        }
    }

    fn is_end(&self) -> (r: bool)
        ensures
            r == (self.current as int >= self.source@.len()),
    {
        self.current >= self.source.len()
    }

    fn cur_char(&self) -> (c: char)
        requires
            (self.current as int) < self.source@.len(),
        ensures
            c == self.source@[self.current as int],
    {
        self.source[self.current]
    }

    fn advance(&mut self) -> (c: char)
        requires
            (old(self).current as int) < old(self).source@.len(),
        ensures
            old(self).same_except_pos(*final (self)),
            final (self).current == old(self).current + 1,
            c == old(self).source@[old(self).current as int],
    {
        let c = self.cur_char();
        let n = self.source.len();
        self.current = self.current + 1;
        c
    }

    fn peek(&self) -> (c: char)
        ensures
            c == if self.current as int >= self.source@.len() {
                '\u{0}'
            } else {
                self.source@[self.current as int]
            },
    {
        if self.is_end() {
            return '\u{0}';
        }
        self.cur_char()
    }

    fn peek_next(&self) -> (c: char)
        ensures
            c == if self.current as int + 1 >= self.source@.len() {
                '\u{0}'
            } else {
                self.source@[self.current as int + 1]
            },
    {
        let n = self.source.len();
        if n == 0 || self.current >= n - 1 {
            return '\u{0}';
        }
        self.source[self.current + 1]
    }

    fn char_match(&mut self, expected: char) -> (r: bool)
        requires
            old(self).current <= old(self).source@.len(),
        ensures
            old(self).same_except_pos(*final (self)),
            r == ((old(self).current as int) < old(self).source@.len() && old(self).source@[old(
                self,
            ).current as int] == expected),
            final (self).current == old(self).current + (if r {
                1int
            } else {
                0int
            }),
    {
        if self.is_end() || self.cur_char() != expected {
            return false;
        }
        let n = self.source.len();
        self.current = self.current + 1;
        true
    }

    fn add_token(&mut self, token_type: TokenType)
        requires
            old(self).start <= old(self).current,
            old(self).current as int <= old(self).source@.len(),
            token_type != TokenType::Number && token_type != TokenType::Str,
        ensures
            tokens_appended(
                old(self).tokens@,
                final (self).tokens@,
                seq![
                    TokenV {
                        token_type,
                        lexeme: old(self).source@.subrange(
                            old(self).start as int,
                            old(self).current as int,
                        ),
                        literal: None,
                        line: old(self).line as int,
                    },
                ],
            ),
            final (self).errors == old(self).errors,
            final (self).source == old(self).source,
            final (self).start == old(self).start,
            final (self).current == old(self).current,
            final (self).line == old(self).line,
    {
        let text = chars_to_string(&self.source, self.start, self.current);
        let t = Token::new(token_type, text, None, self.line);
        let ghost pre = self.tokens@;
        self.tokens.push(t);
        proof {
            assert(self.tokens@.map_values(|t: Token| t@) =~= pre.map_values(|t: Token| t@)
                + seq![t@]);
        }
    }

    fn add_token_val(&mut self, token_type: TokenType, val: Literal)
        requires
            old(self).start <= old(self).current,
            old(self).current as int <= old(self).source@.len(),
            crate::ast::lit_wf(val),
            (token_type == TokenType::Number <==> val is Number),
            (token_type == TokenType::Str <==> val is Str),
            val is Number || val is Str,
        ensures
            tokens_appended(
                old(self).tokens@,
                final (self).tokens@,
                seq![
                    TokenV {
                        token_type,
                        lexeme: old(self).source@.subrange(
                            old(self).start as int,
                            old(self).current as int,
                        ),
                        literal: Some(val@),
                        line: old(self).line as int,
                    },
                ],
            ),
            final (self).errors == old(self).errors,
            final (self).source == old(self).source,
            final (self).start == old(self).start,
            final (self).current == old(self).current,
            final (self).line == old(self).line,
    {
        let text = chars_to_string(&self.source, self.start, self.current);
        let t = Token::new(token_type, text, Some(val), self.line);
        let ghost pre = self.tokens@;
        self.tokens.push(t);
        proof {
            assert(self.tokens@.map_values(|t: Token| t@) =~= pre.map_values(|t: Token| t@)
                + seq![t@]);
        }
    }

    /// Scans a string literal; the opening quote is already consumed. Runs
    /// to the closing quote, counting embedded newlines; reaching the end of
    /// input first records a lexical error and emits no token.
    fn string(&mut self)
        requires
            old(self).start as int + 1 == old(self).current as int,
            (old(self).start as int) < old(self).source@.len(),
            old(self).source@[old(self).start as int] == '"',
            old(self).source@.len() < usize::MAX as int,
            1 <= old(self).line,
            old(self).line as int <= 1 + old(self).start as int,
        ensures
            ({
                let st = step_string(
                    old(self).source@,
                    old(self).start as int,
                    old(self).line as int,
                );
                &&& final (self).source == old(self).source
                &&& final (self).start == old(self).start
                &&& final (self).current as int == st.next
                &&& final (self).line as int == st.line
                &&& tokens_appended(old(self).tokens@, final (self).tokens@, opt_seq(st.token))
                &&& errors_appended(old(self).errors@, final (self).errors@, opt_seq(st.error))
            }),
    {
        let ghost s = self.source@;
        let ghost i = self.start as int;
        let ghost line0 = self.line as int;
        let ghost pre = *self;
        proof {
            lemma_string_end(s, i + 1);
            lemma_newlines_bounds(s, i + 1, string_end(s, i + 1));
        }
        while !self.is_end() && self.cur_char() != '"'
            invariant
                self.source == pre.source,
                self.source@ == s,
                self.start as int == i,
                0 <= i,
                i + 1 <= self.current as int <= s.len(),
                s.len() < usize::MAX as int,
                string_end(s, i + 1) == string_end(s, self.current as int),
                self.line as int == line0 + newlines_between(s, i + 1, self.current as int),
                1 <= line0 <= 1 + i,
                self.tokens == pre.tokens,
                self.errors == pre.errors,
            decreases s.len() - self.current,
        {
            proof {
                lemma_newlines_snoc(s, i + 1, self.current as int);
                lemma_newlines_bounds(s, i + 1, self.current as int);
            }
            if self.cur_char() == '\n' {
                self.line = self.line + 1;
            }
            let _ = self.advance();
        }
        if self.is_end() {
            let e = ScanError {
                line: self.line,
                message: String::from_str("Unterminated string"),
            };
            let ghost ev = e@;
            let ghost pre_errs = self.errors@;
            self.errors.push(e);
            proof {
                assert(self.errors@.map_values(|x: ScanError| x@) =~= pre_errs.map_values(
                    |x: ScanError| x@,
                ) + seq![ev]);
                assert(self.tokens@.map_values(|t: Token| t@) =~= pre.tokens@.map_values(
                    |t: Token| t@,
                ) + Seq::<TokenV>::empty());
            }
        } else {
            let _ = self.advance();
            let text = chars_to_string(&self.source, self.start + 1, self.current - 1);
            self.add_token_val(TokenType::Str, Literal::Str(text));
            proof {
                assert(self.errors@.map_values(|x: ScanError| x@) =~= pre.errors@.map_values(
                    |x: ScanError| x@,
                ) + Seq::<ScanErrV>::empty());
            }
        }
    }

    /// Scans a numeric literal; the first digit is already consumed. One or
    /// more digits, optionally one point followed by one or more digits; a
    /// whole part too large for the value range is a lexical error.
    fn number(&mut self)
        requires
            old(self).start as int + 1 == old(self).current as int,
            (old(self).start as int) < old(self).source@.len(),
            is_digit(old(self).source@[old(self).start as int]),
            old(self).source@.len() < usize::MAX as int,
        ensures
            ({
                let st = step_number(
                    old(self).source@,
                    old(self).start as int,
                    old(self).line as int,
                );
                &&& final (self).source == old(self).source
                &&& final (self).start == old(self).start
                &&& final (self).line == old(self).line
                &&& final (self).current as int == st.next
                &&& tokens_appended(old(self).tokens@, final (self).tokens@, opt_seq(st.token))
                &&& errors_appended(old(self).errors@, final (self).errors@, opt_seq(st.error))
            }),
    {
        let ghost s = self.source@;
        let ghost i = self.start as int;
        let ghost pre = *self;
        proof {
            lemma_digits_end(s, i);
        }
        while !self.is_end() && ch_is_digit(self.cur_char())
            invariant
                self.source == pre.source,
                self.source@ == s,
                self.start as int == i,
                0 <= i,
                i + 1 <= self.current as int <= s.len(),
                s.len() < usize::MAX as int,
                digits_end(s, i) == digits_end(s, self.current as int),
                self.tokens == pre.tokens,
                self.errors == pre.errors,
                self.line == pre.line,
            decreases s.len() - self.current,
        {
            let _ = self.advance();
        }
        let j1 = self.current;
        proof {
            assert(j1 as int == digits_end(s, i));
            lemma_digits_end(s, i);
        }
        let mut has_frac = false;
        if !self.is_end() && self.cur_char() == '.' {
            if ch_is_digit(self.peek_next()) {
                has_frac = true;
            }
        }
        if has_frac {
            let _ = self.advance();
            proof {
                lemma_digits_end(s, j1 as int + 1);
            }
            while !self.is_end() && ch_is_digit(self.cur_char())
                invariant
                    self.source == pre.source,
                    self.source@ == s,
                    self.start as int == i,
                    j1 as int + 1 <= self.current as int <= s.len(),
                    s.len() < usize::MAX as int,
                    digits_end(s, j1 as int + 1) == digits_end(s, self.current as int),
                    self.tokens == pre.tokens,
                    self.errors == pre.errors,
                    self.line == pre.line,
                    self.start == pre.start,
                decreases s.len() - self.current,
            {
                let _ = self.advance();
            }
        }
        let end = self.current;
        let ghost whole = s.subrange(i, j1 as int);
        let ghost frac: Seq<char> = if has_frac {
            s.subrange(j1 as int + 1, end as int)
        } else {
            Seq::<char>::empty()
        };
        proof {
            lemma_digits_end(s, i);
            assert(all_digits(whole)) by {
                assert(forall|k: int|
                    0 <= k < whole.len() ==> #[trigger] whole[k] == s[i + k] && is_digit(s[i + k]));
            }
            if has_frac {
                lemma_digits_end(s, j1 as int + 1);
                assert(all_digits(frac)) by {
                    assert(forall|k: int|
                        0 <= k < frac.len() ==> #[trigger] frac[k] == s[j1 as int + 1 + k]
                            && is_digit(s[j1 as int + 1 + k]));
                }
            }
        }
        // Read the whole part, stopping as soon as it cannot fit.
        let mut acc: u128 = 0;
        let mut k: usize = self.start;
        while k < j1 && acc < WHOLE_LIMIT
            invariant
                self.source == pre.source,
                self.source@ == s,
                self.start as int == i,
                i <= k as int <= j1 as int,
                j1 as int == digits_end(s, i),
                j1 as int <= s.len(),
                acc == digits_value(s.subrange(i, k as int)),
                acc <= WHOLE_LIMIT * 10,
                all_digits(whole),
                whole == s.subrange(i, j1 as int),
            decreases j1 - k,
        {
            proof {
                lemma_digits_end(s, i);
            }
            let d = ch_digit_val(self.source[k]);
            acc = acc * 10 + d;
            k += 1;
            proof {
                assert(s.subrange(i, k as int).drop_last() =~= s.subrange(i, k as int - 1));
                assert(s.subrange(i, k as int).last() == s[k as int - 1]);
            }
        }
        if acc >= WHOLE_LIMIT {
            proof {
                assert(s.subrange(i, k as int) =~= whole.take(k as int - i));
                lemma_dv_prefix(whole, k as int - i);
            }
            let e = ScanError {
                line: self.line,
                message: String::from_str("Number too large"),
            };
            let ghost ev = e@;
            let ghost pre_errs = self.errors@;
            self.errors.push(e);
            proof {
                assert(self.errors@.map_values(|x: ScanError| x@) =~= pre_errs.map_values(
                    |x: ScanError| x@,
                ) + seq![ev]);
                assert(self.tokens@.map_values(|t: Token| t@) =~= pre.tokens@.map_values(
                    |t: Token| t@,
                ) + Seq::<TokenV>::empty());
            }
        } else {
            proof {
                assert(s.subrange(i, k as int) =~= whole);
            }
            let mut fr: u128 = 0;
            let ghost c_spec: int = if frac.len() > 12 {
                12int
            } else {
                frac.len() as int
            };
            if has_frac {
                let fstart = j1 + 1;
                let flen = end - fstart;
                let c: usize = if flen > 12 {
                    12
                } else {
                    flen
                };
                proof {
                    assert(c as int == c_spec);
                    lemma_pow10_pos(12);
                    assert(pow10(12) == 1_000_000_000_000) by {
                        reveal_with_fuel(pow10, 13);
                    }
                }
                let mut m: usize = 0;
                while m < c
                    invariant
                        self.source == pre.source,
                        self.source@ == s,
                        fstart as int == j1 as int + 1,
                        0 <= m as int <= c as int <= 12,
                        fstart as int + c as int <= s.len(),
                        fr as int == digits_value(s.subrange(fstart as int, fstart as int + m as int)),
                        (fr as int) < pow10(m as nat),
                        pow10(12) == 1_000_000_000_000,
                        all_digits(frac),
                        frac == s.subrange(j1 as int + 1, end as int),
                        end as int <= s.len(),
                        fstart as int + c as int <= end as int,
                    decreases c - m,
                {
                    proof {
                        assert(is_digit(s[fstart as int + m as int])) by {
                            assert(frac[m as int] == s[fstart as int + m as int]);
                        }
                        assert(pow10((m + 1) as nat) == 10 * pow10(m as nat));
                        assert(pow10(m as nat) <= pow10(12)) by {
                            lemma_pow10_adds((12 - m) as nat, m as nat);
                            lemma_pow10_pos(m as nat);
                            lemma_pow10_pos((12 - m) as nat);
                            assert(pow10((12 - m) as nat) * pow10(m as nat) >= 1 * pow10(m as nat))
                                by (nonlinear_arith)
                                requires
                                    pow10((12 - m) as nat) >= 1,
                                    pow10(m as nat) >= 0,
                            ;
                        }
                    }
                    let d = ch_digit_val(self.source[fstart + m]);
                    fr = fr * 10 + d;
                    m += 1;
                    proof {
                        assert(s.subrange(fstart as int, fstart as int + m as int).drop_last()
                            =~= s.subrange(fstart as int, fstart as int + m as int - 1));
                        assert(s.subrange(fstart as int, fstart as int + m as int).last() == s[
                            fstart as int + m as int - 1
                        ]);
                    }
                }
                proof {
                    assert(frac.take(c as int) =~= s.subrange(fstart as int, fstart as int + c as int));
                    lemma_dv_bound(frac.take(c as int));
                    assert(all_digits(frac.take(c as int)));
                }
                let mult = pow10_exec(12 - c);
                proof {
                    lemma_pow10_adds(c as nat, (12 - c) as nat);
                    lemma_pow10_pos((12 - c) as nat);
                    lemma_pow10_pos(c as nat);
                    assert((fr as int) * (mult as int) < pow10(c as nat) * pow10((12 - c) as nat))
                        by (nonlinear_arith)
                        requires
                            0 <= fr as int,
                            (fr as int) < pow10(c as nat),
                            0 < mult as int == pow10((12 - c) as nat),
                    ;
                    assert((fr as int) * (mult as int) >= 0) by (nonlinear_arith)
                        requires
                            fr as int >= 0,
                            mult as int >= 1,
                    ;
                }
                fr = fr * mult;
                proof {
                    assert(end as int >= j1 as int + 2) by {
                        lemma_digits_end(s, j1 as int + 2);
                    }
                    assert(frac.len() >= 1);
                    assert(fr as int == frac_value(frac));
                }
            } else {
                proof {
                    assert(frac_value(frac) == 0);
                }
            }
            proof {
                assert(pow10(12) == 1_000_000_000_000) by {
                    reveal_with_fuel(pow10, 13);
                }
                assert((fr as int) < SCALE as int);
                assert(fr as int >= 0);
                lemma_dv_nonneg(whole);
                assert((acc as int) * (SCALE as int) <= (WHOLE_LIMIT - 1) as int * (SCALE as int)
                    && (acc as int) * (SCALE as int) >= 0) by (nonlinear_arith)
                    requires
                        0 <= acc as int <= (WHOLE_LIMIT - 1) as int,
                ;
            }
            let mag = acc * SCALE + fr;
            let d = Decimal::from_scaled(false, mag);
            self.add_token_val(TokenType::Number, Literal::Number(d));
            proof {
                assert(acc as int == digits_value(whole));
                assert(fr as int == frac_value(frac));
                assert(mag as int == (acc as int) * (SCALE as int) + (fr as int));
                assert(mag as int == number_value(whole, frac));
                assert(self.errors@.map_values(|x: ScanError| x@) =~= pre.errors@.map_values(
                    |x: ScanError| x@,
                ) + Seq::<ScanErrV>::empty());
            }
        }
    }

    /// Scans an identifier or reserved word; the first character is already
    /// consumed.
    fn identifier(&mut self)
        requires
            old(self).start as int + 1 == old(self).current as int,
            (old(self).start as int) < old(self).source@.len(),
            is_alpha(old(self).source@[old(self).start as int]),
            old(self).source@.len() < usize::MAX as int,
        ensures
            ({
                let st = step_ident(
                    old(self).source@,
                    old(self).start as int,
                    old(self).line as int,
                );
                &&& final (self).source == old(self).source
                &&& final (self).start == old(self).start
                &&& final (self).line == old(self).line
                &&& final (self).current as int == st.next
                &&& tokens_appended(old(self).tokens@, final (self).tokens@, opt_seq(st.token))
                &&& errors_appended(old(self).errors@, final (self).errors@, opt_seq(st.error))
            }),
    {
        let ghost s = self.source@;
        let ghost i = self.start as int;
        let ghost pre = *self;
        proof {
            lemma_ident_end(s, i);
        }
        while !self.is_end() && ch_is_alnum(self.cur_char())
            invariant
                self.source == pre.source,
                self.source@ == s,
                self.start as int == i,
                0 <= i,
                i + 1 <= self.current as int <= s.len(),
                s.len() < usize::MAX as int,
                ident_end(s, i) == ident_end(s, self.current as int),
                self.tokens == pre.tokens,
                self.errors == pre.errors,
                self.line == pre.line,
            decreases s.len() - self.current,
        {
            let _ = self.advance();
        }
        let text = chars_to_string(&self.source, self.start, self.current);
        let token_type = match is_keyword(&text) {
            Some(k) => k,
            None => TokenType::Identifier,
        };
        proof {
            assert(token_type != TokenType::Number && token_type != TokenType::Str);
        }
        self.add_token(token_type);
        proof {
            assert(self.errors@.map_values(|x: ScanError| x@) =~= pre.errors@.map_values(
                |x: ScanError| x@,
            ) + Seq::<ScanErrV>::empty());
        }
    }

    /// Scans one logical token starting at the current position, which must
    /// hold a character: the effect is exactly one `spec_step`.
    fn scan_token(&mut self)
        requires
            old(self).start == old(self).current,
            (old(self).current as int) < old(self).source@.len(),
            old(self).source@.len() < usize::MAX as int,
            1 <= old(self).line,
            old(self).line as int <= 1 + old(self).current as int,
        ensures
            ({
                let st = spec_step(
                    old(self).source@,
                    old(self).current as int,
                    old(self).line as int,
                );
                &&& final (self).source == old(self).source
                &&& (old(self).current as int) < st.next
                &&& final (self).current as int == st.next
                &&& final (self).line as int == st.line
                &&& 1 <= final (self).line
                &&& final (self).line as int <= 1 + final (self).current as int
                &&& tokens_appended(old(self).tokens@, final (self).tokens@, opt_seq(st.token))
                &&& errors_appended(old(self).errors@, final (self).errors@, opt_seq(st.error))
            }),
    {
        let ghost s = self.source@;
        let ghost i = self.current as int;
        let ghost line0 = self.line as int;
        let ghost pre = *self;
        proof {
            lemma_step_bounds(s, i, line0);
        }
        let c = self.advance();
        match c {
            '(' => self.add_token(TokenType::LeftParen),
            ')' => self.add_token(TokenType::RightParen),
            '{' => self.add_token(TokenType::LeftBrace),
            '}' => self.add_token(TokenType::RightBrace),
            ',' => self.add_token(TokenType::Comma),
            '.' => self.add_token(TokenType::Dot),
            '-' => self.add_token(TokenType::Minus),
            '+' => self.add_token(TokenType::Plus),
            ';' => self.add_token(TokenType::Semicolon),
            '*' => self.add_token(TokenType::Star),
            '/' => {
                if self.char_match('/') {
                    proof {
                        lemma_comment_end(s, i + 2);
                    }
                    while !self.is_end() && self.cur_char() != '\n'
                        invariant
                            self.source == pre.source,
                            self.source@ == s,
                            i + 2 <= self.current as int <= s.len(),
                            comment_end(s, i + 2) == comment_end(s, self.current as int),
                            self.tokens == pre.tokens,
                            self.errors == pre.errors,
                            self.line == pre.line,
                            self.start == pre.start,
                        decreases s.len() - self.current,
                    {
                        let _ = self.advance();
                    }
                    proof {
                        empty_append_token(self.tokens@);
                        empty_append_err(self.errors@);
                    }
                } else {
                    self.add_token(TokenType::Slash);
                    proof {
                        empty_append_err(self.errors@);
                    }
                }
            },
            '!' => {
                if self.char_match('=') {
                    self.add_token(TokenType::BangEqual);
                } else {
                    self.add_token(TokenType::Bang);
                }
                proof {
                    empty_append_err(self.errors@);
                }
            },
            '=' => {
                if self.char_match('=') {
                    self.add_token(TokenType::EqualEqual);
                } else {
                    self.add_token(TokenType::Equal);
                }
                proof {
                    empty_append_err(self.errors@);
                }
            },
            '<' => {
                if self.char_match('=') {
                    self.add_token(TokenType::LessEqual);
                } else {
                    self.add_token(TokenType::Less);
                }
                proof {
                    empty_append_err(self.errors@);
                }
            },
            '>' => {
                if self.char_match('=') {
                    self.add_token(TokenType::GreaterEqual);
                } else {
                    self.add_token(TokenType::Greater);
                }
                proof {
                    empty_append_err(self.errors@);
                }
            },
            '"' => {
                self.string();
                proof {
                    lemma_string_end(s, i + 1);
                    lemma_newlines_bounds(s, i + 1, string_end(s, i + 1));
                }
            },
            ' ' | '\r' | '\t' => {
                proof {
                    empty_append_token(self.tokens@);
                    empty_append_err(self.errors@);
                }
            },
            '\n' => {
                self.line = self.line + 1;
                proof {
                    empty_append_token(self.tokens@);
                    empty_append_err(self.errors@);
                }
            },
            c2 => {
                if ch_is_digit(c2) {
                    self.number();
                } else if ch_is_alpha(c2) {
                    self.identifier();
                } else {
                    let mut message = String::from_str("Unexpected character: ");
                    message.push(c2);
                    let e = ScanError { line: self.line, message };
                    let ghost ev = e@;
                    let ghost pre_errs = self.errors@;
                    self.errors.push(e);
                    proof {
                        assert(self.errors@.map_values(|x: ScanError| x@) =~= pre_errs.map_values(
                            |x: ScanError| x@,
                        ) + seq![ev]);
                        empty_append_token(self.tokens@);
                    }
                }
            },
        }
    }

    /// Scans the whole source: the token sequence ends with the end-of-input
    /// sentinel, lexical errors are collected without stopping the scan, and
    /// both come out exactly as `spec_scan` states. Every token is well
    /// formed.
    pub fn scan_tokens(self) -> (r: (Vec<Token>, Vec<ScanError>))
        requires
            self.fresh(),
            self.src().len() < usize::MAX as int,
        ensures
            r.0@.map_values(|t: Token| t@) == spec_scan(self.src()).tokens,
            r.1@.map_values(|e: ScanError| e@) == spec_scan(self.src()).errors,
            forall|k: int| 0 <= k < r.0@.len() ==> token_wf(#[trigger] r.0@[k]),
    {
        let ghost s = self.src();
        let mut sc = self;
        proof {
            assert(sc.tokens@.map_values(|t: Token| t@) =~= Seq::<TokenV>::empty());
            assert(sc.errors@.map_values(|e: ScanError| e@) =~= Seq::<ScanErrV>::empty());
            assert(Seq::<TokenV>::empty() + spec_scan_from(s, 0, 1).tokens =~= spec_scan_from(
                s,
                0,
                1,
            ).tokens);
            assert(Seq::<ScanErrV>::empty() + spec_scan_from(s, 0, 1).errors =~= spec_scan_from(
                s,
                0,
                1,
            ).errors);
        }
        while !sc.is_end()
            invariant
                sc.source@ == s,
                sc.current <= sc.source@.len(),
                s.len() < usize::MAX as int,
                1 <= sc.line,
                sc.line as int <= 1 + sc.current as int,
                spec_scan(s).tokens == sc.tokens@.map_values(|t: Token| t@) + spec_scan_from(
                    s,
                    sc.current as int,
                    sc.line as int,
                ).tokens,
                spec_scan(s).errors == sc.errors@.map_values(|e: ScanError| e@) + spec_scan_from(
                    s,
                    sc.current as int,
                    sc.line as int,
                ).errors,
                forall|k: int| 0 <= k < sc.tokens@.len() ==> token_wf(#[trigger] sc.tokens@[k]),
            decreases s.len() - sc.current,
        {
            sc.start = sc.current;
            let ghost pre = sc;
            sc.scan_token();
            proof {
                lemma_step_bounds(s, pre.current as int, pre.line as int);
                let st = spec_step(s, pre.current as int, pre.line as int);
                assert(spec_scan_from(s, pre.current as int, pre.line as int).tokens == opt_seq(
                    st.token,
                ) + spec_scan_from(s, st.next, st.line).tokens);
                assert(spec_scan_from(s, pre.current as int, pre.line as int).errors == opt_seq(
                    st.error,
                ) + spec_scan_from(s, st.next, st.line).errors);
                assert(pre.tokens@.map_values(|t: Token| t@) + (opt_seq(st.token) + spec_scan_from(
                    s,
                    st.next,
                    st.line,
                ).tokens) =~= (pre.tokens@.map_values(|t: Token| t@) + opt_seq(st.token))
                    + spec_scan_from(s, st.next, st.line).tokens);
                assert(pre.errors@.map_values(|e: ScanError| e@) + (opt_seq(st.error)
                    + spec_scan_from(s, st.next, st.line).errors) =~= (pre.errors@.map_values(
                    |e: ScanError| e@,
                ) + opt_seq(st.error)) + spec_scan_from(s, st.next, st.line).errors);
            }
        }
        let ghost pre_toks = sc.tokens@;
        let eof = Token::new(TokenType::Eof, String::new(), None, sc.line);
        sc.tokens.push(eof);
        proof {
            assert(spec_scan_from(s, sc.current as int, sc.line as int).tokens == seq![
                eof_token(sc.line as int),
            ]);
            assert(spec_scan_from(s, sc.current as int, sc.line as int).errors =~= Seq::<
                ScanErrV,
            >::empty());
            assert(sc.tokens@.map_values(|t: Token| t@) =~= pre_toks.map_values(|t: Token| t@)
                + seq![eof_token(sc.line as int)]);
            assert(sc.errors@.map_values(|e: ScanError| e@) + Seq::<ScanErrV>::empty()
                =~= sc.errors@.map_values(|e: ScanError| e@));
        }
        (sc.tokens, sc.errors)
    }
}

/// Appending nothing changes nothing: stated for token shadows.
proof fn empty_append_token(ts: Seq<Token>)
    ensures
        ts.map_values(|t: Token| t@) + Seq::<TokenV>::empty() =~= ts.map_values(|t: Token| t@),
        ts.map_values(|t: Token| t@) =~= ts.map_values(|t: Token| t@) + Seq::<TokenV>::empty(),
{
}

/// Appending nothing changes nothing: stated for error shadows.
proof fn empty_append_err(es: Seq<ScanError>)
    ensures
        es.map_values(|e: ScanError| e@) + Seq::<ScanErrV>::empty() =~= es.map_values(
            |e: ScanError| e@,
        ),
        es.map_values(|e: ScanError| e@) =~= es.map_values(|e: ScanError| e@) + Seq::<
            ScanErrV,
        >::empty(),
{
}

} // verus!
