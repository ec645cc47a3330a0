//! The driver's computational side: one whole pipeline pass over a source
//! text, and the diagnostic line format shared by all three stages. Reading
//! the source and printing lines belong to the surrounding program; here the
//! outcome is a value, pinned by `sp_run`.
use crate::interpreter::{err_v, spec_interpret, ErrV, Interpreter, InterpreterError};
use crate::parser::{perr_v, sp_parse, ParseError, Parser, PErrV};
use crate::scanner::{spec_scan, spec_scan_from, ScanErrV, ScanError, Scanner};
use crate::text::{push_digits, spec_digits};
use crate::token::{Token, TokenType};
use vstd::prelude::*;

verus! {

/// What one run of a source text amounts to: success with the printed lines;
/// a lexical or syntax failure, where nothing is executed; or a runtime
/// failure, where a prefix of the statements has already printed its lines.
pub enum RunOutcome {
    Success(Vec<String>),
    LexFailure(Vec<ScanError>),
    SyntaxFailure(Vec<ParseError>),
    RuntimeFailure(Vec<String>, InterpreterError),
}

/// The mathematical shadow of a run's outcome.
pub ghost enum RunV {
    Success(Seq<Seq<char>>),
    LexFailure(Seq<ScanErrV>),
    SyntaxFailure(Seq<PErrV>),
    RuntimeFailure(Seq<Seq<char>>, ErrV),
}

pub open spec fn run_v(r: RunOutcome) -> RunV {
    match r {
        RunOutcome::Success(outs) => RunV::Success(outs@.map_values(|line: String| line@)),
        RunOutcome::LexFailure(es) => RunV::LexFailure(es@.map_values(|e: ScanError| e@)),
        RunOutcome::SyntaxFailure(es) => RunV::SyntaxFailure(
            es@.map_values(|e: ParseError| perr_v(e)),
        ),
        RunOutcome::RuntimeFailure(outs, e) => RunV::RuntimeFailure(
            outs@.map_values(|line: String| line@),
            err_v(e),
        ),
    }
}

/// The whole pipeline on a source text: scan; if any lexical error, stop
/// with them all; parse; if any syntax error, stop with them all; run the
/// statements until the end or the first runtime error.
pub open spec fn sp_run(src: Seq<char>) -> RunV {
    let sc = spec_scan(src);
    if sc.errors.len() > 0 {
        RunV::LexFailure(sc.errors)
    } else {
        let p = sp_parse(sc.tokens, 0);
        if p.1.len() > 0 {
            RunV::SyntaxFailure(p.1)
        } else {
            let outcome = spec_interpret(p.0);
            match outcome.1 {
                None => RunV::Success(outcome.0),
                Some(e) => RunV::RuntimeFailure(outcome.0, e),
            }
        }
    }
}

/// The diagnostic line format shared by all stages:
/// `[line N] Error<location>: <message>`.
pub open spec fn sp_diag(line: int, location: Seq<char>, msg: Seq<char>) -> Seq<char> {
    "[line "@ + spec_digits(line as nat) + "] Error"@ + location + ": "@ + msg
}

/// The location hint of a diagnostic that names a token: ` at end` for the
/// end-of-input sentinel, else ` at '<lexeme>'`.
pub open spec fn sp_location(tt: TokenType, lexeme: Seq<char>) -> Seq<char> {
    if tt == TokenType::Eof {
        " at end"@
    } else {
        " at '"@ + lexeme + seq!['\'']
    }
}

/// The scanned token sequence always ends in the end-of-input sentinel.
pub proof fn lemma_scan_ends_eof(s: Seq<char>, i: int, line: int)
    ensures
        spec_scan_from(s, i, line).tokens.len() > 0,
        spec_scan_from(s, i, line).tokens.last().token_type == TokenType::Eof,
    decreases s.len() - i,
{
    if !(i < 0 || i >= s.len()) {
        let st = crate::scanner::spec_step(s, i, line);
        let nx = if i < st.next <= s.len() {
            st.next
        } else {
            i + 1
        };
        lemma_scan_ends_eof(s, nx, st.line);
    }
}

/// The driver: formats diagnostics and runs whole source texts. Printing
/// and exit codes stay with the surrounding program.
pub struct LoxRunner;

impl LoxRunner {
    /// A generic diagnostic, with no location hint.
    pub fn error(&self, line: usize, message: &str) -> (r: String)
        ensures
            r@ == sp_diag(line as int, Seq::<char>::empty(), message@),
    {
        proof {
            reveal_strlit("");
            assert(""@ =~= Seq::<char>::empty());
        }
        self.report(line, "", message)
    }

    /// A diagnostic naming the offending token.
    pub fn error_token(&self, token: &Token, message: &str) -> (r: String)
        ensures
            r@ == sp_diag(token.line as int, sp_location(token.token_type, token.lexeme@), message@),
    {
        if self.token_is_eof(token) {
            self.report(token.line, " at end", message)
        } else {
            let mut pos_str = String::from_str(" at '");
            pos_str.append(token.lexeme.as_str());
            pos_str.push('\'');
            let r = self.report(token.line, pos_str.as_str(), message);
            proof {
                assert(r@ =~= sp_diag(
                    token.line as int,
                    sp_location(token.token_type, token.lexeme@),
                    message@,
                ));
            }
            r
        }
    }

    fn token_is_eof(&self, token: &Token) -> (r: bool)
        ensures
            r == (token.token_type == TokenType::Eof),
    {
        match token.token_type {
            TokenType::Eof => true,
            _ => false,
        }
    }

    fn report(&self, line: usize, location: &str, message: &str) -> (r: String)
        ensures
            r@ == sp_diag(line as int, location@, message@),
    {
        let mut out = String::from_str("[line ");
        push_digits(line as u128, &mut out);
        out.append("] Error");
        out.append(location);
        out.append(": ");
        out.append(message);
        proof {
            assert(out@ =~= sp_diag(line as int, location@, message@));
        }
        out
    }

    /// Runs one complete source text through scanner, parser and
    /// interpreter, to exactly the outcome `sp_run` assigns it.
    pub fn run(&self, source: String) -> (r: RunOutcome)
        requires
            source@.len() < usize::MAX as int,
        ensures
            run_v(r) == sp_run(source@),
    {
        let scanner = Scanner::new(source);
        let (tokens, scan_errors) = scanner.scan_tokens();
        if scan_errors.len() > 0 {
            return RunOutcome::LexFailure(scan_errors);
        }
        proof {
            lemma_scan_ends_eof(source@, 0, 1);
            assert(scan_errors@.map_values(|e: ScanError| e@).len() == 0);
        }
        let mut parser = Parser::new(tokens);
        let (statements, parse_errors) = parser.parse();
        if parse_errors.len() > 0 {
            return RunOutcome::SyntaxFailure(parse_errors);
        }
        proof {
            assert(parse_errors@.map_values(|pe: ParseError| perr_v(pe)).len() == 0);
        }
        let interpreter = Interpreter;
        let (outputs, runtime_error) = interpreter.interpret(&statements);
        match runtime_error {
            None => RunOutcome::Success(outputs),
            Some(e) => RunOutcome::RuntimeFailure(outputs, e),
        }
    }
}

} // verus!
