//! General laws of the pipeline, stated over the specification functions
//! that pin down scanning, parsing and evaluation, and proved once for all
//! inputs.
use crate::ast::{ExprV, StmtV, ValV};
use crate::interpreter::{
    repeat_count_of, repeat_seq, spec_eval_binary, spec_execute, spec_interpret, val_eq, ErrV,
};
use crate::parser::{peek_tv, sp_factor, sp_parse, sp_term_tail, PRes};
use crate::runner::sp_run;
use crate::scanner::{lemma_string_end, spec_scan, spec_step, string_end};
use crate::token::{TokenType, TokenV};
use vstd::prelude::*;

verus! {

/// Multiplying a string by a number is commutative in its operand order:
/// with the star operator, number-times-string and string-times-number both
/// yield the string repeated the number's truncated, clamped value of times,
/// and never an error.
pub proof fn lemma_star_string_commutes(op: TokenV, n: int, s: Seq<char>)
    requires
        op.token_type == TokenType::Star,
    ensures
        spec_eval_binary(op, ValV::Num(n), ValV::Str(s)) == spec_eval_binary(
            op,
            ValV::Str(s),
            ValV::Num(n),
        ),
        spec_eval_binary(op, ValV::Num(n), ValV::Str(s)) == Ok::<ValV, ErrV>(
            ValV::Str(repeat_seq(s, repeat_count_of(n))),
        ),
{
}

/// Equality comparisons never raise an error: on any two values they yield
/// the boolean of structural equality; values of different tags are always
/// unequal, and nil equals nil.
pub proof fn lemma_cross_tag_equality(op: TokenV, a: ValV, b: ValV)
    requires
        op.token_type == TokenType::EqualEqual,
    ensures
        spec_eval_binary(op, a, b) == Ok::<ValV, ErrV>(ValV::Bool(val_eq(a, b))),
        !((a is Num && b is Num) || (a is Str && b is Str) || (a is Bool && b is Bool) || (
        a is Nil && b is Nil)) ==> spec_eval_binary(op, a, b) == Ok::<ValV, ErrV>(
            ValV::Bool(false),
        ),
        a is Nil && b is Nil ==> spec_eval_binary(op, a, b) == Ok::<ValV, ErrV>(ValV::Bool(true)),
{
}

/// Binary operators of one precedence level fold leftward: when two
/// additive operators follow in sequence, the first combination becomes the
/// left child of the second, so `2-3-4` reads `(2-3)-4`.
pub proof fn lemma_term_left_associative(
    ts: Seq<TokenV>,
    i: int,
    acc: ExprV,
    r1: ExprV,
    r2: ExprV,
    j: int,
    k: int,
)
    requires
        peek_tv(ts, i).token_type == TokenType::Plus || peek_tv(ts, i).token_type
            == TokenType::Minus,
        sp_factor(ts, i + 1) == PRes::Parsed(r1, j),
        i < j <= ts.len(),
        peek_tv(ts, j).token_type == TokenType::Plus || peek_tv(ts, j).token_type
            == TokenType::Minus,
        sp_factor(ts, j + 1) == PRes::Parsed(r2, k),
        j < k <= ts.len(),
        peek_tv(ts, k).token_type != TokenType::Plus && peek_tv(ts, k).token_type
            != TokenType::Minus,
    ensures
        sp_term_tail(ts, i, acc) == PRes::Parsed(
            ExprV::Binary {
                operator: peek_tv(ts, j),
                left: Box::new(
                    ExprV::Binary {
                        operator: peek_tv(ts, i),
                        left: Box::new(acc),
                        right: Box::new(r1),
                    },
                ),
                right: Box::new(r2),
            },
            k,
        ),
{
    let first = ExprV::Binary {
        operator: peek_tv(ts, i),
        left: Box::new(acc),
        right: Box::new(r1),
    };
    let second = ExprV::Binary {
        operator: peek_tv(ts, j),
        left: Box::new(first),
        right: Box::new(r2),
    };
    assert(sp_term_tail(ts, i, acc) == sp_term_tail(ts, j, first));
    assert(sp_term_tail(ts, j, first) == sp_term_tail(ts, k, second));
    assert(sp_term_tail(ts, k, second) == PRes::<ExprV>::Parsed(second, k));
}

/// A runtime error halts the run: when the first `k` statements execute
/// without error and statement `k` raises one, the run prints exactly the
/// lines of those first `k` statements and ends with that error.
pub proof fn lemma_error_halts_run(ss: Seq<StmtV>, k: int)
    requires
        0 <= k < ss.len(),
        forall|j: int| 0 <= j < k ==> spec_execute(#[trigger] ss[j]) is Ok,
        spec_execute(ss[k]) is Err,
    ensures
        spec_interpret(ss).0 == spec_interpret(ss.take(k)).0,
        spec_execute(ss[k]) matches Err(e) && spec_interpret(ss).1 == Some(e),
    decreases k,
{
    if k == 0 {
        assert(ss.take(0) =~= Seq::<StmtV>::empty());
    } else {
        assert(spec_execute(ss[0]) is Ok);
        lemma_error_halts_run(ss.drop_first(), k - 1);
        assert(ss.drop_first()[k - 1] == ss[k]);
        assert(forall|j: int| 0 <= j < k - 1 ==> ss.drop_first()[j] == ss[j + 1]);
        assert(ss.take(k)[0] == ss[0]);
        assert(ss.take(k).drop_first() =~= ss.drop_first().take(k - 1));
    }
}

/// Scanning an unterminated string literal: at an opening quote with no
/// closing quote anywhere after it, the scanning step reports a lexical
/// error and produces no token.
pub proof fn lemma_unterminated_string(s: Seq<char>, i: int, line: int)
    requires
        0 <= i < s.len(),
        s[i] == '"',
        forall|j: int| i < j < s.len() ==> s[j] != '"',
    ensures
        spec_step(s, i, line).token is None,
        spec_step(s, i, line).error matches Some(e) && e.msg == "Unterminated string"@,
{
    lemma_string_end(s, i + 1);
    let e = string_end(s, i + 1);
    if e < s.len() {
        assert(s[e] == '"');
        assert(false);
    }
}

/// Re-scanning and re-parsing the same source text yields identical token
/// sequences, statement trees and outcomes: the whole pipeline is a function
/// of the source text alone. The scanner's, parser's and interpreter's
/// contracts pin their results to `spec_scan`, `sp_parse` and
/// `spec_interpret`, so two runs over equal texts cannot differ.
pub proof fn lemma_pipeline_deterministic(a: Seq<char>, b: Seq<char>)
    requires
        a == b,
    ensures
        spec_scan(a) == spec_scan(b),
        sp_parse(spec_scan(a).tokens, 0) == sp_parse(spec_scan(b).tokens, 0),
        sp_run(a) == sp_run(b),
{
}

} // verus!
