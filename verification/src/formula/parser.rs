//! Recursive-descent parser for formula strings.
//!
//! Precedence, loosest first: `implies` (right-associative), `or`, `and`
//! (both left-associative), `until`, `since` (both right-associative), the
//! prefix temporal operators, `not`, `P`, then a parenthesized formula or a
//! predicate. Inside predicates: `+ -`, then `* / %` (left-associative), then
//! `^` (right-associative), then unary minus, literals, variables and calls.
//! Nesting deeper than [`MAX_DEPTH`] is reported as an error.
use crate::error::{Error, ParseError, SpecParseError};
use crate::formula::ast::{
    decimal_option_view, exprs_view, BinaryOp, ComparisonOp, Expr, Formula, Interval, Predicate,
    ProbabilityOp, SpecExpr, SpecFormula, SpecInterval, SpecPredicate,
};
use crate::formula::lexer::{
    describe_kind, lemma_lex_ends_with_end, lex_symbol, spec_tokenize, spec_zero, tokenize,
    tokens_view,
    SpecToken, SpecTokenKind, Token, TokenKind,
};
use crate::number::{render_decimal, spec_one, value_less, Decimal, SpecDecimal};
use crate::formula::render::{comparison_text, probability_text};
use crate::text::string_of;
use vstd::prelude::*;
use vstd::string::*;

verus! {

/// How deep the parser lets a formula nest.
pub const MAX_DEPTH: usize = 256;

/// A token list closed by an end token.
pub open spec fn tokens_wf(ts: Seq<SpecToken>) -> bool {
    ts.len() > 0 && ts[ts.len() - 1].kind is End
}

/// `x` below zero read as zero.
pub open spec fn clamp(x: int) -> int {
    if x < 0 {
        0
    } else {
        x
    }
}

/// How far consuming the token at `p` moves: the end token is never passed.
pub open spec fn step(ts: Seq<SpecToken>, p: int) -> nat {
    if p + 1 < ts.len() {
        1
    } else {
        0
    }
}

/// An error reported at the token at `p`.
pub open spec fn error_here(ts: Seq<SpecToken>, p: int, message: Seq<char>) -> SpecParseError {
    SpecParseError { message, line: ts[p].line, column: ts[p].column }
}

/// The error for nesting past [`MAX_DEPTH`].
pub open spec fn depth_error(ts: Seq<SpecToken>, p: int) -> SpecParseError {
    error_here(ts, p, "formula nests deeper than the limit of 256"@)
}

/// `expected {what}, found {token}`.
pub open spec fn expected_message(what: Seq<char>, k: SpecTokenKind) -> Seq<char> {
    "expected "@ + what + ", found "@ + describe_kind(k)
}

/// The decimal with its sign flipped.
pub open spec fn negate(d: SpecDecimal) -> SpecDecimal {
    SpecDecimal { negative: !d.negative, ..d }
}

/// The message for a threshold outside `[0, 1]`.
pub open spec fn threshold_message(t: SpecDecimal) -> Seq<char> {
    "probability threshold "@ + render_decimal(t) + " must lie between 0 and 1"@
}

// ---------------------------------------------------------------------------
// The grammar. Each rule reads the tokens from position `p` at nesting depth
// `d` and gives the tree it builds with the number of tokens it consumed.

/// Consumes a token of the given kind, or names what was expected.
#[verifier::opaque]
pub open spec fn p_expect(ts: Seq<SpecToken>, p: int, want: SpecTokenKind, what: Seq<char>) -> Result<
    nat,
    SpecParseError,
> {
    if ts[p].kind == want {
        Ok(step(ts, p))
    } else {
        Err(error_here(ts, p, expected_message(what, ts[p].kind)))
    }
}

#[verifier::opaque]
pub open spec fn p_number(ts: Seq<SpecToken>, p: int, what: Seq<char>) -> Result<
    (SpecDecimal, nat),
    SpecParseError,
> {
    match ts[p].kind {
        SpecTokenKind::Number(v) => Ok((v, step(ts, p))),
        k => Err(error_here(ts, p, expected_message(what, k))),
    }
}

#[verifier::opaque]
pub open spec fn p_signed_number(ts: Seq<SpecToken>, p: int, what: Seq<char>) -> Result<
    (SpecDecimal, nat),
    SpecParseError,
> {
    if ts[p].kind is Minus {
        let q = p + step(ts, p);
        match p_number(ts, q, what) {
            Ok((v, n)) => Ok((negate(v), (q + n - p) as nat)),
            Err(e) => Err(e),
        }
    } else {
        p_number(ts, p, what)
    }
}

/// An interval bound: a number, a negated number, or `inf` (`None`).
#[verifier::opaque]
pub open spec fn p_bound(ts: Seq<SpecToken>, p: int) -> Result<
    (Option<SpecDecimal>, nat),
    SpecParseError,
> {
    match ts[p].kind {
        SpecTokenKind::Infinity => Ok((None, step(ts, p))),
        SpecTokenKind::Minus => {
            let q = p + step(ts, p);
            match p_number(ts, q, "an interval bound"@) {
                Ok((v, n)) => Ok((Some(negate(v)), (q + n - p) as nat)),
                Err(e) => Err(e),
            }
        },
        SpecTokenKind::Number(v) => Ok((Some(v), step(ts, p))),
        k => Err(error_here(ts, p, "expected a number or `inf`, found "@ + describe_kind(k))),
    }
}

/// `[lower, upper]`; without a bracket the interval is `[0, inf]`.
#[verifier::opaque]
pub open spec fn p_interval(ts: Seq<SpecToken>, p: int) -> Result<(SpecInterval, nat), SpecParseError> {
    if !(ts[p].kind is LeftBracket) {
        Ok((SpecInterval { lower: spec_zero(), upper: None }, 0))
    } else {
        let q1 = p + step(ts, p);
        match p_bound(ts, q1) {
            Err(e) => Err(e),
            Ok((lower, n1)) => {
                let q2 = q1 + n1;
                match p_expect(ts, q2, SpecTokenKind::Comma, "`,` between the interval bounds"@) {
                    Err(e) => Err(e),
                    Ok(n2) => {
                        let q3 = q2 + n2;
                        match p_bound(ts, q3) {
                            Err(e) => Err(e),
                            Ok((upper, n3)) => {
                                let q4 = q3 + n3;
                                match p_expect(
                                    ts,
                                    q4,
                                    SpecTokenKind::RightBracket,
                                    "`]` to close the interval"@,
                                ) {
                                    Err(e) => Err(e),
                                    Ok(n4) => {
                                        let q5 = q4 + n4;
                                        match lower {
                                            None => Err(
                                                error_here(
                                                    ts,
                                                    p,
                                                    "an interval's lower bound cannot be `inf`"@,
                                                ),
                                            ),
                                            Some(lo) => if value_less(lo, spec_zero()) {
                                                Err(
                                                    error_here(
                                                        ts,
                                                        p,
                                                        "an interval's lower bound must be at least 0, found "@
                                                            + render_decimal(lo),
                                                    ),
                                                )
                                            } else if upper matches Some(u) && value_less(u, lo) {
                                                Err(
                                                    error_here(
                                                        ts,
                                                        p,
                                                        "interval lower bound "@ + render_decimal(lo)
                                                            + " is greater than upper bound "@
                                                            + render_decimal(upper->0),
                                                    ),
                                                )
                                            } else {
                                                Ok(
                                                    (
                                                        SpecInterval { lower: lo, upper },
                                                        (q5 - p) as nat,
                                                    ),
                                                )
                                            },
                                        }
                                    },
                                }
                            },
                        }
                    },
                }
            },
        }
    }
}

#[verifier::opaque]
pub open spec fn p_comparison_op(ts: Seq<SpecToken>, p: int) -> Result<
    (ComparisonOp, nat),
    SpecParseError,
> {
    match ts[p].kind {
        SpecTokenKind::Less => Ok((ComparisonOp::Less, step(ts, p))),
        SpecTokenKind::LessEqual => Ok((ComparisonOp::LessEqual, step(ts, p))),
        SpecTokenKind::Greater => Ok((ComparisonOp::Greater, step(ts, p))),
        SpecTokenKind::GreaterEqual => Ok((ComparisonOp::GreaterEqual, step(ts, p))),
        SpecTokenKind::Equal => Ok((ComparisonOp::Equal, step(ts, p))),
        SpecTokenKind::NotEqual => Ok((ComparisonOp::NotEqual, step(ts, p))),
        k => Err(
            error_here(
                ts,
                p,
                "expected a comparison (<, <=, >, >=, ==, !=), found "@ + describe_kind(k),
            ),
        ),
    }
}

#[verifier::opaque]
pub open spec fn p_probability_op(ts: Seq<SpecToken>, p: int) -> Result<
    (ProbabilityOp, nat),
    SpecParseError,
> {
    match ts[p].kind {
        SpecTokenKind::GreaterEqual => Ok((ProbabilityOp::GreaterEqual, step(ts, p))),
        SpecTokenKind::Greater => Ok((ProbabilityOp::Greater, step(ts, p))),
        SpecTokenKind::LessEqual => Ok((ProbabilityOp::LessEqual, step(ts, p))),
        SpecTokenKind::Less => Ok((ProbabilityOp::Less, step(ts, p))),
        k => Err(
            error_here(ts, p, "`P` must be followed by >=, >, <=, or <, found "@ + describe_kind(k)),
        ),
    }
}

/// A formula: an implication chain.
#[verifier::opaque]
pub open spec fn p_formula(ts: Seq<SpecToken>, p: int, d: int) -> Result<
    (SpecFormula, nat),
    SpecParseError,
>
    decreases clamp(300 - d), clamp(ts.len() - p), 20int,
    when tokens_wf(ts) && 0 <= p < ts.len()
{
    p_implies(ts, p, d)
}

/// `or-chain (implies formula)?`, grouping to the right.
#[verifier::opaque]
pub open spec fn p_implies(ts: Seq<SpecToken>, p: int, d: int) -> Result<
    (SpecFormula, nat),
    SpecParseError,
>
    decreases clamp(300 - d), clamp(ts.len() - p), 19int,
    when tokens_wf(ts) && 0 <= p < ts.len()
{
    if d + 1 > MAX_DEPTH {
        Err(depth_error(ts, p))
    } else {
        match p_or(ts, p, d + 1) {
            Err(e) => Err(e),
            Ok((l, n)) => {
                let q = p + n;
                if ts[q].kind is Implies {
                    let q1 = q + step(ts, q);
                    match p_implies(ts, q1, d + 1) {
                        Err(e) => Err(e),
                        Ok((r, m)) => Ok(
                            (SpecFormula::Implies(Box::new(l), Box::new(r)), (q1 + m - p) as nat),
                        ),
                    }
                } else {
                    Ok((l, n))
                }
            },
        }
    }
}

/// `and-chain (or and-chain)*`, grouping to the left.
#[verifier::opaque]
pub open spec fn p_or(ts: Seq<SpecToken>, p: int, d: int) -> Result<(SpecFormula, nat), SpecParseError>
    decreases clamp(300 - d), clamp(ts.len() - p), 18int,
    when tokens_wf(ts) && 0 <= p < ts.len()
{
    match p_and(ts, p, d) {
        Err(e) => Err(e),
        Ok((l, n)) => match p_or_tail(ts, p + n, d, l) {
            Err(e) => Err(e),
            Ok((f, m)) => Ok((f, n + m)),
        },
    }
}

#[verifier::opaque]
pub open spec fn p_or_tail(ts: Seq<SpecToken>, p: int, d: int, left: SpecFormula) -> Result<
    (SpecFormula, nat),
    SpecParseError,
>
    decreases clamp(300 - d), clamp(ts.len() - p), 17int,
    when tokens_wf(ts) && 0 <= p < ts.len()
{
    if ts[p].kind is Or {
        let q1 = p + step(ts, p);
        match p_and(ts, q1, d) {
            Err(e) => Err(e),
            Ok((r, m)) => match p_or_tail(
                ts,
                q1 + m,
                d,
                SpecFormula::Or(Box::new(left), Box::new(r)),
            ) {
                Err(e) => Err(e),
                Ok((f, k)) => Ok((f, (q1 + m + k - p) as nat)),
            },
        }
    } else {
        Ok((left, 0))
    }
}

/// `until-chain (and until-chain)*`, grouping to the left.
#[verifier::opaque]
pub open spec fn p_and(ts: Seq<SpecToken>, p: int, d: int) -> Result<
    (SpecFormula, nat),
    SpecParseError,
>
    decreases clamp(300 - d), clamp(ts.len() - p), 16int,
    when tokens_wf(ts) && 0 <= p < ts.len()
{
    match p_until(ts, p, d) {
        Err(e) => Err(e),
        Ok((l, n)) => match p_and_tail(ts, p + n, d, l) {
            Err(e) => Err(e),
            Ok((f, m)) => Ok((f, n + m)),
        },
    }
}

#[verifier::opaque]
pub open spec fn p_and_tail(ts: Seq<SpecToken>, p: int, d: int, left: SpecFormula) -> Result<
    (SpecFormula, nat),
    SpecParseError,
>
    decreases clamp(300 - d), clamp(ts.len() - p), 15int,
    when tokens_wf(ts) && 0 <= p < ts.len()
{
    if ts[p].kind is And {
        let q1 = p + step(ts, p);
        match p_until(ts, q1, d) {
            Err(e) => Err(e),
            Ok((r, m)) => match p_and_tail(
                ts,
                q1 + m,
                d,
                SpecFormula::And(Box::new(left), Box::new(r)),
            ) {
                Err(e) => Err(e),
                Ok((f, k)) => Ok((f, (q1 + m + k - p) as nat)),
            },
        }
    } else {
        Ok((left, 0))
    }
}

/// `since-chain (until interval until-chain)?`, grouping to the right.
#[verifier::opaque]
pub open spec fn p_until(ts: Seq<SpecToken>, p: int, d: int) -> Result<
    (SpecFormula, nat),
    SpecParseError,
>
    decreases clamp(300 - d), clamp(ts.len() - p), 14int,
    when tokens_wf(ts) && 0 <= p < ts.len()
{
    if d + 1 > MAX_DEPTH {
        Err(depth_error(ts, p))
    } else {
        match p_since(ts, p, d + 1) {
            Err(e) => Err(e),
            Ok((l, n)) => {
                let q = p + n;
                if ts[q].kind is Until {
                    let q1 = q + step(ts, q);
                    match p_interval(ts, q1) {
                        Err(e) => Err(e),
                        Ok((i, m)) => match p_until(ts, q1 + m, d + 1) {
                            Err(e) => Err(e),
                            Ok((r, k)) => Ok(
                                (
                                    SpecFormula::Until(i, Box::new(l), Box::new(r)),
                                    (q1 + m + k - p) as nat,
                                ),
                            ),
                        },
                    }
                } else {
                    Ok((l, n))
                }
            },
        }
    }
}

/// `temporal (since interval since-chain)?`, grouping to the right.
#[verifier::opaque]
pub open spec fn p_since(ts: Seq<SpecToken>, p: int, d: int) -> Result<
    (SpecFormula, nat),
    SpecParseError,
>
    decreases clamp(300 - d), clamp(ts.len() - p), 13int,
    when tokens_wf(ts) && 0 <= p < ts.len()
{
    if d + 1 > MAX_DEPTH {
        Err(depth_error(ts, p))
    } else {
        match p_temporal(ts, p, d + 1) {
            Err(e) => Err(e),
            Ok((l, n)) => {
                let q = p + n;
                if ts[q].kind is Since {
                    let q1 = q + step(ts, q);
                    match p_interval(ts, q1) {
                        Err(e) => Err(e),
                        Ok((i, m)) => match p_since(ts, q1 + m, d + 1) {
                            Err(e) => Err(e),
                            Ok((r, k)) => Ok(
                                (
                                    SpecFormula::Since(i, Box::new(l), Box::new(r)),
                                    (q1 + m + k - p) as nat,
                                ),
                            ),
                        },
                    }
                } else {
                    Ok((l, n))
                }
            },
        }
    }
}

/// A prefix operator with an interval applied to a unary formula.
pub open spec fn wrap_temporal(k: SpecTokenKind, i: SpecInterval, g: SpecFormula) -> SpecFormula {
    match k {
        SpecTokenKind::Always => SpecFormula::Always(i, Box::new(g)),
        SpecTokenKind::Eventually => SpecFormula::Eventually(i, Box::new(g)),
        SpecTokenKind::Historically => SpecFormula::Historically(i, Box::new(g)),
        _ => SpecFormula::Once(i, Box::new(g)),
    }
}

/// `always`, `eventually`, `historically` or `once` with an interval, or
/// `next`, before a unary formula; otherwise a unary formula.
#[verifier::opaque]
pub open spec fn p_temporal(ts: Seq<SpecToken>, p: int, d: int) -> Result<
    (SpecFormula, nat),
    SpecParseError,
>
    decreases clamp(300 - d), clamp(ts.len() - p), 12int,
    when tokens_wf(ts) && 0 <= p < ts.len()
{
    let k = ts[p].kind;
    if k is Always || k is Eventually || k is Historically || k is Once {
        let q1 = p + step(ts, p);
        match p_interval(ts, q1) {
            Err(e) => Err(e),
            Ok((i, m)) => match p_unary(ts, q1 + m, d) {
                Err(e) => Err(e),
                Ok((g, n)) => Ok((wrap_temporal(k, i, g), (q1 + m + n - p) as nat)),
            },
        }
    } else if k is Next {
        let q1 = p + step(ts, p);
        match p_unary(ts, q1, d) {
            Err(e) => Err(e),
            Ok((g, n)) => Ok((SpecFormula::Next(Box::new(g)), (q1 + n - p) as nat)),
        }
    } else {
        p_unary(ts, p, d)
    }
}

/// `not unary`, or a probabilistic formula.
#[verifier::opaque]
pub open spec fn p_unary(ts: Seq<SpecToken>, p: int, d: int) -> Result<
    (SpecFormula, nat),
    SpecParseError,
>
    decreases clamp(300 - d), clamp(ts.len() - p), 11int,
    when tokens_wf(ts) && 0 <= p < ts.len()
{
    if d + 1 > MAX_DEPTH {
        Err(depth_error(ts, p))
    } else if ts[p].kind is Not {
        let q1 = p + step(ts, p);
        match p_unary(ts, q1, d + 1) {
            Err(e) => Err(e),
            Ok((g, n)) => Ok((SpecFormula::Not(Box::new(g)), (q1 + n - p) as nat)),
        }
    } else {
        p_probabilistic(ts, p, d + 1)
    }
}

/// `P op threshold ( formula )` with the threshold in `[0, 1]`, or a
/// primary formula.
#[verifier::opaque]
pub open spec fn p_probabilistic(ts: Seq<SpecToken>, p: int, d: int) -> Result<
    (SpecFormula, nat),
    SpecParseError,
>
    decreases clamp(300 - d), clamp(ts.len() - p), 10int,
    when tokens_wf(ts) && 0 <= p < ts.len()
{
    if !(ts[p].kind is Probability) {
        p_primary(ts, p, d)
    } else {
        let q1 = p + step(ts, p);
        match p_probability_op(ts, q1) {
            Err(e) => Err(e),
            Ok((op, n1)) => {
                let q2 = q1 + n1;
                match p_signed_number(ts, q2, "a probability threshold"@) {
                    Err(e) => Err(e),
                    Ok((t, n2)) => {
                        let q3 = q2 + n2;
                        if value_less(t, spec_zero()) || value_less(spec_one(), t) {
                            Err(error_here(ts, p, threshold_message(t)))
                        } else {
                            match p_expect(
                                ts,
                                q3,
                                SpecTokenKind::LeftParen,
                                "`(` to open the probabilistic body"@,
                            ) {
                                Err(e) => Err(e),
                                Ok(n3) => {
                                    let q4 = q3 + n3;
                                    match p_formula(ts, q4, d) {
                                        Err(e) => Err(e),
                                        Ok((inner, n4)) => {
                                            let q5 = q4 + n4;
                                            match p_expect(
                                                ts,
                                                q5,
                                                SpecTokenKind::RightParen,
                                                "`)` to close the probabilistic body"@,
                                            ) {
                                                Err(e) => Err(e),
                                                Ok(n5) => Ok(
                                                    (
                                                        SpecFormula::Probabilistic(
                                                            op,
                                                            t,
                                                            Box::new(inner),
                                                        ),
                                                        (q5 + n5 - p) as nat,
                                                    ),
                                                ),
                                            }
                                        },
                                    }
                                },
                            }
                        }
                    },
                }
            },
        }
    }
}

/// `( formula )`, or a predicate.
#[verifier::opaque]
pub open spec fn p_primary(ts: Seq<SpecToken>, p: int, d: int) -> Result<
    (SpecFormula, nat),
    SpecParseError,
>
    decreases clamp(300 - d), clamp(ts.len() - p), 9int,
    when tokens_wf(ts) && 0 <= p < ts.len()
{
    if ts[p].kind is LeftParen {
        let q1 = p + step(ts, p);
        match p_formula(ts, q1, d) {
            Err(e) => Err(e),
            Ok((f, n)) => match p_expect(
                ts,
                q1 + n,
                SpecTokenKind::RightParen,
                "`)` to close the group"@,
            ) {
                Err(e) => Err(e),
                Ok(m) => Ok((f, (q1 + n + m - p) as nat)),
            },
        }
    } else {
        p_predicate(ts, p, d)
    }
}

/// `term comparison term`.
#[verifier::opaque]
pub open spec fn p_predicate(ts: Seq<SpecToken>, p: int, d: int) -> Result<
    (SpecFormula, nat),
    SpecParseError,
>
    decreases clamp(300 - d), clamp(ts.len() - p), 8int,
    when tokens_wf(ts) && 0 <= p < ts.len()
{
    match p_expr(ts, p, d) {
        Err(e) => Err(e),
        Ok((lhs, n)) => match p_comparison_op(ts, p + n) {
            Err(e) => Err(e),
            Ok((op, m)) => match p_expr(ts, p + n + m, d) {
                Err(e) => Err(e),
                Ok((rhs, k)) => Ok(
                    (SpecFormula::Predicate(SpecPredicate { lhs, op, rhs }), n + m + k),
                ),
            },
        },
    }
}

/// `factor ((+ | -) factor)*`, grouping to the left.
#[verifier::opaque]
pub open spec fn p_expr(ts: Seq<SpecToken>, p: int, d: int) -> Result<(SpecExpr, nat), SpecParseError>
    decreases clamp(300 - d), clamp(ts.len() - p), 7int,
    when tokens_wf(ts) && 0 <= p < ts.len()
{
    match p_factor(ts, p, d) {
        Err(e) => Err(e),
        Ok((l, n)) => match p_expr_tail(ts, p + n, d, l) {
            Err(e) => Err(e),
            Ok((x, m)) => Ok((x, n + m)),
        },
    }
}

#[verifier::opaque]
pub open spec fn p_expr_tail(ts: Seq<SpecToken>, p: int, d: int, left: SpecExpr) -> Result<
    (SpecExpr, nat),
    SpecParseError,
>
    decreases clamp(300 - d), clamp(ts.len() - p), 6int,
    when tokens_wf(ts) && 0 <= p < ts.len()
{
    let k = ts[p].kind;
    if k is Plus || k is Minus {
        let op = if k is Plus {
            BinaryOp::Add
        } else {
            BinaryOp::Sub
        };
        let q1 = p + step(ts, p);
        match p_factor(ts, q1, d) {
            Err(e) => Err(e),
            Ok((r, m)) => match p_expr_tail(
                ts,
                q1 + m,
                d,
                SpecExpr::Binary(op, Box::new(left), Box::new(r)),
            ) {
                Err(e) => Err(e),
                Ok((x, j)) => Ok((x, (q1 + m + j - p) as nat)),
            },
        }
    } else {
        Ok((left, 0))
    }
}

/// `power ((* | / | %) power)*`, grouping to the left.
#[verifier::opaque]
pub open spec fn p_factor(ts: Seq<SpecToken>, p: int, d: int) -> Result<
    (SpecExpr, nat),
    SpecParseError,
>
    decreases clamp(300 - d), clamp(ts.len() - p), 5int,
    when tokens_wf(ts) && 0 <= p < ts.len()
{
    match p_power(ts, p, d) {
        Err(e) => Err(e),
        Ok((l, n)) => match p_factor_tail(ts, p + n, d, l) {
            Err(e) => Err(e),
            Ok((x, m)) => Ok((x, n + m)),
        },
    }
}

#[verifier::opaque]
pub open spec fn p_factor_tail(ts: Seq<SpecToken>, p: int, d: int, left: SpecExpr) -> Result<
    (SpecExpr, nat),
    SpecParseError,
>
    decreases clamp(300 - d), clamp(ts.len() - p), 4int,
    when tokens_wf(ts) && 0 <= p < ts.len()
{
    let k = ts[p].kind;
    if k is Star || k is Slash || k is Percent {
        let op = if k is Star {
            BinaryOp::Mul
        } else if k is Slash {
            BinaryOp::Div
        } else {
            BinaryOp::Mod
        };
        let q1 = p + step(ts, p);
        match p_power(ts, q1, d) {
            Err(e) => Err(e),
            Ok((r, m)) => match p_factor_tail(
                ts,
                q1 + m,
                d,
                SpecExpr::Binary(op, Box::new(left), Box::new(r)),
            ) {
                Err(e) => Err(e),
                Ok((x, j)) => Ok((x, (q1 + m + j - p) as nat)),
            },
        }
    } else {
        Ok((left, 0))
    }
}

/// `term (^ power)?`, grouping to the right.
#[verifier::opaque]
pub open spec fn p_power(ts: Seq<SpecToken>, p: int, d: int) -> Result<(SpecExpr, nat), SpecParseError>
    decreases clamp(300 - d), clamp(ts.len() - p), 3int,
    when tokens_wf(ts) && 0 <= p < ts.len()
{
    if d + 1 > MAX_DEPTH {
        Err(depth_error(ts, p))
    } else {
        match p_term(ts, p, d + 1) {
            Err(e) => Err(e),
            Ok((base, n)) => {
                let q = p + n;
                if ts[q].kind is Caret {
                    let q1 = q + step(ts, q);
                    match p_power(ts, q1, d + 1) {
                        Err(e) => Err(e),
                        Ok((x, m)) => Ok(
                            (
                                SpecExpr::Binary(BinaryOp::Pow, Box::new(base), Box::new(x)),
                                (q1 + m - p) as nat,
                            ),
                        ),
                    }
                } else {
                    Ok((base, n))
                }
            },
        }
    }
}

/// `( expr )`, `- term` (read as `0 - term`), a number, a variable, or a
/// call `name ( arguments )`.
#[verifier::opaque]
pub open spec fn p_term(ts: Seq<SpecToken>, p: int, d: int) -> Result<(SpecExpr, nat), SpecParseError>
    decreases clamp(300 - d), clamp(ts.len() - p), 2int,
    when tokens_wf(ts) && 0 <= p < ts.len()
{
    if d + 1 > MAX_DEPTH {
        Err(depth_error(ts, p))
    } else {
        let q1 = p + step(ts, p);
        match ts[p].kind {
            SpecTokenKind::LeftParen => match p_expr(ts, q1, d + 1) {
                Err(e) => Err(e),
                Ok((inner, n)) => match p_expect(
                    ts,
                    q1 + n,
                    SpecTokenKind::RightParen,
                    "`)` to close the parentheses"@,
                ) {
                    Err(e) => Err(e),
                    Ok(m) => Ok((inner, (q1 + n + m - p) as nat)),
                },
            },
            SpecTokenKind::Minus => match p_term(ts, q1, d + 1) {
                Err(e) => Err(e),
                Ok((x, n)) => Ok(
                    (
                        SpecExpr::Binary(
                            BinaryOp::Sub,
                            Box::new(SpecExpr::Literal(spec_zero())),
                            Box::new(x),
                        ),
                        (q1 + n - p) as nat,
                    ),
                ),
            },
            SpecTokenKind::Number(v) => Ok((SpecExpr::Literal(v), step(ts, p))),
            SpecTokenKind::Identifier(name) => if ts[q1].kind is LeftParen {
                let q2 = q1 + step(ts, q1);
                match p_call_arguments(ts, q2, d + 1) {
                    Err(e) => Err(e),
                    Ok((args, n)) => Ok((SpecExpr::Call(name, args), (q2 + n - p) as nat)),
                }
            } else {
                Ok((SpecExpr::Variable(name), step(ts, p)))
            },
            k => Err(error_here(ts, p, "expected a value or `(`, found "@ + describe_kind(k))),
        }
    }
}

/// `)` alone, or `expr (, expr)* )`.
#[verifier::opaque]
pub open spec fn p_call_arguments(ts: Seq<SpecToken>, p: int, d: int) -> Result<
    (Seq<SpecExpr>, nat),
    SpecParseError,
>
    decreases clamp(300 - d), clamp(ts.len() - p), 22int,
    when tokens_wf(ts) && 0 <= p < ts.len()
{
    if ts[p].kind is RightParen {
        Ok((Seq::empty(), step(ts, p)))
    } else {
        match p_expr(ts, p, d) {
            Err(e) => Err(e),
            Ok((a, n)) => match p_arguments_tail(ts, p + n, d, seq![a]) {
                Err(e) => Err(e),
                Ok((args, m)) => Ok((args, n + m)),
            },
        }
    }
}

#[verifier::opaque]
pub open spec fn p_arguments_tail(ts: Seq<SpecToken>, p: int, d: int, acc: Seq<SpecExpr>) -> Result<
    (Seq<SpecExpr>, nat),
    SpecParseError,
>
    decreases clamp(300 - d), clamp(ts.len() - p), 21int,
    when tokens_wf(ts) && 0 <= p < ts.len()
{
    if ts[p].kind is Comma {
        let q1 = p + step(ts, p);
        match p_expr(ts, q1, d) {
            Err(e) => Err(e),
            Ok((a, m)) => match p_arguments_tail(ts, q1 + m, d, acc.push(a)) {
                Err(e) => Err(e),
                Ok((args, k)) => Ok((args, (q1 + m + k - p) as nat)),
            },
        }
    } else {
        match p_expect(ts, p, SpecTokenKind::RightParen, "`)` to close the argument list"@) {
            Err(e) => Err(e),
            Ok(k) => Ok((acc, k)),
        }
    }
}

/// The formula a token list spells, which must be followed by the end token.
pub open spec fn parse_tokens(ts: Seq<SpecToken>) -> Result<SpecFormula, SpecParseError> {
    match p_formula(ts, 0, 0) {
        Err(e) => Err(e),
        Ok((f, n)) => if ts[n as int].kind is End {
            Ok(f)
        } else {
            Err(
                error_here(
                    ts,
                    n as int,
                    "unexpected "@ + describe_kind(ts[n as int].kind) + " after a complete formula"@,
                ),
            )
        },
    }
}

/// The formula a text spells, or the first error in it.
pub open spec fn spec_parse(s: Seq<char>) -> Result<SpecFormula, SpecParseError> {
    match spec_tokenize(s) {
        Err(e) => Err(e),
        Ok(ts) => parse_tokens(ts),
    }
}

// ---------------------------------------------------------------------------
// The parser.

/// A result moved `k` tokens further on.
pub open spec fn shift<T>(r: Result<(T, nat), SpecParseError>, k: int) -> Result<
    (T, nat),
    SpecParseError,
> {
    match r {
        Ok((v, m)) => Ok((v, (m + k) as nat)),
        Err(e) => Err(e),
    }
}

/// The token list, the position of the next token, and how deep the rules
/// being read nest.
struct Parser {
    tokens: Vec<Token>,
    pos: usize,
    depth: usize,
}

impl Parser {
    spec fn ts(&self) -> Seq<SpecToken> {
        tokens_view(self.tokens@)
    }

    /// The position is on a token of a list closed by an end token.
    spec fn on_token(&self) -> bool {
        &&& tokens_wf(self.ts())
        &&& self.pos < self.tokens@.len()
    }

    spec fn wf(&self) -> bool {
        &&& self.on_token()
        &&& self.depth <= MAX_DEPTH
    }
}

/// A rule run from state `a` to state `b` did what the grammar `s` says: the
/// tokens are untouched, and either the value read is the grammar's with the
/// position `n` tokens on and the depth restored, or the error is the
/// grammar's.
spec fn follows<T: View>(
    a: Parser,
    b: Parser,
    r: Result<T, ParseError>,
    s: Result<(T::V, nat), SpecParseError>,
) -> bool {
    &&& b.tokens@ == a.tokens@
    &&& b.pos < b.tokens@.len()
    &&& match (r, s) {
        (Ok(v), Ok((sv, n))) => v@ == sv && b.pos == a.pos + n && b.depth == a.depth,
        (Err(e), Err(se)) => e@ == se,
        _ => false,
    }
}

/// [`follows`] for values that are their own reading.
spec fn follows_plain<T>(
    a: Parser,
    b: Parser,
    r: Result<T, ParseError>,
    s: Result<(T, nat), SpecParseError>,
) -> bool {
    &&& b.tokens@ == a.tokens@
    &&& b.pos < b.tokens@.len()
    &&& match (r, s) {
        (Ok(v), Ok((sv, n))) => v == sv && b.pos == a.pos + n && b.depth == a.depth,
        (Err(e), Err(se)) => e@ == se,
        _ => false,
    }
}

impl Parser {
    fn peek(&self) -> (r: &TokenKind)
        requires
            self.on_token(),
        ensures
            r@ == self.ts()[self.pos as int].kind,
    {
        &self.tokens[self.pos].kind
    }

    fn position(&self) -> (r: (usize, usize))
        requires
            self.on_token(),
        ensures
            r.0 == self.ts()[self.pos as int].line,
            r.1 == self.ts()[self.pos as int].column,
    {
        let t = &self.tokens[self.pos];
        (t.line, t.column)
    }

    /// An error at the current token.
    fn fail(&self, message: String) -> (r: ParseError)
        requires
            self.on_token(),
        ensures
            r@ == error_here(self.ts(), self.pos as int, message@),
    {
        let (line, column) = self.position();
        ParseError::at(message, line, column)
    }

    /// `expected {what}, found {current token}`.
    fn expected(&self, what: &str) -> (r: ParseError)
        requires
            self.on_token(),
        ensures
            r@ == error_here(
                self.ts(),
                self.pos as int,
                expected_message(what@, self.ts()[self.pos as int].kind),
            ),
    {
        let mut message = string_of("expected ");
        message.append(what);
        message.append(", found ");
        message.append(self.peek().describe().as_str());
        self.fail(message)
    }

    fn enter(&mut self) -> (r: Result<(), ParseError>)
        requires
            old(self).wf(),
        ensures
            final(self).tokens@ == old(self).tokens@,
            final(self).pos == old(self).pos,
            match r {
                Ok(()) => old(self).depth + 1 <= MAX_DEPTH && final(self).depth == old(self).depth
                    + 1,
                Err(e) => old(self).depth + 1 > MAX_DEPTH && e@ == depth_error(
                    old(self).ts(),
                    old(self).pos as int,
                ),
            },
    {
        self.depth = self.depth + 1;
        if self.depth > MAX_DEPTH {
            return Err(self.fail(string_of("formula nests deeper than the limit of 256")));
        }
        Ok(())
    }

    fn leave(&mut self)
        requires
            old(self).depth >= 1,
        ensures
            final(self).tokens@ == old(self).tokens@,
            final(self).pos == old(self).pos,
            final(self).depth == old(self).depth - 1,
    {
        self.depth = self.depth - 1;
    }

    /// Moves past the current token, staying on the end token.
    fn bump(&mut self)
        requires
            old(self).wf(),
        ensures
            final(self).tokens@ == old(self).tokens@,
            final(self).depth == old(self).depth,
            final(self).pos == old(self).pos + step(old(self).ts(), old(self).pos as int),
    {
        if self.pos < self.tokens.len() - 1 {
            self.pos = self.pos + 1;
        }
    }

    /// Consumes a `,`, `]`, `(` or `)` token, or names what was expected.
    fn expect(&mut self, kind: &TokenKind, what: &str) -> (r: Result<(), ParseError>)
        requires
            old(self).wf(),
            kind@ is Comma || kind@ is RightBracket || kind@ is LeftParen || kind@ is RightParen,
        ensures
            final(self).tokens@ == old(self).tokens@,
            final(self).pos < final(self).tokens@.len(),
            match (r, p_expect(old(self).ts(), old(self).pos as int, kind@, what@)) {
                (Ok(()), Ok(n)) => final(self).pos == old(self).pos + n && final(self).depth == old(
                    self,
                ).depth,
                (Err(e), Err(se)) => e@ == se,
                _ => false,
            },
    {
        proof {
            reveal(p_expect);
        }
        let same = match (self.peek(), kind) {
            (TokenKind::Comma, TokenKind::Comma) => true,
            (TokenKind::RightBracket, TokenKind::RightBracket) => true,
            (TokenKind::LeftParen, TokenKind::LeftParen) => true,
            (TokenKind::RightParen, TokenKind::RightParen) => true,
            _ => false,
        };
        if same {
            self.bump();
            Ok(())
        } else {
            Err(self.expected(what))
        }
    }

    #[verifier::spinoff_prover]
    #[verifier::rlimit(50)]
    fn formula(&mut self) -> (r: Result<Formula, ParseError>)
        requires
            old(self).wf(),
        ensures
            follows(
                *old(self),
                *final(self),
                r,
                p_formula(old(self).ts(), old(self).pos as int, old(self).depth as int),
            ),
        decreases clamp(300 - old(self).depth), clamp(old(self).tokens@.len() - old(self).pos),
            20int,
    {
        proof {
            reveal_with_fuel(p_formula, 1);
        }
        self.implies()
    }

    #[verifier::spinoff_prover]
    #[verifier::rlimit(50)]
    fn implies(&mut self) -> (r: Result<Formula, ParseError>)
        requires
            old(self).wf(),
        ensures
            follows(
                *old(self),
                *final(self),
                r,
                p_implies(old(self).ts(), old(self).pos as int, old(self).depth as int),
            ),
        decreases clamp(300 - old(self).depth), clamp(old(self).tokens@.len() - old(self).pos),
            19int,
    {
        proof {
            reveal_with_fuel(p_implies, 1);
        }
        match self.enter() {
            Ok(()) => {},
            Err(e) => return Err(e),
        }
        let left = match self.or() {
            Ok(f) => f,
            Err(e) => return Err(e),
        };
        let formula = if matches!(self.peek(), TokenKind::Implies) {
            self.bump();
            let right = match self.implies() {
                Ok(f) => f,
                Err(e) => return Err(e),
            };
            Formula::Implies(Box::new(left), Box::new(right))
        } else {
            left
        };
        self.leave();
        Ok(formula)
    }

    #[verifier::spinoff_prover]
    #[verifier::rlimit(50)]
    fn or(&mut self) -> (r: Result<Formula, ParseError>)
        requires
            old(self).wf(),
        ensures
            follows(
                *old(self),
                *final(self),
                r,
                p_or(old(self).ts(), old(self).pos as int, old(self).depth as int),
            ),
        decreases clamp(300 - old(self).depth), clamp(old(self).tokens@.len() - old(self).pos),
            18int,
    {
        proof {
            reveal_with_fuel(p_or, 1);
            reveal_with_fuel(p_or_tail, 1);
        }
        let ghost ts = self.ts();
        let ghost p0 = self.pos as int;
        let ghost d0 = self.depth as int;
        let mut left = match self.and() {
            Ok(f) => f,
            Err(e) => return Err(e),
        };
        while matches!(self.peek(), TokenKind::Or)
            invariant
                self.wf(),
                self.ts() == ts,
                self.tokens@ == old(self).tokens@,
                self.depth == d0,
                p0 <= self.pos,
                ts == old(self).ts(),
                p0 == old(self).pos,
                d0 == old(self).depth,
                p_or(ts, p0, d0) == shift(p_or_tail(ts, self.pos as int, d0, left@), self.pos - p0),
            decreases ts.len() - self.pos,
        {
            proof {
                reveal_with_fuel(p_or_tail, 1);
            }
            self.bump();
            let right = match self.and() {
                Ok(f) => f,
                Err(e) => return Err(e),
            };
            left = Formula::Or(Box::new(left), Box::new(right));
        }
        Ok(left)
    }

    #[verifier::spinoff_prover]
    #[verifier::rlimit(50)]
    fn and(&mut self) -> (r: Result<Formula, ParseError>)
        requires
            old(self).wf(),
        ensures
            follows(
                *old(self),
                *final(self),
                r,
                p_and(old(self).ts(), old(self).pos as int, old(self).depth as int),
            ),
        decreases clamp(300 - old(self).depth), clamp(old(self).tokens@.len() - old(self).pos),
            16int,
    {
        proof {
            reveal_with_fuel(p_and, 1);
            reveal_with_fuel(p_and_tail, 1);
        }
        let ghost ts = self.ts();
        let ghost p0 = self.pos as int;
        let ghost d0 = self.depth as int;
        let mut left = match self.until() {
            Ok(f) => f,
            Err(e) => return Err(e),
        };
        while matches!(self.peek(), TokenKind::And)
            invariant
                self.wf(),
                self.ts() == ts,
                self.tokens@ == old(self).tokens@,
                self.depth == d0,
                p0 <= self.pos,
                ts == old(self).ts(),
                p0 == old(self).pos,
                d0 == old(self).depth,
                p_and(ts, p0, d0) == shift(
                    p_and_tail(ts, self.pos as int, d0, left@),
                    self.pos - p0,
                ),
            decreases ts.len() - self.pos,
        {
            proof {
                reveal_with_fuel(p_and_tail, 1);
            }
            self.bump();
            let right = match self.until() {
                Ok(f) => f,
                Err(e) => return Err(e),
            };
            left = Formula::And(Box::new(left), Box::new(right));
        }
        Ok(left)
    }

    #[verifier::spinoff_prover]
    #[verifier::rlimit(50)]
    fn until(&mut self) -> (r: Result<Formula, ParseError>)
        requires
            old(self).wf(),
        ensures
            follows(
                *old(self),
                *final(self),
                r,
                p_until(old(self).ts(), old(self).pos as int, old(self).depth as int),
            ),
        decreases clamp(300 - old(self).depth), clamp(old(self).tokens@.len() - old(self).pos),
            14int,
    {
        proof {
            reveal_with_fuel(p_until, 1);
        }
        match self.enter() {
            Ok(()) => {},
            Err(e) => return Err(e),
        }
        let left = match self.since() {
            Ok(f) => f,
            Err(e) => return Err(e),
        };
        let formula = if matches!(self.peek(), TokenKind::Until) {
            self.bump();
            let interval = match self.interval() {
                Ok(i) => i,
                Err(e) => return Err(e),
            };
            let right = match self.until() {
                Ok(f) => f,
                Err(e) => return Err(e),
            };
            Formula::Until(interval, Box::new(left), Box::new(right))
        } else {
            left
        };
        self.leave();
        Ok(formula)
    }

    #[verifier::spinoff_prover]
    #[verifier::rlimit(50)]
    fn since(&mut self) -> (r: Result<Formula, ParseError>)
        requires
            old(self).wf(),
        ensures
            follows(
                *old(self),
                *final(self),
                r,
                p_since(old(self).ts(), old(self).pos as int, old(self).depth as int),
            ),
        decreases clamp(300 - old(self).depth), clamp(old(self).tokens@.len() - old(self).pos),
            13int,
    {
        proof {
            reveal_with_fuel(p_since, 1);
        }
        match self.enter() {
            Ok(()) => {},
            Err(e) => return Err(e),
        }
        let left = match self.temporal() {
            Ok(f) => f,
            Err(e) => return Err(e),
        };
        let formula = if matches!(self.peek(), TokenKind::Since) {
            self.bump();
            let interval = match self.interval() {
                Ok(i) => i,
                Err(e) => return Err(e),
            };
            let right = match self.since() {
                Ok(f) => f,
                Err(e) => return Err(e),
            };
            Formula::Since(interval, Box::new(left), Box::new(right))
        } else {
            left
        };
        self.leave();
        Ok(formula)
    }

    #[verifier::spinoff_prover]
    #[verifier::rlimit(50)]
    fn temporal(&mut self) -> (r: Result<Formula, ParseError>)
        requires
            old(self).wf(),
        ensures
            follows(
                *old(self),
                *final(self),
                r,
                p_temporal(old(self).ts(), old(self).pos as int, old(self).depth as int),
            ),
        decreases clamp(300 - old(self).depth), clamp(old(self).tokens@.len() - old(self).pos),
            12int,
    {
        proof {
            reveal_with_fuel(p_temporal, 1);
        }
        match self.peek() {
            TokenKind::Always => {
                self.bump();
                let interval = match self.interval() {
                    Ok(i) => i,
                    Err(e) => return Err(e),
                };
                match self.unary() {
                    Ok(g) => Ok(Formula::Always(interval, Box::new(g))),
                    Err(e) => Err(e),
                }
            },
            TokenKind::Eventually => {
                self.bump();
                let interval = match self.interval() {
                    Ok(i) => i,
                    Err(e) => return Err(e),
                };
                match self.unary() {
                    Ok(g) => Ok(Formula::Eventually(interval, Box::new(g))),
                    Err(e) => Err(e),
                }
            },
            TokenKind::Historically => {
                self.bump();
                let interval = match self.interval() {
                    Ok(i) => i,
                    Err(e) => return Err(e),
                };
                match self.unary() {
                    Ok(g) => Ok(Formula::Historically(interval, Box::new(g))),
                    Err(e) => Err(e),
                }
            },
            TokenKind::Once => {
                self.bump();
                let interval = match self.interval() {
                    Ok(i) => i,
                    Err(e) => return Err(e),
                };
                match self.unary() {
                    Ok(g) => Ok(Formula::Once(interval, Box::new(g))),
                    Err(e) => Err(e),
                }
            },
            TokenKind::Next => {
                self.bump();
                match self.unary() {
                    Ok(g) => Ok(Formula::Next(Box::new(g))),
                    Err(e) => Err(e),
                }
            },
            _ => self.unary(),
        }
    }

    #[verifier::spinoff_prover]
    #[verifier::rlimit(50)]
    fn unary(&mut self) -> (r: Result<Formula, ParseError>)
        requires
            old(self).wf(),
        ensures
            follows(
                *old(self),
                *final(self),
                r,
                p_unary(old(self).ts(), old(self).pos as int, old(self).depth as int),
            ),
        decreases clamp(300 - old(self).depth), clamp(old(self).tokens@.len() - old(self).pos),
            11int,
    {
        proof {
            reveal_with_fuel(p_unary, 1);
        }
        match self.enter() {
            Ok(()) => {},
            Err(e) => return Err(e),
        }
        let formula = if matches!(self.peek(), TokenKind::Not) {
            self.bump();
            match self.unary() {
                Ok(g) => Formula::Not(Box::new(g)),
                Err(e) => return Err(e),
            }
        } else {
            match self.probabilistic() {
                Ok(g) => g,
                Err(e) => return Err(e),
            }
        };
        self.leave();
        Ok(formula)
    }

    #[verifier::spinoff_prover]
    #[verifier::rlimit(50)]
    fn probabilistic(&mut self) -> (r: Result<Formula, ParseError>)
        requires
            old(self).wf(),
        ensures
            follows(
                *old(self),
                *final(self),
                r,
                p_probabilistic(old(self).ts(), old(self).pos as int, old(self).depth as int),
            ),
        decreases clamp(300 - old(self).depth), clamp(old(self).tokens@.len() - old(self).pos),
            10int,
    {
        proof {
            reveal_with_fuel(p_probabilistic, 1);
        }
        if !matches!(self.peek(), TokenKind::Probability) {
            return self.primary();
        }
        let (line, column) = self.position();
        self.bump();
        let op = match self.probability_op() {
            Ok(op) => op,
            Err(e) => return Err(e),
        };
        let threshold = match self.signed_number("a probability threshold") {
            Ok(t) => t,
            Err(e) => return Err(e),
        };
        let zero = Decimal::zero();
        let one = Decimal::one();
        if threshold.less_than(&zero) || one.less_than(&threshold) {
            let mut message = string_of("probability threshold ");
            threshold.write_to(&mut message);
            message.append(" must lie between 0 and 1");
            return Err(ParseError::at(message, line, column));
        }
        match self.expect(&TokenKind::LeftParen, "`(` to open the probabilistic body") {
            Ok(()) => {},
            Err(e) => return Err(e),
        }
        let inner = match self.formula() {
            Ok(f) => f,
            Err(e) => return Err(e),
        };
        match self.expect(&TokenKind::RightParen, "`)` to close the probabilistic body") {
            Ok(()) => {},
            Err(e) => return Err(e),
        }
        Ok(Formula::Probabilistic(op, threshold, Box::new(inner)))
    }

    #[verifier::spinoff_prover]
    #[verifier::rlimit(50)]
    fn primary(&mut self) -> (r: Result<Formula, ParseError>)
        requires
            old(self).wf(),
        ensures
            follows(
                *old(self),
                *final(self),
                r,
                p_primary(old(self).ts(), old(self).pos as int, old(self).depth as int),
            ),
        decreases clamp(300 - old(self).depth), clamp(old(self).tokens@.len() - old(self).pos),
            9int,
    {
        proof {
            reveal_with_fuel(p_primary, 1);
        }
        if matches!(self.peek(), TokenKind::LeftParen) {
            self.bump();
            let inner = match self.formula() {
                Ok(f) => f,
                Err(e) => return Err(e),
            };
            return match self.expect(&TokenKind::RightParen, "`)` to close the group") {
                Ok(()) => Ok(inner),
                Err(e) => Err(e),
            };
        }
        self.predicate()
    }

    #[verifier::spinoff_prover]
    #[verifier::rlimit(50)]
    fn predicate(&mut self) -> (r: Result<Formula, ParseError>)
        requires
            old(self).wf(),
        ensures
            follows(
                *old(self),
                *final(self),
                r,
                p_predicate(old(self).ts(), old(self).pos as int, old(self).depth as int),
            ),
        decreases clamp(300 - old(self).depth), clamp(old(self).tokens@.len() - old(self).pos),
            8int,
    {
        proof {
            reveal_with_fuel(p_predicate, 1);
        }
        let lhs = match self.expr() {
            Ok(x) => x,
            Err(e) => return Err(e),
        };
        let op = match self.comparison_op() {
            Ok(op) => op,
            Err(e) => return Err(e),
        };
        let rhs = match self.expr() {
            Ok(x) => x,
            Err(e) => return Err(e),
        };
        Ok(Formula::Predicate(Predicate { lhs, op, rhs }))
    }

    #[verifier::spinoff_prover]
    #[verifier::rlimit(50)]
    fn expr(&mut self) -> (r: Result<Expr, ParseError>)
        requires
            old(self).wf(),
        ensures
            follows(
                *old(self),
                *final(self),
                r,
                p_expr(old(self).ts(), old(self).pos as int, old(self).depth as int),
            ),
        decreases clamp(300 - old(self).depth), clamp(old(self).tokens@.len() - old(self).pos),
            7int,
    {
        proof {
            reveal_with_fuel(p_expr, 1);
            reveal_with_fuel(p_expr_tail, 1);
        }
        let ghost ts = self.ts();
        let ghost p0 = self.pos as int;
        let ghost d0 = self.depth as int;
        let mut left = match self.factor() {
            Ok(x) => x,
            Err(e) => return Err(e),
        };
        loop
            invariant
                self.wf(),
                self.ts() == ts,
                self.tokens@ == old(self).tokens@,
                self.depth == d0,
                p0 <= self.pos,
                ts == old(self).ts(),
                p0 == old(self).pos,
                d0 == old(self).depth,
                p_expr(ts, p0, d0) == shift(
                    p_expr_tail(ts, self.pos as int, d0, left@),
                    self.pos - p0,
                ),
            ensures
                self.wf(),
                self.tokens@ == old(self).tokens@,
                self.depth == d0,
                p_expr(ts, p0, d0) == Ok::<(SpecExpr, nat), SpecParseError>(
                    (left@, (self.pos - p0) as nat),
                ),
            decreases ts.len() - self.pos,
        {
            proof {
                reveal_with_fuel(p_expr_tail, 1);
            }
            let op = match self.peek() {
                TokenKind::Plus => BinaryOp::Add,
                TokenKind::Minus => BinaryOp::Sub,
                _ => break,
            };
            self.bump();
            let right = match self.factor() {
                Ok(x) => x,
                Err(e) => return Err(e),
            };
            left = Expr::Binary(op, Box::new(left), Box::new(right));
        }
        Ok(left)
    }

    #[verifier::spinoff_prover]
    #[verifier::rlimit(50)]
    fn factor(&mut self) -> (r: Result<Expr, ParseError>)
        requires
            old(self).wf(),
        ensures
            follows(
                *old(self),
                *final(self),
                r,
                p_factor(old(self).ts(), old(self).pos as int, old(self).depth as int),
            ),
        decreases clamp(300 - old(self).depth), clamp(old(self).tokens@.len() - old(self).pos),
            5int,
    {
        proof {
            reveal_with_fuel(p_factor, 1);
            reveal_with_fuel(p_factor_tail, 1);
        }
        let ghost ts = self.ts();
        let ghost p0 = self.pos as int;
        let ghost d0 = self.depth as int;
        let mut left = match self.power() {
            Ok(x) => x,
            Err(e) => return Err(e),
        };
        loop
            invariant
                self.wf(),
                self.ts() == ts,
                self.tokens@ == old(self).tokens@,
                self.depth == d0,
                p0 <= self.pos,
                ts == old(self).ts(),
                p0 == old(self).pos,
                d0 == old(self).depth,
                p_factor(ts, p0, d0) == shift(
                    p_factor_tail(ts, self.pos as int, d0, left@),
                    self.pos - p0,
                ),
            ensures
                self.wf(),
                self.tokens@ == old(self).tokens@,
                self.depth == d0,
                p_factor(ts, p0, d0) == Ok::<(SpecExpr, nat), SpecParseError>(
                    (left@, (self.pos - p0) as nat),
                ),
            decreases ts.len() - self.pos,
        {
            proof {
                reveal_with_fuel(p_factor_tail, 1);
            }
            let op = match self.peek() {
                TokenKind::Star => BinaryOp::Mul,
                TokenKind::Slash => BinaryOp::Div,
                TokenKind::Percent => BinaryOp::Mod,
                _ => break,
            };
            self.bump();
            let right = match self.power() {
                Ok(x) => x,
                Err(e) => return Err(e),
            };
            left = Expr::Binary(op, Box::new(left), Box::new(right));
        }
        Ok(left)
    }

    #[verifier::spinoff_prover]
    #[verifier::rlimit(50)]
    fn power(&mut self) -> (r: Result<Expr, ParseError>)
        requires
            old(self).wf(),
        ensures
            follows(
                *old(self),
                *final(self),
                r,
                p_power(old(self).ts(), old(self).pos as int, old(self).depth as int),
            ),
        decreases clamp(300 - old(self).depth), clamp(old(self).tokens@.len() - old(self).pos),
            3int,
    {
        proof {
            reveal_with_fuel(p_power, 1);
        }
        match self.enter() {
            Ok(()) => {},
            Err(e) => return Err(e),
        }
        let base = match self.term() {
            Ok(x) => x,
            Err(e) => return Err(e),
        };
        let expr = if matches!(self.peek(), TokenKind::Caret) {
            self.bump();
            let exponent = match self.power() {
                Ok(x) => x,
                Err(e) => return Err(e),
            };
            Expr::Binary(BinaryOp::Pow, Box::new(base), Box::new(exponent))
        } else {
            base
        };
        self.leave();
        Ok(expr)
    }

    #[verifier::spinoff_prover]
    #[verifier::rlimit(50)]
    fn term(&mut self) -> (r: Result<Expr, ParseError>)
        requires
            old(self).wf(),
        ensures
            follows(
                *old(self),
                *final(self),
                r,
                p_term(old(self).ts(), old(self).pos as int, old(self).depth as int),
            ),
        decreases clamp(300 - old(self).depth), clamp(old(self).tokens@.len() - old(self).pos),
            2int,
    {
        proof {
            reveal_with_fuel(p_term, 1);
        }
        match self.enter() {
            Ok(()) => {},
            Err(e) => return Err(e),
        }
        let expr = match self.peek() {
            TokenKind::LeftParen => {
                self.bump();
                let inner = match self.expr() {
                    Ok(x) => x,
                    Err(e) => return Err(e),
                };
                match self.expect(&TokenKind::RightParen, "`)` to close the parentheses") {
                    Ok(()) => {},
                    Err(e) => return Err(e),
                }
                inner
            },
            TokenKind::Minus => {
                self.bump();
                let operand = match self.term() {
                    Ok(x) => x,
                    Err(e) => return Err(e),
                };
                let zero = Expr::Literal(Decimal::zero());
                assert(zero@ == SpecExpr::Literal(spec_zero()));
                Expr::Binary(BinaryOp::Sub, Box::new(zero), Box::new(operand))
            },
            TokenKind::Number(n) => {
                let value = n.clone();
                self.bump();
                Expr::Literal(value)
            },
            TokenKind::Identifier(name) => {
                let name = name.clone();
                self.bump();
                if matches!(self.peek(), TokenKind::LeftParen) {
                    self.bump();
                    match self.call_arguments() {
                        Ok(args) => Expr::Call(name, args),
                        Err(e) => return Err(e),
                    }
                } else {
                    Expr::Variable(name)
                }
            },
            _ => {
                let mut message = string_of("expected a value or `(`, found ");
                message.append(self.peek().describe().as_str());
                return Err(self.fail(message));
            },
        };
        self.leave();
        Ok(expr)
    }

    #[verifier::spinoff_prover]
    #[verifier::rlimit(50)]
    fn call_arguments(&mut self) -> (r: Result<Vec<Expr>, ParseError>)
        requires
            old(self).wf(),
        ensures
            final(self).tokens@ == old(self).tokens@,
            final(self).pos < final(self).tokens@.len(),
            match (r, p_call_arguments(old(self).ts(), old(self).pos as int, old(self).depth as int)) {
                (Ok(args), Ok((sargs, n))) => exprs_view(args@) == sargs && final(self).pos == old(
                    self,
                ).pos + n && final(self).depth == old(self).depth,
                (Err(e), Err(se)) => e@ == se,
                _ => false,
            },
        decreases clamp(300 - old(self).depth), clamp(old(self).tokens@.len() - old(self).pos),
            22int,
    {
        proof {
            reveal_with_fuel(p_call_arguments, 1);
            reveal_with_fuel(p_arguments_tail, 1);
        }
        let ghost ts = self.ts();
        let ghost p0 = self.pos as int;
        let ghost d0 = self.depth as int;
        let mut args: Vec<Expr> = Vec::new();
        if matches!(self.peek(), TokenKind::RightParen) {
            self.bump();
            proof {
                assert(exprs_view(args@) =~= Seq::<SpecExpr>::empty());
            }
            return Ok(args);
        }
        let first = match self.expr() {
            Ok(x) => x,
            Err(e) => return Err(e),
        };
        args.push(first);
        proof {
            let none: Seq<Expr> = Seq::empty();
            assert(exprs_view(none) =~= Seq::<SpecExpr>::empty());
            assert(args@.drop_last() =~= none);
            assert(exprs_view(args@) =~= seq![args@[0]@]);
        }
        while matches!(self.peek(), TokenKind::Comma)
            invariant
                self.wf(),
                self.ts() == ts,
                self.tokens@ == old(self).tokens@,
                self.depth == d0,
                p0 <= self.pos,
                ts == old(self).ts(),
                p0 == old(self).pos,
                d0 == old(self).depth,
                p_call_arguments(ts, p0, d0) == shift(
                    p_arguments_tail(ts, self.pos as int, d0, exprs_view(args@)),
                    self.pos - p0,
                ),
            decreases ts.len() - self.pos,
        {
            proof {
                reveal_with_fuel(p_arguments_tail, 1);
            }
            self.bump();
            let a = match self.expr() {
                Ok(x) => x,
                Err(e) => return Err(e),
            };
            let ghost before = args@;
            args.push(a);
            proof {
                assert(args@.drop_last() =~= before);
            }
        }
        match self.expect(&TokenKind::RightParen, "`)` to close the argument list") {
            Ok(()) => {},
            Err(e) => return Err(e),
        }
        Ok(args)
    }

    #[verifier::spinoff_prover]
    #[verifier::rlimit(50)]
    fn interval(&mut self) -> (r: Result<Interval, ParseError>)
        requires
            old(self).wf(),
        ensures
            follows(*old(self), *final(self), r, p_interval(old(self).ts(), old(self).pos as int)),
            r matches Ok(i) ==> i.wf(),
    {
        proof {
            reveal(p_interval);
        }
        if !matches!(self.peek(), TokenKind::LeftBracket) {
            return Ok(Interval::unbounded());
        }
        let (line, column) = self.position();
        self.bump();
        let lower = match self.bound() {
            Ok(b) => b,
            Err(e) => return Err(e),
        };
        match self.expect(&TokenKind::Comma, "`,` between the interval bounds") {
            Ok(()) => {},
            Err(e) => return Err(e),
        }
        let upper = match self.bound() {
            Ok(b) => b,
            Err(e) => return Err(e),
        };
        match self.expect(&TokenKind::RightBracket, "`]` to close the interval") {
            Ok(()) => {},
            Err(e) => return Err(e),
        }
        let lower = match lower {
            Some(l) => l,
            None => {
                return Err(
                    ParseError::at(string_of("an interval's lower bound cannot be `inf`"), line, column),
                );
            },
        };
        proof {
            use_type_invariant(&lower);
        }
        let zero = Decimal::zero();
        if lower.less_than(&zero) {
            let mut message = string_of("an interval's lower bound must be at least 0, found ");
            lower.write_to(&mut message);
            return Err(ParseError::at(message, line, column));
        }
        if let Some(u) = &upper {
            proof {
                use_type_invariant(u);
            }
            if u.less_than(&lower) {
                let mut message = string_of("interval lower bound ");
                lower.write_to(&mut message);
                message.append(" is greater than upper bound ");
                u.write_to(&mut message);
                return Err(ParseError::at(message, line, column));
            }
        }
        Ok(Interval::new_unchecked(lower, upper))
    }

    #[verifier::spinoff_prover]
    #[verifier::rlimit(50)]
    fn bound(&mut self) -> (r: Result<Option<Decimal>, ParseError>)
        requires
            old(self).wf(),
        ensures
            final(self).tokens@ == old(self).tokens@,
            final(self).pos < final(self).tokens@.len(),
            match (r, p_bound(old(self).ts(), old(self).pos as int)) {
                (Ok(b), Ok((sb, n))) => decimal_option_view(b) == sb && final(self).pos == old(
                    self,
                ).pos + n && final(self).depth == old(self).depth,
                (Err(e), Err(se)) => e@ == se,
                _ => false,
            },
    {
        proof {
            reveal(p_bound);
        }
        match self.peek() {
            TokenKind::Infinity => {
                self.bump();
                Ok(None)
            },
            TokenKind::Minus => {
                self.bump();
                match self.number("an interval bound") {
                    Ok(v) => Ok(Some(v.negated())),
                    Err(e) => Err(e),
                }
            },
            TokenKind::Number(n) => {
                let value = n.clone();
                self.bump();
                Ok(Some(value))
            },
            _ => {
                let mut message = string_of("expected a number or `inf`, found ");
                message.append(self.peek().describe().as_str());
                Err(self.fail(message))
            },
        }
    }

    fn number(&mut self, what: &str) -> (r: Result<Decimal, ParseError>)
        requires
            old(self).wf(),
        ensures
            follows(*old(self), *final(self), r, p_number(old(self).ts(), old(self).pos as int, what@)),
    {
        proof {
            reveal(p_number);
        }
        if let TokenKind::Number(n) = self.peek() {
            let value = n.clone();
            self.bump();
            Ok(value)
        } else {
            Err(self.expected(what))
        }
    }

    fn signed_number(&mut self, what: &str) -> (r: Result<Decimal, ParseError>)
        requires
            old(self).wf(),
        ensures
            follows(
                *old(self),
                *final(self),
                r,
                p_signed_number(old(self).ts(), old(self).pos as int, what@),
            ),
    {
        proof {
            reveal(p_signed_number);
        }
        if matches!(self.peek(), TokenKind::Minus) {
            self.bump();
            match self.number(what) {
                Ok(v) => Ok(v.negated()),
                Err(e) => Err(e),
            }
        } else {
            self.number(what)
        }
    }

    fn comparison_op(&mut self) -> (r: Result<ComparisonOp, ParseError>)
        requires
            old(self).wf(),
        ensures
            follows_plain(
                *old(self),
                *final(self),
                r,
                p_comparison_op(old(self).ts(), old(self).pos as int),
            ),
    {
        proof {
            reveal(p_comparison_op);
        }
        let op = match self.peek() {
            TokenKind::Less => ComparisonOp::Less,
            TokenKind::LessEqual => ComparisonOp::LessEqual,
            TokenKind::Greater => ComparisonOp::Greater,
            TokenKind::GreaterEqual => ComparisonOp::GreaterEqual,
            TokenKind::Equal => ComparisonOp::Equal,
            TokenKind::NotEqual => ComparisonOp::NotEqual,
            _ => {
                let mut message = string_of("expected a comparison (<, <=, >, >=, ==, !=), found ");
                message.append(self.peek().describe().as_str());
                return Err(self.fail(message));
            },
        };
        self.bump();
        Ok(op)
    }

    fn probability_op(&mut self) -> (r: Result<ProbabilityOp, ParseError>)
        requires
            old(self).wf(),
        ensures
            follows_plain(
                *old(self),
                *final(self),
                r,
                p_probability_op(old(self).ts(), old(self).pos as int),
            ),
    {
        proof {
            reveal(p_probability_op);
        }
        let op = match self.peek() {
            TokenKind::GreaterEqual => ProbabilityOp::GreaterEqual,
            TokenKind::Greater => ProbabilityOp::Greater,
            TokenKind::LessEqual => ProbabilityOp::LessEqual,
            TokenKind::Less => ProbabilityOp::Less,
            _ => {
                let mut message = string_of("`P` must be followed by >=, >, <=, or <, found ");
                message.append(self.peek().describe().as_str());
                return Err(self.fail(message));
            },
        };
        self.bump();
        Ok(op)
    }
}

/// Parses formula text into a syntax tree.
#[verifier::rlimit(50)]
pub fn parse(input: &str) -> (r: Result<Formula, ParseError>)
    requires
        input@.len() < usize::MAX,
    ensures
        match (r, spec_parse(input@)) {
            (Ok(f), Ok(sf)) => f@ == sf,
            (Err(e), Err(se)) => e@ == se,
            _ => false,
        },
{
    let tokens = match tokenize(input) {
        Ok(t) => t,
        Err(e) => return Err(e),
    };
    proof {
        lemma_lex_ends_with_end(input@, 0);
    }
    let mut parser = Parser { tokens, pos: 0, depth: 0 };
    let formula = match parser.formula() {
        Ok(f) => f,
        Err(e) => return Err(e),
    };
    if !matches!(parser.peek(), TokenKind::End) {
        let mut message = string_of("unexpected ");
        message.append(parser.peek().describe().as_str());
        message.append(" after a complete formula");
        return Err(parser.fail(message));
    }
    Ok(formula)
}

impl Formula {
    /// Parses formula text such as `always[0, 10](speed < 5)`; a malformed
    /// text gives [`Error::Parse`] with the first error in it.
    pub fn parse(input: &str) -> (r: Result<Formula, Error>)
        requires
            input@.len() < usize::MAX,
        ensures
            match (r, spec_parse(input@)) {
                (Ok(f), Ok(sf)) => f@ == sf,
                (Err(Error::Parse(e)), Err(se)) => e@ == se,
                _ => false,
            },
    {
        match parse(input) {
            Ok(f) => Ok(f),
            Err(e) => Err(Error::Parse(e)),
        }
    }
}

// ---------------------------------------------------------------------------
// The probability operator, read and written.

/// Whether the parser's operator rule read the operator `op`.
pub open spec fn reads_as(r: Result<(ProbabilityOp, nat), SpecParseError>, op: ProbabilityOp) -> bool {
    r matches Ok((o, _)) && o == op
}

/// Law: after `P`, each comparison token is read as the probability operator
/// of the same comparison (`>=` as at least, `>` as strictly above, `<=` as
/// at most, `<` as strictly below), consuming that one token; every other
/// token is refused.
pub proof fn lemma_probability_op_as_spelled(ts: Seq<SpecToken>, p: int)
    requires
        0 <= p < ts.len(),
    ensures
        ts[p].kind == SpecTokenKind::GreaterEqual ==> reads_as(p_probability_op(ts, p), ProbabilityOp::GreaterEqual),
        ts[p].kind == SpecTokenKind::Greater ==> reads_as(p_probability_op(ts, p), ProbabilityOp::Greater),
        ts[p].kind == SpecTokenKind::LessEqual ==> reads_as(p_probability_op(ts, p), ProbabilityOp::LessEqual),
        ts[p].kind == SpecTokenKind::Less ==> reads_as(p_probability_op(ts, p), ProbabilityOp::Less),
        !(ts[p].kind is GreaterEqual || ts[p].kind is Greater || ts[p].kind is LessEqual
            || ts[p].kind is Less) ==> p_probability_op(ts, p) is Err,
        p_probability_op(ts, p) matches Ok((_, n)) ==> n <= 1,
{
    reveal(p_probability_op);
}

/// Law: the text a probability operator is written as reads back, through
/// the lexer and the parser's operator rule, as that same operator, and is
/// one whole token (when the text goes on with anything but `=`, as a
/// threshold's digits do). So the four operators are written differently.
pub proof fn lemma_probability_text_reads_back(
    op: ProbabilityOp,
    rest: Seq<char>,
    ts: Seq<SpecToken>,
    p: int,
)
    requires
        rest.len() > 0,
        rest[0] != '=',
        0 <= p < ts.len(),
    ensures
        ({
            let s = probability_text(op) + rest;
            lex_symbol(s, 0) matches Ok((k, e)) && e == probability_text(op).len() && (ts[p].kind
                == k ==> reads_as(p_probability_op(ts, p), op))
        }),
        forall|a: ProbabilityOp, b: ProbabilityOp|
            probability_text(a) == probability_text(b) ==> a == b,
{
    reveal(p_probability_op);
    reveal_strlit(">=");
    reveal_strlit(">");
    reveal_strlit("<=");
    reveal_strlit("<");
    let t = probability_text(op);
    let s = t + rest;
    assert(s[0] == t[0]);
    if t.len() == 2 {
        assert(s[1] == t[1]);
    } else {
        assert(s[1] == rest[0]);
    }
    assert forall|a: ProbabilityOp, b: ProbabilityOp|
        probability_text(a) == probability_text(b) implies a == b by {
        let ta = probability_text(a);
        let tb = probability_text(b);
        if ta == tb {
            assert(ta.len() == tb.len());
            assert(ta[0] == tb[0]);
        }
    }
}

// ---------------------------------------------------------------------------
// The comparison operator, read and written.

/// Whether the parser's comparison rule read the comparison `op`.
pub open spec fn compares_as(r: Result<(ComparisonOp, nat), SpecParseError>, op: ComparisonOp) -> bool {
    r matches Ok((o, _)) && o == op
}

/// Law: each comparison token is read as the comparison it spells, and any
/// other token is refused.
pub proof fn lemma_comparison_as_spelled(ts: Seq<SpecToken>, p: int)
    requires
        0 <= p < ts.len(),
    ensures
        ts[p].kind == SpecTokenKind::Less ==> compares_as(p_comparison_op(ts, p), ComparisonOp::Less),
        ts[p].kind == SpecTokenKind::LessEqual ==> compares_as(p_comparison_op(ts, p), ComparisonOp::LessEqual),
        ts[p].kind == SpecTokenKind::Greater ==> compares_as(p_comparison_op(ts, p), ComparisonOp::Greater),
        ts[p].kind == SpecTokenKind::GreaterEqual ==> compares_as(p_comparison_op(ts, p), ComparisonOp::GreaterEqual),
        ts[p].kind == SpecTokenKind::Equal ==> compares_as(p_comparison_op(ts, p), ComparisonOp::Equal),
        ts[p].kind == SpecTokenKind::NotEqual ==> compares_as(p_comparison_op(ts, p), ComparisonOp::NotEqual),
        !(ts[p].kind is Less || ts[p].kind is LessEqual || ts[p].kind is Greater || ts[p].kind
            is GreaterEqual || ts[p].kind is Equal || ts[p].kind is NotEqual) ==> p_comparison_op(
            ts,
            p,
        ) is Err,
{
    reveal(p_comparison_op);
}

/// Law: the text a comparison is written as reads back, through the lexer
/// and the parser's comparison rule, as that same comparison, and is one
/// whole token (when followed by anything but `=`, as the space a rendered
/// predicate puts there is); so the six comparisons are written differently.
pub proof fn lemma_comparison_text_reads_back(
    op: ComparisonOp,
    rest: Seq<char>,
    ts: Seq<SpecToken>,
    p: int,
)
    requires
        rest.len() > 0,
        rest[0] != '=',
        0 <= p < ts.len(),
    ensures
        ({
            let s = comparison_text(op) + rest;
            lex_symbol(s, 0) matches Ok((k, e)) && e == comparison_text(op).len() && (ts[p].kind
                == k ==> compares_as(p_comparison_op(ts, p), op))
        }),
        forall|a: ComparisonOp, b: ComparisonOp|
            comparison_text(a) == comparison_text(b) ==> a == b,
{
    reveal(p_comparison_op);
    reveal_strlit("<");
    reveal_strlit("<=");
    reveal_strlit(">");
    reveal_strlit(">=");
    reveal_strlit("==");
    reveal_strlit("!=");
    let t = comparison_text(op);
    let s = t + rest;
    assert(s[0] == t[0]);
    if t.len() == 2 {
        assert(s[1] == t[1]);
    } else {
        assert(s[1] == rest[0]);
    }
    assert forall|a: ComparisonOp, b: ComparisonOp|
        comparison_text(a) == comparison_text(b) implies a == b by {
        let ta = comparison_text(a);
        let tb = comparison_text(b);
        if ta == tb {
            assert(ta.len() == tb.len());
            assert(ta[0] == tb[0]);
            if ta.len() == 2 {
                assert(ta[1] == tb[1]);
            }
        }
    }
}

} // verus!
