//! What the online monitor decides about a formula before any sample
//! arrives: which parts are temporal, whether a verdict settles and how many
//! samples late, and which compositions it cannot evaluate.
use crate::error::Error;
use crate::formula::analysis::{formula_depth, max_nat};
use crate::formula::ast::{Formula, SpecFormula};
use crate::text::string_of;
use vstd::prelude::*;

verus! {

/// Whether a formula has an operator other than predicates and `not`,
/// `and`, `or`, `implies`.
pub open spec fn formula_is_temporal(f: SpecFormula) -> bool
    decreases f,
{
    match f {
        SpecFormula::Predicate(_) => false,
        SpecFormula::Not(g) => formula_is_temporal(*g),
        SpecFormula::And(l, r) | SpecFormula::Or(l, r) | SpecFormula::Implies(l, r) => formula_is_temporal(*l)
            || formula_is_temporal(*r),
        _ => true,
    }
}

/// Whether a future-time operator (`always`, `eventually`, `until`, `next`)
/// appears anywhere in the formula.
pub open spec fn has_future(f: SpecFormula) -> bool
    decreases f,
{
    match f {
        SpecFormula::Always(..) | SpecFormula::Eventually(..) | SpecFormula::Until(..)
        | SpecFormula::Next(..) => true,
        SpecFormula::Predicate(_) => false,
        SpecFormula::Not(g) | SpecFormula::Historically(_, g) | SpecFormula::Once(_, g)
        | SpecFormula::Probabilistic(_, _, g) => has_future(*g),
        SpecFormula::And(l, r) | SpecFormula::Or(l, r) | SpecFormula::Implies(l, r)
        | SpecFormula::Since(_, l, r) => has_future(*l) || has_future(*r),
    }
}

/// How many whole samples behind the present a formula's verdict settles, or
/// `None` when it never settles (a future window without an upper bound).
pub open spec fn settle_samples(f: SpecFormula) -> Option<nat>
    decreases f,
{
    match f {
        SpecFormula::Predicate(_) | SpecFormula::Historically(..) | SpecFormula::Once(..)
        | SpecFormula::Since(..) => Some(0),
        SpecFormula::Not(g) | SpecFormula::Probabilistic(_, _, g) => settle_samples(*g),
        SpecFormula::And(l, r) | SpecFormula::Or(l, r) | SpecFormula::Implies(l, r) => match (
            settle_samples(*l),
            settle_samples(*r),
        ) {
            (Some(a), Some(b)) => Some(max_nat(a, b)),
            _ => None,
        },
        SpecFormula::Always(i, g) | SpecFormula::Eventually(i, g) => match settle_samples(*g) {
            Some(s) => if i.upper is Some {
                Some(s)
            } else {
                None
            },
            None => None,
        },
        SpecFormula::Until(i, _, _) => if i.upper is Some {
            Some(0)
        } else {
            None
        },
        SpecFormula::Next(g) => match settle_samples(*g) {
            Some(s) => Some(s + 1),
            None => None,
        },
    }
}

/// Why a future-time operator may not sit under a past-time one.
pub open spec fn nested_future_message() -> Seq<char> {
    "a future-time operator nested inside a past-time operator or the operand of until, since, or next; evaluate this formula offline instead"@
}

/// Why the branches of a junction must settle equally late.
pub open spec fn mixed_delay_message() -> Seq<char> {
    "a boolean junction mixing a next-delayed branch with a time-delayed one; monitor them as separate formulas, or evaluate this one offline"@
}

/// Why the online monitor cannot evaluate a formula, or `None` when it can.
pub open spec fn streaming_refusal(f: SpecFormula) -> Option<Seq<char>>
    decreases f,
{
    match f {
        SpecFormula::Predicate(_) => None,
        SpecFormula::Not(g) | SpecFormula::Always(_, g) | SpecFormula::Eventually(_, g)
        | SpecFormula::Probabilistic(_, _, g) => streaming_refusal(*g),
        SpecFormula::And(l, r) | SpecFormula::Or(l, r) | SpecFormula::Implies(l, r) => match streaming_refusal(*l) {
            Some(m) => Some(m),
            None => match streaming_refusal(*r) {
                Some(m) => Some(m),
                None => match (settle_samples(*l), settle_samples(*r)) {
                    (Some(a), Some(b)) => if a != b {
                        Some(mixed_delay_message())
                    } else {
                        None
                    },
                    _ => None,
                },
            },
        },
        SpecFormula::Historically(_, g) | SpecFormula::Once(_, g) | SpecFormula::Next(g) => if has_future(*g) {
            Some(nested_future_message())
        } else {
            streaming_refusal(*g)
        },
        SpecFormula::Until(_, l, r) | SpecFormula::Since(_, l, r) => if has_future(*l) || has_future(*r) {
            Some(nested_future_message())
        } else {
            match streaming_refusal(*l) {
                Some(m) => Some(m),
                None => streaming_refusal(*r),
            }
        },
    }
}

/// Whether the formula has an operator beyond the boolean connectives.
pub fn is_temporal(formula: &Formula) -> (r: bool)
    ensures
        r == formula_is_temporal(formula@),
    decreases formula,
{
    match formula {
        Formula::Predicate(_) => false,
        Formula::Not(f) => is_temporal(f),
        Formula::And(l, r) | Formula::Or(l, r) | Formula::Implies(l, r) => is_temporal(l)
            || is_temporal(r),
        _ => true,
    }
}

/// Whether a future-time operator appears anywhere in the formula.
pub fn contains_future(formula: &Formula) -> (r: bool)
    ensures
        r == has_future(formula@),
    decreases formula,
{
    match formula {
        Formula::Always(..) | Formula::Eventually(..) | Formula::Until(..) | Formula::Next(..) => {
            true
        },
        Formula::Predicate(_) => false,
        Formula::Not(g) | Formula::Historically(_, g) | Formula::Once(_, g) | Formula::Probabilistic(
            _,
            _,
            g,
        ) => contains_future(g),
        Formula::And(l, r) | Formula::Or(l, r) | Formula::Implies(l, r) | Formula::Since(_, l, r) => {
            contains_future(l) || contains_future(r)
        },
    }
}

proof fn lemma_settle_below_depth(f: SpecFormula)
    ensures
        settle_samples(f) matches Some(s) ==> s < formula_depth(f),
    decreases f,
{
    match f {
        SpecFormula::Not(g) | SpecFormula::Probabilistic(_, _, g) | SpecFormula::Always(_, g)
        | SpecFormula::Eventually(_, g) | SpecFormula::Next(g) => lemma_settle_below_depth(*g),
        SpecFormula::And(l, r) | SpecFormula::Or(l, r) | SpecFormula::Implies(l, r) => {
            lemma_settle_below_depth(*l);
            lemma_settle_below_depth(*r);
        },
        _ => {},
    }
}

/// How many whole samples behind the present the formula's verdict settles,
/// or `None` when it never settles.
pub fn settle_lag_samples(formula: &Formula) -> (r: Option<usize>)
    requires
        formula_depth(formula@) <= usize::MAX,
    ensures
        match (r, settle_samples(formula@)) {
            (Some(s), Some(ss)) => s == ss,
            (None, None) => true,
            _ => false,
        },
    decreases formula,
{
    proof {
        lemma_settle_below_depth(formula@);
    }
    match formula {
        Formula::Predicate(_) | Formula::Historically(..) | Formula::Once(..) | Formula::Since(..) => {
            Some(0)
        },
        Formula::Not(g) | Formula::Probabilistic(_, _, g) => settle_lag_samples(g),
        Formula::And(l, r) | Formula::Or(l, r) | Formula::Implies(l, r) => {
            let ls = match settle_lag_samples(l) {
                Some(s) => s,
                None => return None,
            };
            let rs = match settle_lag_samples(r) {
                Some(s) => s,
                None => return None,
            };
            Some(
                if ls >= rs {
                    ls
                } else {
                    rs
                },
            )
        },
        Formula::Always(interval, g) | Formula::Eventually(interval, g) => {
            let s = match settle_lag_samples(g) {
                Some(s) => s,
                None => return None,
            };
            if interval.is_bounded() {
                Some(s)
            } else {
                None
            }
        },
        Formula::Until(interval, _, _) => {
            if interval.is_bounded() {
                Some(0)
            } else {
                None
            }
        },
        Formula::Next(g) => match settle_lag_samples(g) {
            Some(s) => Some(s + 1),
            None => None,
        },
    }
}

fn unsupported(feature: &str) -> (r: Error)
    ensures
        r matches Error::Unsupported { feature: f } && f@ == feature@,
{
    Error::Unsupported { feature: string_of(feature) }
}

fn nested_future() -> (r: Error)
    ensures
        r matches Error::Unsupported { feature } && feature@ == nested_future_message(),
{
    unsupported(
        "a future-time operator nested inside a past-time operator or the operand of until, since, or next; evaluate this formula offline instead",
    )
}

/// Rejects compositions the online monitor cannot evaluate: a future-time
/// operator under `historically`, `once` or `next` or in an operand of
/// `until` or `since`, and a junction whose branches settle a different
/// number of samples late. Each refusal is an [`Error::Unsupported`].
pub fn validate_streaming(formula: &Formula) -> (r: Result<(), Error>)
    requires
        formula_depth(formula@) <= usize::MAX,
    ensures
        match streaming_refusal(formula@) {
            None => r is Ok,
            Some(m) => r matches Err(Error::Unsupported { feature }) && feature@ == m,
        },
    decreases formula,
{
    match formula {
        Formula::Predicate(_) => Ok(()),
        Formula::Not(g) | Formula::Always(_, g) | Formula::Eventually(_, g) | Formula::Probabilistic(
            _,
            _,
            g,
        ) => validate_streaming(g),
        Formula::And(l, r) | Formula::Or(l, r) | Formula::Implies(l, r) => {
            match validate_streaming(l) {
                Ok(()) => {},
                Err(e) => return Err(e),
            }
            match validate_streaming(r) {
                Ok(()) => {},
                Err(e) => return Err(e),
            }
            match (settle_lag_samples(l), settle_lag_samples(r)) {
                (Some(ls), Some(rs)) => if ls != rs {
                    Err(
                        unsupported(
                            "a boolean junction mixing a next-delayed branch with a time-delayed one; monitor them as separate formulas, or evaluate this one offline",
                        ),
                    )
                } else {
                    Ok(())
                },
                _ => Ok(()),
            }
        },
        Formula::Historically(_, g) | Formula::Once(_, g) | Formula::Next(g) => {
            if contains_future(g) {
                return Err(nested_future());
            }
            validate_streaming(g)
        },
        Formula::Until(_, l, r) | Formula::Since(_, l, r) => {
            if contains_future(l) {
                return Err(nested_future());
            }
            if contains_future(r) {
                return Err(nested_future());
            }
            match validate_streaming(l) {
                Ok(()) => {},
                Err(e) => return Err(e),
            }
            validate_streaming(r)
        },
    }
}

} // verus!
