//! The syntax tree of a temporal-logic formula.
use crate::error::Error;
use crate::number::{render_decimal, sign_of, spec_decimal_wf, value_less, Decimal, SpecDecimal};
use crate::text::string_of;
use vstd::prelude::*;
use vstd::string::*;

verus! {

/// A comparison between two terms.
#[derive(Debug, Clone, Copy, PartialEq, Eq, Structural)]
pub enum ComparisonOp {
    /// `<`
    Less,
    /// `<=`
    LessEqual,
    /// `>`
    Greater,
    /// `>=`
    GreaterEqual,
    /// `==`
    Equal,
    /// `!=`
    NotEqual,
}

/// A binary arithmetic operator inside a predicate term.
#[derive(Debug, Clone, Copy, PartialEq, Eq, Structural)]
pub enum BinaryOp {
    /// `+`
    Add,
    /// `-`
    Sub,
    /// `*`
    Mul,
    /// `/`
    Div,
    /// `%`
    Mod,
    /// `^`
    Pow,
}

/// The relation between an estimated satisfaction probability and the threshold.
#[derive(Debug, Clone, Copy, PartialEq, Eq, Structural)]
pub enum ProbabilityOp {
    /// The probability is at least the threshold.
    GreaterEqual,
    /// The probability exceeds the threshold.
    Greater,
    /// The probability is at most the threshold.
    LessEqual,
    /// The probability is below the threshold.
    Less,
}

/// An arithmetic term over signals and constants.
#[derive(Debug, PartialEq)]
pub enum Expr {
    /// A binary operation between two sub-terms.
    Binary(BinaryOp, Box<Expr>, Box<Expr>),
    /// A function applied to arguments, e.g. `abs(x)` or `max(x, y)`.
    Call(String, Vec<Expr>),
    /// A literal constant.
    Literal(Decimal),
    /// A reference to a named signal.
    Variable(String),
}

/// The reading of an [`Expr`].
pub enum SpecExpr {
    Binary(BinaryOp, Box<SpecExpr>, Box<SpecExpr>),
    Call(Seq<char>, Seq<SpecExpr>),
    Literal(SpecDecimal),
    Variable(Seq<char>),
}

/// An atomic predicate.
#[derive(Debug, PartialEq)]
pub struct Predicate {
    /// The left-hand term.
    pub lhs: Expr,
    /// The comparison.
    pub op: ComparisonOp,
    /// The right-hand term.
    pub rhs: Expr,
}

/// The reading of a [`Predicate`].
pub struct SpecPredicate {
    pub lhs: SpecExpr,
    pub op: ComparisonOp,
    pub rhs: SpecExpr,
}

/// A time interval `[lower, upper]` over which a temporal operator quantifies.
#[derive(Debug, PartialEq)]
pub struct Interval {
    lower: Decimal,
    upper: Option<Decimal>,
}

/// The reading of an [`Interval`]; `upper` is `None` when unbounded above.
pub struct SpecInterval {
    pub lower: SpecDecimal,
    pub upper: Option<SpecDecimal>,
}

/// A Signal Temporal Logic formula, optionally wrapped in a probabilistic
/// operator to form PrSTL.
#[derive(Debug, PartialEq)]
pub enum Formula {
    /// An atomic comparison between two arithmetic terms, e.g. `x + 1 < 5`.
    Predicate(Predicate),
    /// Logical negation.
    Not(Box<Formula>),
    /// Logical conjunction.
    And(Box<Formula>, Box<Formula>),
    /// Logical disjunction.
    Or(Box<Formula>, Box<Formula>),
    /// Material implication.
    Implies(Box<Formula>, Box<Formula>),
    /// `always[a, b] phi`.
    Always(Interval, Box<Formula>),
    /// `eventually[a, b] phi`.
    Eventually(Interval, Box<Formula>),
    /// `phi until[a, b] psi`.
    Until(Interval, Box<Formula>, Box<Formula>),
    /// `next phi`.
    Next(Box<Formula>),
    /// `phi since[a, b] psi`.
    Since(Interval, Box<Formula>, Box<Formula>),
    /// `historically[a, b] phi`.
    Historically(Interval, Box<Formula>),
    /// `once[a, b] phi`.
    Once(Interval, Box<Formula>),
    /// `P~p(phi)`.
    Probabilistic(ProbabilityOp, Decimal, Box<Formula>),
}

/// The reading of a [`Formula`].
pub enum SpecFormula {
    Predicate(SpecPredicate),
    Not(Box<SpecFormula>),
    And(Box<SpecFormula>, Box<SpecFormula>),
    Or(Box<SpecFormula>, Box<SpecFormula>),
    Implies(Box<SpecFormula>, Box<SpecFormula>),
    Always(SpecInterval, Box<SpecFormula>),
    Eventually(SpecInterval, Box<SpecFormula>),
    Until(SpecInterval, Box<SpecFormula>, Box<SpecFormula>),
    Next(Box<SpecFormula>),
    Since(SpecInterval, Box<SpecFormula>, Box<SpecFormula>),
    Historically(SpecInterval, Box<SpecFormula>),
    Once(SpecInterval, Box<SpecFormula>),
    Probabilistic(ProbabilityOp, SpecDecimal, Box<SpecFormula>),
}

// ---------------------------------------------------------------------------
// Views.

pub open spec fn expr_view(e: Expr) -> SpecExpr
    decreases e,
{
    match e {
        Expr::Binary(op, l, r) => SpecExpr::Binary(op, Box::new(expr_view(*l)), Box::new(expr_view(*r))),
        Expr::Call(name, args) => SpecExpr::Call(name@, exprs_view(args@)),
        Expr::Literal(d) => SpecExpr::Literal(d@),
        Expr::Variable(v) => SpecExpr::Variable(v@),
    }
}

pub open spec fn exprs_view(es: Seq<Expr>) -> Seq<SpecExpr>
    decreases es,
{
    if es.len() == 0 {
        Seq::empty()
    } else {
        exprs_view(es.drop_last()).push(expr_view(es[es.len() - 1]))
    }
}

impl View for Expr {
    type V = SpecExpr;

    open spec fn view(&self) -> SpecExpr {
        expr_view(*self)
    }
}

impl View for Predicate {
    type V = SpecPredicate;

    open spec fn view(&self) -> SpecPredicate {
        SpecPredicate { lhs: self.lhs@, op: self.op, rhs: self.rhs@ }
    }
}

impl View for Interval {
    type V = SpecInterval;

    closed spec fn view(&self) -> SpecInterval {
        SpecInterval {
            lower: self.lower@,
            upper: match self.upper {
                Some(u) => Some(u@),
                None => None,
            },
        }
    }
}

pub open spec fn formula_view(f: Formula) -> SpecFormula
    decreases f,
{
    match f {
        Formula::Predicate(p) => SpecFormula::Predicate(p@),
        Formula::Not(g) => SpecFormula::Not(Box::new(formula_view(*g))),
        Formula::And(l, r) => SpecFormula::And(
            Box::new(formula_view(*l)),
            Box::new(formula_view(*r)),
        ),
        Formula::Or(l, r) => SpecFormula::Or(Box::new(formula_view(*l)), Box::new(formula_view(*r))),
        Formula::Implies(l, r) => SpecFormula::Implies(
            Box::new(formula_view(*l)),
            Box::new(formula_view(*r)),
        ),
        Formula::Always(i, g) => SpecFormula::Always(i@, Box::new(formula_view(*g))),
        Formula::Eventually(i, g) => SpecFormula::Eventually(i@, Box::new(formula_view(*g))),
        Formula::Until(i, l, r) => SpecFormula::Until(
            i@,
            Box::new(formula_view(*l)),
            Box::new(formula_view(*r)),
        ),
        Formula::Next(g) => SpecFormula::Next(Box::new(formula_view(*g))),
        Formula::Since(i, l, r) => SpecFormula::Since(
            i@,
            Box::new(formula_view(*l)),
            Box::new(formula_view(*r)),
        ),
        Formula::Historically(i, g) => SpecFormula::Historically(i@, Box::new(formula_view(*g))),
        Formula::Once(i, g) => SpecFormula::Once(i@, Box::new(formula_view(*g))),
        Formula::Probabilistic(op, t, g) => SpecFormula::Probabilistic(
            op,
            t@,
            Box::new(formula_view(*g)),
        ),
    }
}

impl View for Formula {
    type V = SpecFormula;

    open spec fn view(&self) -> SpecFormula {
        formula_view(*self)
    }
}

// ---------------------------------------------------------------------------
// Intervals.

/// A valid interval: canonical bounds, `0 <= lower`, and `lower <= upper`.
pub open spec fn interval_wf(i: SpecInterval) -> bool {
    &&& spec_decimal_wf(i.lower)
    &&& sign_of(i.lower) >= 0
    &&& match i.upper {
        Some(u) => spec_decimal_wf(u) && !value_less(u, i.lower),
        None => true,
    }
}

/// The message for a lower bound below zero.
pub open spec fn negative_lower_message(lower: SpecDecimal) -> Seq<char> {
    "an interval lower bound must be finite and at least 0, found "@ + render_decimal(lower)
}

/// The message for bounds in the wrong order.
pub open spec fn reversed_bounds_message(lower: SpecDecimal, upper: SpecDecimal) -> Seq<char> {
    "interval lower bound "@ + render_decimal(lower) + " is greater than upper bound "@
        + render_decimal(upper)
}

impl Clone for Interval {
    fn clone(&self) -> (r: Interval)
        ensures
            r@ == self@,
    {
        proof {
            use_type_invariant(self);
        }
        let upper = match &self.upper {
            Some(u) => Some(u.clone()),
            None => None,
        };
        Interval { lower: self.lower.clone(), upper }
    }
}

/// A decimal option by its reading.
pub open spec fn decimal_option_view(o: Option<Decimal>) -> Option<SpecDecimal> {
    match o {
        Some(d) => Some(d@),
        None => None,
    }
}

/// The interval `[lower, upper]`, or why those bounds make none.
pub open spec fn interval_check(lower: SpecDecimal, upper: Option<SpecDecimal>) -> Result<
    SpecInterval,
    Seq<char>,
> {
    if value_less(lower, crate::formula::lexer::spec_zero()) {
        Err(negative_lower_message(lower))
    } else {
        match upper {
            Some(u) => if value_less(u, lower) {
                Err(reversed_bounds_message(lower, u))
            } else {
                Ok(SpecInterval { lower, upper })
            },
            None => Ok(SpecInterval { lower, upper }),
        }
    }
}

fn interval_error(message: String) -> (r: Error)
    ensures
        r matches Error::InvalidConfig { context, message: m } && context@ == "interval"@ && m@
            == message@,
{
    Error::InvalidConfig { context: string_of("interval"), message }
}

impl Interval {
    /// The interval invariant.
    pub open spec fn wf(&self) -> bool {
        interval_wf(self@)
    }

    /// Every interval is valid.
    #[verifier::type_invariant]
    pub open spec fn valid(&self) -> bool {
        interval_wf(self@)
    }

    /// Builds `[lower, upper]`, where `upper` is `None` for an interval
    /// unbounded above.
    pub fn new(lower: Decimal, upper: Option<Decimal>) -> (r: Result<Interval, Error>)
        ensures
            match (r, interval_check(lower@, decimal_option_view(upper))) {
                (Ok(i), Ok(si)) => i.wf() && i@ == si,
                (Err(Error::InvalidConfig { context, message }), Err(m)) => context@ == "interval"@
                    && message@ == m,
                _ => false,
            },
    {
        proof {
            use_type_invariant(&lower);
            if let Some(u) = &upper {
                use_type_invariant(u);
            }
        }
        let zero = Decimal::zero();
        if lower.less_than(&zero) {
            let mut message = string_of("an interval lower bound must be finite and at least 0, found ");
            lower.write_to(&mut message);
            return Err(interval_error(message));
        }
        match &upper {
            Some(u) => {
                if u.less_than(&lower) {
                    let mut message = string_of("interval lower bound ");
                    lower.write_to(&mut message);
                    message.append(" is greater than upper bound ");
                    u.write_to(&mut message);
                    return Err(interval_error(message));
                }
            },
            None => {},
        }
        Ok(Interval { lower, upper })
    }

    /// Builds an interval that the caller has already checked.
    pub(crate) fn new_unchecked(lower: Decimal, upper: Option<Decimal>) -> (r: Interval)
        requires
            interval_wf(SpecInterval { lower: lower@, upper: decimal_option_view(upper) }),
        ensures
            r.wf(),
            r@ == (SpecInterval { lower: lower@, upper: decimal_option_view(upper) }),
    {
        Interval { lower, upper }
    }

    /// A bounded interval `[lower, upper]`.
    pub fn bounded(lower: Decimal, upper: Decimal) -> (r: Result<Interval, Error>)
        ensures
            (r is Ok) == (!value_less(lower@, crate::formula::lexer::spec_zero()) && !value_less(
                upper@,
                lower@,
            )),
            r matches Ok(i) ==> i.wf() && i@.lower == lower@ && i@.upper == Some(upper@),
    {
        Self::new(lower, Some(upper))
    }

    /// An interval `[lower, inf)` unbounded above.
    pub fn from_lower(lower: Decimal) -> (r: Result<Interval, Error>)
        ensures
            (r is Ok) == !value_less(lower@, crate::formula::lexer::spec_zero()),
            r matches Ok(i) ==> i.wf() && i@.lower == lower@ && i@.upper is None,
    {
        Self::new(lower, None)
    }

    /// The interval `[0, inf)`.
    pub fn unbounded() -> (r: Interval)
        ensures
            r.wf(),
            r@.lower == crate::formula::lexer::spec_zero(),
            r@.upper is None,
    {
        Interval { lower: Decimal::zero(), upper: None }
    }

    /// The lower bound.
    pub fn lower(&self) -> (r: &Decimal)
        ensures
            r.wf(),
            r@ == self@.lower,
    {
        proof {
            use_type_invariant(self);
        }
        &self.lower
    }

    /// The upper bound, or `None` when the interval is unbounded above.
    pub fn upper(&self) -> (r: Option<&Decimal>)
        ensures
            match (r, self@.upper) {
                (Some(u), Some(su)) => u@ == su && u.wf(),
                (None, None) => true,
                _ => false,
            },
    {
        proof {
            use_type_invariant(self);
        }
        match &self.upper {
            Some(u) => Some(u),
            None => None,
        }
    }

    /// Whether the interval has a finite upper bound.
    pub fn is_bounded(&self) -> (r: bool)
        ensures
            r == (self@.upper is Some),
    {
        self.upper.is_some()
    }

    /// Whether the interval is the whole future `[0, inf)`.
    pub fn is_unbounded(&self) -> (r: bool)
        ensures
            r == (self@.upper is None && sign_of(self@.lower) == 0),
    {
        proof {
            use_type_invariant(self);
        }
        self.upper.is_none() && self.lower.is_zero()
    }

    /// Whether `t` lies in the interval, both ends included.
    pub fn contains(&self, t: &Decimal) -> (r: bool)
        ensures
            r == (!value_less(t@, self@.lower) && match self@.upper {
                Some(u) => !value_less(u, t@),
                None => true,
            }),
    {
        proof {
            use_type_invariant(self);
        }
        if t.less_than(&self.lower) {
            return false;
        }
        match &self.upper {
            Some(u) => !u.less_than(t),
            None => true,
        }
    }
}

// ---------------------------------------------------------------------------
// Copies.

impl Clone for Expr {
    fn clone(&self) -> (r: Expr)
        ensures
            r@ == self@,
        decreases self,
    {
        match self {
            Expr::Binary(op, l, r) => {
                let lc = (**l).clone();
                let rc = (**r).clone();
                Expr::Binary(*op, Box::new(lc), Box::new(rc))
            },
            Expr::Call(name, args) => {
                let n = args.len();
                let mut out: Vec<Expr> = Vec::new();
                let mut i: usize = 0;
                #[verifier::loop_isolation(false)]
                while i < n
                    invariant
                        0 <= i <= n,
                        n == args@.len(),
                        out@.len() == i,
                        exprs_view(out@) == exprs_view(args@.subrange(0, i as int)),
                    decreases n - i,
                {
                    proof {
                        assert(decreases_to!(*self => *args));
                        assert(decreases_to!(*args => args@));
                        assert(decreases_to!(args@ => args@[i as int]));
                    }
                    let c = args[i].clone();
                    let ghost before = out@;
                    out.push(c);
                    proof {
                        let sub = args@.subrange(0, i + 1);
                        assert(sub.drop_last() =~= args@.subrange(0, i as int));
                        assert(out@.drop_last() =~= before);
                    }
                    i = i + 1;
                }
                proof {
                    assert(args@.subrange(0, n as int) =~= args@);
                }
                Expr::Call(name.clone(), out)
            },
            Expr::Literal(d) => Expr::Literal(d.clone()),
            Expr::Variable(v) => Expr::Variable(v.clone()),
        }
    }
}

impl Clone for Predicate {
    fn clone(&self) -> (r: Predicate)
        ensures
            r@ == self@,
    {
        Predicate { lhs: self.lhs.clone(), op: self.op, rhs: self.rhs.clone() }
    }
}

impl Clone for Formula {
    fn clone(&self) -> (r: Formula)
        ensures
            r@ == self@,
        decreases self,
    {
        match self {
            Formula::Predicate(p) => Formula::Predicate(p.clone()),
            Formula::Not(g) => Formula::Not(Box::new((**g).clone())),
            Formula::And(l, r) => Formula::And(Box::new((**l).clone()), Box::new((**r).clone())),
            Formula::Or(l, r) => Formula::Or(Box::new((**l).clone()), Box::new((**r).clone())),
            Formula::Implies(l, r) => Formula::Implies(
                Box::new((**l).clone()),
                Box::new((**r).clone()),
            ),
            Formula::Always(i, g) => Formula::Always(i.clone(), Box::new((**g).clone())),
            Formula::Eventually(i, g) => Formula::Eventually(i.clone(), Box::new((**g).clone())),
            Formula::Until(i, l, r) => Formula::Until(
                i.clone(),
                Box::new((**l).clone()),
                Box::new((**r).clone()),
            ),
            Formula::Next(g) => Formula::Next(Box::new((**g).clone())),
            Formula::Since(i, l, r) => Formula::Since(
                i.clone(),
                Box::new((**l).clone()),
                Box::new((**r).clone()),
            ),
            Formula::Historically(i, g) => Formula::Historically(
                i.clone(),
                Box::new((**g).clone()),
            ),
            Formula::Once(i, g) => Formula::Once(i.clone(), Box::new((**g).clone())),
            Formula::Probabilistic(op, t, g) => Formula::Probabilistic(
                *op,
                t.clone(),
                Box::new((**g).clone()),
            ),
        }
    }
}

} // verus!
