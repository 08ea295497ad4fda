//! The canonical text of a formula.
//!
//! Every binary connective and temporal operator is written with its
//! brackets and interval, and inside a formula every binary arithmetic
//! operation is parenthesized. A term written on its own carries only the
//! parentheses its precedence needs.
use crate::formula::ast::{
    BinaryOp, ComparisonOp, Expr, Formula, Interval, Predicate, ProbabilityOp, SpecExpr,
    SpecFormula, SpecInterval, SpecPredicate,
};
use crate::number::{render_decimal, Decimal};
use vstd::prelude::*;
use vstd::string::*;

verus! {

pub open spec fn comparison_text(op: ComparisonOp) -> Seq<char> {
    match op {
        ComparisonOp::Less => "<"@,
        ComparisonOp::LessEqual => "<="@,
        ComparisonOp::Greater => ">"@,
        ComparisonOp::GreaterEqual => ">="@,
        ComparisonOp::Equal => "=="@,
        ComparisonOp::NotEqual => "!="@,
    }
}

pub open spec fn binary_text(op: BinaryOp) -> Seq<char> {
    match op {
        BinaryOp::Add => "+"@,
        BinaryOp::Sub => "-"@,
        BinaryOp::Mul => "*"@,
        BinaryOp::Div => "/"@,
        BinaryOp::Mod => "%"@,
        BinaryOp::Pow => "^"@,
    }
}

pub open spec fn probability_text(op: ProbabilityOp) -> Seq<char> {
    match op {
        ProbabilityOp::GreaterEqual => ">="@,
        ProbabilityOp::Greater => ">"@,
        ProbabilityOp::LessEqual => "<="@,
        ProbabilityOp::Less => "<"@,
    }
}

/// `+ -` bind loosest, then `* / %`, then `^`.
pub open spec fn precedence(op: BinaryOp) -> int {
    match op {
        BinaryOp::Add | BinaryOp::Sub => 1,
        BinaryOp::Mul | BinaryOp::Div | BinaryOp::Mod => 2,
        BinaryOp::Pow => 3,
    }
}

/// `[lower, upper]`, or `[lower, inf]` when unbounded above.
pub open spec fn render_interval(i: SpecInterval) -> Seq<char> {
    match i.upper {
        Some(u) => "["@ + render_decimal(i.lower) + ", "@ + render_decimal(u) + "]"@,
        None => "["@ + render_decimal(i.lower) + ", inf]"@,
    }
}

/// A term written in a context of precedence `ctx`: a binary operation that
/// binds looser than its context is parenthesized, and every binary operation
/// is when `grouped`. `^` groups to the right, the other operators to the left.
pub open spec fn render_expr(e: SpecExpr, ctx: int, grouped: bool) -> Seq<char>
    decreases e,
{
    match e {
        SpecExpr::Binary(op, l, r) => {
            let p = precedence(op);
            let lctx = if op == BinaryOp::Pow {
                p + 1
            } else {
                p
            };
            let rctx = if op == BinaryOp::Pow {
                p
            } else {
                p + 1
            };
            let body = render_expr(*l, lctx, grouped) + " "@ + binary_text(op) + " "@ + render_expr(
                *r,
                rctx,
                grouped,
            );
            if grouped || p < ctx {
                "("@ + body + ")"@
            } else {
                body
            }
        },
        SpecExpr::Call(name, args) => name + "("@ + render_args(args, grouped) + ")"@,
        SpecExpr::Literal(d) => render_decimal(d),
        SpecExpr::Variable(v) => v,
    }
}

/// Call arguments, separated by `", "`.
pub open spec fn render_args(args: Seq<SpecExpr>, grouped: bool) -> Seq<char>
    decreases args,
{
    if args.len() == 0 {
        Seq::empty()
    } else if args.len() == 1 {
        render_expr(args[0], 0, grouped)
    } else {
        render_args(args.drop_last(), grouped) + ", "@ + render_expr(
            args[args.len() - 1],
            0,
            grouped,
        )
    }
}

/// A predicate's text: both terms with every binary operation parenthesized.
pub open spec fn render_predicate(p: SpecPredicate) -> Seq<char> {
    render_expr(p.lhs, 0, true) + " "@ + comparison_text(p.op) + " "@ + render_expr(p.rhs, 0, true)
}

/// A formula's canonical text.
pub open spec fn render_formula(f: SpecFormula) -> Seq<char>
    decreases f,
{
    match f {
        SpecFormula::Predicate(p) => render_predicate(p),
        SpecFormula::Not(g) => "not("@ + render_formula(*g) + ")"@,
        SpecFormula::And(l, r) => "("@ + render_formula(*l) + " and "@ + render_formula(*r) + ")"@,
        SpecFormula::Or(l, r) => "("@ + render_formula(*l) + " or "@ + render_formula(*r) + ")"@,
        SpecFormula::Implies(l, r) => "("@ + render_formula(*l) + " implies "@ + render_formula(*r)
            + ")"@,
        SpecFormula::Always(i, g) => "always"@ + render_interval(i) + "("@ + render_formula(*g)
            + ")"@,
        SpecFormula::Eventually(i, g) => "eventually"@ + render_interval(i) + "("@ + render_formula(
            *g,
        ) + ")"@,
        SpecFormula::Until(i, l, r) => "("@ + render_formula(*l) + " until"@ + render_interval(i)
            + " "@ + render_formula(*r) + ")"@,
        SpecFormula::Next(g) => "next("@ + render_formula(*g) + ")"@,
        SpecFormula::Since(i, l, r) => "("@ + render_formula(*l) + " since"@ + render_interval(i)
            + " "@ + render_formula(*r) + ")"@,
        SpecFormula::Historically(i, g) => "historically"@ + render_interval(i) + "("@
            + render_formula(*g) + ")"@,
        SpecFormula::Once(i, g) => "once"@ + render_interval(i) + "("@ + render_formula(*g) + ")"@,
        SpecFormula::Probabilistic(op, t, g) => "P"@ + probability_text(op) + render_decimal(t)
            + "("@ + render_formula(*g) + ")"@,
    }
}

fn comparison_str(op: ComparisonOp) -> (r: &'static str)
    ensures
        r@ == comparison_text(op),
{
    match op {
        ComparisonOp::Less => "<",
        ComparisonOp::LessEqual => "<=",
        ComparisonOp::Greater => ">",
        ComparisonOp::GreaterEqual => ">=",
        ComparisonOp::Equal => "==",
        ComparisonOp::NotEqual => "!=",
    }
}

fn binary_str(op: BinaryOp) -> (r: &'static str)
    ensures
        r@ == binary_text(op),
{
    match op {
        BinaryOp::Add => "+",
        BinaryOp::Sub => "-",
        BinaryOp::Mul => "*",
        BinaryOp::Div => "/",
        BinaryOp::Mod => "%",
        BinaryOp::Pow => "^",
    }
}

fn probability_str(op: ProbabilityOp) -> (r: &'static str)
    ensures
        r@ == probability_text(op),
{
    match op {
        ProbabilityOp::GreaterEqual => ">=",
        ProbabilityOp::Greater => ">",
        ProbabilityOp::LessEqual => "<=",
        ProbabilityOp::Less => "<",
    }
}

fn write_interval(i: &Interval, out: &mut String)
    ensures
        final(out)@ == old(out)@ + render_interval(i@),
{
    out.append("[");
    i.lower().write_to(out);
    match i.upper() {
        Some(u) => {
            out.append(", ");
            u.write_to(out);
            out.append("]");
        },
        None => {
            out.append(", inf]");
        },
    }
}

#[verifier::rlimit(50)]
#[verifier::spinoff_prover]
fn write_expr(e: &Expr, ctx: u8, grouped: bool, out: &mut String)
    ensures
        final(out)@ == old(out)@ + render_expr(e@, ctx as int, grouped),
    decreases e,
{
    let ghost start = out@;
    match e {
        Expr::Binary(op, l, r) => {
            let p: u8 = match op {
                BinaryOp::Add | BinaryOp::Sub => 1,
                BinaryOp::Mul | BinaryOp::Div | BinaryOp::Mod => 2,
                BinaryOp::Pow => 3,
            };
            let (lctx, rctx) = match op {
                BinaryOp::Pow => (p + 1, p),
                _ => (p, p + 1),
            };
            let wrap = grouped || p < ctx;
            if wrap {
                out.append("(");
            }
            write_expr(l, lctx, grouped, out);
            out.append(" ");
            out.append(binary_str(*op));
            out.append(" ");
            write_expr(r, rctx, grouped, out);
            if wrap {
                out.append(")");
            }
            proof {
                let body = render_expr(l@, lctx as int, grouped) + " "@ + binary_text(*op) + " "@
                    + render_expr(r@, rctx as int, grouped);
                if wrap {
                    assert(out@ =~= start + ("("@ + body + ")"@));
                } else {
                    assert(out@ =~= start + body);
                }
            }
        },
        Expr::Call(name, args) => {
            out.append(name.as_str());
            out.append("(");
            let ghost opened = out@;
            let n = args.len();
            let mut i: usize = 0;
            #[verifier::loop_isolation(false)]
            while i < n
                invariant
                    0 <= i <= n,
                    n == args@.len(),
                    e@ == SpecExpr::Call(name@, crate::formula::ast::exprs_view(args@)),
                    out@ == opened + render_args(
                        crate::formula::ast::exprs_view(args@.subrange(0, i as int)),
                        grouped,
                    ),
                decreases n - i,
            {
                let ghost before = out@;
                if i > 0 {
                    out.append(", ");
                }
                proof {
                    assert(decreases_to!(*e => *args));
                    assert(decreases_to!(*args => args@));
                    assert(decreases_to!(args@ => args@[i as int]));
                }
                write_expr(&args[i], 0, grouped, out);
                proof {
                    let sub = args@.subrange(0, i + 1);
                    assert(sub.drop_last() =~= args@.subrange(0, i as int));
                    assert(sub[sub.len() - 1] == args@[i as int]);
                    let v = crate::formula::ast::exprs_view(sub);
                    assert(v.drop_last() =~= crate::formula::ast::exprs_view(
                        args@.subrange(0, i as int),
                    ));
                    lemma_exprs_view_len(args@.subrange(0, i as int));
                    if i == 0 {
                        assert(v.len() == 1);
                        assert(render_args(v, grouped) == render_expr(v[0], 0, grouped));
                        assert(out@ =~= opened + render_args(v, grouped));
                    } else {
                        assert(out@ =~= opened + render_args(v, grouped));
                    }
                }
                i = i + 1;
            }
            out.append(")");
            proof {
                assert(args@.subrange(0, n as int) =~= args@);
                assert(out@ =~= start + (name@ + "("@ + render_args(
                    crate::formula::ast::exprs_view(args@),
                    grouped,
                ) + ")"@));
            }
        },
        Expr::Literal(d) => {
            d.write_to(out);
        },
        Expr::Variable(v) => {
            out.append(v.as_str());
        },
    }
}

proof fn lemma_exprs_view_len(es: Seq<Expr>)
    ensures
        crate::formula::ast::exprs_view(es).len() == es.len(),
        forall|i: int|
            0 <= i < es.len() ==> #[trigger] crate::formula::ast::exprs_view(es)[i] == es[i]@,
    decreases es.len(),
{
    if es.len() > 0 {
        lemma_exprs_view_len(es.drop_last());
        let v = crate::formula::ast::exprs_view(es);
        assert forall|i: int| 0 <= i < es.len() implies #[trigger] v[i] == es[i]@ by {
            if i < es.len() - 1 {
                assert(es.drop_last()[i] == es[i]);
            }
        }
    }
}

fn write_predicate(p: &Predicate, out: &mut String)
    ensures
        final(out)@ == old(out)@ + render_predicate(p@),
{
    let ghost start = out@;
    write_expr(&p.lhs, 0, true, out);
    out.append(" ");
    out.append(comparison_str(p.op));
    out.append(" ");
    write_expr(&p.rhs, 0, true, out);
    assert(out@ =~= start + render_predicate(p@));
}

#[verifier::rlimit(100)]
#[verifier::spinoff_prover]
fn write_formula(f: &Formula, out: &mut String)
    ensures
        final(out)@ == old(out)@ + render_formula(f@),
    decreases f,
{
    let ghost start = out@;
    match f {
        Formula::Predicate(p) => {
            write_predicate(p, out);
        },
        Formula::Not(g) => {
            out.append("not(");
            write_formula(g, out);
            out.append(")");
            assert(out@ =~= start + render_formula(f@));
        },
        Formula::And(l, r) => {
            out.append("(");
            write_formula(l, out);
            out.append(" and ");
            write_formula(r, out);
            out.append(")");
            assert(out@ =~= start + render_formula(f@));
        },
        Formula::Or(l, r) => {
            out.append("(");
            write_formula(l, out);
            out.append(" or ");
            write_formula(r, out);
            out.append(")");
            assert(out@ =~= start + render_formula(f@));
        },
        Formula::Implies(l, r) => {
            out.append("(");
            write_formula(l, out);
            out.append(" implies ");
            write_formula(r, out);
            out.append(")");
            assert(out@ =~= start + render_formula(f@));
        },
        Formula::Always(i, g) => {
            out.append("always");
            write_interval(i, out);
            out.append("(");
            write_formula(g, out);
            out.append(")");
            assert(out@ =~= start + render_formula(f@));
        },
        Formula::Eventually(i, g) => {
            out.append("eventually");
            write_interval(i, out);
            out.append("(");
            write_formula(g, out);
            out.append(")");
            assert(out@ =~= start + render_formula(f@));
        },
        Formula::Until(i, l, r) => {
            out.append("(");
            write_formula(l, out);
            out.append(" until");
            write_interval(i, out);
            out.append(" ");
            write_formula(r, out);
            out.append(")");
            assert(out@ =~= start + render_formula(f@));
        },
        Formula::Next(g) => {
            out.append("next(");
            write_formula(g, out);
            out.append(")");
            assert(out@ =~= start + render_formula(f@));
        },
        Formula::Since(i, l, r) => {
            out.append("(");
            write_formula(l, out);
            out.append(" since");
            write_interval(i, out);
            out.append(" ");
            write_formula(r, out);
            out.append(")");
            assert(out@ =~= start + render_formula(f@));
        },
        Formula::Historically(i, g) => {
            out.append("historically");
            write_interval(i, out);
            out.append("(");
            write_formula(g, out);
            out.append(")");
            assert(out@ =~= start + render_formula(f@));
        },
        Formula::Once(i, g) => {
            out.append("once");
            write_interval(i, out);
            out.append("(");
            write_formula(g, out);
            out.append(")");
            assert(out@ =~= start + render_formula(f@));
        },
        Formula::Probabilistic(op, t, g) => {
            out.append("P");
            out.append(probability_str(*op));
            t.write_to(out);
            out.append("(");
            write_formula(g, out);
            out.append(")");
            assert(out@ =~= start + render_formula(f@));
        },
    }
}

impl Formula {
    /// The formula's canonical text, e.g. `always[0, 10](speed < 5)`.
    pub fn to_string(&self) -> (r: String)
        ensures
            r@ == render_formula(self@),
    {
        let mut out = String::new();
        write_formula(self, &mut out);
        assert(out@ =~= render_formula(self@));
        out
    }
}

impl Expr {
    /// The term's text with minimal parentheses, e.g. `x + y * 2`.
    pub fn to_string(&self) -> (r: String)
        ensures
            r@ == render_expr(self@, 0, false),
    {
        let mut out = String::new();
        write_expr(self, 0, false, &mut out);
        assert(out@ =~= render_expr(self@, 0, false));
        out
    }
}

impl Predicate {
    /// The predicate's text, e.g. `x < 5`.
    pub fn to_string(&self) -> (r: String)
        ensures
            r@ == render_predicate(self@),
    {
        let mut out = String::new();
        write_predicate(self, &mut out);
        assert(out@ =~= render_predicate(self@));
        out
    }
}

impl Interval {
    /// The interval's text, e.g. `[0, 10]` or `[0, inf]`.
    pub fn to_string(&self) -> (r: String)
        ensures
            r@ == render_interval(self@),
    {
        let mut out = String::new();
        write_interval(self, &mut out);
        assert(out@ =~= render_interval(self@));
        out
    }
}

impl Decimal {
    /// The number written out in positional notation, e.g. `0.95` or `2500`.
    pub fn to_string(&self) -> (r: String)
        ensures
            r@ == render_decimal(self@),
    {
        let mut out = String::new();
        self.write_to(&mut out);
        assert(out@ =~= render_decimal(self@));
        out
    }
}

} // verus!
