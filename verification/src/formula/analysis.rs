//! Structural questions about a formula: its variables, nesting depth, and
//! whether it is temporal.
use crate::formula::ast::{exprs_view, Expr, Formula, SpecExpr, SpecFormula};
use vstd::prelude::*;
use vstd::string::*;

verus! {

/// The variables of a term, in the order they occur.
pub open spec fn expr_variables(e: SpecExpr) -> Seq<Seq<char>>
    decreases e,
{
    match e {
        SpecExpr::Binary(_, l, r) => expr_variables(*l) + expr_variables(*r),
        SpecExpr::Call(_, args) => args_variables(args),
        SpecExpr::Literal(_) => Seq::empty(),
        SpecExpr::Variable(v) => seq![v],
    }
}

/// The variables of a list of terms, in the order they occur.
pub open spec fn args_variables(args: Seq<SpecExpr>) -> Seq<Seq<char>>
    decreases args,
{
    if args.len() == 0 {
        Seq::empty()
    } else {
        args_variables(args.drop_last()) + expr_variables(args[args.len() - 1])
    }
}

/// The variables of a formula, in the order they occur.
pub open spec fn formula_variables(f: SpecFormula) -> Seq<Seq<char>>
    decreases f,
{
    match f {
        SpecFormula::Predicate(p) => expr_variables(p.lhs) + expr_variables(p.rhs),
        SpecFormula::Not(g) | SpecFormula::Next(g) | SpecFormula::Always(_, g)
        | SpecFormula::Eventually(_, g) | SpecFormula::Historically(_, g) | SpecFormula::Once(_, g)
        | SpecFormula::Probabilistic(_, _, g) => formula_variables(*g),
        SpecFormula::And(l, r) | SpecFormula::Or(l, r) | SpecFormula::Implies(l, r)
        | SpecFormula::Until(_, l, r) | SpecFormula::Since(_, l, r) => formula_variables(*l)
            + formula_variables(*r),
    }
}

/// Whether a variable named `name` occurs anywhere in the term.
pub open spec fn expr_mentions(e: SpecExpr, name: Seq<char>) -> bool
    decreases e,
{
    match e {
        SpecExpr::Variable(v) => v == name,
        SpecExpr::Literal(_) => false,
        SpecExpr::Binary(_, l, r) => expr_mentions(*l, name) || expr_mentions(*r, name),
        SpecExpr::Call(_, args) => args_mention(args, name),
    }
}

/// Whether a variable named `name` occurs in any of the terms.
pub open spec fn args_mention(args: Seq<SpecExpr>, name: Seq<char>) -> bool
    decreases args,
{
    if args.len() == 0 {
        false
    } else {
        args_mention(args.drop_last(), name) || expr_mentions(args[args.len() - 1], name)
    }
}

/// Whether a variable named `name` occurs anywhere in the formula, in any
/// predicate under any operator.
pub open spec fn formula_mentions(f: SpecFormula, name: Seq<char>) -> bool
    decreases f,
{
    match f {
        SpecFormula::Predicate(p) => expr_mentions(p.lhs, name) || expr_mentions(p.rhs, name),
        SpecFormula::Not(g) => formula_mentions(*g, name),
        SpecFormula::Next(g) => formula_mentions(*g, name),
        SpecFormula::Always(_, g) => formula_mentions(*g, name),
        SpecFormula::Eventually(_, g) => formula_mentions(*g, name),
        SpecFormula::Historically(_, g) => formula_mentions(*g, name),
        SpecFormula::Once(_, g) => formula_mentions(*g, name),
        SpecFormula::Probabilistic(_, _, g) => formula_mentions(*g, name),
        SpecFormula::And(l, r) => formula_mentions(*l, name) || formula_mentions(*r, name),
        SpecFormula::Or(l, r) => formula_mentions(*l, name) || formula_mentions(*r, name),
        SpecFormula::Implies(l, r) => formula_mentions(*l, name) || formula_mentions(*r, name),
        SpecFormula::Until(_, l, r) => formula_mentions(*l, name) || formula_mentions(*r, name),
        SpecFormula::Since(_, l, r) => formula_mentions(*l, name) || formula_mentions(*r, name),
    }
}

proof fn lemma_concat_contains(a: Seq<Seq<char>>, b: Seq<Seq<char>>, x: Seq<char>)
    ensures
        (a + b).contains(x) == (a.contains(x) || b.contains(x)),
{
    if a.contains(x) {
        let i = choose|i: int| 0 <= i < a.len() && a[i] == x;
        assert((a + b)[i] == x);
    }
    if b.contains(x) {
        let i = choose|i: int| 0 <= i < b.len() && b[i] == x;
        assert((a + b)[a.len() + i] == x);
    }
    if (a + b).contains(x) {
        let i = choose|i: int| 0 <= i < (a + b).len() && (a + b)[i] == x;
        if i < a.len() {
            assert(a[i] == x);
        } else {
            assert(b[i - a.len()] == x);
        }
    }
}

/// Law: a term's variable list holds exactly the names of the variables that
/// occur in it.
pub proof fn lemma_expr_variables_are_occurrences(e: SpecExpr, name: Seq<char>)
    ensures
        expr_variables(e).contains(name) == expr_mentions(e, name),
    decreases e,
{
    match e {
        SpecExpr::Variable(v) => {
            let one = seq![v];
            assert(one[0] == v);
            if one.contains(name) {
                let i = choose|i: int| 0 <= i < one.len() && one[i] == name;
                assert(i == 0);
            }
            assert(expr_variables(e).contains(name) == expr_mentions(e, name));
        },
        SpecExpr::Literal(_) => {
            assert(Seq::<Seq<char>>::empty().len() == 0);
            assert(expr_variables(e).contains(name) == expr_mentions(e, name));
        },
        SpecExpr::Binary(_, l, r) => {
            lemma_expr_variables_are_occurrences(*l, name);
            lemma_expr_variables_are_occurrences(*r, name);
            lemma_concat_contains(expr_variables(*l), expr_variables(*r), name);
            assert(expr_variables(e).contains(name) == expr_mentions(e, name));
        },
        SpecExpr::Call(_, args) => {
            lemma_args_variables_are_occurrences(args, name);
        },
    }
}

proof fn lemma_args_variables_are_occurrences(args: Seq<SpecExpr>, name: Seq<char>)
    ensures
        args_variables(args).contains(name) == args_mention(args, name),
    decreases args,
{
    if args.len() > 0 {
        let front = args.drop_last();
        let last = args[args.len() - 1];
        lemma_args_variables_are_occurrences(front, name);
        lemma_expr_variables_are_occurrences(last, name);
        lemma_concat_contains(args_variables(front), expr_variables(last), name);
    }
}

/// A term list mentions a name exactly when one of its terms does.
pub proof fn lemma_args_mention_some(args: Seq<SpecExpr>, name: Seq<char>)
    ensures
        args_mention(args, name) == (exists|i: int|
            0 <= i < args.len() && #[trigger] expr_mentions(args[i], name)),
    decreases args.len(),
{
    if args.len() > 0 {
        let front = args.drop_last();
        let k = args.len() - 1;
        lemma_args_mention_some(front, name);
        if expr_mentions(args[k], name) {
            assert(0 <= k < args.len() && expr_mentions(args[k], name));
        }
        if exists|i: int| 0 <= i < front.len() && #[trigger] expr_mentions(front[i], name) {
            let i = choose|i: int| 0 <= i < front.len() && #[trigger] expr_mentions(front[i], name);
            assert(args[i] == front[i]);
        }
        if exists|i: int| 0 <= i < args.len() && #[trigger] expr_mentions(args[i], name) {
            let i = choose|i: int| 0 <= i < args.len() && #[trigger] expr_mentions(args[i], name);
            if i < front.len() {
                assert(front[i] == args[i]);
            }
        }
    }
}

/// Law: a formula's variable list holds exactly the names of the variables
/// that occur in it, under any operator and in either operand of every
/// binary one.
pub proof fn lemma_variables_are_occurrences(f: SpecFormula, name: Seq<char>)
    ensures
        formula_variables(f).contains(name) == formula_mentions(f, name),
    decreases f,
{
    match f {
        SpecFormula::Predicate(p) => {
            lemma_expr_variables_are_occurrences(p.lhs, name);
            lemma_expr_variables_are_occurrences(p.rhs, name);
            lemma_concat_contains(expr_variables(p.lhs), expr_variables(p.rhs), name);
        },
        SpecFormula::Not(g) | SpecFormula::Next(g) | SpecFormula::Always(_, g)
        | SpecFormula::Eventually(_, g) | SpecFormula::Historically(_, g) | SpecFormula::Once(_, g)
        | SpecFormula::Probabilistic(_, _, g) => {
            lemma_variables_are_occurrences(*g, name);
        },
        SpecFormula::And(l, r) | SpecFormula::Or(l, r) | SpecFormula::Implies(l, r)
        | SpecFormula::Until(_, l, r) | SpecFormula::Since(_, l, r) => {
            lemma_variables_are_occurrences(*l, name);
            lemma_variables_are_occurrences(*r, name);
            lemma_concat_contains(formula_variables(*l), formula_variables(*r), name);
        },
    }
}

/// Code-point lexicographic order on text, the order of `String`'s `Ord`.
pub open spec fn text_less(a: Seq<char>, b: Seq<char>) -> bool
    decreases a.len(),
{
    if a.len() == 0 {
        b.len() > 0
    } else if b.len() == 0 {
        false
    } else if a[0] != b[0] {
        a[0] < b[0]
    } else {
        text_less(a.drop_first(), b.drop_first())
    }
}

/// Strictly increasing, so sorted without duplicates.
pub open spec fn strictly_sorted(v: Seq<Seq<char>>) -> bool {
    forall|i: int, j: int| 0 <= i < j < v.len() ==> text_less(#[trigger] v[i], #[trigger] v[j])
}

/// The texts of a list of strings.
pub open spec fn names_view(v: Seq<String>) -> Seq<Seq<char>> {
    v.map_values(|s: String| s@)
}

/// The nesting depth of a term.
pub open spec fn expr_depth(e: SpecExpr) -> nat
    decreases e,
{
    match e {
        SpecExpr::Binary(_, l, r) => 1 + max_nat(expr_depth(*l), expr_depth(*r)),
        SpecExpr::Call(_, args) => 1 + args_depth(args),
        SpecExpr::Literal(_) | SpecExpr::Variable(_) => 1,
    }
}

/// The deepest of a list of terms, or 0 for none.
pub open spec fn args_depth(args: Seq<SpecExpr>) -> nat
    decreases args,
{
    if args.len() == 0 {
        0
    } else {
        max_nat(args_depth(args.drop_last()), expr_depth(args[args.len() - 1]))
    }
}

pub open spec fn max_nat(a: nat, b: nat) -> nat {
    if a >= b {
        a
    } else {
        b
    }
}

/// The nesting depth of a formula: a predicate counts one.
pub open spec fn formula_depth(f: SpecFormula) -> nat
    decreases f,
{
    match f {
        SpecFormula::Predicate(_) => 1,
        SpecFormula::Not(g) | SpecFormula::Next(g) | SpecFormula::Always(_, g)
        | SpecFormula::Eventually(_, g) | SpecFormula::Historically(_, g) | SpecFormula::Once(_, g)
        | SpecFormula::Probabilistic(_, _, g) => 1 + formula_depth(*g),
        SpecFormula::And(l, r) | SpecFormula::Or(l, r) | SpecFormula::Implies(l, r)
        | SpecFormula::Until(_, l, r) | SpecFormula::Since(_, l, r) => 1 + max_nat(
            formula_depth(*l),
            formula_depth(*r),
        ),
    }
}

/// Whether a temporal operator occurs outside every probabilistic operator's
/// threshold, that is, anywhere in the formula.
pub open spec fn formula_has_temporal(f: SpecFormula) -> bool
    decreases f,
{
    match f {
        SpecFormula::Predicate(_) => false,
        SpecFormula::Not(g) | SpecFormula::Probabilistic(_, _, g) => formula_has_temporal(*g),
        SpecFormula::And(l, r) | SpecFormula::Or(l, r) | SpecFormula::Implies(l, r) =>
            formula_has_temporal(*l) || formula_has_temporal(*r),
        _ => true,
    }
}

/// A count held at `usize::MAX`.
pub open spec fn saturate(n: nat) -> usize {
    if n >= usize::MAX {
        usize::MAX
    } else {
        n as usize
    }
}

fn saturating_succ(n: usize) -> (r: usize)
    ensures
        r == saturate((n + 1) as nat),
{
    if n == usize::MAX {
        n
    } else {
        n + 1
    }
}

fn larger(a: usize, b: usize) -> (r: usize)
    ensures
        r == if a >= b {
            a
        } else {
            b
        },
{
    if a >= b {
        a
    } else {
        b
    }
}

proof fn lemma_saturate_max(a: nat, b: nat)
    ensures
        saturate(max_nat(a, b)) == if saturate(a) >= saturate(b) {
            saturate(a)
        } else {
            saturate(b)
        },
{
}

proof fn lemma_exprs_view_facts(es: Seq<Expr>)
    ensures
        exprs_view(es).len() == es.len(),
        forall|i: int| 0 <= i < es.len() ==> #[trigger] exprs_view(es)[i] == es[i]@,
    decreases es.len(),
{
    if es.len() > 0 {
        lemma_exprs_view_facts(es.drop_last());
        let v = exprs_view(es);
        assert forall|i: int| 0 <= i < es.len() implies #[trigger] v[i] == es[i]@ by {
            if i < es.len() - 1 {
                assert(es.drop_last()[i] == es[i]);
            }
        }
    }
}

fn push_expr_variables(e: &Expr, vars: &mut Vec<String>)
    ensures
        names_view(final(vars)@) == names_view(old(vars)@) + expr_variables(e@),
    decreases e,
{
    match e {
        Expr::Binary(_, l, r) => {
            push_expr_variables(l, vars);
            push_expr_variables(r, vars);
            assert(names_view(vars@) =~= names_view(old(vars)@) + expr_variables(e@));
        },
        Expr::Call(_, args) => {
            let n = args.len();
            let mut i: usize = 0;
            proof {
                assert(args@.subrange(0, 0) =~= Seq::<Expr>::empty());
                assert(names_view(vars@) =~= names_view(old(vars)@) + args_variables(
                    exprs_view(Seq::<Expr>::empty()),
                ));
            }
            #[verifier::loop_isolation(false)]
            while i < n
                invariant
                    0 <= i <= n,
                    n == args@.len(),
                    names_view(vars@) == names_view(old(vars)@) + args_variables(
                        exprs_view(args@.subrange(0, i as int)),
                    ),
                decreases n - i,
            {
                proof {
                    assert(decreases_to!(*e => *args));
                    assert(decreases_to!(*args => args@));
                    assert(decreases_to!(args@ => args@[i as int]));
                }
                let ghost before = vars@;
                push_expr_variables(&args[i], vars);
                proof {
                    let sub = args@.subrange(0, i + 1);
                    assert(sub.drop_last() =~= args@.subrange(0, i as int));
                    assert(sub[sub.len() - 1] == args@[i as int]);
                    let v = exprs_view(sub);
                    assert(v.drop_last() =~= exprs_view(args@.subrange(0, i as int)));
                    lemma_exprs_view_facts(args@.subrange(0, i as int));
                    assert(names_view(vars@) =~= names_view(old(vars)@) + args_variables(v));
                }
                i = i + 1;
            }
            assert(args@.subrange(0, n as int) =~= args@);
        },
        Expr::Literal(_) => {
            assert(names_view(vars@) =~= names_view(old(vars)@) + expr_variables(e@));
        },
        Expr::Variable(name) => {
            vars.push(name.clone());
            assert(names_view(vars@) =~= names_view(old(vars)@) + expr_variables(e@));
        },
    }
}

fn push_formula_variables(f: &Formula, vars: &mut Vec<String>)
    ensures
        names_view(final(vars)@) == names_view(old(vars)@) + formula_variables(f@),
    decreases f,
{
    match f {
        Formula::Predicate(p) => {
            push_expr_variables(&p.lhs, vars);
            push_expr_variables(&p.rhs, vars);
        },
        Formula::Not(g) | Formula::Next(g) | Formula::Always(_, g) | Formula::Eventually(_, g)
        | Formula::Historically(_, g) | Formula::Once(_, g) | Formula::Probabilistic(_, _, g) => {
            push_formula_variables(g, vars);
        },
        Formula::And(l, r) | Formula::Or(l, r) | Formula::Implies(l, r) | Formula::Until(_, l, r)
        | Formula::Since(_, l, r) => {
            push_formula_variables(l, vars);
            push_formula_variables(r, vars);
        },
    }
    assert(names_view(vars@) =~= names_view(old(vars)@) + formula_variables(f@));
}

/// Three-way comparison of two texts in code-point order: `-1`, `0` or `1`.
pub fn compare_text(a: &str, b: &str) -> (r: i8)
    ensures
        r == -1 <==> text_less(a@, b@),
        r == 0 <==> a@ == b@,
        r == 1 <==> text_less(b@, a@),
{
    let na = a.unicode_len();
    let nb = b.unicode_len();
    let mut i: usize = 0;
    while i < na && i < nb
        invariant
            0 <= i <= na,
            i <= nb,
            na == a@.len(),
            nb == b@.len(),
            a@.subrange(0, i as int) == b@.subrange(0, i as int),
        decreases na - i,
    {
        let x = a.get_char(i);
        let y = b.get_char(i);
        if x != y {
            proof {
                lemma_text_less_at(a@, b@, i as int);
                lemma_text_less_at(b@, a@, i as int);
                assert(a@[i as int] != b@[i as int]);
            }
            return if x < y {
                -1
            } else {
                1
            };
        }
        proof {
            assert(a@.subrange(0, i + 1) =~= a@.subrange(0, i as int).push(x));
            assert(b@.subrange(0, i + 1) =~= b@.subrange(0, i as int).push(y));
        }
        i = i + 1;
    }
    proof {
        lemma_text_less_at(a@, b@, i as int);
        lemma_text_less_at(b@, a@, i as int);
        if na == nb {
            assert(a@.subrange(0, na as int) =~= a@);
            assert(b@.subrange(0, nb as int) =~= b@);
            assert(a@ =~= b@);
        } else {
            assert(a@ != b@);
        }
    }
    if na < nb {
        -1
    } else if na == nb {
        0
    } else {
        1
    }
}

/// Past a shared prefix of length `i`, the order is decided at `i`.
proof fn lemma_text_less_at(a: Seq<char>, b: Seq<char>, i: int)
    requires
        0 <= i <= a.len(),
        i <= b.len(),
        a.subrange(0, i) == b.subrange(0, i),
    ensures
        text_less(a, b) == if i < a.len() && i < b.len() && a[i] != b[i] {
            a[i] < b[i]
        } else if i == a.len() || i == b.len() {
            a.len() < b.len()
        } else {
            text_less(a.subrange(i, a.len() as int), b.subrange(i, b.len() as int))
        },
    decreases i,
{
    if i == 0 {
        assert(a.subrange(0, a.len() as int) =~= a);
        assert(b.subrange(0, b.len() as int) =~= b);
    } else {
        assert(a[0] == a.subrange(0, i)[0]);
        assert(b[0] == b.subrange(0, i)[0]);
        let a1 = a.drop_first();
        let b1 = b.drop_first();
        assert(a1.subrange(0, i - 1) =~= a.subrange(0, i).drop_first());
        assert(b1.subrange(0, i - 1) =~= b.subrange(0, i).drop_first());
        lemma_text_less_at(a1, b1, i - 1);
        assert(a1.subrange(i - 1, a1.len() as int) =~= a.subrange(i, a.len() as int));
        assert(b1.subrange(i - 1, b1.len() as int) =~= b.subrange(i, b.len() as int));
        if i < a.len() {
            assert(a1[i - 1] == a[i]);
        }
        if i < b.len() {
            assert(b1[i - 1] == b[i]);
        }
    }
}

proof fn lemma_text_less_irreflexive(a: Seq<char>)
    ensures
        !text_less(a, a),
    decreases a.len(),
{
    if a.len() > 0 {
        lemma_text_less_irreflexive(a.drop_first());
    }
}

proof fn lemma_text_less_transitive(a: Seq<char>, b: Seq<char>, c: Seq<char>)
    requires
        text_less(a, b),
        text_less(b, c),
    ensures
        text_less(a, c),
    decreases a.len(),
{
    if a.len() > 0 && b.len() > 0 && c.len() > 0 && a[0] == b[0] && b[0] == c[0] {
        lemma_text_less_transitive(a.drop_first(), b.drop_first(), c.drop_first());
    }
}

proof fn lemma_text_less_total(a: Seq<char>, b: Seq<char>)
    requires
        a != b,
    ensures
        text_less(a, b) || text_less(b, a),
    decreases a.len(),
{
    if a.len() > 0 && b.len() > 0 && a[0] == b[0] {
        if a.drop_first() == b.drop_first() {
            assert(a =~= seq![a[0]] + a.drop_first());
            assert(b =~= seq![b[0]] + b.drop_first());
        }
        lemma_text_less_total(a.drop_first(), b.drop_first());
    } else if a.len() == 0 && b.len() == 0 {
        assert(a =~= b);
    }
}

/// The names of a collection in code-point order, each once.
pub open spec fn sorted_names(names: Seq<Seq<char>>) -> Seq<Seq<char>> {
    choose|s: Seq<Seq<char>>| strictly_sorted(s) && s.to_set() == names.to_set()
}

/// A collection of names has exactly one strictly sorted listing.
pub proof fn lemma_sorted_listing_unique(a: Seq<Seq<char>>, b: Seq<Seq<char>>)
    requires
        strictly_sorted(a),
        strictly_sorted(b),
        a.to_set() == b.to_set(),
    ensures
        a == b,
    decreases a.len(),
{
    if a.len() == 0 {
        if b.len() > 0 {
            assert(b.to_set().contains(b[0]));
        }
        assert(a =~= b);
    } else {
        assert(a.to_set().contains(a[0]));
        assert(b.to_set().contains(a[0]));
        let j = choose|j: int| 0 <= j < b.len() && b[j] == a[0];
        assert(b.to_set().contains(b[0]));
        assert(a.to_set().contains(b[0]));
        let i = choose|i: int| 0 <= i < a.len() && a[i] == b[0];
        lemma_text_less_irreflexive(a[0]);
        if i > 0 {
            if j > 0 {
                lemma_text_less_transitive(a[0], b[0], a[0]);
            }
        }
        assert(a[0] == b[0]);
        let a1 = a.drop_first();
        let b1 = b.drop_first();
        assert forall|x: Seq<char>| a1.to_set().contains(x) implies b1.to_set().contains(x) by {
            let k = choose|k: int| 0 <= k < a1.len() && a1[k] == x;
            assert(a[k + 1] == x);
            assert(a.to_set().contains(x));
            let m = choose|m: int| 0 <= m < b.len() && b[m] == x;
            assert(text_less(a[0], a[k + 1]));
            lemma_text_less_irreflexive(x);
            assert(m != 0);
            assert(b1[m - 1] == x);
        }
        assert forall|x: Seq<char>| b1.to_set().contains(x) implies a1.to_set().contains(x) by {
            let k = choose|k: int| 0 <= k < b1.len() && b1[k] == x;
            assert(b[k + 1] == x);
            assert(b.to_set().contains(x));
            let m = choose|m: int| 0 <= m < a.len() && a[m] == x;
            assert(text_less(b[0], b[k + 1]));
            lemma_text_less_irreflexive(x);
            assert(m != 0);
            assert(a1[m - 1] == x);
        }
        assert(a1.to_set() =~= b1.to_set());
        lemma_sorted_listing_unique(a1, b1);
        assert(a =~= seq![a[0]] + a1);
        assert(b =~= seq![b[0]] + b1);
    }
}

/// Sorts names in code-point order and drops repeats.
pub(crate) fn sorted_unique(names: &Vec<String>) -> (r: Vec<String>)
    ensures
        strictly_sorted(names_view(r@)),
        names_view(r@).to_set() == names_view(names@).to_set(),
        names_view(r@) == sorted_names(names_view(names@)),
{
    let mut out: Vec<String> = Vec::new();
    let n = names.len();
    let mut i: usize = 0;
    while i < n
        invariant
            0 <= i <= n,
            n == names@.len(),
            strictly_sorted(names_view(out@)),
            names_view(out@).to_set() == names_view(names@.subrange(0, i as int)).to_set(),
        decreases n - i,
    {
        let x = &names[i];
        let m = out.len();
        let mut k: usize = 0;
        while k < m && compare_text(out[k].as_str(), x.as_str()) == -1
            invariant
                0 <= k <= m,
                m == out@.len(),
                forall|j: int| 0 <= j < k ==> text_less(#[trigger] names_view(out@)[j], x@),
            decreases m - k,
        {
            k = k + 1;
        }
        let ghost ov = names_view(out@);
        let ghost seen = names_view(names@.subrange(0, i as int));
        let ghost seen2 = names_view(names@.subrange(0, i + 1));
        proof {
            assert(seen2 =~= seen.push(x@));
            seen.lemma_push_to_set_commute(x@);
        }
        if k < m && compare_text(out[k].as_str(), x.as_str()) == 0 {
            proof {
                assert(ov[k as int] == x@);
                assert(seen2.to_set() =~= seen.to_set().insert(x@));
                assert(ov.to_set().contains(x@));
                assert(ov.to_set().insert(x@) =~= ov.to_set());
            }
        } else {
            proof {
                if k < m {
                    lemma_text_less_total(ov[k as int], x@);
                }
            }
            out.insert(k, x.clone());
            proof {
                let nv = names_view(out@);
                assert(nv =~= ov.insert(k as int, x@));
                assert forall|a: int, b: int| 0 <= a < b < nv.len() implies text_less(
                    #[trigger] nv[a],
                    #[trigger] nv[b],
                ) by {
                    if a < k && b == k {
                    } else if a < k && b > k {
                        assert(nv[b] == ov[b - 1]);
                    } else if a == k {
                        assert(nv[b] == ov[b - 1]);
                        if b - 1 > k {
                            lemma_text_less_transitive(x@, ov[k as int], ov[b - 1]);
                        }
                    } else if a > k {
                        assert(nv[a] == ov[a - 1]);
                        assert(nv[b] == ov[b - 1]);
                    } else {
                        assert(nv[a] == ov[a]);
                        assert(nv[b] == ov[b]);
                    }
                }
                assert(nv.to_set() =~= ov.to_set().insert(x@)) by {
                    assert forall|t: Seq<char>| nv.to_set().contains(t) implies ov.to_set().insert(
                        x@,
                    ).contains(t) by {
                        let j = choose|j: int| 0 <= j < nv.len() && nv[j] == t;
                        if j < k {
                            assert(ov[j] == t);
                        } else if j > k {
                            assert(ov[j - 1] == t);
                        }
                    }
                    assert forall|t: Seq<char>| ov.to_set().insert(x@).contains(t) implies nv.to_set().contains(
                        t,
                    ) by {
                        if t == x@ {
                            assert(nv[k as int] == t);
                        } else {
                            let j = choose|j: int| 0 <= j < ov.len() && ov[j] == t;
                            if j < k {
                                assert(nv[j] == t);
                            } else {
                                assert(nv[j + 1] == t);
                            }
                        }
                    }
                }
                assert(seen2.to_set() =~= seen.to_set().insert(x@));
            }
        }
        i = i + 1;
    }
    proof {
        assert(names@.subrange(0, n as int) =~= names@);
        let s = sorted_names(names_view(names@));
        assert(strictly_sorted(s) && s.to_set() == names_view(names@).to_set());
        lemma_sorted_listing_unique(names_view(out@), s);
    }
    out
}

impl Formula {
    /// The signals the formula mentions, sorted and deduplicated.
    pub fn variables(&self) -> (r: Vec<String>)
        ensures
            strictly_sorted(names_view(r@)),
            names_view(r@).to_set() == formula_variables(self@).to_set(),
            forall|n: Seq<char>| #[trigger]
                names_view(r@).contains(n) <==> formula_mentions(self@, n),
    {
        let mut vars: Vec<String> = Vec::new();
        push_formula_variables(self, &mut vars);
        assert(names_view(vars@) =~= formula_variables(self@));
        let r = sorted_unique(&vars);
        proof {
            assert forall|n: Seq<char>| #[trigger]
                names_view(r@).contains(n) <==> formula_mentions(self@, n) by {
                lemma_variables_are_occurrences(self@, n);
                assert(names_view(r@).to_set().contains(n) == names_view(r@).contains(n));
                assert(formula_variables(self@).to_set().contains(n) == formula_variables(
                    self@,
                ).contains(n));
            }
        }
        r
    }

    /// The nesting depth, held at `usize::MAX`.
    pub fn depth(&self) -> (r: usize)
        ensures
            r == saturate(formula_depth(self@)),
        decreases self,
    {
        match self {
            Formula::Predicate(_) => 1,
            Formula::Not(g) | Formula::Next(g) | Formula::Always(_, g) | Formula::Eventually(_, g)
            | Formula::Historically(_, g) | Formula::Once(_, g) | Formula::Probabilistic(_, _, g) => {
                saturating_succ(g.depth())
            },
            Formula::And(l, r) | Formula::Or(l, r) | Formula::Implies(l, r) | Formula::Until(_, l, r)
            | Formula::Since(_, l, r) => {
                let dl = l.depth();
                let dr = r.depth();
                proof {
                    lemma_saturate_max(formula_depth(l@), formula_depth(r@));
                }
                saturating_succ(larger(dl, dr))
            },
        }
    }

    /// Whether the formula contains any temporal operator.
    pub fn has_temporal(&self) -> (r: bool)
        ensures
            r == formula_has_temporal(self@),
        decreases self,
    {
        match self {
            Formula::Predicate(_) => false,
            Formula::Not(g) | Formula::Probabilistic(_, _, g) => g.has_temporal(),
            Formula::And(l, r) | Formula::Or(l, r) | Formula::Implies(l, r) => l.has_temporal()
                || r.has_temporal(),
            _ => true,
        }
    }
}

impl Expr {
    /// The nesting depth of the term, held at `usize::MAX`.
    pub fn depth(&self) -> (r: usize)
        ensures
            r == saturate(expr_depth(self@)),
        decreases self,
    {
        match self {
            Expr::Binary(_, l, r) => {
                let dl = l.depth();
                let dr = r.depth();
                proof {
                    lemma_saturate_max(expr_depth(l@), expr_depth(r@));
                }
                saturating_succ(larger(dl, dr))
            },
            Expr::Call(_, args) => {
                let n = args.len();
                let mut best: usize = 0;
                let mut i: usize = 0;
                proof {
                    assert(args@.subrange(0, 0) =~= Seq::<Expr>::empty());
                }
                #[verifier::loop_isolation(false)]
                while i < n
                    invariant
                        0 <= i <= n,
                        n == args@.len(),
                        best == saturate(args_depth(exprs_view(args@.subrange(0, i as int)))),
                    decreases n - i,
                {
                    proof {
                        assert(decreases_to!(*self => *args));
                        assert(decreases_to!(*args => args@));
                        assert(decreases_to!(args@ => args@[i as int]));
                    }
                    let d = args[i].depth();
                    proof {
                        let sub = args@.subrange(0, i + 1);
                        assert(sub.drop_last() =~= args@.subrange(0, i as int));
                        assert(sub[sub.len() - 1] == args@[i as int]);
                        let v = exprs_view(sub);
                        assert(v.drop_last() =~= exprs_view(args@.subrange(0, i as int)));
                        lemma_exprs_view_facts(args@.subrange(0, i as int));
                        lemma_saturate_max(
                            args_depth(exprs_view(args@.subrange(0, i as int))),
                            expr_depth(args@[i as int]@),
                        );
                    }
                    best = larger(best, d);
                    i = i + 1;
                }
                proof {
                    assert(args@.subrange(0, n as int) =~= args@);
                }
                saturating_succ(best)
            },
            Expr::Literal(_) | Expr::Variable(_) => 1,
        }
    }
}

} // verus!
