//! Lowering the boolean core of a formula to a WGSL function.
//!
//! Every value becomes one SSA register `v0`, `v1`, ... bound by a `let`
//! line, in the order the values are computed. A predicate becomes its
//! robustness margin, `not` a negation, `and`/`or` a `min`/`max`, and
//! `implies` the `max` of the negated premise and the conclusion. The
//! generated source is then parsed and validated by naga.
use crate::error::Error;
use crate::formula::analysis::names_view;
use crate::formula::ast::{
    exprs_view, BinaryOp, ComparisonOp, Expr, Formula, Predicate, SpecExpr, SpecFormula,
    SpecPredicate,
};
use crate::number::debug_text;
use crate::text::{is_digit, nat_text, push_nat, string_of};
use vstd::prelude::*;
use vstd::string::*;

verus! {

// ---------------------------------------------------------------------------
// What the generated code says.

/// How generated code reads a variable's slot.
#[derive(Debug, Clone, Copy, PartialEq, Eq, Structural)]
pub enum Access {
    /// From the packed state of one sample: `state[slot]`.
    State,
    /// From the trace at the current index: `(*trace)[slot][i]`.
    Trace,
}

/// The code that reads slot `slot`.
pub open spec fn access_text(a: Access, slot: nat) -> Seq<char> {
    match a {
        Access::State => "state["@ + nat_text(slot) + "u]"@,
        Access::Trace => "(*trace)["@ + nat_text(slot) + "u][i]"@,
    }
}

/// The name of register `k`.
pub open spec fn reg(k: nat) -> Seq<char> {
    "v"@ + nat_text(k)
}

/// The line that binds register `k` to `value`.
pub open spec fn bind_line(k: nat, value: Seq<char>) -> Seq<char> {
    "    let "@ + reg(k) + " = "@ + value + ";\n"@
}

/// The emitter's state, its lines and next register, after binding `value`,
/// with the register that holds it.
pub open spec fn bound(st: (Seq<char>, nat), value: Seq<char>) -> ((Seq<char>, nat), Seq<char>) {
    ((st.0 + bind_line(st.1, value), st.1 + 1), reg(st.1))
}

/// Why a formula does not lower.
pub enum LowerError {
    /// A variable absent from the symbols.
    UnknownVariable(Seq<char>),
    /// An unknown function, or a known one with the wrong number of arguments.
    UnknownFunction(Seq<char>, nat),
    /// An operator the GPU path does not evaluate, with the message.
    Transpilation(Seq<char>),
}

/// Whether `e` is the library error for `s`.
pub open spec fn is_lower_error(e: Error, s: LowerError) -> bool {
    match (e, s) {
        (Error::UnknownVariable { name }, LowerError::UnknownVariable(n)) => name@ == n,
        (Error::UnknownFunction { name, arity }, LowerError::UnknownFunction(n, a)) => name@ == n
            && arity == a,
        (Error::Transpilation { message }, LowerError::Transpilation(m)) => message@ == m,
        _ => false,
    }
}

/// The first slot holding `name`.
pub open spec fn slot_of(symbols: Seq<Seq<char>>, name: Seq<char>, j: int) -> Option<nat>
    decreases symbols.len() - j,
{
    if j < 0 || j >= symbols.len() {
        None
    } else if symbols[j] == name {
        Some(j as nat)
    } else {
        slot_of(symbols, name, j + 1)
    }
}

/// The code of a binary operation; division and remainder by a divisor
/// near zero give `1e38` and `0.0`.
pub open spec fn binary_code(op: BinaryOp, l: Seq<char>, r: Seq<char>) -> Seq<char> {
    match op {
        BinaryOp::Add => l + " + "@ + r,
        BinaryOp::Sub => l + " - "@ + r,
        BinaryOp::Mul => l + " * "@ + r,
        BinaryOp::Pow => "pow("@ + l + ", "@ + r + ")"@,
        BinaryOp::Div => "select("@ + l + " / "@ + r + ", 1e38, abs("@ + r + ") < 1e-9)"@,
        BinaryOp::Mod => "select("@ + l + " % "@ + r + ", 0.0, abs("@ + r + ") < 1e-9)"@,
    }
}

/// Whether `name` is a one-argument function of the GPU path.
pub open spec fn is_unary_name(name: Seq<char>) -> bool {
    name == "abs"@ || name == "sqrt"@ || name == "exp"@ || name == "ln"@ || name == "log"@ || name
        == "sin"@ || name == "cos"@ || name == "tan"@ || name == "floor"@ || name == "ceil"@
}

/// The code of a one-argument function; the transcendentals are clamped so a
/// domain edge gives a finite value.
pub open spec fn unary_code(name: Seq<char>, a: Seq<char>) -> Seq<char> {
    if name == "sqrt"@ {
        "sqrt(max("@ + a + ", 0.0))"@
    } else if name == "exp"@ {
        "exp(clamp("@ + a + ", -87.0, 87.0))"@
    } else if name == "ln"@ {
        "log(max("@ + a + ", 1e-38))"@
    } else if name == "log"@ {
        "log(max("@ + a + ", 1e-38)) / 2.302585093"@
    } else {
        name + "("@ + a + ")"@
    }
}

/// Lowers a term.
pub open spec fn lower_expr(
    st: (Seq<char>, nat),
    e: SpecExpr,
    symbols: Seq<Seq<char>>,
    a: Access,
) -> Result<((Seq<char>, nat), Seq<char>), LowerError>
    decreases e,
{
    match e {
        SpecExpr::Literal(d) => Ok(bound(st, "f32("@ + debug_text(d) + ")"@)),
        SpecExpr::Variable(name) => match slot_of(symbols, name, 0) {
            Some(slot) => Ok(bound(st, access_text(a, slot))),
            None => Err(LowerError::UnknownVariable(name)),
        },
        SpecExpr::Binary(op, l, r) => match lower_expr(st, *l, symbols, a) {
            Err(err) => Err(err),
            Ok((st1, lv)) => match lower_expr(st1, *r, symbols, a) {
                Err(err) => Err(err),
                Ok((st2, rv)) => Ok(bound(st2, binary_code(op, lv, rv))),
            },
        },
        SpecExpr::Call(name, args) => {
            if is_unary_name(name) && args.len() == 1 {
                match lower_expr(st, args[0], symbols, a) {
                    Err(err) => Err(err),
                    Ok((st1, av)) => Ok(bound(st1, unary_code(name, av))),
                }
            } else if (name == "min"@ || name == "max"@) && args.len() == 2 {
                match lower_expr(st, args[0], symbols, a) {
                    Err(err) => Err(err),
                    Ok((st1, lv)) => match lower_expr(st1, args[1], symbols, a) {
                        Err(err) => Err(err),
                        Ok((st2, rv)) => Ok(bound(st2, name + "("@ + lv + ", "@ + rv + ")"@)),
                    },
                }
            } else {
                Err(LowerError::UnknownFunction(name, args.len()))
            }
        },
    }
}

/// The code of a predicate's robustness margin.
pub open spec fn margin_code(op: ComparisonOp, l: Seq<char>, r: Seq<char>) -> Seq<char> {
    match op {
        ComparisonOp::Less | ComparisonOp::LessEqual => r + " - "@ + l,
        ComparisonOp::Greater | ComparisonOp::GreaterEqual => l + " - "@ + r,
        ComparisonOp::Equal => "-abs("@ + l + " - "@ + r + ")"@,
        ComparisonOp::NotEqual => "abs("@ + l + " - "@ + r + ")"@,
    }
}

/// How an operator the GPU path does not evaluate is named.
pub open spec fn operator_name(f: SpecFormula) -> Seq<char> {
    match f {
        SpecFormula::Always(..) => "always"@,
        SpecFormula::Eventually(..) => "eventually"@,
        SpecFormula::Until(..) => "until"@,
        SpecFormula::Since(..) => "since"@,
        SpecFormula::Historically(..) => "historically"@,
        SpecFormula::Once(..) => "once"@,
        SpecFormula::Next(_) => "next"@,
        SpecFormula::Probabilistic(..) => "the probabilistic operator P"@,
        _ => "this operator"@,
    }
}

/// The message for an operator the GPU path does not evaluate.
pub open spec fn unsupported_message(f: SpecFormula) -> Seq<char> {
    "the GPU path cannot evaluate `"@ + operator_name(f) + "` here; run this formula on the CPU monitor"@
}

/// Lowers the boolean core of a formula.
pub open spec fn lower_formula(
    st: (Seq<char>, nat),
    f: SpecFormula,
    symbols: Seq<Seq<char>>,
    a: Access,
) -> Result<((Seq<char>, nat), Seq<char>), LowerError>
    decreases f,
{
    match f {
        SpecFormula::Predicate(p) => match lower_expr(st, p.lhs, symbols, a) {
            Err(err) => Err(err),
            Ok((st1, lv)) => match lower_expr(st1, p.rhs, symbols, a) {
                Err(err) => Err(err),
                Ok((st2, rv)) => Ok(bound(st2, margin_code(p.op, lv, rv))),
            },
        },
        SpecFormula::Not(g) => match lower_formula(st, *g, symbols, a) {
            Err(err) => Err(err),
            Ok((st1, v)) => Ok(bound(st1, "-"@ + v)),
        },
        SpecFormula::And(l, r) => match lower_formula(st, *l, symbols, a) {
            Err(err) => Err(err),
            Ok((st1, lv)) => match lower_formula(st1, *r, symbols, a) {
                Err(err) => Err(err),
                Ok((st2, rv)) => Ok(bound(st2, "min("@ + lv + ", "@ + rv + ")"@)),
            },
        },
        SpecFormula::Or(l, r) => match lower_formula(st, *l, symbols, a) {
            Err(err) => Err(err),
            Ok((st1, lv)) => match lower_formula(st1, *r, symbols, a) {
                Err(err) => Err(err),
                Ok((st2, rv)) => Ok(bound(st2, "max("@ + lv + ", "@ + rv + ")"@)),
            },
        },
        SpecFormula::Implies(l, r) => match lower_formula(st, *l, symbols, a) {
            Err(err) => Err(err),
            Ok((st1, lv)) => match lower_formula(st1, *r, symbols, a) {
                Err(err) => Err(err),
                Ok((st2, rv)) => Ok(bound(st2, "max(-"@ + lv + ", "@ + rv + ")"@)),
            },
        },
        _ => Err(LowerError::Transpilation(unsupported_message(f))),
    }
}

// ---------------------------------------------------------------------------
// What the connectives' code computes.

/// Whether `t` names a register: `v` followed by decimal digits.
pub open spec fn is_register_name(t: Seq<char>) -> bool {
    &&& t.len() >= 2
    &&& t[0] == 'v'
    &&& forall|i: int| 1 <= i < t.len() ==> is_digit(#[trigger] t[i])
}

/// The first position from `j` on where `", "` starts in `s`.
pub open spec fn comma_space_from(s: Seq<char>, j: int) -> Option<int>
    decreases s.len() - j,
{
    if j < 0 || j + 1 >= s.len() {
        None
    } else if s[j] == ',' && s[j + 1] == ' ' {
        Some(j)
    } else {
        comma_space_from(s, j + 1)
    }
}

/// Where `", "` can be found: from `j0` on, with room for both characters.
pub proof fn lemma_comma_space_bounds(s: Seq<char>, j0: int)
    requires
        0 <= j0,
    ensures
        comma_space_from(s, j0) matches Some(j) ==> j0 <= j && j + 1 < s.len(),
    decreases s.len() - j0,
{
    if j0 + 1 < s.len() && !(s[j0] == ',' && s[j0 + 1] == ' ') {
        lemma_comma_space_bounds(s, j0 + 1);
    }
}

/// Whether `c` is one of the infix operators `+`, `-`, `*`.
pub open spec fn is_infix_op(c: char) -> bool {
    c == '+' || c == '-' || c == '*'
}

/// The first position from `j` on where an infix operator with a space on
/// each side (` + `, ` - `, ` * `) starts in `s`.
pub open spec fn infix_from(s: Seq<char>, j: int) -> Option<int>
    decreases s.len() - j,
{
    if j < 0 || j + 2 >= s.len() {
        None
    } else if s[j] == ' ' && is_infix_op(s[j + 1]) && s[j + 2] == ' ' {
        Some(j)
    } else {
        infix_from(s, j + 1)
    }
}

/// Where an infix operator can be found: from `j0` on, with room for all
/// three characters.
pub proof fn lemma_infix_bounds(s: Seq<char>, j0: int)
    requires
        0 <= j0,
    ensures
        infix_from(s, j0) matches Some(j) ==> j0 <= j && j + 2 < s.len(),
    decreases s.len() - j0,
{
    if j0 + 2 < s.len() && !(s[j0] == ' ' && is_infix_op(s[j0 + 1]) && s[j0 + 2] == ' ') {
        lemma_infix_bounds(s, j0 + 1);
    }
}

/// What WGSL computes for a value text written only with registers, unary
/// `-`, the infix ` + `, ` - ` and ` * ` (sum, difference, product), and the builtins `abs` (the magnitude), `min` and `max`
/// (the smaller and the larger argument), reading each register through
/// `regs`; `None` for any other text.
pub open spec fn wgsl_value(t: Seq<char>, regs: spec_fn(Seq<char>) -> int) -> Option<int>
    decreases t.len(),
{
    if is_register_name(t) {
        Some(regs(t))
    } else if t.len() >= 2 && t[0] == '-' {
        match wgsl_value(t.subrange(1, t.len() as int), regs) {
            Some(x) => Some(-x),
            None => None,
        }
    } else if t.len() >= 6 && t[0] == 'm' && t[3] == '(' && t[t.len() - 1] == ')' && ((t[1] == 'i'
        && t[2] == 'n') || (t[1] == 'a' && t[2] == 'x')) {
        let inner = t.subrange(4, t.len() - 1);
        proof {
            lemma_comma_space_bounds(inner, 0);
        }
        match comma_space_from(inner, 0) {
            Some(j) => match (
                wgsl_value(inner.subrange(0, j), regs),
                wgsl_value(inner.subrange(j + 2, inner.len() as int), regs),
            ) {
                (Some(x), Some(y)) => Some(
                    if t[1] == 'i' {
                        if x <= y {
                            x
                        } else {
                            y
                        }
                    } else {
                        if x >= y {
                            x
                        } else {
                            y
                        }
                    },
                ),
                _ => None,
            },
            None => None,
        }
    } else if t.len() >= 5 && t[0] == 'a' && t[1] == 'b' && t[2] == 's' && t[3] == '(' && t[t.len()
        - 1] == ')' {
        match wgsl_value(t.subrange(4, t.len() - 1), regs) {
            Some(x) => Some(
                if x >= 0 {
                    x
                } else {
                    -x
                },
            ),
            None => None,
        }
    } else {
        proof {
            lemma_infix_bounds(t, 0);
        }
        match infix_from(t, 0) {
            Some(j) => match (
                wgsl_value(t.subrange(0, j), regs),
                wgsl_value(t.subrange(j + 3, t.len() as int), regs),
            ) {
                (Some(x), Some(y)) => Some(
                    if t[j + 1] == '+' {
                        x + y
                    } else if t[j + 1] == '-' {
                        x - y
                    } else {
                        x * y
                    },
                ),
                _ => None,
            },
            None => None,
        }
    }
}

/// STL robustness of a comparison between terms of values `x` and `y`: how
/// far the comparison is from failing, `y - x` for `<` and `<=`, `x - y` for
/// `>` and `>=`, `-|x - y|` for `==`, and `|x - y|` for `!=`.
pub open spec fn comparison_robustness(op: ComparisonOp, x: int, y: int) -> int {
    let d = x - y;
    let m = if d >= 0 {
        d
    } else {
        -d
    };
    match op {
        ComparisonOp::Less | ComparisonOp::LessEqual => y - x,
        ComparisonOp::Greater | ComparisonOp::GreaterEqual => x - y,
        ComparisonOp::Equal => -m,
        ComparisonOp::NotEqual => m,
    }
}

/// STL robustness of a connective from its operands' robustness `x` (and
/// `y`): `not` negates, `and` takes the minimum, `or` the maximum, and
/// `implies` the maximum of the negated premise and the conclusion.
pub open spec fn connective_robustness(f: SpecFormula, x: int, y: int) -> int {
    match f {
        SpecFormula::Not(_) => -x,
        SpecFormula::And(..) => if x <= y {
            x
        } else {
            y
        },
        SpecFormula::Or(..) => if x >= y {
            x
        } else {
            y
        },
        SpecFormula::Implies(..) => if -x >= y {
            -x
        } else {
            y
        },
        _ => 0,
    }
}

/// The value of a successful lowering.
pub open spec fn lowered(r: Result<((Seq<char>, nat), Seq<char>), LowerError>) -> (
    (Seq<char>, nat),
    Seq<char>,
) {
    match r {
        Ok(v) => v,
        Err(_) => ((Seq::empty(), 0), Seq::empty()),
    }
}

proof fn lemma_nat_text_digits(n: nat)
    ensures
        nat_text(n).len() >= 1,
        forall|i: int| 0 <= i < nat_text(n).len() ==> is_digit(#[trigger] nat_text(n)[i]),
    decreases n,
{
    if n >= 10 {
        lemma_nat_text_digits(n / 10);
        let t = nat_text(n);
        assert forall|i: int| 0 <= i < t.len() implies is_digit(#[trigger] t[i]) by {
            if i < t.len() - 1 {
                assert(t[i] == nat_text(n / 10)[i]);
            }
        }
    }
}

proof fn lemma_register_name(k: nat)
    ensures
        is_register_name(reg(k)),
        !reg(k).contains(','),
        !reg(k).contains('-'),
        !reg(k).contains(' '),
{
    reveal_strlit("v");
    lemma_nat_text_digits(k);
    let t = reg(k);
    assert forall|i: int| 1 <= i < t.len() implies is_digit(#[trigger] t[i]) by {
        assert(t[i] == nat_text(k)[i - 1]);
    }
    if t.contains(',') {
        let i = choose|i: int| 0 <= i < t.len() && t[i] == ',';
        if i > 0 {
            assert(is_digit(t[i]));
        }
    }
    if t.contains('-') {
        let i = choose|i: int| 0 <= i < t.len() && t[i] == '-';
        if i > 0 {
            assert(is_digit(t[i]));
        }
    }
    if t.contains(' ') {
        let i = choose|i: int| 0 <= i < t.len() && t[i] == ' ';
        if i > 0 {
            assert(is_digit(t[i]));
        }
    }
}

/// `", "` is found right after a prefix that holds no comma.
proof fn lemma_comma_space_after(x: Seq<char>, y: Seq<char>, j: int)
    requires
        !x.contains(','),
        0 <= j <= x.len(),
    ensures
        comma_space_from(x + ", "@ + y, j) == Some(x.len() as int),
    decreases x.len() - j,
{
    reveal_strlit(", ");
    let s = x + ", "@ + y;
    if j < x.len() {
        assert(s[j] == x[j]);
        assert(s[j] != ',');
        lemma_comma_space_after(x, y, j + 1);
    } else {
        assert(s[j] == ',');
        assert(s[j + 1] == ' ');
    }
}

/// The code `min(x, y)` or `max(x, y)`, for `name` `min` or `max`, computes
/// the smaller or larger of what `x` and `y` compute.
#[verifier::spinoff_prover]
proof fn lemma_pair_value(
    name: Seq<char>,
    x: Seq<char>,
    y: Seq<char>,
    regs: spec_fn(Seq<char>) -> int,
)
    requires
        name == "min"@ || name == "max"@,
        !x.contains(','),
        wgsl_value(x, regs) is Some,
        wgsl_value(y, regs) is Some,
    ensures
        ({
            let t = name + "("@ + x + ", "@ + y + ")"@;
            let a = wgsl_value(x, regs)->0;
            let b = wgsl_value(y, regs)->0;
            wgsl_value(t, regs) == Some(
                if name == "min"@ {
                    if a <= b {
                        a
                    } else {
                        b
                    }
                } else {
                    if a >= b {
                        a
                    } else {
                        b
                    }
                },
            )
        }),
{
    reveal_strlit("min");
    reveal_strlit("max");
    reveal_strlit("(");
    reveal_strlit(")");
    reveal_strlit(", ");
    let t = name + "("@ + x + ", "@ + y + ")"@;
    assert(t[0] == 'm');
    assert(t[1] == name[1]);
    assert(t[2] == name[2]);
    assert(t[3] == '(');
    assert(t[t.len() - 1] == ')');
    assert(!is_register_name(t));
    let inner = t.subrange(4, t.len() - 1);
    assert(inner =~= x + ", "@ + y);
    lemma_comma_space_after(x, y, 0);
    let j = x.len() as int;
    assert(inner.subrange(0, j) =~= x);
    assert(inner.subrange(j + 2, inner.len() as int) =~= y);
}

/// Law: the code a connective lowers to computes its STL robustness from
/// its operands'. Whatever the registers hold, the line that binds the
/// connective's register computes, read as WGSL, the negation of its
/// operand's register for `not`, the minimum of its operands' registers for
/// `and`, the maximum for `or`, and the maximum of the negated premise and
/// the conclusion for `implies`.
pub proof fn lemma_connective_code_is_robustness(
    st: (Seq<char>, nat),
    f: SpecFormula,
    symbols: Seq<Seq<char>>,
    a: Access,
    regs: spec_fn(Seq<char>) -> int,
)
    requires
        f is Not || f is And || f is Or || f is Implies,
        lower_formula(st, f, symbols, a) is Ok,
    ensures
        ({
            let (first, second) = match f {
                SpecFormula::Not(g) => (*g, *g),
                SpecFormula::And(l, r) => (*l, *r),
                SpecFormula::Or(l, r) => (*l, *r),
                SpecFormula::Implies(l, r) => (*l, *r),
                _ => (f, f),
            };
            let (st1, lv) = lowered(lower_formula(st, first, symbols, a));
            let (st2, rv) = if f is Not {
                (st1, lv)
            } else {
                lowered(lower_formula(st1, second, symbols, a))
            };
            let (out, res) = lowered(lower_formula(st, f, symbols, a));
            &&& res == reg(st2.1)
            &&& out.1 == st2.1 + 1
            &&& exists|value: Seq<char>|
                out.0 == st2.0 + bind_line(st2.1, value) && wgsl_value(value, regs) == Some(
                    connective_robustness(f, regs(lv), regs(rv)),
                )
        }),
{
    match f {
        SpecFormula::Not(g) => {
            let (st1, lv) = lowered(lower_formula(st, *g, symbols, a));
            lemma_lowered_register(st, *g, symbols, a);
            let k = choose|k: nat| lv == reg(k);
            lemma_negation_value(k, regs);
        },
        SpecFormula::And(l, r) | SpecFormula::Or(l, r) | SpecFormula::Implies(l, r) => {
            let (st1, lv) = lowered(lower_formula(st, *l, symbols, a));
            let (st2, rv) = lowered(lower_formula(st1, *r, symbols, a));
            lemma_lowered_register(st, *l, symbols, a);
            lemma_lowered_register(st1, *r, symbols, a);
            let kl = choose|k: nat| lv == reg(k);
            let kr = choose|k: nat| rv == reg(k);
            if f is Implies {
                lemma_implication_value(kl, kr, regs);
            } else {
                lemma_pair_of_registers(f is And, kl, kr, regs);
            }
        },
        _ => {},
    }
}

/// `-vK` computes the negation of register `vK`.
#[verifier::spinoff_prover]
proof fn lemma_negation_value(k: nat, regs: spec_fn(Seq<char>) -> int)
    ensures
        wgsl_value("-"@ + reg(k), regs) == Some(-regs(reg(k))),
        !("-"@ + reg(k)).contains(','),
{
    reveal_strlit("-");
    lemma_register_name(k);
    let lv = reg(k);
    let value = "-"@ + lv;
    assert(value.subrange(1, value.len() as int) =~= lv);
    assert(value[0] == '-');
    assert(!is_register_name(value));
    assert(wgsl_value(lv, regs) == Some(regs(lv)));
    if value.contains(',') {
        let i = choose|i: int| 0 <= i < value.len() && value[i] == ',';
        assert(i > 0);
        assert(lv[i - 1] == ',');
    }
}

/// `min(vI, vJ)` and `max(vI, vJ)` compute the smaller and the larger of the
/// two registers.
#[verifier::spinoff_prover]
proof fn lemma_pair_of_registers(smaller: bool, i: nat, j: nat, regs: spec_fn(Seq<char>) -> int)
    ensures
        ({
            let x = regs(reg(i));
            let y = regs(reg(j));
            &&& smaller ==> wgsl_value("min("@ + reg(i) + ", "@ + reg(j) + ")"@, regs) == Some(
                if x <= y {
                    x
                } else {
                    y
                },
            )
            &&& !smaller ==> wgsl_value("max("@ + reg(i) + ", "@ + reg(j) + ")"@, regs) == Some(
                if x >= y {
                    x
                } else {
                    y
                },
            )
        }),
{
    reveal_strlit("min");
    reveal_strlit("max");
    reveal_strlit("min(");
    reveal_strlit("max(");
    reveal_strlit("(");
    lemma_register_name(i);
    lemma_register_name(j);
    assert(wgsl_value(reg(i), regs) == Some(regs(reg(i))));
    assert(wgsl_value(reg(j), regs) == Some(regs(reg(j))));
    if smaller {
        lemma_pair_value("min"@, reg(i), reg(j), regs);
        assert("min"@ + "("@ + reg(i) + ", "@ + reg(j) + ")"@ =~= "min("@ + reg(i) + ", "@ + reg(j)
            + ")"@);
    } else {
        lemma_pair_value("max"@, reg(i), reg(j), regs);
        assert("max"@ + "("@ + reg(i) + ", "@ + reg(j) + ")"@ =~= "max("@ + reg(i) + ", "@ + reg(j)
            + ")"@);
    }
}

/// `max(-vI, vJ)` computes the larger of the negated first register and the
/// second.
#[verifier::spinoff_prover]
proof fn lemma_implication_value(i: nat, j: nat, regs: spec_fn(Seq<char>) -> int)
    ensures
        ({
            let x = -regs(reg(i));
            let y = regs(reg(j));
            wgsl_value("max(-"@ + reg(i) + ", "@ + reg(j) + ")"@, regs) == Some(
                if x >= y {
                    x
                } else {
                    y
                },
            )
        }),
{
    reveal_strlit("-");
    reveal_strlit("max");
    reveal_strlit("max(-");
    reveal_strlit("(");
    lemma_negation_value(i, regs);
    lemma_register_name(j);
    assert(wgsl_value(reg(j), regs) == Some(regs(reg(j))));
    let neg = "-"@ + reg(i);
    reveal_strlit("min");
    assert("max"@[1] != "min"@[1]);
    assert("max"@ != "min"@);
    lemma_pair_value("max"@, neg, reg(j), regs);
    assert("max"@ + "("@ + neg =~= "max(-"@ + reg(i));
    assert("max"@ + "("@ + neg + ", "@ + reg(j) + ")"@ =~= "max(-"@ + reg(i) + ", "@ + reg(j)
        + ")"@);
}

/// An infix operator with its spaces is found right after a prefix that
/// holds no space.
proof fn lemma_infix_after(x: Seq<char>, op: Seq<char>, y: Seq<char>, j: int)
    requires
        !x.contains(' '),
        op.len() == 3,
        op[0] == ' ',
        is_infix_op(op[1]),
        op[2] == ' ',
        0 <= j <= x.len(),
    ensures
        infix_from(x + op + y, j) == Some(x.len() as int),
    decreases x.len() - j,
{
    let s = x + op + y;
    if j < x.len() {
        assert(s[j] == x[j]);
        assert(s[j] != ' ');
        lemma_infix_after(x, op, y, j + 1);
    } else {
        assert(s[j] == op[0]);
        assert(s[j + 1] == op[1]);
        assert(s[j + 2] == op[2]);
    }
}

/// `vI + vJ`, `vI - vJ` and `vI * vJ` compute the sum, difference and
/// product of the two registers.
proof fn lemma_infix_value(i: nat, j: nat, regs: spec_fn(Seq<char>) -> int)
    ensures
        wgsl_value(reg(i) + " + "@ + reg(j), regs) == Some(regs(reg(i)) + regs(reg(j))),
        wgsl_value(reg(i) + " - "@ + reg(j), regs) == Some(regs(reg(i)) - regs(reg(j))),
        wgsl_value(reg(i) + " * "@ + reg(j), regs) == Some(regs(reg(i)) * regs(reg(j))),
{
    reveal_strlit(" + ");
    reveal_strlit(" - ");
    reveal_strlit(" * ");
    assert(" - "@[1] != " + "@[1]);
    assert(" * "@[1] != " + "@[1]);
    assert(" * "@[1] != " - "@[1]);
    lemma_infix_case(i, " + "@, j, regs);
    lemma_infix_case(i, " - "@, j, regs);
    lemma_infix_case(i, " * "@, j, regs);
}

#[verifier::spinoff_prover]
proof fn lemma_infix_case(i: nat, op: Seq<char>, j: nat, regs: spec_fn(Seq<char>) -> int)
    requires
        op == " + "@ || op == " - "@ || op == " * "@,
    ensures
        ({
            let x = regs(reg(i));
            let y = regs(reg(j));
            wgsl_value(reg(i) + op + reg(j), regs) == Some(
                if op == " + "@ {
                    x + y
                } else if op == " - "@ {
                    x - y
                } else {
                    x * y
                },
            )
        }),
{
    reveal_strlit(" + ");
    reveal_strlit(" - ");
    reveal_strlit(" * ");
    lemma_register_name(i);
    lemma_register_name(j);
    let x = reg(i);
    let y = reg(j);
    let t = x + op + y;
    assert(t[x.len() as int] == ' ');
    assert(!is_digit(t[x.len() as int]));
    assert(!is_register_name(t));
    assert(t[0] == x[0]);
    lemma_infix_after(x, op, y, 0);
    assert(t.subrange(0, x.len() as int) =~= x);
    assert(t.subrange(x.len() + 3int, t.len() as int) =~= y);
    assert(t[x.len() + 1int] == op[1]);
    assert(wgsl_value(x, regs) == Some(regs(x)));
    assert(wgsl_value(y, regs) == Some(regs(y)));
}

/// `abs(vI - vJ)` and `-abs(vI - vJ)` compute the magnitude of the
/// difference and its negation.
#[verifier::spinoff_prover]
proof fn lemma_abs_difference_value(i: nat, j: nat, regs: spec_fn(Seq<char>) -> int)
    ensures
        ({
            let d = regs(reg(i)) - regs(reg(j));
            let m = if d >= 0 {
                d
            } else {
                -d
            };
            &&& wgsl_value("abs("@ + reg(i) + " - "@ + reg(j) + ")"@, regs) == Some(m)
            &&& wgsl_value("-abs("@ + reg(i) + " - "@ + reg(j) + ")"@, regs) == Some(-m)
        }),
{
    reveal_strlit("abs(");
    reveal_strlit("-abs(");
    reveal_strlit(")");
    lemma_infix_value(i, j, regs);
    let inner = reg(i) + " - "@ + reg(j);
    let t = "abs("@ + inner + ")"@;
    assert(t =~= "abs("@ + reg(i) + " - "@ + reg(j) + ")"@);
    assert(t[0] == 'a');
    assert(!is_register_name(t));
    assert(t.subrange(4, t.len() - 1) =~= inner);
    let n = "-abs("@ + reg(i) + " - "@ + reg(j) + ")"@;
    assert(n[0] == '-');
    assert(!is_register_name(n));
    assert(n.subrange(1, n.len() as int) =~= t);
}

/// A successful lowering of a term leaves its value in a register.
proof fn lemma_lowered_expr_register(
    st: (Seq<char>, nat),
    e: SpecExpr,
    symbols: Seq<Seq<char>>,
    a: Access,
)
    requires
        lower_expr(st, e, symbols, a) is Ok,
    ensures
        exists|k: nat| lowered(lower_expr(st, e, symbols, a)).1 == reg(k),
{
    let v = lowered(lower_expr(st, e, symbols, a));
    match e {
        SpecExpr::Literal(_) | SpecExpr::Variable(_) => {
            assert(v.1 == reg(st.1));
        },
        SpecExpr::Binary(_, l, r) => {
            let (st1, _) = lowered(lower_expr(st, *l, symbols, a));
            let (st2, _) = lowered(lower_expr(st1, *r, symbols, a));
            assert(v.1 == reg(st2.1));
        },
        SpecExpr::Call(name, args) => {
            if is_unary_name(name) && args.len() == 1 {
                let (st1, _) = lowered(lower_expr(st, args[0], symbols, a));
                assert(v.1 == reg(st1.1));
            } else {
                let (st1, _) = lowered(lower_expr(st, args[0], symbols, a));
                let (st2, _) = lowered(lower_expr(st1, args[1], symbols, a));
                assert(v.1 == reg(st2.1));
            }
        },
    }
}

/// Law: the code a predicate lowers to computes its STL robustness. Whatever
/// the registers hold, the line that binds the predicate's register
/// computes, read as WGSL, how far the comparison between the values of its
/// two terms' registers is from failing: `y - x` for `x < y` and `x <= y`,
/// `x - y` for `x > y` and `x >= y`, `-|x - y|` for `x == y`, and `|x - y|`
/// for `x != y`.
pub proof fn lemma_predicate_code_is_robustness(
    st: (Seq<char>, nat),
    p: SpecPredicate,
    symbols: Seq<Seq<char>>,
    a: Access,
    regs: spec_fn(Seq<char>) -> int,
)
    requires
        lower_formula(st, SpecFormula::Predicate(p), symbols, a) is Ok,
    ensures
        ({
            let (st1, lv) = lowered(lower_expr(st, p.lhs, symbols, a));
            let (st2, rv) = lowered(lower_expr(st1, p.rhs, symbols, a));
            let (out, res) = lowered(lower_formula(st, SpecFormula::Predicate(p), symbols, a));
            &&& res == reg(st2.1)
            &&& out.1 == st2.1 + 1
            &&& exists|value: Seq<char>|
                out.0 == st2.0 + bind_line(st2.1, value) && wgsl_value(value, regs) == Some(
                    comparison_robustness(p.op, regs(lv), regs(rv)),
                )
        }),
{
    let (st1, lv) = lowered(lower_expr(st, p.lhs, symbols, a));
    let (st2, rv) = lowered(lower_expr(st1, p.rhs, symbols, a));
    lemma_lowered_expr_register(st, p.lhs, symbols, a);
    lemma_lowered_expr_register(st1, p.rhs, symbols, a);
    let i = choose|k: nat| lv == reg(k);
    let j = choose|k: nat| rv == reg(k);
    reveal_strlit(" - ");
    reveal_strlit("-abs(");
    reveal_strlit("abs(");
    reveal_strlit(")");
    match p.op {
        ComparisonOp::Less | ComparisonOp::LessEqual => {
            lemma_infix_value(j, i, regs);
        },
        ComparisonOp::Greater | ComparisonOp::GreaterEqual => {
            lemma_infix_value(i, j, regs);
        },
        ComparisonOp::Equal | ComparisonOp::NotEqual => {
            lemma_abs_difference_value(i, j, regs);
            assert("-abs("@ + lv + " - "@ + rv + ")"@ =~= "-abs("@ + reg(i) + " - "@ + reg(j)
                + ")"@);
            assert("abs("@ + lv + " - "@ + rv + ")"@ =~= "abs("@ + reg(i) + " - "@ + reg(j) + ")"@);
        },
    }
}

/// The sum, difference or product a binary arithmetic operator denotes.
pub open spec fn arithmetic(op: BinaryOp, x: int, y: int) -> int {
    match op {
        BinaryOp::Add => x + y,
        BinaryOp::Sub => x - y,
        BinaryOp::Mul => x * y,
        _ => 0,
    }
}

/// Law: the code a sum, difference or product of terms lowers to computes
/// that sum, difference or product of its operands' registers, whatever
/// they hold.
pub proof fn lemma_arithmetic_code_is_arithmetic(
    st: (Seq<char>, nat),
    op: BinaryOp,
    l: SpecExpr,
    r: SpecExpr,
    symbols: Seq<Seq<char>>,
    a: Access,
    regs: spec_fn(Seq<char>) -> int,
)
    requires
        op is Add || op is Sub || op is Mul,
        lower_expr(st, SpecExpr::Binary(op, Box::new(l), Box::new(r)), symbols, a) is Ok,
    ensures
        ({
            let (st1, lv) = lowered(lower_expr(st, l, symbols, a));
            let (st2, rv) = lowered(lower_expr(st1, r, symbols, a));
            let (out, res) = lowered(
                lower_expr(st, SpecExpr::Binary(op, Box::new(l), Box::new(r)), symbols, a),
            );
            &&& res == reg(st2.1)
            &&& out.1 == st2.1 + 1
            &&& exists|value: Seq<char>|
                out.0 == st2.0 + bind_line(st2.1, value) && wgsl_value(value, regs) == Some(
                    arithmetic(op, regs(lv), regs(rv)),
                )
        }),
{
    let (st1, lv) = lowered(lower_expr(st, l, symbols, a));
    let (st2, rv) = lowered(lower_expr(st1, r, symbols, a));
    lemma_lowered_expr_register(st, l, symbols, a);
    lemma_lowered_expr_register(st1, r, symbols, a);
    let i = choose|k: nat| lv == reg(k);
    let j = choose|k: nat| rv == reg(k);
    lemma_infix_value(i, j, regs);
}

/// A successful lowering leaves its value in a register.
proof fn lemma_lowered_register(
    st: (Seq<char>, nat),
    f: SpecFormula,
    symbols: Seq<Seq<char>>,
    a: Access,
)
    requires
        lower_formula(st, f, symbols, a) is Ok,
    ensures
        exists|k: nat| lowered(lower_formula(st, f, symbols, a)).1 == reg(k),
{
    let v = lowered(lower_formula(st, f, symbols, a));
    match f {
        SpecFormula::Predicate(p) => {
            let (st1, _) = lowered(lower_expr(st, p.lhs, symbols, a));
            let (st2, _) = lowered(lower_expr(st1, p.rhs, symbols, a));
            assert(v.1 == reg(st2.1));
        },
        SpecFormula::Not(g) => {
            let (st1, _) = lowered(lower_formula(st, *g, symbols, a));
            assert(v.1 == reg(st1.1));
        },
        SpecFormula::And(l, r) | SpecFormula::Or(l, r) | SpecFormula::Implies(l, r) => {
            let (st1, _) = lowered(lower_formula(st, *l, symbols, a));
            let (st2, _) = lowered(lower_formula(st1, *r, symbols, a));
            assert(v.1 == reg(st2.1));
        },
        _ => {},
    }
}

/// How many values a term computes at most.
pub open spec fn expr_nodes(e: SpecExpr) -> nat
    decreases e,
{
    match e {
        SpecExpr::Binary(_, l, r) => 1 + expr_nodes(*l) + expr_nodes(*r),
        SpecExpr::Call(_, args) => 1 + if args.len() >= 1 {
            expr_nodes(args[0]) + if args.len() >= 2 {
                expr_nodes(args[1])
            } else {
                0
            }
        } else {
            0
        },
        _ => 1,
    }
}

/// How many values a formula's boolean core computes at most.
pub open spec fn formula_nodes(f: SpecFormula) -> nat
    decreases f,
{
    match f {
        SpecFormula::Predicate(p) => 1 + expr_nodes(p.lhs) + expr_nodes(p.rhs),
        SpecFormula::Not(g) => 1 + formula_nodes(*g),
        SpecFormula::And(l, r) | SpecFormula::Or(l, r) | SpecFormula::Implies(l, r) => 1
            + formula_nodes(*l) + formula_nodes(*r),
        _ => 0,
    }
}

/// The WGSL of `evaluate_formula` for a formula over `symbols`, or why it
/// does not lower.
pub open spec fn atemporal_source(f: SpecFormula, symbols: Seq<Seq<char>>) -> Result<
    Seq<char>,
    LowerError,
> {
    match lower_formula((Seq::empty(), 0), f, symbols, Access::State) {
        Err(err) => Err(err),
        Ok((st, result)) => Ok(
            "fn evaluate_formula(state: array<f32, "@ + nat_text(
                if symbols.len() < 1 {
                    1
                } else {
                    symbols.len()
                },
            ) + ">) -> f32 {\n"@ + st.0 + "    return "@ + result + ";\n}"@,
        ),
    }
}

// ---------------------------------------------------------------------------
// Checking the generated source.

/// Which of naga's two stages refused a WGSL source.
#[derive(Debug, Clone, Copy, PartialEq, Eq, Structural)]
pub enum NagaStage {
    /// The WGSL front end did not parse it.
    Parse,
    /// The module parsed but the validator refused it.
    Validate,
}

/// What naga makes of a WGSL source: `None` when it parses and validates,
/// otherwise the stage that refused it and naga's own message.
pub uninterp spec fn wgsl_check(source: Seq<char>) -> Option<(NagaStage, Seq<char>)>;

/// Parses `source` with naga's WGSL front end (`naga::front::wgsl::parse_str`)
/// and, when that succeeds, validates the module with
/// `naga::valid::Validator`, all flags and capabilities on. The result, named
/// `wgsl_check`, is `None` when both pass, otherwise the stage that failed
/// with naga's error written out (its `Display` text for a parse error, its
/// `Debug` text for a validation error).
#[verifier::external_body]
fn check_wgsl(source: &str) -> (r: Option<(NagaStage, String)>)
    ensures
        match r {
            None => wgsl_check(source@) is None,
            Some((stage, m)) => wgsl_check(source@) == Some((stage, m@)),
        },
{
    match naga::front::wgsl::parse_str(source) {
        Err(e) => Some((NagaStage::Parse, format!("{e}"))),
        Ok(module) => match naga::valid::Validator::new(
            naga::valid::ValidationFlags::all(),
            naga::valid::Capabilities::all(),
        ).validate(&module) {
            Ok(_) => None,
            Err(e) => Some((NagaStage::Validate, format!("{e:?}"))),
        },
    }
}

/// The message for a generated shader that naga refused at `stage` with
/// naga's message `m`.
pub open spec fn refusal_message(stage: NagaStage, m: Seq<char>) -> Seq<char> {
    match stage {
        NagaStage::Parse => "generated shader did not parse: "@ + m,
        NagaStage::Validate => "generated shader did not validate: "@ + m,
    }
}

/// Why naga refuses a generated shader, or `None` when it accepts it.
pub open spec fn wgsl_refusal(source: Seq<char>) -> Option<Seq<char>> {
    match wgsl_check(source) {
        None => None,
        Some((stage, m)) => Some(refusal_message(stage, m)),
    }
}

/// What a naga check means: nothing wrong, or an [`Error::Transpilation`]
/// saying which stage refused the generated shader, followed by naga's
/// message.
pub fn check_outcome(check: Option<(NagaStage, String)>) -> (r: Result<(), Error>)
    ensures
        match check {
            None => r is Ok,
            Some((stage, m)) => r matches Err(Error::Transpilation { message }) && message@
                == refusal_message(stage, m@),
        },
{
    match check {
        None => Ok(()),
        Some((stage, m)) => {
            let mut message = match stage {
                NagaStage::Parse => string_of("generated shader did not parse: "),
                NagaStage::Validate => string_of("generated shader did not validate: "),
            };
            message.append(m.as_str());
            Err(Error::Transpilation { message })
        },
    }
}

/// Parses and validates WGSL on the CPU.
pub fn validate(source: &str) -> (r: Result<(), Error>)
    ensures
        match wgsl_refusal(source@) {
            None => r is Ok,
            Some(m) => r matches Err(Error::Transpilation { message }) && message@ == m,
        },
{
    check_outcome(check_wgsl(source))
}

// ---------------------------------------------------------------------------
// The emitter.

/// Emits one SSA register per value.
pub struct Ssa {
    /// The `let` lines emitted so far.
    pub body: String,
    next: usize,
}

impl View for Ssa {
    type V = (Seq<char>, nat);

    /// The lines emitted so far and the next register.
    closed spec fn view(&self) -> (Seq<char>, nat) {
        (self.body@, self.next as nat)
    }
}

impl Ssa {
    /// No lines, and `v0` next.
    pub fn new() -> (r: Ssa)
        ensures
            r@ == (Seq::<char>::empty(), 0nat),
    {
        Ssa { body: String::new(), next: 0 }
    }

    /// The `let` lines emitted so far.
    pub fn lines(&self) -> (r: &String)
        ensures
            r@ == self@.0,
    {
        &self.body
    }

    /// How many registers are bound.
    pub fn bound_count(&self) -> (r: usize)
        ensures
            r == self@.1,
    {
        self.next
    }

    /// Binds the next register to `value` and names it.
    pub fn bind(&mut self, value: &str) -> (name: String)
        requires
            old(self)@.1 < usize::MAX,
        ensures
            (final(self)@, name@) == bound(old(self)@, value@),
    {
        let mut name = string_of("v");
        push_nat(&mut name, self.next);
        self.next = self.next + 1;
        self.body.append("    let ");
        self.body.append(name.as_str());
        self.body.append(" = ");
        self.body.append(value);
        self.body.append(";\n");
        name
    }
}

/// The first slot holding `name`.
fn find_slot(symbols: &[String], name: &String) -> (r: Option<usize>)
    ensures
        match (r, slot_of(names_view(symbols@), name@, 0)) {
            (Some(i), Some(si)) => i == si,
            (None, None) => true,
            _ => false,
        },
{
    let ghost names = names_view(symbols@);
    let mut i: usize = 0;
    while i < symbols.len()
        invariant
            i <= symbols@.len(),
            names == names_view(symbols@),
            slot_of(names, name@, 0) == slot_of(names, name@, i as int),
        decreases symbols@.len() - i,
    {
        if symbols[i] == *name {
            return Some(i);
        }
        i = i + 1;
    }
    None
}

fn access_code(a: Access, slot: usize) -> (r: String)
    ensures
        r@ == access_text(a, slot as nat),
{
    match a {
        Access::State => {
            let mut s = string_of("state[");
            push_nat(&mut s, slot);
            s.append("u]");
            s
        },
        Access::Trace => {
            let mut s = string_of("(*trace)[");
            push_nat(&mut s, slot);
            s.append("u][i]");
            s
        },
    }
}

fn binary_text(op: BinaryOp, l: &String, r: &String) -> (s: String)
    ensures
        s@ == binary_code(op, l@, r@),
{
    match op {
        BinaryOp::Add => {
            let mut s = l.clone();
            s.append(" + ");
            s.append(r.as_str());
            s
        },
        BinaryOp::Sub => {
            let mut s = l.clone();
            s.append(" - ");
            s.append(r.as_str());
            s
        },
        BinaryOp::Mul => {
            let mut s = l.clone();
            s.append(" * ");
            s.append(r.as_str());
            s
        },
        BinaryOp::Pow => {
            let mut s = string_of("pow(");
            s.append(l.as_str());
            s.append(", ");
            s.append(r.as_str());
            s.append(")");
            s
        },
        BinaryOp::Div => {
            let mut s = string_of("select(");
            s.append(l.as_str());
            s.append(" / ");
            s.append(r.as_str());
            s.append(", 1e38, abs(");
            s.append(r.as_str());
            s.append(") < 1e-9)");
            s
        },
        BinaryOp::Mod => {
            let mut s = string_of("select(");
            s.append(l.as_str());
            s.append(" % ");
            s.append(r.as_str());
            s.append(", 0.0, abs(");
            s.append(r.as_str());
            s.append(") < 1e-9)");
            s
        },
    }
}

fn is_unary(name: &String) -> (r: bool)
    ensures
        r == is_unary_name(name@),
{
    let n = name.clone();
    n == string_of("abs") || n == string_of("sqrt") || n == string_of("exp") || n == string_of(
        "ln",
    ) || n == string_of("log") || n == string_of("sin") || n == string_of("cos") || n
        == string_of("tan") || n == string_of("floor") || n == string_of("ceil")
}

fn unary_text(name: &String, a: &String) -> (s: String)
    ensures
        s@ == unary_code(name@, a@),
{
    if *name == string_of("sqrt") {
        let mut s = string_of("sqrt(max(");
        s.append(a.as_str());
        s.append(", 0.0))");
        s
    } else if *name == string_of("exp") {
        let mut s = string_of("exp(clamp(");
        s.append(a.as_str());
        s.append(", -87.0, 87.0))");
        s
    } else if *name == string_of("ln") {
        let mut s = string_of("log(max(");
        s.append(a.as_str());
        s.append(", 1e-38))");
        s
    } else if *name == string_of("log") {
        let mut s = string_of("log(max(");
        s.append(a.as_str());
        s.append(", 1e-38)) / 2.302585093");
        s
    } else {
        let mut s = name.clone();
        s.append("(");
        s.append(a.as_str());
        s.append(")");
        s
    }
}

fn literal_text(d: &crate::number::Decimal) -> (s: String)
    ensures
        s@ == "f32("@ + debug_text(d@) + ")"@,
{
    let mut s = string_of("f32(");
    d.write_debug(&mut s);
    s.append(")");
    s
}

/// Lowers a term into `ssa` and names the register holding its value.
pub fn emit_expr(ssa: &mut Ssa, expr: &Expr, symbols: &[String], access: Access) -> (r: Result<
    String,
    Error,
>)
    requires
        old(ssa)@.1 + expr_nodes(expr@) <= usize::MAX,
    ensures
        final(ssa)@.1 <= old(ssa)@.1 + expr_nodes(expr@),
        match (r, lower_expr(old(ssa)@, expr@, names_view(symbols@), access)) {
            (Ok(v), Ok((st, sv))) => final(ssa)@ == st && v@ == sv,
            (Err(e), Err(se)) => is_lower_error(e, se),
            _ => false,
        },
    decreases expr,
{
    match expr {
        Expr::Literal(d) => {
            let value = literal_text(d);
            Ok(ssa.bind(value.as_str()))
        },
        Expr::Variable(name) => match find_slot(symbols, name) {
            Some(slot) => {
                let value = access_code(access, slot);
                Ok(ssa.bind(value.as_str()))
            },
            None => Err(Error::UnknownVariable { name: name.clone() }),
        },
        Expr::Binary(op, lhs, rhs) => {
            let l = match emit_expr(ssa, lhs, symbols, access) {
                Ok(v) => v,
                Err(e) => return Err(e),
            };
            let r = match emit_expr(ssa, rhs, symbols, access) {
                Ok(v) => v,
                Err(e) => return Err(e),
            };
            let value = binary_text(*op, &l, &r);
            Ok(ssa.bind(value.as_str()))
        },
        Expr::Call(name, args) => {
            proof {
                lemma_exprs_view_index(args@);
            }
            if is_unary(name) && args.len() == 1 {
                proof {
                    assert(decreases_to!(*expr => *args));
                    assert(decreases_to!(*args => args@));
                    assert(decreases_to!(args@ => args@[0]));
                }
                let a = match emit_expr(ssa, &args[0], symbols, access) {
                    Ok(v) => v,
                    Err(e) => return Err(e),
                };
                let value = unary_text(name, &a);
                Ok(ssa.bind(value.as_str()))
            } else if (*name == string_of("min") || *name == string_of("max")) && args.len() == 2 {
                proof {
                    assert(decreases_to!(*expr => *args));
                    assert(decreases_to!(*args => args@));
                    assert(decreases_to!(args@ => args@[0]));
                    assert(decreases_to!(args@ => args@[1]));
                }
                let l = match emit_expr(ssa, &args[0], symbols, access) {
                    Ok(v) => v,
                    Err(e) => return Err(e),
                };
                let r = match emit_expr(ssa, &args[1], symbols, access) {
                    Ok(v) => v,
                    Err(e) => return Err(e),
                };
                let mut value = name.clone();
                value.append("(");
                value.append(l.as_str());
                value.append(", ");
                value.append(r.as_str());
                value.append(")");
                Ok(ssa.bind(value.as_str()))
            } else {
                Err(Error::UnknownFunction { name: name.clone(), arity: args.len() })
            }
        },
    }
}

proof fn lemma_exprs_view_index(es: Seq<Expr>)
    ensures
        exprs_view(es).len() == es.len(),
        forall|i: int| 0 <= i < es.len() ==> #[trigger] exprs_view(es)[i] == es[i]@,
    decreases es.len(),
{
    if es.len() > 0 {
        lemma_exprs_view_index(es.drop_last());
        let v = exprs_view(es);
        assert forall|i: int| 0 <= i < es.len() implies #[trigger] v[i] == es[i]@ by {
            if i < es.len() - 1 {
                assert(es.drop_last()[i] == es[i]);
            }
        }
    }
}

fn margin_text(op: ComparisonOp, l: &String, r: &String) -> (s: String)
    ensures
        s@ == margin_code(op, l@, r@),
{
    match op {
        ComparisonOp::Less | ComparisonOp::LessEqual => {
            let mut s = r.clone();
            s.append(" - ");
            s.append(l.as_str());
            s
        },
        ComparisonOp::Greater | ComparisonOp::GreaterEqual => {
            let mut s = l.clone();
            s.append(" - ");
            s.append(r.as_str());
            s
        },
        ComparisonOp::Equal => {
            let mut s = string_of("-abs(");
            s.append(l.as_str());
            s.append(" - ");
            s.append(r.as_str());
            s.append(")");
            s
        },
        ComparisonOp::NotEqual => {
            let mut s = string_of("abs(");
            s.append(l.as_str());
            s.append(" - ");
            s.append(r.as_str());
            s.append(")");
            s
        },
    }
}

fn operator_text(formula: &Formula) -> (s: String)
    ensures
        s@ == operator_name(formula@),
{
    match formula {
        Formula::Always(..) => string_of("always"),
        Formula::Eventually(..) => string_of("eventually"),
        Formula::Until(..) => string_of("until"),
        Formula::Since(..) => string_of("since"),
        Formula::Historically(..) => string_of("historically"),
        Formula::Once(..) => string_of("once"),
        Formula::Next(_) => string_of("next"),
        Formula::Probabilistic(..) => string_of("the probabilistic operator P"),
        _ => string_of("this operator"),
    }
}

fn pair_text(head: &str, l: &String, r: &String) -> (s: String)
    ensures
        s@ == head@ + l@ + ", "@ + r@ + ")"@,
{
    let mut s = string_of(head);
    s.append(l.as_str());
    s.append(", ");
    s.append(r.as_str());
    s.append(")");
    s
}

/// Lowers the boolean core of a formula into `ssa` and names the register
/// holding its robustness.
#[verifier::rlimit(50)]
#[verifier::spinoff_prover]
pub fn emit_formula(ssa: &mut Ssa, formula: &Formula, symbols: &[String], access: Access) -> (r:
    Result<String, Error>)
    requires
        old(ssa)@.1 + formula_nodes(formula@) <= usize::MAX,
    ensures
        final(ssa)@.1 <= old(ssa)@.1 + formula_nodes(formula@),
        match (r, lower_formula(old(ssa)@, formula@, names_view(symbols@), access)) {
            (Ok(v), Ok((st, sv))) => final(ssa)@ == st && v@ == sv,
            (Err(e), Err(se)) => is_lower_error(e, se),
            _ => false,
        },
    decreases formula,
{
    match formula {
        Formula::Predicate(p) => {
            let lhs = match emit_expr(ssa, &p.lhs, symbols, access) {
                Ok(v) => v,
                Err(e) => return Err(e),
            };
            let rhs = match emit_expr(ssa, &p.rhs, symbols, access) {
                Ok(v) => v,
                Err(e) => return Err(e),
            };
            let margin = margin_text(p.op, &lhs, &rhs);
            Ok(ssa.bind(margin.as_str()))
        },
        Formula::Not(f) => {
            let v = match emit_formula(ssa, f, symbols, access) {
                Ok(v) => v,
                Err(e) => return Err(e),
            };
            let mut value = string_of("-");
            value.append(v.as_str());
            Ok(ssa.bind(value.as_str()))
        },
        Formula::And(l, r) => {
            let lv = match emit_formula(ssa, l, symbols, access) {
                Ok(v) => v,
                Err(e) => return Err(e),
            };
            let rv = match emit_formula(ssa, r, symbols, access) {
                Ok(v) => v,
                Err(e) => return Err(e),
            };
            let value = pair_text("min(", &lv, &rv);
            Ok(ssa.bind(value.as_str()))
        },
        Formula::Or(l, r) => {
            let lv = match emit_formula(ssa, l, symbols, access) {
                Ok(v) => v,
                Err(e) => return Err(e),
            };
            let rv = match emit_formula(ssa, r, symbols, access) {
                Ok(v) => v,
                Err(e) => return Err(e),
            };
            let value = pair_text("max(", &lv, &rv);
            Ok(ssa.bind(value.as_str()))
        },
        Formula::Implies(l, r) => {
            let lv = match emit_formula(ssa, l, symbols, access) {
                Ok(v) => v,
                Err(e) => return Err(e),
            };
            let rv = match emit_formula(ssa, r, symbols, access) {
                Ok(v) => v,
                Err(e) => return Err(e),
            };
            let value = pair_text("max(-", &lv, &rv);
            Ok(ssa.bind(value.as_str()))
        },
        _ => {
            let mut message = string_of("the GPU path cannot evaluate `");
            message.append(operator_text(formula).as_str());
            message.append("` here; run this formula on the CPU monitor");
            Err(Error::Transpilation { message })
        },
    }
}

/// A lowered formula: the WGSL `evaluate_formula` and the state it reads.
pub struct TranspiledShader {
    /// How many values the packed state holds.
    pub state_size: usize,
    /// The WGSL source.
    pub evaluate_formula: String,
}

/// Lowers a formula without temporal operators to a WGSL
/// `evaluate_formula(state)` returning its robustness, resolving variables
/// against `symbols`, and has naga check the source. A variable absent from
/// `symbols` is [`Error::UnknownVariable`], an unknown function or arity
/// [`Error::UnknownFunction`], a temporal or probabilistic operator or a
/// source naga refuses [`Error::Transpilation`].
pub fn transpile_atemporal(formula: &Formula, symbols: &[String]) -> (r: Result<
    TranspiledShader,
    Error,
>)
    requires
        formula_nodes(formula@) <= usize::MAX,
    ensures
        match (r, atemporal_source(formula@, names_view(symbols@))) {
            (Ok(s), Ok(src)) => s.evaluate_formula@ == src && wgsl_refusal(src) is None
                && s.state_size == symbols@.len(),
            (Err(Error::Transpilation { message }), Ok(src)) => wgsl_refusal(src) == Some(message@),
            (Err(e), Err(se)) => is_lower_error(e, se),
            _ => false,
        },
{
    let mut ssa = Ssa::new();
    let result = match emit_formula(&mut ssa, formula, symbols, Access::State) {
        Ok(v) => v,
        Err(e) => return Err(e),
    };
    let size: usize = if symbols.len() < 1 {
        1
    } else {
        symbols.len()
    };
    let mut source = string_of("fn evaluate_formula(state: array<f32, ");
    push_nat(&mut source, size);
    source.append(">) -> f32 {\n");
    source.append(ssa.body.as_str());
    source.append("    return ");
    source.append(result.as_str());
    source.append(";\n}");
    match validate(source.as_str()) {
        Ok(()) => {},
        Err(e) => return Err(e),
    }
    Ok(TranspiledShader { state_size: symbols.len(), evaluate_formula: source })
}

} // verus!
