//! Lowering a temporal formula to WGSL.
//!
//! `always` and `eventually` over `[a, b]` become windowed minimum and
//! maximum scans over the trace; each maximal subformula without temporal
//! operators becomes one node evaluated per index with the boolean lowering.
//! Other temporal operators are not on this path yet.
use crate::error::Error;
use crate::formula::analysis::{formula_has_temporal, names_view};
use crate::formula::ast::{Formula, Interval, SpecFormula, SpecInterval};
use crate::gpu::transpiler::{
    emit_formula, formula_nodes, is_lower_error, lower_formula, validate, wgsl_refusal, Access,
    LowerError, Ssa,
};
use crate::number::{debug_text, SpecDecimal};
use crate::text::{nat_text, push_nat, string_of};
use vstd::prelude::*;
use vstd::string::*;

verus! {

/// The longest trace the temporal path evaluates on the device.
pub const MAX_TEMPORAL_LEN: usize = 512;

/// The most `variables * trace_length` cells of thread-private trace storage
/// a formula may need.
pub const MAX_TEMPORAL_CELLS: usize = 8192;

/// The message for a trace too short for a temporal window.
pub open spec fn too_short_message(trace_len: nat) -> Seq<char> {
    "a temporal window needs at least two samples, got "@ + nat_text(trace_len)
}

/// The message for a trace longer than the device path takes.
pub open spec fn too_long_message(trace_len: nat) -> Seq<char> {
    "trace length "@ + nat_text(trace_len) + " exceeds the GPU temporal limit of 512; this runs on the CPU"@
}

/// The message for a trace whose storage would exceed the cell limit.
pub open spec fn too_many_cells_message(trace_len: nat, num_vars: nat) -> Seq<char> {
    "a "@ + nat_text(num_vars) + "-variable formula over "@ + nat_text(trace_len)
        + " samples exceeds the GPU temporal cell limit; this runs on the CPU"@
}

/// Why a trace of `trace_len` samples over `num_vars` variables cannot be
/// evaluated on the device, or `None` when it can.
pub open spec fn dims_refusal(trace_len: nat, num_vars: nat) -> Option<Seq<char>> {
    let vars = if num_vars < 1 {
        1
    } else {
        num_vars
    };
    if trace_len < 2 {
        Some(too_short_message(trace_len))
    } else if trace_len > MAX_TEMPORAL_LEN {
        Some(too_long_message(trace_len))
    } else if vars * trace_len > MAX_TEMPORAL_CELLS {
        Some(too_many_cells_message(trace_len, num_vars))
    } else {
        None
    }
}

/// Checks that a trace fits the device's temporal path: at least two samples,
/// at most [`MAX_TEMPORAL_LEN`], and at most [`MAX_TEMPORAL_CELLS`] cells of
/// `max(num_vars, 1) * trace_len`. A refusal is an [`Error::Transpilation`].
pub fn validate_dims(trace_len: usize, num_vars: usize) -> (r: Result<(), Error>)
    ensures
        match (r, dims_refusal(trace_len as nat, num_vars as nat)) {
            (Ok(()), None) => true,
            (Err(Error::Transpilation { message }), Some(m)) => message@ == m,
            _ => false,
        },
{
    if trace_len < 2 {
        let mut message = string_of("a temporal window needs at least two samples, got ");
        push_nat(&mut message, trace_len);
        return Err(Error::Transpilation { message });
    }
    if trace_len > MAX_TEMPORAL_LEN {
        let mut message = string_of("trace length ");
        push_nat(&mut message, trace_len);
        message.append(" exceeds the GPU temporal limit of 512; this runs on the CPU");
        return Err(Error::Transpilation { message });
    }
    let vars: usize = if num_vars < 1 {
        1
    } else {
        num_vars
    };
    proof {
        if vars <= MAX_TEMPORAL_CELLS {
            assert(vars * trace_len <= MAX_TEMPORAL_CELLS * MAX_TEMPORAL_LEN) by (nonlinear_arith)
                requires
                    vars <= MAX_TEMPORAL_CELLS,
                    trace_len <= MAX_TEMPORAL_LEN,
            ;
        }
    }
    if vars > MAX_TEMPORAL_CELLS || vars * trace_len > MAX_TEMPORAL_CELLS {
        proof {
            if vars > MAX_TEMPORAL_CELLS {
                assert(vars * trace_len > MAX_TEMPORAL_CELLS) by (nonlinear_arith)
                    requires
                        vars > MAX_TEMPORAL_CELLS,
                        trace_len >= 2,
                ;
            }
        }
        let mut message = string_of("a ");
        push_nat(&mut message, num_vars);
        message.append("-variable formula over ");
        push_nat(&mut message, trace_len);
        message.append(" samples exceeds the GPU temporal cell limit; this runs on the CPU");
        return Err(Error::Transpilation { message });
    }
    Ok(())
}

// ---------------------------------------------------------------------------
// The generated text.

pub open spec fn window_helper(k: nat, l: nat, lower: Seq<char>, seed: Seq<char>, membership: Seq<char>, reduce: Seq<char>) -> Seq<char> {
    "fn node_"@
        + nat_text(k)
        + "(times: ptr<function, array<f32, "@
        + nat_text(l)
        + ">>, child: ptr<function, array<f32, "@
        + nat_text(l)
        + ">>, out: ptr<function, array<f32, "@
        + nat_text(l)
        + ">>) {\n    for (var i = 0u; i < "@
        + nat_text(l)
        + "u; i = i + 1u) {\n        let lo = (*times)[i] + f32("@
        + lower
        + ");\n        var acc = bitcast<f32>("@
        + seed
        + ");\n        for (var j = 0u; j < "@
        + nat_text(l)
        + "u; j = j + 1u) {\n            let tj = (*times)[j];\n            if ("@
        + membership
        + ") { acc = "@
        + reduce
        + "(acc, (*child)[j]); }\n        }\n        (*out)[i] = acc;\n    }\n}\n\n"@
}

fn write_window_helper(out: &mut String, k: usize, l: usize, lower: &str, seed: &str, membership: &str, reduce: &str)
    ensures
        final(out)@ == old(out)@ + window_helper(k as nat, l as nat, lower@, seed@, membership@, reduce@),
{
    let ghost start = out@;
    out.append("fn node_");
    push_nat(out, k);
    out.append("(times: ptr<function, array<f32, ");
    push_nat(out, l);
    out.append(">>, child: ptr<function, array<f32, ");
    push_nat(out, l);
    out.append(">>, out: ptr<function, array<f32, ");
    push_nat(out, l);
    out.append(">>) {\n    for (var i = 0u; i < ");
    push_nat(out, l);
    out.append("u; i = i + 1u) {\n        let lo = (*times)[i] + f32(");
    out.append(lower);
    out.append(");\n        var acc = bitcast<f32>(");
    out.append(seed);
    out.append(");\n        for (var j = 0u; j < ");
    push_nat(out, l);
    out.append("u; j = j + 1u) {\n            let tj = (*times)[j];\n            if (");
    out.append(membership);
    out.append(") { acc = ");
    out.append(reduce);
    out.append("(acc, (*child)[j]); }\n        }\n        (*out)[i] = acc;\n    }\n}\n\n");
    assert(out@ =~= start + window_helper(k as nat, l as nat, lower@, seed@, membership@, reduce@));
}

pub open spec fn window_call(k: nat, l: nat, child: Seq<char>) -> Seq<char> {
    "    var n"@
        + nat_text(k)
        + ": array<f32, "@
        + nat_text(l)
        + ">;\n    node_"@
        + nat_text(k)
        + "(times, &"@
        + child
        + ", &n"@
        + nat_text(k)
        + ");\n"@
}

fn write_window_call(out: &mut String, k: usize, l: usize, child: &str)
    ensures
        final(out)@ == old(out)@ + window_call(k as nat, l as nat, child@),
{
    let ghost start = out@;
    out.append("    var n");
    push_nat(out, k);
    out.append(": array<f32, ");
    push_nat(out, l);
    out.append(">;\n    node_");
    push_nat(out, k);
    out.append("(times, &");
    out.append(child);
    out.append(", &n");
    push_nat(out, k);
    out.append(");\n");
    assert(out@ =~= start + window_call(k as nat, l as nat, child@));
}

pub open spec fn atemporal_helper(k: nat, l: nat, v: nat, body: Seq<char>, result: Seq<char>) -> Seq<char> {
    "fn node_"@
        + nat_text(k)
        + "(trace: ptr<function, array<array<f32, "@
        + nat_text(l)
        + ">, "@
        + nat_text(v)
        + ">>, out: ptr<function, array<f32, "@
        + nat_text(l)
        + ">>) {\n    for (var i = 0u; i < "@
        + nat_text(l)
        + "u; i = i + 1u) {\n"@
        + body
        + "        (*out)[i] = "@
        + result
        + ";\n    }\n}\n\n"@
}

fn write_atemporal_helper(out: &mut String, k: usize, l: usize, v: usize, body: &str, result: &str)
    ensures
        final(out)@ == old(out)@ + atemporal_helper(k as nat, l as nat, v as nat, body@, result@),
{
    let ghost start = out@;
    out.append("fn node_");
    push_nat(out, k);
    out.append("(trace: ptr<function, array<array<f32, ");
    push_nat(out, l);
    out.append(">, ");
    push_nat(out, v);
    out.append(">>, out: ptr<function, array<f32, ");
    push_nat(out, l);
    out.append(">>) {\n    for (var i = 0u; i < ");
    push_nat(out, l);
    out.append("u; i = i + 1u) {\n");
    out.append(body);
    out.append("        (*out)[i] = ");
    out.append(result);
    out.append(";\n    }\n}\n\n");
    assert(out@ =~= start + atemporal_helper(k as nat, l as nat, v as nat, body@, result@));
}

pub open spec fn atemporal_call(k: nat, l: nat) -> Seq<char> {
    "    var n"@
        + nat_text(k)
        + ": array<f32, "@
        + nat_text(l)
        + ">;\n    node_"@
        + nat_text(k)
        + "(trace, &n"@
        + nat_text(k)
        + ");\n"@
}

fn write_atemporal_call(out: &mut String, k: usize, l: usize)
    ensures
        final(out)@ == old(out)@ + atemporal_call(k as nat, l as nat),
{
    let ghost start = out@;
    out.append("    var n");
    push_nat(out, k);
    out.append(": array<f32, ");
    push_nat(out, l);
    out.append(">;\n    node_");
    push_nat(out, k);
    out.append("(trace, &n");
    push_nat(out, k);
    out.append(");\n");
    assert(out@ =~= start + atemporal_call(k as nat, l as nat));
}

pub open spec fn finish_text(l: nat, v: nat, calls: Seq<char>, root: Seq<char>) -> Seq<char> {
    "fn evaluate_temporal(trace: ptr<function, array<array<f32, "@
        + nat_text(l)
        + ">, "@
        + nat_text(v)
        + ">>, times: ptr<function, array<f32, "@
        + nat_text(l)
        + ">>) -> f32 {\n"@
        + calls
        + "    return "@
        + root
        + "[0];\n}"@
}

fn write_finish_text(out: &mut String, l: usize, v: usize, calls: &str, root: &str)
    ensures
        final(out)@ == old(out)@ + finish_text(l as nat, v as nat, calls@, root@),
{
    let ghost start = out@;
    out.append("fn evaluate_temporal(trace: ptr<function, array<array<f32, ");
    push_nat(out, l);
    out.append(">, ");
    push_nat(out, v);
    out.append(">>, times: ptr<function, array<f32, ");
    push_nat(out, l);
    out.append(">>) -> f32 {\n");
    out.append(calls);
    out.append("    return ");
    out.append(root);
    out.append("[0];\n}");
    assert(out@ =~= start + finish_text(l as nat, v as nat, calls@, root@));
}

/// The membership test of a window: `tj >= lo`, and `tj` at most the upper
/// bound past `t[i]` when there is one.
pub open spec fn membership_text(upper: Option<SpecDecimal>) -> Seq<char> {
    match upper {
        Some(b) => "tj >= lo"@ + " && tj <= (*times)[i] + f32("@ + debug_text(b) + ")"@,
        None => "tj >= lo"@,
    }
}

/// The name of node `k`'s output.
pub open spec fn node_name(k: nat) -> Seq<char> {
    "n"@ + nat_text(k)
}

/// The builder's state: the helper functions, the calls, and the next node.
pub type BuildState = (Seq<char>, Seq<char>, nat);

/// A windowed reduction of `child` added to the state.
pub open spec fn add_window(
    st: BuildState,
    l: nat,
    i: SpecInterval,
    child: Seq<char>,
    reduce: Seq<char>,
    seed: Seq<char>,
) -> (BuildState, Seq<char>) {
    (
        (
            st.0 + window_helper(st.2, l, debug_text(i.lower), seed, membership_text(i.upper), reduce),
            st.1 + window_call(st.2, l, child),
            st.2 + 1,
        ),
        node_name(st.2),
    )
}

/// The message for a temporal operator this path does not lower.
pub open spec fn not_on_path_message() -> Seq<char> {
    "this temporal operator is not yet on the GPU temporal path"@
}

/// Lowers a temporal formula over a trace of `l` samples and `v` variable
/// slots.
pub open spec fn lower_temporal(
    st: BuildState,
    f: SpecFormula,
    symbols: Seq<Seq<char>>,
    l: nat,
    v: nat,
) -> Result<(BuildState, Seq<char>), LowerError>
    decreases f,
{
    match f {
        SpecFormula::Always(i, g) => match lower_temporal(st, *g, symbols, l, v) {
            Err(err) => Err(err),
            Ok((st1, child)) => Ok(add_window(st1, l, i, child, "min"@, "0x7f800000u"@)),
        },
        SpecFormula::Eventually(i, g) => match lower_temporal(st, *g, symbols, l, v) {
            Err(err) => Err(err),
            Ok((st1, child)) => Ok(add_window(st1, l, i, child, "max"@, "0xff800000u"@)),
        },
        _ => if !formula_has_temporal(f) {
            match lower_formula((Seq::empty(), 0), f, symbols, Access::Trace) {
                Err(err) => Err(err),
                Ok((ss, result)) => Ok(
                    (
                        (
                            st.0 + atemporal_helper(st.2, l, v, ss.0, result),
                            st.1 + atemporal_call(st.2, l),
                            st.2 + 1,
                        ),
                        node_name(st.2),
                    ),
                ),
            }
        } else {
            Err(LowerError::Transpilation(not_on_path_message()))
        },
    }
}

/// How many nodes a temporal formula needs at most.
pub open spec fn temporal_nodes(f: SpecFormula) -> nat
    decreases f,
{
    match f {
        SpecFormula::Always(_, g) | SpecFormula::Eventually(_, g) => 1 + temporal_nodes(*g),
        _ => 1,
    }
}

/// Whether every part lowered per index computes few enough values to count.
pub open spec fn parts_fit(f: SpecFormula) -> bool
    decreases f,
{
    match f {
        SpecFormula::Always(_, g) | SpecFormula::Eventually(_, g) => parts_fit(*g),
        _ => formula_nodes(f) <= usize::MAX,
    }
}

/// The variable slots a trace over `symbols` has: at least one.
pub open spec fn slot_count(symbols: Seq<Seq<char>>) -> nat {
    if symbols.len() < 1 {
        1
    } else {
        symbols.len()
    }
}

/// The WGSL of `evaluate_temporal` for a formula, or why it does not lower.
pub open spec fn temporal_source(f: SpecFormula, symbols: Seq<Seq<char>>, l: nat) -> Result<
    Seq<char>,
    LowerError,
> {
    let v = slot_count(symbols);
    match lower_temporal((Seq::empty(), Seq::empty(), 0), f, symbols, l, v) {
        Err(err) => Err(err),
        Ok((st, root)) => Ok(st.0 + finish_text(l, v, st.1, root)),
    }
}

/// Builds the helper functions and calls of `evaluate_temporal`.
pub struct Builder<'a> {
    symbols: &'a [String],
    trace_len: usize,
    num_vars: usize,
    helpers: String,
    calls: String,
    next: usize,
}

impl<'a> Builder<'a> {
    /// The state built so far.
    pub closed spec fn state(&self) -> BuildState {
        (self.helpers@, self.calls@, self.next as nat)
    }

    /// The symbols, trace length and slot count the builder lowers against.
    pub closed spec fn shape(&self) -> (Seq<Seq<char>>, nat, nat) {
        (names_view(self.symbols@), self.trace_len as nat, self.num_vars as nat)
    }

    /// A builder with nothing emitted yet.
    pub fn new(symbols: &'a [String], trace_len: usize) -> (r: Builder<'a>)
        ensures
            r.state() == (Seq::<char>::empty(), Seq::<char>::empty(), 0nat),
            r.shape() == (names_view(symbols@), trace_len as nat, slot_count(names_view(symbols@))),
    {
        let num_vars: usize = if symbols.len() < 1 {
            1
        } else {
            symbols.len()
        };
        Builder {
            symbols,
            trace_len,
            num_vars,
            helpers: String::new(),
            calls: String::new(),
            next: 0,
        }
    }

    /// Lowers `formula` and names the node holding its robustness signal.
    pub fn emit(&mut self, formula: &Formula) -> (r: Result<String, Error>)
        requires
            old(self).state().2 + temporal_nodes(formula@) <= usize::MAX,
            parts_fit(formula@),
        ensures
            final(self).shape() == old(self).shape(),
            final(self).state().2 <= old(self).state().2 + temporal_nodes(formula@),
            match (
                r,
                lower_temporal(
                    old(self).state(),
                    formula@,
                    old(self).shape().0,
                    old(self).shape().1,
                    old(self).shape().2,
                ),
            ) {
                (Ok(v), Ok((st, sv))) => final(self).state() == st && v@ == sv,
                (Err(e), Err(se)) => is_lower_error(e, se),
                _ => false,
            },
        decreases formula,
    {
        match formula {
            Formula::Always(interval, inner) => {
                let child = match self.emit(inner) {
                    Ok(c) => c,
                    Err(e) => return Err(e),
                };
                Ok(self.emit_forward_window(interval, child.as_str(), "min", "0x7f800000u"))
            },
            Formula::Eventually(interval, inner) => {
                let child = match self.emit(inner) {
                    Ok(c) => c,
                    Err(e) => return Err(e),
                };
                Ok(self.emit_forward_window(interval, child.as_str(), "max", "0xff800000u"))
            },
            _ => {
                if !formula.has_temporal() {
                    self.emit_atemporal(formula)
                } else {
                    Err(
                        Error::Transpilation {
                            message: string_of(
                                "this temporal operator is not yet on the GPU temporal path",
                            ),
                        },
                    )
                }
            },
        }
    }

    /// Emits a forward windowed reduction (`always` or `eventually`): for each
    /// index `i`, `reduce` of the child over the `j` with
    /// `t[i] + a <= t[j] <= t[i] + b`, starting from the f32 bits `seed`
    /// (`+inf` for a minimum, `-inf` for a maximum).
    fn emit_forward_window(
        &mut self,
        interval: &Interval,
        child: &str,
        reduce: &str,
        seed_bits: &str,
    ) -> (r: String)
        requires
            old(self).state().2 < usize::MAX,
        ensures
            final(self).shape() == old(self).shape(),
            (final(self).state(), r@) == add_window(
                old(self).state(),
                old(self).shape().1,
                interval@,
                child@,
                reduce@,
                seed_bits@,
            ),
    {
        let k = self.next;
        self.next = self.next + 1;
        let l = self.trace_len;
        let mut membership = string_of("tj >= lo");
        match interval.upper() {
            Some(b) => {
                membership.append(" && tj <= (*times)[i] + f32(");
                b.write_debug(&mut membership);
                membership.append(")");
            },
            None => {},
        }
        let mut lower = String::new();
        interval.lower().write_debug(&mut lower);
        write_window_helper(
            &mut self.helpers,
            k,
            l,
            lower.as_str(),
            seed_bits,
            membership.as_str(),
            reduce,
        );
        write_window_call(&mut self.calls, k, l, child);
        let mut name = string_of("n");
        push_nat(&mut name, k);
        proof {
            assert(membership@ =~= membership_text(interval@.upper));
        }
        name
    }

    /// Emits one node for a boolean combination of predicates.
    fn emit_atemporal(&mut self, formula: &Formula) -> (r: Result<String, Error>)
        requires
            old(self).state().2 < usize::MAX,
            formula_nodes(formula@) <= usize::MAX,
            !(formula@ is Always),
            !(formula@ is Eventually),
            !formula_has_temporal(formula@),
        ensures
            final(self).shape() == old(self).shape(),
            final(self).state().2 == old(self).state().2 + 1,
            match (
                r,
                lower_temporal(
                    old(self).state(),
                    formula@,
                    old(self).shape().0,
                    old(self).shape().1,
                    old(self).shape().2,
                ),
            ) {
                (Ok(v), Ok((st, sv))) => final(self).state() == st && v@ == sv,
                (Err(e), Err(se)) => is_lower_error(e, se),
                _ => false,
            },
    {
        let k = self.next;
        self.next = self.next + 1;
        let l = self.trace_len;
        let v = self.num_vars;
        let mut ssa = Ssa::new();
        let result = match emit_formula(&mut ssa, formula, self.symbols, Access::Trace) {
            Ok(r) => r,
            Err(e) => return Err(e),
        };
        write_atemporal_helper(&mut self.helpers, k, l, v, ssa.lines().as_str(), result.as_str());
        write_atemporal_call(&mut self.calls, k, l);
        let mut name = string_of("n");
        push_nat(&mut name, k);
        Ok(name)
    }

    /// Assembles the full `evaluate_temporal` function returning `root[0]`.
    pub fn finish(self, root: &str) -> (r: String)
        ensures
            r@ == self.state().0 + finish_text(self.shape().1, self.shape().2, self.state().1, root@),
    {
        let l = self.trace_len;
        let v = self.num_vars;
        let mut source = self.helpers;
        write_finish_text(&mut source, l, v, self.calls.as_str(), root);
        source
    }
}

/// A lowered temporal formula: the WGSL `evaluate_temporal` and its shape.
pub struct TemporalShader {
    /// How many variables the trace holds.
    pub state_size: usize,
    /// How many samples the trace holds.
    pub trace_len: usize,
    /// The WGSL source.
    pub evaluate_temporal: String,
}

/// Lowers a temporal formula over a trace of `trace_len` samples to a WGSL
/// `evaluate_temporal(trace, times)` returning the robustness at the first
/// sample, and has naga check the source. A trace outside the device limits,
/// an operator not on this path, or a source naga refuses is an
/// [`Error::Transpilation`]; a variable or function the lowering does not
/// know is the error the boolean lowering gives.
pub fn transpile_temporal(formula: &Formula, symbols: &[String], trace_len: usize) -> (r: Result<
    TemporalShader,
    Error,
>)
    requires
        temporal_nodes(formula@) <= usize::MAX,
        parts_fit(formula@),
    ensures
        match dims_refusal(trace_len as nat, symbols@.len() as nat) {
            Some(m) => r matches Err(Error::Transpilation { message }) && message@ == m,
            None => match (r, temporal_source(formula@, names_view(symbols@), trace_len as nat)) {
                (Ok(s), Ok(src)) => s.evaluate_temporal@ == src && wgsl_refusal(src) is None
                    && s.state_size == symbols@.len() && s.trace_len == trace_len,
                (Err(Error::Transpilation { message }), Ok(src)) => wgsl_refusal(src) == Some(
                    message@,
                ),
                (Err(e), Err(se)) => is_lower_error(e, se),
                _ => false,
            },
        },
{
    match validate_dims(trace_len, symbols.len()) {
        Ok(()) => {},
        Err(e) => return Err(e),
    }
    let mut builder = Builder::new(symbols, trace_len);
    let root = match builder.emit(formula) {
        Ok(r) => r,
        Err(e) => return Err(e),
    };
    let source = builder.finish(root.as_str());
    match validate(source.as_str()) {
        Ok(()) => {},
        Err(e) => return Err(e),
    }
    Ok(TemporalShader { state_size: symbols.len(), trace_len, evaluate_temporal: source })
}

} // verus!
