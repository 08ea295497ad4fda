//! The parts of the specification library that do not touch a file: the
//! plain sections of a template, how a library key is told from a file path,
//! and how a noise interaction is named.
use crate::error::Error;
use crate::stats::NoiseInteraction;
use crate::text::{chars_of, file_extension, path_extension, push_chars, string_of, to_lowercase, unicode_lowercase};
use vstd::prelude::*;
use vstd::string::*;

pub mod instantiate;
pub mod noise;

pub use instantiate::{SpecBuilder, VariantDef};

verus! {

/// What a specification captures and where it is sourced from.
#[derive(Debug, Clone)]
pub struct Metadata {
    /// A human-readable name.
    pub name: String,
    /// The application domain, such as `controls`.
    pub domain: String,
    /// A prose description of the requirement.
    pub description: Option<String>,
    /// Citations to the standards or papers the specification derives from.
    pub references: Option<Vec<String>>,
}

/// A signal the formula reads.
#[derive(Debug, Clone)]
pub struct VariableDef {
    /// The unit of the signal.
    pub unit: Option<String>,
    /// What the signal measures.
    pub description: Option<String>,
}

/// The formula templates.
#[derive(Debug, Clone)]
pub struct Formulas {
    /// The STL formula template.
    pub deterministic: String,
    /// The PrSTL formula template, if the specification defines one.
    pub probabilistic: Option<String>,
}

/// A recipe for fitting a noise model from calibration data.
#[derive(Debug, Clone)]
pub struct NoiseFitDef {
    /// The fitting algorithm, such as `fit_gaussian` or `fit_gmm`.
    pub algorithm: String,
    /// The mixture component count, for a Gaussian-mixture fit.
    pub k: Option<u32>,
    /// The maximum number of fitting iterations.
    pub max_iters: Option<u32>,
    /// `additive` or `multiplicative`.
    pub interaction: String,
}

/// Recommended rare-event splitting settings.
#[derive(Debug, Clone, Copy)]
pub struct AmsSettings {
    /// The particle population.
    pub num_particles: usize,
    /// The cap on simulation steps.
    pub max_steps: usize,
}

/// A variant's formula overrides.
#[derive(Debug, Clone)]
pub struct VariantFormulas {
    /// Replaces the base deterministic formula when present.
    pub deterministic: Option<String>,
    /// Replaces the base probabilistic formula when present.
    pub probabilistic: Option<String>,
}

/// An error of the specification library.
pub fn spec_error(message: String) -> (r: Error)
    ensures
        r matches Error::InvalidConfig { context, message: m } && context@ == "specification"@
            && m@ == message@,
{
    Error::InvalidConfig { context: string_of("specification"), message }
}

/// The message for an interaction that is neither additive nor multiplicative.
pub open spec fn unknown_interaction_message(lower: Seq<char>) -> Seq<char> {
    "unknown noise interaction '"@ + lower + "'; use 'additive' or 'multiplicative'"@
}

/// Reads `additive` or `multiplicative`, in any case.
pub fn parse_interaction(interaction: &str) -> (r: Result<NoiseInteraction, Error>)
    ensures
        ({
            let lower = unicode_lowercase(interaction@);
            if lower == "additive"@ {
                r == Ok::<NoiseInteraction, Error>(NoiseInteraction::Additive)
            } else if lower == "multiplicative"@ {
                r == Ok::<NoiseInteraction, Error>(NoiseInteraction::Multiplicative)
            } else {
                r matches Err(Error::InvalidConfig { context, message }) && context@
                    == "specification"@ && message@ == unknown_interaction_message(lower)
            }
        }),
{
    let lower = to_lowercase(interaction);
    let additive = string_of("additive");
    let multiplicative = string_of("multiplicative");
    if lower == additive {
        Ok(NoiseInteraction::Additive)
    } else if lower == multiplicative {
        Ok(NoiseInteraction::Multiplicative)
    } else {
        let mut message = string_of("unknown noise interaction '");
        message.append(lower.as_str());
        message.append("'; use 'additive' or 'multiplicative'");
        Err(spec_error(message))
    }
}

/// The index of the last `c` among the first `n` characters of `s`.
pub open spec fn last_index_of(s: Seq<char>, c: char, n: int) -> Option<int>
    decreases n,
{
    if n <= 0 {
        None
    } else if s[n - 1] == c {
        Some(n - 1)
    } else {
        last_index_of(s, c, n - 1)
    }
}

/// The text after the last `.`, or the whole name when it has none.
pub open spec fn after_last_dot(s: Seq<char>) -> Seq<char> {
    match last_index_of(s, '.', s.len() as int) {
        Some(i) => s.subrange(i + 1, s.len() as int),
        None => s,
    }
}

/// The text before the last `.`, or the whole key when it has none.
pub open spec fn before_last_dot(s: Seq<char>) -> Seq<char> {
    match last_index_of(s, '.', s.len() as int) {
        Some(i) => s.subrange(0, i),
        None => s,
    }
}

/// The position of the last `.` in `chars`, if any.
fn last_dot(chars: &Vec<char>) -> (r: Option<usize>)
    ensures
        match (r, last_index_of(chars@, '.', chars@.len() as int)) {
            (Some(i), Some(si)) => i == si && i < chars@.len(),
            (None, None) => true,
            _ => false,
        },
{
    let mut n = chars.len();
    while n > 0
        invariant
            n <= chars@.len(),
            last_index_of(chars@, '.', chars@.len() as int) == last_index_of(chars@, '.', n as int),
        decreases n,
    {
        if chars[n - 1] == '.' {
            return Some(n - 1);
        }
        n = n - 1;
    }
    None
}

/// The extension of a library key or file name: the text after the last `.`,
/// or the whole name when it has no `.`.
pub fn extension_of(name: &str) -> (r: String)
    ensures
        r@ == after_last_dot(name@),
{
    let chars = chars_of(name);
    let n = chars.len();
    let mut out = String::new();
    match last_dot(&chars) {
        Some(i) => push_chars(&mut out, &chars, i + 1, n),
        None => push_chars(&mut out, &chars, 0, chars.len()),
    }
    proof {
        assert(chars@.subrange(0, chars@.len() as int) =~= chars@);
        assert(out@ =~= after_last_dot(name@));
    }
    out
}

/// A library key without its extension: the text before the last `.`, or the
/// whole key when it has no `.`.
pub fn strip_extension(key: &str) -> (r: String)
    ensures
        r@ == before_last_dot(key@),
{
    let chars = chars_of(key);
    let mut out = String::new();
    match last_dot(&chars) {
        Some(i) => push_chars(&mut out, &chars, 0, i),
        None => push_chars(&mut out, &chars, 0, chars.len()),
    }
    proof {
        assert(chars@.subrange(0, chars@.len() as int) =~= chars@);
        assert(out@ =~= before_last_dot(key@));
    }
    out
}

/// Whether a file extension names a template format.
pub open spec fn template_extension(e: Seq<char>) -> bool {
    e == "toml"@ || e == "yaml"@ || e == "yml"@ || e == "json"@
}

/// Whether a specification name is a file path rather than a library key: it
/// starts with `./` or `/`, or its extension is a template format.
pub open spec fn names_a_file(name: Seq<char>) -> bool {
    ||| name.len() >= 2 && name[0] == '.' && name[1] == '/'
    ||| name.len() >= 1 && name[0] == '/'
    ||| path_extension(name) matches Some(e) && template_extension(e)
}

/// Whether a specification name is a file path rather than a library key.
pub fn is_filesystem_path(name: &str) -> (r: bool)
    ensures
        r == names_a_file(name@),
{
    let chars = chars_of(name);
    if chars.len() >= 2 && chars[0] == '.' && chars[1] == '/' {
        return true;
    }
    if chars.len() >= 1 && chars[0] == '/' {
        return true;
    }
    match file_extension(name) {
        Some(e) => {
            let toml = string_of("toml");
            let yaml = string_of("yaml");
            let yml = string_of("yml");
            let json = string_of("json");
            e == toml || e == yaml || e == yml || e == json
        },
        None => false,
    }
}

// ---------------------------------------------------------------------------
// Filling a formula template.

/// `s` with every occurrence of `pat` replaced by `with`, scanning from the
/// left and never overlapping, as `str::replace` does for a non-empty pattern.
pub open spec fn replaced(s: Seq<char>, pat: Seq<char>, with: Seq<char>) -> Seq<char>
    decreases s.len(),
{
    if pat.len() > 0 && s.len() >= pat.len() && s.subrange(0, pat.len() as int) == pat {
        with + replaced(s.subrange(pat.len() as int, s.len() as int), pat, with)
    } else if s.len() > 0 {
        seq![s[0]] + replaced(s.drop_first(), pat, with)
    } else {
        s
    }
}

/// The placeholder `{key}`.
pub open spec fn placeholder(key: Seq<char>) -> Seq<char> {
    seq!['{'] + key + seq!['}']
}

/// The template with the placeholders of the first `k` parameters filled in
/// order.
pub open spec fn filled(
    template: Seq<char>,
    params: Seq<(Seq<char>, Seq<char>)>,
    k: int,
) -> Seq<char>
    decreases k,
{
    if k <= 0 {
        template
    } else {
        replaced(filled(template, params, k - 1), placeholder(params[k - 1].0), params[k - 1].1)
    }
}

/// The first position from `j` on that holds `c`.
pub open spec fn index_from(s: Seq<char>, c: char, j: int) -> Option<int>
    decreases s.len() - j,
{
    if j < 0 || j >= s.len() {
        None
    } else if s[j] == c {
        Some(j)
    } else {
        index_from(s, c, j + 1)
    }
}

proof fn lemma_index_from(s: Seq<char>, c: char, j: int)
    ensures
        index_from(s, c, j) matches Some(i) ==> j <= i < s.len() && s[i] == c,
    decreases s.len() - j,
{
    if 0 <= j < s.len() && s[j] != c {
        lemma_index_from(s, c, j + 1);
    }
}

/// The message for a placeholder left unfilled.
pub open spec fn unresolved_message(name: Seq<char>, spec_name: Seq<char>) -> Seq<char> {
    "unresolved parameter '{"@ + name + "}' in the formula for '"@ + spec_name
        + "'; it appears in the formula but is not defined in [parameters]"@
}

/// The filled formula, or the message naming the first `{...}` left in it.
pub open spec fn interpolation(
    template: Seq<char>,
    params: Seq<(Seq<char>, Seq<char>)>,
    spec_name: Seq<char>,
) -> Result<Seq<char>, Seq<char>> {
    let f = filled(template, params, params.len() as int);
    match index_from(f, '{', 0) {
        Some(start) => match index_from(f, '}', start) {
            Some(end) => Err(unresolved_message(f.subrange(start + 1, end), spec_name)),
            None => Ok(f),
        },
        None => Ok(f),
    }
}

/// Whether `pat` occurs in `s` at position `i`.
fn occurs_at(s: &Vec<char>, i: usize, pat: &Vec<char>) -> (r: bool)
    requires
        i <= s@.len(),
    ensures
        r == (s@.len() - i >= pat@.len() && s@.subrange(i as int, i + pat@.len()) == pat@),
{
    let n = s.len();
    let m = pat.len();
    if n - i < m {
        return false;
    }
    let mut k: usize = 0;
    while k < m
        invariant
            k <= m,
            m == pat@.len(),
            n == s@.len(),
            i + m <= n,
            forall|j: int| 0 <= j < k ==> s@[i + j] == pat@[j],
        decreases m - k,
    {
        if s[i + k] != pat[k] {
            proof {
                assert(s@.subrange(i as int, i + m)[k as int] != pat@[k as int]);
            }
            return false;
        }
        k = k + 1;
    }
    proof {
        assert(s@.subrange(i as int, i + m) =~= pat@);
    }
    true
}

/// `s` with every occurrence of the non-empty `pat` replaced by `with`.
fn replace_all(s: &Vec<char>, pat: &Vec<char>, with: &Vec<char>) -> (r: Vec<char>)
    requires
        pat@.len() > 0,
    ensures
        r@ == replaced(s@, pat@, with@),
{
    let n = s.len();
    let m = pat.len();
    let mut out: Vec<char> = Vec::new();
    let mut i: usize = 0;
    assert(s@.subrange(0, n as int) =~= s@);
    while i < n
        invariant
            i <= n,
            n == s@.len(),
            m == pat@.len(),
            m > 0,
            replaced(s@, pat@, with@) == out@ + replaced(s@.subrange(i as int, n as int), pat@, with@),
        decreases n - i,
    {
        let ghost rest = s@.subrange(i as int, n as int);
        if occurs_at(s, i, pat) {
            let mut k: usize = 0;
            let ghost start = out@;
            while k < with.len()
                invariant
                    k <= with@.len(),
                    out@ == start + with@.subrange(0, k as int),
                decreases with@.len() - k,
            {
                out.push(with[k]);
                k = k + 1;
                proof {
                    assert(out@ =~= start + with@.subrange(0, k as int));
                }
            }
            proof {
                assert(rest.subrange(0, m as int) =~= s@.subrange(i as int, i + m));
                assert(rest.subrange(m as int, rest.len() as int) =~= s@.subrange(i + m, n as int));
                assert(with@.subrange(0, with@.len() as int) =~= with@);
                assert(out@ + replaced(s@.subrange(i + m, n as int), pat@, with@) =~= start + (with@
                    + replaced(s@.subrange(i + m, n as int), pat@, with@)));
            }
            i = i + m;
        } else {
            let ghost start = out@;
            out.push(s[i]);
            proof {
                assert(rest.subrange(0, m as int) =~= s@.subrange(i as int, i + m) || rest.len() < m);
                assert(rest.drop_first() =~= s@.subrange(i + 1, n as int));
                assert(out@ + replaced(s@.subrange(i + 1, n as int), pat@, with@) =~= start + (seq![
                    s@[i as int],
                ] + replaced(s@.subrange(i + 1, n as int), pat@, with@)));
            }
            i = i + 1;
        }
    }
    proof {
        assert(s@.subrange(n as int, n as int) =~= Seq::<char>::empty());
        assert(out@ + Seq::<char>::empty() =~= out@);
    }
    out
}

/// The first position from `from` on that holds `c`.
fn find_from(s: &Vec<char>, c: char, from: usize) -> (r: Option<usize>)
    ensures
        match (r, index_from(s@, c, from as int)) {
            (Some(i), Some(si)) => i == si && i < s@.len(),
            (None, None) => true,
            _ => false,
        },
{
    let mut i = from;
    while i < s.len()
        invariant
            from <= i,
            index_from(s@, c, from as int) == index_from(s@, c, i as int),
        decreases s@.len() - i,
    {
        if s[i] == c {
            return Some(i);
        }
        i = i + 1;
    }
    None
}

/// The texts of a list of parameter names and values.
pub open spec fn param_texts(params: Seq<(String, String)>) -> Seq<(Seq<char>, Seq<char>)> {
    params.map_values(|p: (String, String)| (p.0@, p.1@))
}

/// Fills a formula template: each `{name}` is replaced by its parameter's
/// text, parameter by parameter in order. A `{...}` left over in the result is
/// an [`Error::InvalidConfig`] of the specification naming it.
pub fn interpolate(template: &str, params: &Vec<(String, String)>, spec_name: &str) -> (r: Result<
    String,
    Error,
>)
    ensures
        match (r, interpolation(template@, param_texts(params@), spec_name@)) {
            (Ok(f), Ok(sf)) => f@ == sf,
            (Err(Error::InvalidConfig { context, message }), Err(m)) => context@
                == "specification"@ && message@ == m,
            _ => false,
        },
{
    let ghost ps = param_texts(params@);
    let mut formula = chars_of(template);
    let mut k: usize = 0;
    while k < params.len()
        invariant
            k <= params@.len(),
            ps == param_texts(params@),
            formula@ == filled(template@, ps, k as int),
        decreases params@.len() - k,
    {
        let mut pat: Vec<char> = Vec::new();
        pat.push('{');
        let key = chars_of(params[k].0.as_str());
        let mut j: usize = 0;
        while j < key.len()
            invariant
                j <= key@.len(),
                pat@ == seq!['{'] + key@.subrange(0, j as int),
            decreases key@.len() - j,
        {
            pat.push(key[j]);
            j = j + 1;
            proof {
                assert(pat@ =~= seq!['{'] + key@.subrange(0, j as int));
            }
        }
        pat.push('}');
        proof {
            assert(key@.subrange(0, key@.len() as int) =~= key@);
            assert(pat@ =~= placeholder(ps[k as int].0));
        }
        let with = chars_of(params[k].1.as_str());
        formula = replace_all(&formula, &pat, &with);
        k = k + 1;
    }
    match find_from(&formula, '{', 0) {
        Some(start) => match find_from(&formula, '}', start) {
            Some(end) => {
                proof {
                    lemma_index_from(formula@, '{', 0);
                    lemma_index_from(formula@, '}', start as int);
                }
                let mut message = string_of("unresolved parameter '{");
                push_chars(&mut message, &formula, start + 1, end);
                message.append("}' in the formula for '");
                message.append(spec_name);
                message.append("'; it appears in the formula but is not defined in [parameters]");
                return Err(spec_error(message));
            },
            None => {},
        },
        None => {},
    }
    let mut out = String::new();
    let n = formula.len();
    push_chars(&mut out, &formula, 0, n);
    proof {
        assert(formula@.subrange(0, n as int) =~= formula@);
    }
    Ok(out)
}

} // verus!
