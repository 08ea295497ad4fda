//! Which noise distribution a template's noise section names, and the errors
//! for a name or parameter it gets wrong. Building the distribution itself
//! reads binary64 parameters and happens outside this crate.
use crate::error::Error;
use crate::formula::analysis::{names_view, sorted_names, sorted_unique};
use crate::spec_builder::instantiate::{comma_joined, push_joined};
use crate::spec_builder::spec_error;
use crate::text::{ascii_lower, string_of, to_lowercase, unicode_lowercase};
use vstd::prelude::*;

verus! {

/// A noise distribution family a template can name.
#[derive(Debug, Clone, Copy, PartialEq, Eq, Structural)]
pub enum NoiseFamily {
    /// The Dirac family.
    Dirac,
    /// The Gaussian family.
    Gaussian,
    /// The Uniform family.
    Uniform,
    /// The LogNormal family.
    LogNormal,
    /// The Exponential family.
    Exponential,
    /// The Gamma family.
    Gamma,
    /// The Beta family.
    Beta,
    /// The Weibull family.
    Weibull,
    /// The Rayleigh family.
    Rayleigh,
    /// The Gumbel family.
    Gumbel,
    /// The Cauchy family.
    Cauchy,
    /// The StudentT family.
    StudentT,
    /// The TruncatedNormal family.
    TruncatedNormal,
    /// The Poisson family.
    Poisson,
    /// The Binomial family.
    Binomial,
}

/// The family a lowercased model name denotes, aliases included.
pub open spec fn noise_family_of(lower: Seq<char>) -> Option<NoiseFamily> {
    if lower == "dirac"@ {
        Some(NoiseFamily::Dirac)
    } else if lower == "gaussian"@ || lower == "normal"@ {
        Some(NoiseFamily::Gaussian)
    } else if lower == "uniform"@ {
        Some(NoiseFamily::Uniform)
    } else if lower == "lognormal"@ || lower == "log_normal"@ {
        Some(NoiseFamily::LogNormal)
    } else if lower == "exponential"@ {
        Some(NoiseFamily::Exponential)
    } else if lower == "gamma"@ {
        Some(NoiseFamily::Gamma)
    } else if lower == "beta"@ {
        Some(NoiseFamily::Beta)
    } else if lower == "weibull"@ {
        Some(NoiseFamily::Weibull)
    } else if lower == "rayleigh"@ {
        Some(NoiseFamily::Rayleigh)
    } else if lower == "gumbel"@ {
        Some(NoiseFamily::Gumbel)
    } else if lower == "cauchy"@ {
        Some(NoiseFamily::Cauchy)
    } else if lower == "studentt"@ || lower == "student_t"@ {
        Some(NoiseFamily::StudentT)
    } else if lower == "truncatednormal"@ || lower == "truncated_normal"@ {
        Some(NoiseFamily::TruncatedNormal)
    } else if lower == "poisson"@ {
        Some(NoiseFamily::Poisson)
    } else if lower == "binomial"@ {
        Some(NoiseFamily::Binomial)
    } else {
        None
    }
}

/// The family's name as the error messages write it.
pub open spec fn family_name(f: NoiseFamily) -> Seq<char> {
    match f {
        NoiseFamily::Dirac => "Dirac"@,
        NoiseFamily::Gaussian => "Gaussian"@,
        NoiseFamily::Uniform => "Uniform"@,
        NoiseFamily::LogNormal => "LogNormal"@,
        NoiseFamily::Exponential => "Exponential"@,
        NoiseFamily::Gamma => "Gamma"@,
        NoiseFamily::Beta => "Beta"@,
        NoiseFamily::Weibull => "Weibull"@,
        NoiseFamily::Rayleigh => "Rayleigh"@,
        NoiseFamily::Gumbel => "Gumbel"@,
        NoiseFamily::Cauchy => "Cauchy"@,
        NoiseFamily::StudentT => "StudentT"@,
        NoiseFamily::TruncatedNormal => "TruncatedNormal"@,
        NoiseFamily::Poisson => "Poisson"@,
        NoiseFamily::Binomial => "Binomial"@,
    }
}

/// The message for a model name that denotes no family.
pub open spec fn unknown_model_message(lower: Seq<char>) -> Seq<char> {
    "unknown noise model '"@ + lower + "'; supported: dirac, gaussian, uniform, lognormal, exponential, gamma, beta, weibull, rayleigh, gumbel, cauchy, studentt, truncatednormal, poisson, binomial. For bootstrap or mixture models, register them on a lifting registry directly"@
}

/// Reads a noise model's name, in any case: each family by its name or
/// alias (`normal`, `log_normal`, `student_t`, `truncated_normal`); any other
/// name is an [`Error::InvalidConfig`] listing the supported ones.
pub fn noise_family(model: &str) -> (r: Result<NoiseFamily, Error>)
    ensures
        match noise_family_of(unicode_lowercase(model@)) {
            Some(f) => r == Ok::<NoiseFamily, Error>(f),
            None => r matches Err(Error::InvalidConfig { context, message }) && context@
                == "specification"@ && message@ == unknown_model_message(
                unicode_lowercase(model@),
            ),
        },
{
    let lower = to_lowercase(model);
    if lower == string_of("dirac") {
        Ok(NoiseFamily::Dirac)
    } else if lower == string_of("gaussian") || lower == string_of("normal") {
        Ok(NoiseFamily::Gaussian)
    } else if lower == string_of("uniform") {
        Ok(NoiseFamily::Uniform)
    } else if lower == string_of("lognormal") || lower == string_of("log_normal") {
        Ok(NoiseFamily::LogNormal)
    } else if lower == string_of("exponential") {
        Ok(NoiseFamily::Exponential)
    } else if lower == string_of("gamma") {
        Ok(NoiseFamily::Gamma)
    } else if lower == string_of("beta") {
        Ok(NoiseFamily::Beta)
    } else if lower == string_of("weibull") {
        Ok(NoiseFamily::Weibull)
    } else if lower == string_of("rayleigh") {
        Ok(NoiseFamily::Rayleigh)
    } else if lower == string_of("gumbel") {
        Ok(NoiseFamily::Gumbel)
    } else if lower == string_of("cauchy") {
        Ok(NoiseFamily::Cauchy)
    } else if lower == string_of("studentt") || lower == string_of("student_t") {
        Ok(NoiseFamily::StudentT)
    } else if lower == string_of("truncatednormal") || lower == string_of("truncated_normal") {
        Ok(NoiseFamily::TruncatedNormal)
    } else if lower == string_of("poisson") {
        Ok(NoiseFamily::Poisson)
    } else if lower == string_of("binomial") {
        Ok(NoiseFamily::Binomial)
    } else {
        let mut message = string_of("unknown noise model '");
        message.append(lower.as_str());
        message.append("'; supported: dirac, gaussian, uniform, lognormal, exponential, gamma, beta, weibull, rayleigh, gumbel, cauchy, studentt, truncatednormal, poisson, binomial. For bootstrap or mixture models, register them on a lifting registry directly");
        Err(spec_error(message))
    }
}

impl NoiseFamily {
    /// The family's name as the error messages write it.
    pub fn name(&self) -> (r: &'static str)
        ensures
            r@ == family_name(*self),
    {
        match self {
            NoiseFamily::Dirac => "Dirac",
            NoiseFamily::Gaussian => "Gaussian",
            NoiseFamily::Uniform => "Uniform",
            NoiseFamily::LogNormal => "LogNormal",
            NoiseFamily::Exponential => "Exponential",
            NoiseFamily::Gamma => "Gamma",
            NoiseFamily::Beta => "Beta",
            NoiseFamily::Weibull => "Weibull",
            NoiseFamily::Rayleigh => "Rayleigh",
            NoiseFamily::Gumbel => "Gumbel",
            NoiseFamily::Cauchy => "Cauchy",
            NoiseFamily::StudentT => "StudentT",
            NoiseFamily::TruncatedNormal => "TruncatedNormal",
            NoiseFamily::Poisson => "Poisson",
            NoiseFamily::Binomial => "Binomial",
        }
    }
}

/// The message for a family missing a numeric parameter.
pub open spec fn missing_parameter_message(
    f: NoiseFamily,
    key: Seq<char>,
    given: Seq<Seq<char>>,
) -> Seq<char> {
    "noise model '"@ + family_name(f) + "' needs a numeric parameter '"@ + key + "'; given ["@
        + comma_joined(sorted_names(given)) + "]"@
}

/// The error for a `family` whose parameter `key` is absent or not a number,
/// naming the parameters that were given, sorted and each once.
pub fn missing_parameter(family: NoiseFamily, key: &str, given: &Vec<String>) -> (r: Error)
    ensures
        r matches Error::InvalidConfig { context, message } && context@ == "specification"@
            && message@ == missing_parameter_message(family, key@, names_view(given@)),
{
    let keys = sorted_unique(given);
    let mut message = string_of("noise model '");
    message.append(family.name());
    message.append("' needs a numeric parameter '");
    message.append(key);
    message.append("'; given [");
    push_joined(&mut message, &keys);
    message.append("]");
    spec_error(message)
}

/// The text with its ASCII capitals lowercased.
pub open spec fn lowered(s: Seq<char>) -> Seq<char> {
    s.map_values(|c: char| ascii_lower(c))
}

/// Law: each family is read back from its own name, written in lowercase;
/// so no two families share a name, and a name denotes the family it names.
pub proof fn lemma_family_reads_back(f: NoiseFamily)
    ensures
        noise_family_of(lowered(family_name(f))) == Some(f),
{
    reveal_strlit("beta");
    reveal_strlit("binomial");
    reveal_strlit("cauchy");
    reveal_strlit("dirac");
    reveal_strlit("exponential");
    reveal_strlit("gamma");
    reveal_strlit("gaussian");
    reveal_strlit("gumbel");
    reveal_strlit("log_normal");
    reveal_strlit("lognormal");
    reveal_strlit("normal");
    reveal_strlit("poisson");
    reveal_strlit("rayleigh");
    reveal_strlit("student_t");
    reveal_strlit("studentt");
    reveal_strlit("truncated_normal");
    reveal_strlit("truncatednormal");
    reveal_strlit("uniform");
    reveal_strlit("weibull");
    match f {
        NoiseFamily::Dirac => {
            reveal_strlit("Dirac");
            reveal_strlit("dirac");

            assert(lowered(family_name(f)) =~= "dirac"@);
        },
        NoiseFamily::Gaussian => {
            reveal_strlit("Gaussian");
            reveal_strlit("gaussian");
            assert("gaussian"@.len() != "dirac"@.len());
            assert(lowered(family_name(f)) =~= "gaussian"@);
        },
        NoiseFamily::Uniform => {
            reveal_strlit("Uniform");
            reveal_strlit("uniform");
            assert("uniform"@.len() != "dirac"@.len());
            assert("uniform"@.len() != "gaussian"@.len());
            assert("uniform"@.len() != "normal"@.len());
            assert(lowered(family_name(f)) =~= "uniform"@);
        },
        NoiseFamily::LogNormal => {
            reveal_strlit("LogNormal");
            reveal_strlit("lognormal");
            assert("lognormal"@.len() != "dirac"@.len());
            assert("lognormal"@.len() != "gaussian"@.len());
            assert("lognormal"@.len() != "normal"@.len());
            assert("lognormal"@.len() != "uniform"@.len());
            assert(lowered(family_name(f)) =~= "lognormal"@);
        },
        NoiseFamily::Exponential => {
            reveal_strlit("Exponential");
            reveal_strlit("exponential");
            assert("exponential"@.len() != "dirac"@.len());
            assert("exponential"@.len() != "gaussian"@.len());
            assert("exponential"@.len() != "normal"@.len());
            assert("exponential"@.len() != "uniform"@.len());
            assert("exponential"@.len() != "lognormal"@.len());
            assert("exponential"@.len() != "log_normal"@.len());
            assert(lowered(family_name(f)) =~= "exponential"@);
        },
        NoiseFamily::Gamma => {
            reveal_strlit("Gamma");
            reveal_strlit("gamma");
            assert("gamma"@[0] != "dirac"@[0]);
            assert("gamma"@.len() != "gaussian"@.len());
            assert("gamma"@.len() != "normal"@.len());
            assert("gamma"@.len() != "uniform"@.len());
            assert("gamma"@.len() != "lognormal"@.len());
            assert("gamma"@.len() != "log_normal"@.len());
            assert("gamma"@.len() != "exponential"@.len());
            assert(lowered(family_name(f)) =~= "gamma"@);
        },
        NoiseFamily::Beta => {
            reveal_strlit("Beta");
            reveal_strlit("beta");
            assert("beta"@.len() != "dirac"@.len());
            assert("beta"@.len() != "gaussian"@.len());
            assert("beta"@.len() != "normal"@.len());
            assert("beta"@.len() != "uniform"@.len());
            assert("beta"@.len() != "lognormal"@.len());
            assert("beta"@.len() != "log_normal"@.len());
            assert("beta"@.len() != "exponential"@.len());
            assert("beta"@.len() != "gamma"@.len());
            assert(lowered(family_name(f)) =~= "beta"@);
        },
        NoiseFamily::Weibull => {
            reveal_strlit("Weibull");
            reveal_strlit("weibull");
            assert("weibull"@.len() != "dirac"@.len());
            assert("weibull"@.len() != "gaussian"@.len());
            assert("weibull"@.len() != "normal"@.len());
            assert("weibull"@[0] != "uniform"@[0]);
            assert("weibull"@.len() != "lognormal"@.len());
            assert("weibull"@.len() != "log_normal"@.len());
            assert("weibull"@.len() != "exponential"@.len());
            assert("weibull"@.len() != "gamma"@.len());
            assert("weibull"@.len() != "beta"@.len());
            assert(lowered(family_name(f)) =~= "weibull"@);
        },
        NoiseFamily::Rayleigh => {
            reveal_strlit("Rayleigh");
            reveal_strlit("rayleigh");
            assert("rayleigh"@.len() != "dirac"@.len());
            assert("rayleigh"@[0] != "gaussian"@[0]);
            assert("rayleigh"@.len() != "normal"@.len());
            assert("rayleigh"@.len() != "uniform"@.len());
            assert("rayleigh"@.len() != "lognormal"@.len());
            assert("rayleigh"@.len() != "log_normal"@.len());
            assert("rayleigh"@.len() != "exponential"@.len());
            assert("rayleigh"@.len() != "gamma"@.len());
            assert("rayleigh"@.len() != "beta"@.len());
            assert("rayleigh"@.len() != "weibull"@.len());
            assert(lowered(family_name(f)) =~= "rayleigh"@);
        },
        NoiseFamily::Gumbel => {
            reveal_strlit("Gumbel");
            reveal_strlit("gumbel");
            assert("gumbel"@.len() != "dirac"@.len());
            assert("gumbel"@.len() != "gaussian"@.len());
            assert("gumbel"@[0] != "normal"@[0]);
            assert("gumbel"@.len() != "uniform"@.len());
            assert("gumbel"@.len() != "lognormal"@.len());
            assert("gumbel"@.len() != "log_normal"@.len());
            assert("gumbel"@.len() != "exponential"@.len());
            assert("gumbel"@.len() != "gamma"@.len());
            assert("gumbel"@.len() != "beta"@.len());
            assert("gumbel"@.len() != "weibull"@.len());
            assert("gumbel"@.len() != "rayleigh"@.len());
            assert(lowered(family_name(f)) =~= "gumbel"@);
        },
        NoiseFamily::Cauchy => {
            reveal_strlit("Cauchy");
            reveal_strlit("cauchy");
            assert("cauchy"@.len() != "dirac"@.len());
            assert("cauchy"@.len() != "gaussian"@.len());
            assert("cauchy"@[0] != "normal"@[0]);
            assert("cauchy"@.len() != "uniform"@.len());
            assert("cauchy"@.len() != "lognormal"@.len());
            assert("cauchy"@.len() != "log_normal"@.len());
            assert("cauchy"@.len() != "exponential"@.len());
            assert("cauchy"@.len() != "gamma"@.len());
            assert("cauchy"@.len() != "beta"@.len());
            assert("cauchy"@.len() != "weibull"@.len());
            assert("cauchy"@.len() != "rayleigh"@.len());
            assert("cauchy"@[0] != "gumbel"@[0]);
            assert(lowered(family_name(f)) =~= "cauchy"@);
        },
        NoiseFamily::StudentT => {
            reveal_strlit("StudentT");
            reveal_strlit("studentt");
            assert("studentt"@.len() != "dirac"@.len());
            assert("studentt"@[0] != "gaussian"@[0]);
            assert("studentt"@.len() != "normal"@.len());
            assert("studentt"@.len() != "uniform"@.len());
            assert("studentt"@.len() != "lognormal"@.len());
            assert("studentt"@.len() != "log_normal"@.len());
            assert("studentt"@.len() != "exponential"@.len());
            assert("studentt"@.len() != "gamma"@.len());
            assert("studentt"@.len() != "beta"@.len());
            assert("studentt"@.len() != "weibull"@.len());
            assert("studentt"@[0] != "rayleigh"@[0]);
            assert("studentt"@.len() != "gumbel"@.len());
            assert("studentt"@.len() != "cauchy"@.len());
            assert(lowered(family_name(f)) =~= "studentt"@);
        },
        NoiseFamily::TruncatedNormal => {
            reveal_strlit("TruncatedNormal");
            reveal_strlit("truncatednormal");
            assert("truncatednormal"@.len() != "dirac"@.len());
            assert("truncatednormal"@.len() != "gaussian"@.len());
            assert("truncatednormal"@.len() != "normal"@.len());
            assert("truncatednormal"@.len() != "uniform"@.len());
            assert("truncatednormal"@.len() != "lognormal"@.len());
            assert("truncatednormal"@.len() != "log_normal"@.len());
            assert("truncatednormal"@.len() != "exponential"@.len());
            assert("truncatednormal"@.len() != "gamma"@.len());
            assert("truncatednormal"@.len() != "beta"@.len());
            assert("truncatednormal"@.len() != "weibull"@.len());
            assert("truncatednormal"@.len() != "rayleigh"@.len());
            assert("truncatednormal"@.len() != "gumbel"@.len());
            assert("truncatednormal"@.len() != "cauchy"@.len());
            assert("truncatednormal"@.len() != "studentt"@.len());
            assert("truncatednormal"@.len() != "student_t"@.len());
            assert(lowered(family_name(f)) =~= "truncatednormal"@);
        },
        NoiseFamily::Poisson => {
            reveal_strlit("Poisson");
            reveal_strlit("poisson");
            assert("poisson"@.len() != "dirac"@.len());
            assert("poisson"@.len() != "gaussian"@.len());
            assert("poisson"@.len() != "normal"@.len());
            assert("poisson"@[0] != "uniform"@[0]);
            assert("poisson"@.len() != "lognormal"@.len());
            assert("poisson"@.len() != "log_normal"@.len());
            assert("poisson"@.len() != "exponential"@.len());
            assert("poisson"@.len() != "gamma"@.len());
            assert("poisson"@.len() != "beta"@.len());
            assert("poisson"@[0] != "weibull"@[0]);
            assert("poisson"@.len() != "rayleigh"@.len());
            assert("poisson"@.len() != "gumbel"@.len());
            assert("poisson"@.len() != "cauchy"@.len());
            assert("poisson"@.len() != "studentt"@.len());
            assert("poisson"@.len() != "student_t"@.len());
            assert("poisson"@.len() != "truncatednormal"@.len());
            assert("poisson"@.len() != "truncated_normal"@.len());
            assert(lowered(family_name(f)) =~= "poisson"@);
        },
        NoiseFamily::Binomial => {
            reveal_strlit("Binomial");
            reveal_strlit("binomial");
            assert("binomial"@.len() != "dirac"@.len());
            assert("binomial"@[0] != "gaussian"@[0]);
            assert("binomial"@.len() != "normal"@.len());
            assert("binomial"@.len() != "uniform"@.len());
            assert("binomial"@.len() != "lognormal"@.len());
            assert("binomial"@.len() != "log_normal"@.len());
            assert("binomial"@.len() != "exponential"@.len());
            assert("binomial"@.len() != "gamma"@.len());
            assert("binomial"@.len() != "beta"@.len());
            assert("binomial"@.len() != "weibull"@.len());
            assert("binomial"@[0] != "rayleigh"@[0]);
            assert("binomial"@.len() != "gumbel"@.len());
            assert("binomial"@.len() != "cauchy"@.len());
            assert("binomial"@[0] != "studentt"@[0]);
            assert("binomial"@.len() != "student_t"@.len());
            assert("binomial"@.len() != "truncatednormal"@.len());
            assert("binomial"@.len() != "truncated_normal"@.len());
            assert("binomial"@.len() != "poisson"@.len());
            assert(lowered(family_name(f)) =~= "binomial"@);
        },
    }
}

/// The text without its underscores.
pub open spec fn strip_underscores(s: Seq<char>) -> Seq<char>
    decreases s.len(),
{
    if s.len() == 0 {
        s
    } else if s.last() == '_' {
        strip_underscores(s.drop_last())
    } else {
        strip_underscores(s.drop_last()).push(s.last())
    }
}

/// A text without underscores is left as it is.
proof fn lemma_no_underscores_kept(s: Seq<char>)
    requires
        forall|i: int| 0 <= i < s.len() ==> s[i] != '_',
    ensures
        strip_underscores(s) == s,
    decreases s.len(),
{
    if s.len() > 0 {
        let d = s.drop_last();
        assert forall|i: int| 0 <= i < d.len() implies d[i] != '_' by {
            assert(d[i] == s[i]);
        }
        lemma_no_underscores_kept(d);
        assert(s.last() == s[s.len() - 1]);
        assert(d.push(s.last()) =~= s);
    }
}

proof fn lemma_spells_dirac()
    ensures
        strip_underscores("dirac"@) == lowered(family_name(NoiseFamily::Dirac)),
{
    reveal_strlit("Dirac");
    reveal_strlit("dirac");
    assert(lowered(family_name(NoiseFamily::Dirac)) =~= "dirac"@);
    lemma_no_underscores_kept("dirac"@);
}

proof fn lemma_spells_gaussian()
    ensures
        strip_underscores("gaussian"@) == lowered(family_name(NoiseFamily::Gaussian)),
{
    reveal_strlit("Gaussian");
    reveal_strlit("gaussian");
    assert(lowered(family_name(NoiseFamily::Gaussian)) =~= "gaussian"@);
    lemma_no_underscores_kept("gaussian"@);
}

proof fn lemma_spells_uniform()
    ensures
        strip_underscores("uniform"@) == lowered(family_name(NoiseFamily::Uniform)),
{
    reveal_strlit("Uniform");
    reveal_strlit("uniform");
    assert(lowered(family_name(NoiseFamily::Uniform)) =~= "uniform"@);
    lemma_no_underscores_kept("uniform"@);
}

proof fn lemma_spells_lognormal()
    ensures
        strip_underscores("lognormal"@) == lowered(family_name(NoiseFamily::LogNormal)),
        strip_underscores("log_normal"@) == lowered(family_name(NoiseFamily::LogNormal)),
{
    reveal_strlit("LogNormal");
    reveal_strlit("lognormal");
    assert(lowered(family_name(NoiseFamily::LogNormal)) =~= "lognormal"@);
    lemma_no_underscores_kept("lognormal"@);
    reveal_strlit("log_normal");
    reveal_with_fuel(strip_underscores, 11);
    assert(strip_underscores("log_normal"@) =~= "lognormal"@);
}

proof fn lemma_spells_exponential()
    ensures
        strip_underscores("exponential"@) == lowered(family_name(NoiseFamily::Exponential)),
{
    reveal_strlit("Exponential");
    reveal_strlit("exponential");
    assert(lowered(family_name(NoiseFamily::Exponential)) =~= "exponential"@);
    lemma_no_underscores_kept("exponential"@);
}

proof fn lemma_spells_gamma()
    ensures
        strip_underscores("gamma"@) == lowered(family_name(NoiseFamily::Gamma)),
{
    reveal_strlit("Gamma");
    reveal_strlit("gamma");
    assert(lowered(family_name(NoiseFamily::Gamma)) =~= "gamma"@);
    lemma_no_underscores_kept("gamma"@);
}

proof fn lemma_spells_beta()
    ensures
        strip_underscores("beta"@) == lowered(family_name(NoiseFamily::Beta)),
{
    reveal_strlit("Beta");
    reveal_strlit("beta");
    assert(lowered(family_name(NoiseFamily::Beta)) =~= "beta"@);
    lemma_no_underscores_kept("beta"@);
}

proof fn lemma_spells_weibull()
    ensures
        strip_underscores("weibull"@) == lowered(family_name(NoiseFamily::Weibull)),
{
    reveal_strlit("Weibull");
    reveal_strlit("weibull");
    assert(lowered(family_name(NoiseFamily::Weibull)) =~= "weibull"@);
    lemma_no_underscores_kept("weibull"@);
}

proof fn lemma_spells_rayleigh()
    ensures
        strip_underscores("rayleigh"@) == lowered(family_name(NoiseFamily::Rayleigh)),
{
    reveal_strlit("Rayleigh");
    reveal_strlit("rayleigh");
    assert(lowered(family_name(NoiseFamily::Rayleigh)) =~= "rayleigh"@);
    lemma_no_underscores_kept("rayleigh"@);
}

proof fn lemma_spells_gumbel()
    ensures
        strip_underscores("gumbel"@) == lowered(family_name(NoiseFamily::Gumbel)),
{
    reveal_strlit("Gumbel");
    reveal_strlit("gumbel");
    assert(lowered(family_name(NoiseFamily::Gumbel)) =~= "gumbel"@);
    lemma_no_underscores_kept("gumbel"@);
}

proof fn lemma_spells_cauchy()
    ensures
        strip_underscores("cauchy"@) == lowered(family_name(NoiseFamily::Cauchy)),
{
    reveal_strlit("Cauchy");
    reveal_strlit("cauchy");
    assert(lowered(family_name(NoiseFamily::Cauchy)) =~= "cauchy"@);
    lemma_no_underscores_kept("cauchy"@);
}

proof fn lemma_spells_studentt()
    ensures
        strip_underscores("studentt"@) == lowered(family_name(NoiseFamily::StudentT)),
        strip_underscores("student_t"@) == lowered(family_name(NoiseFamily::StudentT)),
{
    reveal_strlit("StudentT");
    reveal_strlit("studentt");
    assert(lowered(family_name(NoiseFamily::StudentT)) =~= "studentt"@);
    lemma_no_underscores_kept("studentt"@);
    reveal_strlit("student_t");
    reveal_with_fuel(strip_underscores, 10);
    assert(strip_underscores("student_t"@) =~= "studentt"@);
}

proof fn lemma_spells_truncatednormal()
    ensures
        strip_underscores("truncatednormal"@) == lowered(family_name(NoiseFamily::TruncatedNormal)),
        strip_underscores("truncated_normal"@) == lowered(family_name(NoiseFamily::TruncatedNormal)),
{
    reveal_strlit("TruncatedNormal");
    reveal_strlit("truncatednormal");
    assert(lowered(family_name(NoiseFamily::TruncatedNormal)) =~= "truncatednormal"@);
    lemma_no_underscores_kept("truncatednormal"@);
    reveal_strlit("truncated_normal");
    reveal_with_fuel(strip_underscores, 17);
    assert(strip_underscores("truncated_normal"@) =~= "truncatednormal"@);
}

proof fn lemma_spells_poisson()
    ensures
        strip_underscores("poisson"@) == lowered(family_name(NoiseFamily::Poisson)),
{
    reveal_strlit("Poisson");
    reveal_strlit("poisson");
    assert(lowered(family_name(NoiseFamily::Poisson)) =~= "poisson"@);
    lemma_no_underscores_kept("poisson"@);
}

proof fn lemma_spells_binomial()
    ensures
        strip_underscores("binomial"@) == lowered(family_name(NoiseFamily::Binomial)),
{
    reveal_strlit("Binomial");
    reveal_strlit("binomial");
    assert(lowered(family_name(NoiseFamily::Binomial)) =~= "binomial"@);
    lemma_no_underscores_kept("binomial"@);
}

/// Law: a name read as a family spells that family's name, in lowercase and
/// with any underscores between its words dropped; the one other name is
/// `normal`, for the Gaussian family.
pub proof fn lemma_name_spells_family(t: Seq<char>)
    ensures
        noise_family_of(t) matches Some(f) ==> strip_underscores(t) == lowered(family_name(f)) || (
        f == NoiseFamily::Gaussian && t == "normal"@),
{
    if let Some(f) = noise_family_of(t) {
        match f {
            NoiseFamily::Dirac => lemma_spells_dirac(),
            NoiseFamily::Gaussian => lemma_spells_gaussian(),
            NoiseFamily::Uniform => lemma_spells_uniform(),
            NoiseFamily::LogNormal => lemma_spells_lognormal(),
            NoiseFamily::Exponential => lemma_spells_exponential(),
            NoiseFamily::Gamma => lemma_spells_gamma(),
            NoiseFamily::Beta => lemma_spells_beta(),
            NoiseFamily::Weibull => lemma_spells_weibull(),
            NoiseFamily::Rayleigh => lemma_spells_rayleigh(),
            NoiseFamily::Gumbel => lemma_spells_gumbel(),
            NoiseFamily::Cauchy => lemma_spells_cauchy(),
            NoiseFamily::StudentT => lemma_spells_studentt(),
            NoiseFamily::TruncatedNormal => lemma_spells_truncatednormal(),
            NoiseFamily::Poisson => lemma_spells_poisson(),
            NoiseFamily::Binomial => lemma_spells_binomial(),
        }
    }
}

} // verus!
