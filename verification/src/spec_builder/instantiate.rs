//! Instantiating a template: choosing a variant, overriding parameters, and
//! filling the chosen formula. Parameter values arrive already written as
//! formula text.
use crate::error::Error;
use crate::formula::analysis::{compare_text, names_view, sorted_names, sorted_unique};
use crate::spec_builder::{
    interpolate, interpolation, param_texts, spec_error, Formulas, Metadata, VariantFormulas,
};
use crate::text::string_of;
use vstd::prelude::*;

verus! {

/// A named variant that overrides parts of the base template; its parameter
/// defaults are already written as formula text.
#[derive(Debug, Clone)]
pub struct VariantDef {
    /// What the variant changes.
    pub description: Option<String>,
    /// Formula overrides, applied per direction.
    pub formulas: Option<VariantFormulas>,
    /// Parameter-default overrides, by name.
    pub parameters: Option<Vec<(String, String)>>,
}

/// The reading of a [`VariantDef`]: the formulas it replaces and the
/// parameter defaults it sets.
pub struct SpecVariant {
    pub description: Option<Seq<char>>,
    pub deterministic: Option<Seq<char>>,
    pub probabilistic: Option<Seq<char>>,
    pub parameters: Seq<(Seq<char>, Seq<char>)>,
}

/// The text of an optional string.
pub open spec fn opt_text(o: Option<String>) -> Option<Seq<char>> {
    match o {
        Some(s) => Some(s@),
        None => None,
    }
}

impl View for VariantDef {
    type V = SpecVariant;

    open spec fn view(&self) -> SpecVariant {
        SpecVariant {
            description: opt_text(self.description),
            deterministic: match self.formulas {
                Some(f) => opt_text(f.deterministic),
                None => None,
            },
            probabilistic: match self.formulas {
                Some(f) => opt_text(f.probabilistic),
                None => None,
            },
            parameters: match self.parameters {
                Some(p) => param_texts(p@),
                None => Seq::empty(),
            },
        }
    }
}

/// The reading of a [`SpecBuilder`].
pub struct SpecInstance {
    /// The template's name.
    pub name: Seq<char>,
    /// The template's application domain.
    pub domain: Seq<char>,
    /// The template's prose description, if any.
    pub description: Option<Seq<char>>,
    /// The template's citations, if any.
    pub references: Option<Seq<Seq<char>>>,
    /// The base deterministic formula.
    pub deterministic: Seq<char>,
    /// The base probabilistic formula, if any.
    pub probabilistic: Option<Seq<char>>,
    /// The declared parameters with their default texts.
    pub parameters: Seq<(Seq<char>, Seq<char>)>,
    /// The named variants, if the template defines any.
    pub variants: Option<Seq<(Seq<char>, SpecVariant)>>,
    /// The chosen variant's name.
    pub active: Option<Seq<char>>,
    /// The parameter values set on the builder.
    pub overrides: Seq<(Seq<char>, Seq<char>)>,
}

/// The texts of an optional list of strings.
pub open spec fn opt_texts(o: Option<Vec<String>>) -> Option<Seq<Seq<char>>> {
    match o {
        Some(v) => Some(names_view(v@)),
        None => None,
    }
}

/// The names of a list of named entries.
pub open spec fn entry_names<V>(entries: Seq<(Seq<char>, V)>) -> Seq<Seq<char>> {
    entries.map_values(|p: (Seq<char>, V)| p.0)
}

/// The readings of a list of named variants.
pub open spec fn variants_view(vs: Seq<(String, VariantDef)>) -> Seq<(Seq<char>, SpecVariant)> {
    vs.map_values(|p: (String, VariantDef)| (p.0@, p.1@))
}

/// The position of the first name equal to `key`.
pub open spec fn name_index(names: Seq<Seq<char>>, key: Seq<char>) -> Option<int>
    decreases names.len(),
{
    if names.len() == 0 {
        None
    } else {
        match name_index(names.drop_last(), key) {
            Some(i) => Some(i),
            None => if names.last() == key {
                Some(names.len() - 1)
            } else {
                None
            },
        }
    }
}

/// `entries` with `key` holding `value`: the first entry of that name is
/// updated in place, or one is added at the end.
pub open spec fn with_entry(
    entries: Seq<(Seq<char>, Seq<char>)>,
    key: Seq<char>,
    value: Seq<char>,
) -> Seq<(Seq<char>, Seq<char>)> {
    match name_index(entry_names(entries), key) {
        Some(i) => entries.update(i, (key, value)),
        None => entries.push((key, value)),
    }
}

/// `base` with each entry of `over` set on it, in order.
pub open spec fn overlaid(
    base: Seq<(Seq<char>, Seq<char>)>,
    over: Seq<(Seq<char>, Seq<char>)>,
) -> Seq<(Seq<char>, Seq<char>)>
    decreases over.len(),
{
    if over.len() == 0 {
        base
    } else {
        with_entry(overlaid(base, over.drop_last()), over.last().0, over.last().1)
    }
}

/// The chosen variant, if one is chosen and defined.
pub open spec fn active_variant(b: SpecInstance) -> Option<SpecVariant> {
    match (b.active, b.variants) {
        (Some(n), Some(vs)) => match name_index(entry_names(vs), n) {
            Some(i) => Some(vs[i].1),
            None => None,
        },
        _ => None,
    }
}

/// The parameter values in force: the defaults, then the chosen variant's
/// defaults, then the values set on the builder.
pub open spec fn resolved_parameters(b: SpecInstance) -> Seq<(Seq<char>, Seq<char>)> {
    let defaults = match active_variant(b) {
        Some(v) => overlaid(b.parameters, v.parameters),
        None => b.parameters,
    };
    overlaid(defaults, b.overrides)
}

/// The message for a template without a probabilistic formula.
pub open spec fn no_probabilistic_message(name: Seq<char>) -> Seq<char> {
    "'"@ + name + "' does not define a probabilistic formula"@
}

/// The filled deterministic (`deterministic`) or probabilistic formula, or the
/// message of the error: a variant's formula replaces the base one.
pub open spec fn resolved_formula(b: SpecInstance, deterministic: bool) -> Result<
    Seq<char>,
    Seq<char>,
> {
    let chosen = match active_variant(b) {
        Some(v) => if deterministic {
            v.deterministic
        } else {
            v.probabilistic
        },
        None => None,
    };
    match chosen {
        Some(t) => interpolation(t, resolved_parameters(b), b.name),
        None => if deterministic {
            interpolation(b.deterministic, resolved_parameters(b), b.name)
        } else {
            match b.probabilistic {
                Some(t) => interpolation(t, resolved_parameters(b), b.name),
                None => Err(no_probabilistic_message(b.name)),
            }
        },
    }
}

/// The names joined with `", "`.
pub open spec fn comma_joined(names: Seq<Seq<char>>) -> Seq<char>
    decreases names.len(),
{
    if names.len() == 0 {
        Seq::empty()
    } else if names.len() == 1 {
        names[0]
    } else {
        comma_joined(names.drop_last()) + ", "@ + names.last()
    }
}

/// The message for a variant the template does not define.
pub open spec fn missing_variant_message(
    variant: Seq<char>,
    name: Seq<char>,
    available: Seq<Seq<char>>,
) -> Seq<char> {
    "variant '"@ + variant + "' not found in '"@ + name + "'; available: ["@ + comma_joined(
        available,
    ) + "]"@
}

/// The message for a template without variants.
pub open spec fn no_variants_message(name: Seq<char>) -> Seq<char> {
    "'"@ + name + "' defines no variants"@
}

/// The message for a parameter the template does not declare.
pub open spec fn unknown_parameter_message(
    param: Seq<char>,
    name: Seq<char>,
    available: Seq<Seq<char>>,
) -> Seq<char> {
    "parameter '"@ + param + "' is not defined in '"@ + name + "'; available: ["@ + comma_joined(
        available,
    ) + "]"@
}

/// Each parameter is set on the builder at most once.
pub open spec fn overrides_distinct(b: SpecInstance) -> bool {
    entry_names(b.overrides).no_duplicates()
}

/// Where [`name_index`] stops: at the first match, or nowhere.
pub proof fn lemma_name_index(names: Seq<Seq<char>>, key: Seq<char>)
    ensures
        match name_index(names, key) {
            Some(i) => 0 <= i < names.len() && names[i] == key && forall|j: int|
                0 <= j < i ==> names[j] != key,
            None => forall|j: int| 0 <= j < names.len() ==> names[j] != key,
        },
    decreases names.len(),
{
    if names.len() > 0 {
        lemma_name_index(names.drop_last(), key);
        match name_index(names.drop_last(), key) {
            Some(i) => {
                assert forall|j: int| 0 <= j < i implies names[j] != key by {
                    assert(names[j] == names.drop_last()[j]);
                }
            },
            None => {
                assert forall|j: int| 0 <= j < names.len() - 1 implies names[j] != key by {
                    assert(names[j] == names.drop_last()[j]);
                }
            },
        }
    }
}

/// Setting `key` leaves `key` found, holding `value`, and keeps the names
/// distinct when they were.
proof fn lemma_with_entry_sets(
    entries: Seq<(Seq<char>, Seq<char>)>,
    key: Seq<char>,
    value: Seq<char>,
)
    ensures
        ({
            let r = with_entry(entries, key, value);
            &&& name_index(entry_names(r), key) matches Some(i) && r[i] == (key, value)
            &&& entry_names(entries).no_duplicates() ==> entry_names(r).no_duplicates()
        }),
{
    let names = entry_names(entries);
    lemma_name_index(names, key);
    match name_index(names, key) {
        Some(i) => {
            let r = entries.update(i, (key, value));
            assert(entry_names(r) =~= names);
        },
        None => {
            let r = entries.push((key, value));
            assert(entry_names(r) =~= names.push(key));
            assert(entry_names(r).drop_last() =~= names);
        },
    }
}

/// Setting another name leaves where `key` is found, and what it holds.
proof fn lemma_with_entry_keeps(
    entries: Seq<(Seq<char>, Seq<char>)>,
    other: Seq<char>,
    value: Seq<char>,
    key: Seq<char>,
)
    requires
        other != key,
        name_index(entry_names(entries), key) is Some,
    ensures
        ({
            let r = with_entry(entries, other, value);
            let i = name_index(entry_names(entries), key)->0;
            name_index(entry_names(r), key) == Some(i) && r[i] == entries[i]
        }),
{
    let names = entry_names(entries);
    lemma_name_index(names, key);
    lemma_name_index(names, other);
    match name_index(names, other) {
        Some(k) => {
            let r = entries.update(k, (other, value));
            assert(entry_names(r) =~= names);
        },
        None => {
            let r = entries.push((other, value));
            assert(entry_names(r).drop_last() =~= names);
        },
    }
}

/// Over distinct names, the value an entry of `over` sets is the one in force.
proof fn lemma_overlaid_holds(
    base: Seq<(Seq<char>, Seq<char>)>,
    over: Seq<(Seq<char>, Seq<char>)>,
    j: int,
)
    requires
        entry_names(over).no_duplicates(),
        0 <= j < over.len(),
    ensures
        ({
            let r = overlaid(base, over);
            name_index(entry_names(r), over[j].0) matches Some(i) && r[i].1 == over[j].1
        }),
    decreases over.len(),
{
    let n = over.len();
    let front = over.drop_last();
    let s = overlaid(base, front);
    if j == n - 1 {
        lemma_with_entry_sets(s, over.last().0, over.last().1);
    } else {
        assert(entry_names(front) =~= entry_names(over).drop_last());
        assert(entry_names(over)[j] == over[j].0);
        assert(entry_names(over)[n - 1] == over.last().0);
        assert(front[j] == over[j]);
        lemma_overlaid_holds(base, front, j);
        lemma_with_entry_keeps(s, over.last().0, over.last().1, over[j].0);
    }
}

/// Law: a parameter set on the builder is the value in force, whichever
/// variant is chosen, and each parameter stays set at most once.
pub proof fn lemma_set_parameter_in_force(b: SpecInstance, name: Seq<char>, value: Seq<char>)
    requires
        overrides_distinct(b),
    ensures
        ({
            let set = SpecInstance { overrides: with_entry(b.overrides, name, value), ..b };
            let r = resolved_parameters(set);
            &&& overrides_distinct(set)
            &&& name_index(entry_names(r), name) matches Some(i) && r[i].1 == value
        }),
{
    let over = with_entry(b.overrides, name, value);
    lemma_with_entry_sets(b.overrides, name, value);
    lemma_name_index(entry_names(over), name);
    let j = name_index(entry_names(over), name)->0;
    assert(entry_names(over)[j] == over[j].0);
    let set = SpecInstance { overrides: over, ..b };
    let defaults = match active_variant(set) {
        Some(v) => overlaid(set.parameters, v.parameters),
        None => set.parameters,
    };
    lemma_overlaid_holds(defaults, over, j);
}

/// The position of the first entry named `key`.
fn find_name<V>(entries: &Vec<(String, V)>, key: &str) -> (r: Option<usize>)
    ensures
        match (r, name_index(entries@.map_values(|p: (String, V)| p.0@), key@)) {
            (Some(i), Some(si)) => i == si && i < entries@.len(),
            (None, None) => true,
            _ => false,
        },
{
    let ghost names = entries@.map_values(|p: (String, V)| p.0@);
    let mut i: usize = 0;
    while i < entries.len()
        invariant
            i <= entries@.len(),
            names == entries@.map_values(|p: (String, V)| p.0@),
            name_index(names.subrange(0, i as int), key@) is None,
        decreases entries@.len() - i,
    {
        let found = compare_text(entries[i].0.as_str(), key) == 0;
        proof {
            let pre = names.subrange(0, i + 1);
            assert(pre.drop_last() =~= names.subrange(0, i as int));
            assert(pre.last() == entries@[i as int].0@);
        }
        if found {
            proof {
                lemma_name_index_prefix(names, key@, i as int + 1);
            }
            return Some(i);
        }
        i = i + 1;
    }
    proof {
        assert(names.subrange(0, i as int) =~= names);
    }
    None
}

/// A name found in a prefix is found at the same place in the whole.
proof fn lemma_name_index_prefix(names: Seq<Seq<char>>, key: Seq<char>, n: int)
    requires
        0 <= n <= names.len(),
        name_index(names.subrange(0, n), key) is Some,
    ensures
        name_index(names, key) == name_index(names.subrange(0, n), key),
    decreases names.len() - n,
{
    if n < names.len() {
        assert(names.subrange(0, n + 1).drop_last() =~= names.subrange(0, n));
        lemma_name_index_prefix(names, key, n + 1);
    } else {
        assert(names.subrange(0, n) =~= names);
    }
}

/// Appends `names`, joined with `", "`.
pub(crate) fn push_joined(out: &mut String, names: &Vec<String>)
    ensures
        final(out)@ == old(out)@ + comma_joined(names_view(names@)),
{
    let ghost all = names_view(names@);
    let mut k: usize = 0;
    while k < names.len()
        invariant
            k <= names@.len(),
            all == names_view(names@),
            out@ == old(out)@ + comma_joined(all.subrange(0, k as int)),
        decreases names@.len() - k,
    {
        let ghost before = out@;
        if k > 0 {
            out.append(", ");
        }
        out.append(names[k].as_str());
        proof {
            let pre = all.subrange(0, k + 1);
            assert(pre.drop_last() =~= all.subrange(0, k as int));
            if k == 0 {
                assert(comma_joined(all.subrange(0, 0)) =~= Seq::<char>::empty());
                assert(out@ =~= old(out)@ + comma_joined(pre));
            } else {
                assert(out@ =~= old(out)@ + comma_joined(pre));
            }
        }
        k = k + 1;
    }
    proof {
        assert(all.subrange(0, k as int) =~= all);
    }
}

/// The names of a list of named entries, sorted and each once.
fn sorted_entry_names<V>(entries: &Vec<(String, V)>) -> (r: Vec<String>)
    ensures
        names_view(r@) == sorted_names(entries@.map_values(|p: (String, V)| p.0@)),
{
    let mut names: Vec<String> = Vec::new();
    let mut i: usize = 0;
    while i < entries.len()
        invariant
            i <= entries@.len(),
            names_view(names@) == entries@.subrange(0, i as int).map_values(
                |p: (String, V)| p.0@,
            ),
        decreases entries@.len() - i,
    {
        let ghost before = names@;
        names.push(entries[i].0.clone());
        proof {
            assert(entries@.subrange(0, i + 1) =~= entries@.subrange(0, i as int).push(
                entries@[i as int],
            ));
            assert(names@ =~= before.push(entries@[i as int].0));
            assert(names_view(names@) =~= names_view(before).push(entries@[i as int].0@));
            assert(entries@.subrange(0, i + 1).map_values(|p: (String, V)| p.0@) =~= entries@.subrange(
                0,
                i as int,
            ).map_values(|p: (String, V)| p.0@).push(entries@[i as int].0@));
            assert(names_view(names@) =~= entries@.subrange(0, i + 1).map_values(
                |p: (String, V)| p.0@,
            ));
        }
        i = i + 1;
    }
    proof {
        assert(entries@.subrange(0, i as int) =~= entries@);
    }
    sorted_unique(&names)
}

/// A copy of a list of name-text pairs.
fn copy_pairs(pairs: &Vec<(String, String)>) -> (r: Vec<(String, String)>)
    ensures
        param_texts(r@) == param_texts(pairs@),
{
    let mut out: Vec<(String, String)> = Vec::new();
    let mut i: usize = 0;
    while i < pairs.len()
        invariant
            i <= pairs@.len(),
            param_texts(out@) == param_texts(pairs@.subrange(0, i as int)),
        decreases pairs@.len() - i,
    {
        let ghost before = out@;
        out.push((pairs[i].0.clone(), pairs[i].1.clone()));
        proof {
            assert(pairs@.subrange(0, i + 1) =~= pairs@.subrange(0, i as int).push(pairs@[i as int]));
            assert(param_texts(out@) =~= param_texts(before).push(
                (pairs@[i as int].0@, pairs@[i as int].1@),
            ));
            assert(param_texts(out@) =~= param_texts(pairs@.subrange(0, i + 1)));
        }
        i = i + 1;
    }
    proof {
        assert(pairs@.subrange(0, i as int) =~= pairs@);
    }
    out
}

/// Sets `key` to `value` in `entries`, as [`with_entry`] says.
fn set_entry(entries: &mut Vec<(String, String)>, key: String, value: String)
    ensures
        param_texts(final(entries)@) == with_entry(param_texts(old(entries)@), key@, value@),
{
    let ghost before = param_texts(entries@);
    proof {
        assert(entry_names(before) =~= entries@.map_values(|p: (String, String)| p.0@));
    }
    match find_name(entries, key.as_str()) {
        Some(i) => {
            entries.set(i, (key, value));
            proof {
                assert(param_texts(entries@) =~= before.update(i as int, (key@, value@)));
            }
        },
        None => {
            entries.push((key, value));
            proof {
                assert(param_texts(entries@) =~= before.push((key@, value@)));
            }
        },
    }
}

/// Sets each entry of `over` on `base`, in order.
fn overlay(base: &mut Vec<(String, String)>, over: &Vec<(String, String)>)
    ensures
        param_texts(final(base)@) == overlaid(param_texts(old(base)@), param_texts(over@)),
{
    let ghost ov = param_texts(over@);
    let mut k: usize = 0;
    while k < over.len()
        invariant
            k <= over@.len(),
            ov == param_texts(over@),
            param_texts(base@) == overlaid(param_texts(old(base)@), ov.subrange(0, k as int)),
        decreases over@.len() - k,
    {
        set_entry(base, over[k].0.clone(), over[k].1.clone());
        proof {
            let pre = ov.subrange(0, k + 1);
            assert(pre.drop_last() =~= ov.subrange(0, k as int));
        }
        k = k + 1;
    }
    proof {
        assert(ov.subrange(0, k as int) =~= ov);
    }
}

/// Instantiates a specification template into a concrete formula by choosing
/// a variant and filling its parameters.
pub struct SpecBuilder {
    metadata: Metadata,
    formulas: Formulas,
    parameters: Vec<(String, String)>,
    variants: Option<Vec<(String, VariantDef)>>,
    active_variant: Option<String>,
    param_overrides: Vec<(String, String)>,
}

impl View for SpecBuilder {
    type V = SpecInstance;

    closed spec fn view(&self) -> SpecInstance {
        SpecInstance {
            name: self.metadata.name@,
            domain: self.metadata.domain@,
            description: opt_text(self.metadata.description),
            references: opt_texts(self.metadata.references),
            deterministic: self.formulas.deterministic@,
            probabilistic: opt_text(self.formulas.probabilistic),
            parameters: param_texts(self.parameters@),
            variants: match self.variants {
                Some(vs) => Some(variants_view(vs@)),
                None => None,
            },
            active: opt_text(self.active_variant),
            overrides: param_texts(self.param_overrides@),
        }
    }
}

impl SpecBuilder {
    /// Each parameter is set on the builder at most once.
    #[verifier::type_invariant]
    spec fn overrides_once(&self) -> bool {
        overrides_distinct(self@)
    }

    /// Wraps a template for instantiation: its metadata, formulas, declared
    /// parameters with their default texts, and variants.
    pub fn new(
        metadata: Metadata,
        formulas: Formulas,
        parameters: Vec<(String, String)>,
        variants: Option<Vec<(String, VariantDef)>>,
    ) -> (r: SpecBuilder)
        ensures
            r@ == (SpecInstance {
                name: metadata.name@,
                domain: metadata.domain@,
                description: opt_text(metadata.description),
                references: opt_texts(metadata.references),
                deterministic: formulas.deterministic@,
                probabilistic: opt_text(formulas.probabilistic),
                parameters: param_texts(parameters@),
                variants: match variants {
                    Some(vs) => Some(variants_view(vs@)),
                    None => None,
                },
                active: None,
                overrides: Seq::empty(),
            }),
            overrides_distinct(r@),
    {
        let empty: Vec<(String, String)> = Vec::new();
        proof {
            assert(entry_names(param_texts(empty@)) =~= Seq::<Seq<char>>::empty());
        }
        let r = SpecBuilder {
            metadata,
            formulas,
            parameters,
            variants,
            active_variant: None,
            param_overrides: empty,
        };
        proof {
            assert(param_texts(r.param_overrides@) =~= Seq::empty());
        }
        r
    }

    /// Selects a named variant; an unknown name, or a template without
    /// variants, is an [`Error::InvalidConfig`] of the specification.
    pub fn with_variant(self, variant: &str) -> (r: Result<SpecBuilder, Error>)
        ensures
            match self@.variants {
                Some(vs) => if name_index(entry_names(vs), variant@) is Some {
                    r matches Ok(b) && b@ == (SpecInstance { active: Some(variant@), ..self@ })
                        && overrides_distinct(b@)
                } else {
                    r matches Err(Error::InvalidConfig { context, message }) && context@
                        == "specification"@ && message@ == missing_variant_message(
                        variant@,
                        self@.name,
                        sorted_names(entry_names(vs)),
                    )
                },
                None => r matches Err(Error::InvalidConfig { context, message }) && context@
                    == "specification"@ && message@ == no_variants_message(self@.name),
            },
    {
        let ghost before = self@;
        proof {
            use_type_invariant(&self);
        }
        match &self.variants {
            Some(vs) => {
                proof {
                    assert(entry_names(variants_view(vs@)) =~= vs@.map_values(
                        |p: (String, VariantDef)| p.0@,
                    ));
                }
                if find_name(vs, variant).is_some() {
                    let mut b = self;
                    b.active_variant = Some(string_of(variant));
                    proof {
                        assert(b@ == (SpecInstance { active: Some(variant@), ..before }));
                    }
                    Ok(b)
                } else {
                    let available = sorted_entry_names(vs);
                    let mut message = string_of("variant '");
                    message.append(variant);
                    message.append("' not found in '");
                    message.append(self.metadata.name.as_str());
                    message.append("'; available: [");
                    push_joined(&mut message, &available);
                    message.append("]");
                    Err(spec_error(message))
                }
            },
            None => {
                let mut message = string_of("'");
                message.append(self.metadata.name.as_str());
                message.append("' defines no variants");
                Err(spec_error(message))
            },
        }
    }

    /// Sets a parameter's value, written as formula text; a name the template
    /// does not declare is an [`Error::InvalidConfig`] listing those it does.
    pub fn with_param(self, name: &str, value: String) -> (r: Result<SpecBuilder, Error>)
        ensures
            if name_index(entry_names(self@.parameters), name@) is Some {
                r matches Ok(b) && b@ == (SpecInstance {
                    overrides: with_entry(self@.overrides, name@, value@),
                    ..self@
                }) && overrides_distinct(b@)
            } else {
                r matches Err(Error::InvalidConfig { context, message }) && context@
                    == "specification"@ && message@ == unknown_parameter_message(
                    name@,
                    self@.name,
                    sorted_names(entry_names(self@.parameters)),
                )
            },
    {
        let ghost before = self@;
        proof {
            assert(entry_names(param_texts(self.parameters@)) =~= self.parameters@.map_values(
                |p: (String, String)| p.0@,
            ));
            use_type_invariant(&self);
        }
        if find_name(&self.parameters, name).is_some() {
            let SpecBuilder {
                metadata,
                formulas,
                parameters,
                variants,
                active_variant,
                param_overrides,
            } = self;
            let mut overrides = param_overrides;
            set_entry(&mut overrides, string_of(name), value);
            proof {
                lemma_with_entry_sets(before.overrides, name@, value@);
            }
            let b = SpecBuilder {
                metadata,
                formulas,
                parameters,
                variants,
                active_variant,
                param_overrides: overrides,
            };
            proof {
                assert(b@ == (SpecInstance {
                    overrides: with_entry(before.overrides, name@, value@),
                    ..before
                }));
            }
            Ok(b)
        } else {
            let available = sorted_entry_names(&self.parameters);
            let mut message = string_of("parameter '");
            message.append(name);
            message.append("' is not defined in '");
            message.append(self.metadata.name.as_str());
            message.append("'; available: [");
            push_joined(&mut message, &available);
            message.append("]");
            Err(spec_error(message))
        }
    }

    /// What the template captures and where it is sourced from.
    pub fn metadata(&self) -> (r: &Metadata)
        ensures
            r.name@ == self@.name,
            r.domain@ == self@.domain,
            opt_text(r.description) == self@.description,
            opt_texts(r.references) == self@.references,
    {
        &self.metadata
    }

    /// The template's base formulas.
    pub fn formulas(&self) -> (r: &Formulas)
        ensures
            r.deterministic@ == self@.deterministic,
            opt_text(r.probabilistic) == self@.probabilistic,
    {
        &self.formulas
    }

    /// The names of the template's variants, sorted.
    pub fn available_variants(&self) -> (r: Vec<String>)
        ensures
            names_view(r@) == match self@.variants {
                Some(vs) => sorted_names(entry_names(vs)),
                None => Seq::empty(),
            },
    {
        match &self.variants {
            Some(vs) => {
                proof {
                    assert(entry_names(variants_view(vs@)) =~= vs@.map_values(
                        |p: (String, VariantDef)| p.0@,
                    ));
                }
                sorted_entry_names(vs)
            },
            None => {
                let r: Vec<String> = Vec::new();
                proof {
                    assert(names_view(r@) =~= Seq::<Seq<char>>::empty());
                }
                r
            },
        }
    }

    /// The chosen variant, if one is chosen and defined.
    fn variant(&self) -> (r: Option<&VariantDef>)
        ensures
            match (r, active_variant(self@)) {
                (Some(v), Some(sv)) => v@ == sv,
                (None, None) => true,
                _ => false,
            },
    {
        match (&self.active_variant, &self.variants) {
            (Some(key), Some(vs)) => {
                proof {
                    assert(entry_names(variants_view(vs@)) =~= vs@.map_values(
                        |p: (String, VariantDef)| p.0@,
                    ));
                }
                match find_name(vs, key.as_str()) {
                    Some(i) => Some(&vs[i].1),
                    None => None,
                }
            },
            _ => None,
        }
    }

    /// The parameters and the texts in force: the defaults, overridden by the
    /// chosen variant, overridden by the values set on the builder.
    pub fn parameters(&self) -> (r: Vec<(String, String)>)
        ensures
            param_texts(r@) == resolved_parameters(self@),
    {
        let mut resolved = copy_pairs(&self.parameters);
        match self.variant() {
            Some(v) => match &v.parameters {
                Some(over) => overlay(&mut resolved, over),
                None => {
                    proof {
                        assert(param_texts(resolved@) == overlaid(
                            param_texts(resolved@),
                            Seq::empty(),
                        ));
                    }
                },
            },
            None => {},
        }
        overlay(&mut resolved, &self.param_overrides);
        resolved
    }

    fn resolve_formula(&self, deterministic: bool) -> (r: Result<String, Error>)
        ensures
            match (r, resolved_formula(self@, deterministic)) {
                (Ok(f), Ok(sf)) => f@ == sf,
                (Err(Error::InvalidConfig { context, message }), Err(m)) => context@
                    == "specification"@ && message@ == m,
                _ => false,
            },
    {
        let params = self.parameters();
        match self.variant() {
            Some(v) => match &v.formulas {
                Some(fs) => {
                    let chosen = if deterministic {
                        &fs.deterministic
                    } else {
                        &fs.probabilistic
                    };
                    match chosen {
                        Some(t) => {
                            return interpolate(t.as_str(), &params, self.metadata.name.as_str());
                        },
                        None => {},
                    }
                },
                None => {},
            },
            None => {},
        }
        if deterministic {
            interpolate(self.formulas.deterministic.as_str(), &params, self.metadata.name.as_str())
        } else {
            match &self.formulas.probabilistic {
                Some(t) => interpolate(t.as_str(), &params, self.metadata.name.as_str()),
                None => {
                    let mut message = string_of("'");
                    message.append(self.metadata.name.as_str());
                    message.append("' does not define a probabilistic formula");
                    Err(spec_error(message))
                },
            }
        }
    }

    /// The deterministic STL formula with the chosen parameters filled in.
    pub fn build_deterministic(&self) -> (r: Result<String, Error>)
        ensures
            match (r, resolved_formula(self@, true)) {
                (Ok(f), Ok(sf)) => f@ == sf,
                (Err(Error::InvalidConfig { context, message }), Err(m)) => context@
                    == "specification"@ && message@ == m,
                _ => false,
            },
    {
        self.resolve_formula(true)
    }

    /// The probabilistic PrSTL formula with the chosen parameters filled in.
    pub fn build_probabilistic(&self) -> (r: Result<String, Error>)
        ensures
            match (r, resolved_formula(self@, false)) {
                (Ok(f), Ok(sf)) => f@ == sf,
                (Err(Error::InvalidConfig { context, message }), Err(m)) => context@
                    == "specification"@ && message@ == m,
                _ => false,
            },
    {
        self.resolve_formula(false)
    }
}

} // verus!
