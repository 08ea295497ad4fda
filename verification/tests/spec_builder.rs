use sentil::error::Error;
use sentil::spec_builder::{extension_of, is_filesystem_path, parse_interaction, strip_extension};
use sentil::stats::NoiseInteraction;

#[test]
fn noise_interaction_parses_case_insensitively() {
    assert!(parse_interaction("Multiplicative").is_ok());
    assert!(parse_interaction("sideways").is_err());
}

#[test]
fn noise_interactions_read_as_their_variants() {
    assert_eq!(parse_interaction("ADDITIVE").unwrap(), NoiseInteraction::Additive);
    assert_eq!(parse_interaction("multiplicative").unwrap(), NoiseInteraction::Multiplicative);
    match parse_interaction("Sideways") {
        Err(Error::InvalidConfig { context, message }) => {
            assert_eq!(context, "specification");
            assert_eq!(
                message,
                "unknown noise interaction 'sideways'; use 'additive' or 'multiplicative'"
            );
        }
        _ => panic!("expected a specification error"),
    }
}

#[test]
fn file_paths_are_told_from_library_keys() {
    assert!(is_filesystem_path("./my_spec.toml"));
    assert!(is_filesystem_path("/abs/spec"));
    assert!(is_filesystem_path("spec.yaml"));
    assert!(is_filesystem_path("dir/spec.yml"));
    assert!(is_filesystem_path("spec.json"));
    assert!(!is_filesystem_path("controls/overshoot"));
    assert!(!is_filesystem_path("spec.txt"));
    assert!(!is_filesystem_path(".toml"));
}

#[test]
fn extensions_split_at_the_last_dot() {
    assert_eq!(extension_of("controls/overshoot.toml"), "toml");
    assert_eq!(extension_of("a.b.c"), "c");
    assert_eq!(extension_of("noext"), "noext");
    assert_eq!(strip_extension("controls/overshoot.toml"), "controls/overshoot");
    assert_eq!(strip_extension("a.b.c"), "a.b");
    assert_eq!(strip_extension("noext"), "noext");
}

use sentil::spec_builder::interpolate;

fn params(pairs: &[(&str, &str)]) -> Vec<(String, String)> {
    pairs.iter().map(|(k, v)| (k.to_string(), v.to_string())).collect()
}

#[test]
fn placeholders_are_filled_everywhere() {
    let f = interpolate(
        "always[0, {horizon}](x < {limit} and y < {limit})",
        &params(&[("limit", "0.1"), ("horizon", "10.0")]),
        "controls/overshoot",
    )
    .unwrap();
    assert_eq!(f, "always[0, 10.0](x < 0.1 and y < 0.1)");
}

#[test]
fn an_unfilled_placeholder_is_named() {
    match interpolate("x < {limit} + {gain}", &params(&[("limit", "1.0")]), "demo") {
        Err(Error::InvalidConfig { context, message }) => {
            assert_eq!(context, "specification");
            assert_eq!(
                message,
                "unresolved parameter '{gain}' in the formula for 'demo'; it appears in the formula but is not defined in [parameters]"
            );
        }
        other => panic!("expected an unresolved parameter, got {other:?}"),
    }
}

#[test]
fn a_lone_open_brace_is_left_as_it_is() {
    assert_eq!(interpolate("x < {", &params(&[]), "demo").unwrap(), "x < {");
    assert_eq!(
        interpolate("{a}{a}{aa}", &params(&[("a", "1"), ("aa", "2")]), "demo").unwrap(),
        "112"
    );
}

use sentil::spec_builder::instantiate::VariantDef;
use sentil::spec_builder::{Formulas, Metadata, SpecBuilder, VariantFormulas};

fn overshoot(variants: Option<Vec<(String, VariantDef)>>) -> SpecBuilder {
    SpecBuilder::new(
        Metadata {
            name: "Overshoot".to_string(),
            domain: "controls".to_string(),
            description: None,
            references: None,
        },
        Formulas {
            deterministic: "always[0, {T}](output - reference < {max_overshoot} * 1.0)".to_string(),
            probabilistic: None,
        },
        params(&[("T", "30.0"), ("max_overshoot", "0.05")]),
        variants,
    )
}

fn with_step_variants() -> SpecBuilder {
    overshoot(Some(vec![
        (
            "step_up".to_string(),
            VariantDef {
                description: None,
                formulas: None,
                parameters: Some(params(&[("T", "60.0")])),
            },
        ),
        (
            "step_down".to_string(),
            VariantDef {
                description: Some("a falling reference".to_string()),
                formulas: Some(VariantFormulas {
                    deterministic: Some(
                        "always[0, {T}](reference - output < {max_overshoot} * 1.0)".to_string(),
                    ),
                    probabilistic: None,
                }),
                parameters: None,
            },
        ),
    ]))
}

fn config_message(result: Result<SpecBuilder, Error>) -> String {
    match result {
        Err(Error::InvalidConfig { context, message }) => {
            assert_eq!(context, "specification");
            message
        }
        Err(other) => panic!("expected a specification error, got {other:?}"),
        Ok(_) => panic!("expected a specification error"),
    }
}

#[test]
fn builds_a_deterministic_formula_with_defaults() {
    let formula = overshoot(None).build_deterministic().unwrap();
    assert_eq!(formula, "always[0, 30.0](output - reference < 0.05 * 1.0)");
}

#[test]
fn an_overridden_parameter_appears_in_the_formula() {
    let formula = overshoot(None)
        .with_param("max_overshoot", "0.1".to_string())
        .unwrap()
        .build_deterministic()
        .unwrap();
    assert!(formula.contains("0.1 * 1.0"), "{formula}");
}

#[test]
fn the_last_value_set_for_a_parameter_is_in_force() {
    let again = overshoot(None)
        .with_param("T", "5.0".to_string())
        .unwrap()
        .with_param("T", "7.0".to_string())
        .unwrap();
    assert_eq!(again.parameters(), params(&[("T", "7.0"), ("max_overshoot", "0.05")]));
    assert_eq!(
        again.build_deterministic().unwrap(),
        "always[0, 7.0](output - reference < 0.05 * 1.0)"
    );
}

#[test]
fn an_unknown_parameter_is_rejected() {
    let result = overshoot(None).with_param("nonexistent", "1.0".to_string());
    assert!(result.is_err());
}

#[test]
fn an_unknown_parameter_names_the_declared_ones() {
    let message = config_message(overshoot(None).with_param("nonexistent", "1.0".to_string()));
    assert_eq!(
        message,
        "parameter 'nonexistent' is not defined in 'Overshoot'; available: [T, max_overshoot]"
    );
}

#[test]
fn a_variant_overrides_the_formula() {
    let formula = with_step_variants()
        .with_variant("step_down")
        .unwrap()
        .build_deterministic()
        .unwrap();
    assert_eq!(formula, "always[0, 30.0](reference - output < 0.05 * 1.0)");
}

#[test]
fn a_variant_default_gives_way_to_a_value_set_on_the_builder() {
    let chosen = with_step_variants().with_variant("step_up").unwrap();
    assert_eq!(
        chosen.build_deterministic().unwrap(),
        "always[0, 60.0](output - reference < 0.05 * 1.0)"
    );
    let set = chosen.with_param("T", "90.0".to_string()).unwrap();
    assert_eq!(
        set.build_deterministic().unwrap(),
        "always[0, 90.0](output - reference < 0.05 * 1.0)"
    );
}

#[test]
fn an_unknown_variant_is_rejected() {
    let result = with_step_variants().with_variant("sideways");
    assert!(result.is_err());
}

#[test]
fn an_unknown_variant_names_the_defined_ones_in_order() {
    let message = config_message(with_step_variants().with_variant("sideways"));
    assert_eq!(
        message,
        "variant 'sideways' not found in 'Overshoot'; available: [step_down, step_up]"
    );
    let none = config_message(overshoot(None).with_variant("step_up"));
    assert_eq!(none, "'Overshoot' defines no variants");
}

#[test]
fn variant_names_are_listed_in_order() {
    assert_eq!(with_step_variants().available_variants(), vec!["step_down", "step_up"]);
    assert!(overshoot(None).available_variants().is_empty());
}

#[test]
fn a_missing_probabilistic_formula_is_an_error() {
    match overshoot(None).build_probabilistic() {
        Err(Error::InvalidConfig { message, .. }) => {
            assert_eq!(message, "'Overshoot' does not define a probabilistic formula");
        }
        other => panic!("expected a specification error, got {other:?}"),
    }
}

#[test]
fn the_probabilistic_formula_is_filled_from_the_same_parameters() {
    let b = SpecBuilder::new(
        Metadata {
            name: "Overshoot".to_string(),
            domain: "controls".to_string(),
            description: None,
            references: None,
        },
        Formulas {
            deterministic: "always[0, {T}](output < 1.0)".to_string(),
            probabilistic: Some("P >= {p}(always[0, {T}](output < 1.0))".to_string()),
        },
        params(&[("T", "30.0"), ("p", "0.95")]),
        None,
    );
    assert_eq!(
        b.build_probabilistic().unwrap(),
        "P >= 0.95(always[0, 30.0](output < 1.0))"
    );
    let unfilled = SpecBuilder::new(
        Metadata {
            name: "Gain".to_string(),
            domain: "controls".to_string(),
            description: None,
            references: None,
        },
        Formulas {
            deterministic: "x < {gain}".to_string(),
            probabilistic: None,
        },
        params(&[]),
        None,
    );
    match unfilled.build_deterministic() {
        Err(Error::InvalidConfig { message, .. }) => assert_eq!(
            message,
            "unresolved parameter '{gain}' in the formula for 'Gain'; it appears in the formula but is not defined in [parameters]"
        ),
        other => panic!("expected an unresolved parameter, got {other:?}"),
    }
}

use sentil::spec_builder::noise::{missing_parameter, noise_family, NoiseFamily};

#[test]
fn an_unknown_noise_model_is_rejected() {
    let result = noise_family("wibble");
    assert!(result.is_err());
}

#[test]
fn noise_model_names_read_in_any_case_with_their_aliases() {
    assert_eq!(noise_family("Gaussian").unwrap(), NoiseFamily::Gaussian);
    assert_eq!(noise_family("normal").unwrap(), NoiseFamily::Gaussian);
    assert_eq!(noise_family("Log_Normal").unwrap(), NoiseFamily::LogNormal);
    assert_eq!(noise_family("STUDENT_T").unwrap(), NoiseFamily::StudentT);
    assert_eq!(noise_family("truncatednormal").unwrap(), NoiseFamily::TruncatedNormal);
    assert_eq!(noise_family("binomial").unwrap(), NoiseFamily::Binomial);
    match noise_family("Wibble") {
        Err(Error::InvalidConfig { context, message }) => {
            assert_eq!(context, "specification");
            assert!(message.starts_with("unknown noise model 'wibble'; supported: dirac, gaussian"));
            assert!(message.ends_with("register them on a lifting registry directly"));
        }
        other => panic!("expected a specification error, got {other:?}"),
    }
}

#[test]
fn a_missing_noise_parameter_names_those_given() {
    let given = vec!["mean".to_string(), "interaction".to_string(), "mean".to_string()];
    match missing_parameter(NoiseFamily::Gaussian, "std_dev", &given) {
        Error::InvalidConfig { message, .. } => assert_eq!(
            message,
            "noise model 'Gaussian' needs a numeric parameter 'std_dev'; given [interaction, mean]"
        ),
        other => panic!("expected a specification error, got {other:?}"),
    }
}
