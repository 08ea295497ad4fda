use sentil::formula::lexer::{tokenize, TokenKind};
use sentil::number::Decimal;

fn kinds(input: &str) -> Vec<TokenKind> {
    tokenize(input)
        .unwrap()
        .into_iter()
        .map(|t| t.kind)
        .collect()
}

fn num(digits: &[u8], exponent: i128) -> Decimal {
    Decimal::from_parts(false, &digits.to_vec(), exponent)
}

#[test]
fn lexes_a_simple_predicate() {
    assert_eq!(
        kinds("x < 5"),
        vec![
            TokenKind::Identifier("x".into()),
            TokenKind::Less,
            TokenKind::Number(num(&[5], 0)),
            TokenKind::End,
        ]
    );
}

#[test]
fn capital_and_word_keywords_alias() {
    assert_eq!(kinds("G")[0], TokenKind::Always);
    assert_eq!(kinds("globally")[0], TokenKind::Always);
    assert_eq!(kinds("finally")[0], TokenKind::Eventually);
    assert_eq!(
        kinds("F U X S H O P")[..7],
        [
            TokenKind::Eventually,
            TokenKind::Until,
            TokenKind::Next,
            TokenKind::Since,
            TokenKind::Historically,
            TokenKind::Once,
            TokenKind::Probability,
        ]
    );
}

#[test]
fn symbolic_logical_operators() {
    assert_eq!(
        kinds("& && | || ! != ->"),
        vec![
            TokenKind::And,
            TokenKind::And,
            TokenKind::Or,
            TokenKind::Or,
            TokenKind::Not,
            TokenKind::NotEqual,
            TokenKind::Implies,
            TokenKind::End,
        ]
    );
}

#[test]
fn numbers_handle_dot_prefix_and_exponents() {
    assert_eq!(kinds(".5")[0], TokenKind::Number(num(&[5], -1)));
    assert_eq!(kinds("1e-6")[0], TokenKind::Number(num(&[1], -6)));
    assert_eq!(kinds("2.5E3")[0], TokenKind::Number(num(&[2, 5], 2)));
    assert_eq!(kinds("3.14e+2")[0], TokenKind::Number(num(&[3, 1, 4], 0)));
}

#[test]
fn minus_is_its_own_token() {
    assert_eq!(
        kinds("x < -5"),
        vec![
            TokenKind::Identifier("x".into()),
            TokenKind::Less,
            TokenKind::Minus,
            TokenKind::Number(num(&[5], 0)),
            TokenKind::End,
        ]
    );
}

#[test]
fn comments_and_whitespace_are_skipped_with_line_tracking() {
    let tokens = tokenize("always # a note\n[0, inf]").unwrap();
    assert_eq!(tokens[0].kind, TokenKind::Always);
    assert_eq!(tokens[0].line, 1);
    assert_eq!(tokens[1].kind, TokenKind::LeftBracket);
    assert_eq!(tokens[1].line, 2);
}

#[test]
fn stray_equals_is_a_helpful_error() {
    let err = tokenize("x = 5").unwrap_err();
    assert!(err.message.contains("=="));
    assert_eq!(err.column, 3);
}

#[test]
fn unexpected_character_reports_its_column() {
    let err = tokenize("x @ 5").unwrap_err();
    assert!(err.message.contains("unexpected character"));
    assert_eq!(err.column, 3);
}

#[test]
fn numbers_are_kept_exactly_and_in_canonical_form() {
    assert_eq!(kinds("0.1")[0], TokenKind::Number(num(&[1], -1)));
    assert_eq!(kinds("1200")[0], TokenKind::Number(num(&[1, 2], 2)));
    assert_eq!(kinds("000.000")[0], TokenKind::Number(Decimal::zero()));
    assert_eq!(kinds("1e-400")[0], TokenKind::Number(Decimal::zero()));
}

#[test]
fn a_literal_past_the_binary64_range_is_an_error() {
    assert!(tokenize("1e309").is_err());
    assert!(tokenize("1e308").is_ok());
}

#[test]
fn token_descriptions_name_the_token() {
    assert_eq!(TokenKind::Until.describe(), "`until`");
    assert_eq!(TokenKind::Identifier("speed".into()).describe(), "variable `speed`");
    assert_eq!(TokenKind::Number(num(&[2, 5], -1)).describe(), "number 2.5");
    assert_eq!(TokenKind::End.describe(), "end of input");
}

#[test]
fn positions_are_one_based_lines_and_columns() {
    let tokens = tokenize("a\n  < 1").unwrap();
    assert_eq!((tokens[0].line, tokens[0].column), (1, 1));
    assert_eq!((tokens[1].line, tokens[1].column), (2, 3));
    assert_eq!((tokens[2].line, tokens[2].column), (2, 5));
    let end = tokens.last().unwrap();
    assert_eq!(end.kind, TokenKind::End);
}

#[test]
fn literals_binary64_reads_as_zero_lex_as_zero() {
    let first = |s: &str| kinds(s).into_iter().next().unwrap();
    assert_eq!(first("1e-400"), TokenKind::Number(Decimal::zero()));
    assert_eq!(first("2e-324"), TokenKind::Number(Decimal::zero()));
    assert_eq!(first("2.47e-324"), TokenKind::Number(Decimal::zero()));
    assert_eq!(first("2.48e-324"), TokenKind::Number(num(&[2, 4, 8], -326)));
    assert_eq!(first("3e-324"), TokenKind::Number(num(&[3], -324)));
    let halfway = "24703282292062327208828439643411068618252990130716238221279284125033775363510437593264991818081799618989828234772285886546332835517796989819938739800539093906315035659515570226392290858392449105184435931802849936536152500319370457678249219365623669863658480757001585769269903706311928279558551332927834338409351978015531246597263579574622766465272827220056374006485499977096599470454020828166226237857393450736339007967761930577506740176324673600968951340535537458516661134223766678604162159680461914467291840300530057530849048765391711386591646239524912623653881879636239373280423891018672348497668235089863388587925628302755995657524455507255189313690836254779186948667994968324049705821028513185451396213837722826145437693412532098591327667236328125e-1075";
    assert_eq!(halfway.parse::<f64>().unwrap(), 0.0);
    assert_eq!(first(halfway), TokenKind::Number(Decimal::zero()));
    let above = "247032822920623272088284396434110686182529901307162382212792841250337753635104375932649918180817996189898282347722858865463328355177969898199387398005390939063150356595155702263922908583924491051844359318028499365361525003193704576782492193656236698636584807570015857692699037063119282795585513329278343384093519780155312465972635795746227664652728272200563740064854999770965994704540208281662262378573934507363390079677619305775067401763246736009689513405355374585166611342237666786041621596804619144672918403005300575308490487653917113865916462395249126236538818796362393732804238910186723484976682350898633885879256283027559956575244555072551893136908362547791869486679949683240497058210285131854513962138377228261454376934125320985913276672363281251e-1076";
    assert!(above.parse::<f64>().unwrap() > 0.0);
    assert_ne!(first(above), TokenKind::Number(Decimal::zero()));
}
