use sentil::error::{Error, ParseError};
use sentil::formula::ast::Formula;
use sentil::monitor::{Monitor, MonitorConfig, TimeMode};
use sentil::semantics::symbols::SymbolTable;
use sentil::signal::ingest::{detect_time_column, extension};
use sentil::signal::interpolation::Interpolation;
use sentil::stats::{default_seed, IntervalMethod};

#[test]
fn a_malformed_formula_is_rejected_at_construction() {
    assert!(Monitor::new("always(", MonitorConfig::new()).is_err());
}

#[test]
fn a_monitor_holds_its_formula_and_time_mode() {
    let monitor = Monitor::new("always[0, 2](x > 0)", MonitorConfig::new().time(TimeMode::Dense)).unwrap();
    assert_eq!(monitor.config().time_mode(), TimeMode::Dense);
    assert_eq!(monitor.formula().to_string(), "always[0, 2](x > 0)");
    assert_eq!(MonitorConfig::new().time_mode(), TimeMode::Discrete);
    assert_eq!(TimeMode::default(), TimeMode::Discrete);
    let f = Formula::parse("x > 1").unwrap();
    let held = Monitor::from_formula(f, MonitorConfig::default());
    assert_eq!(held.formula().to_string(), "x > 1");
}

#[test]
fn parse_errors_carry_their_position() {
    let e = ParseError::at("bad".to_string(), 3, 7);
    assert_eq!((e.message.as_str(), e.line, e.column), ("bad", 3, 7));
    match Monitor::new("x >\n  )", MonitorConfig::new()) {
        Err(Error::Parse(e)) => assert_eq!((e.line, e.column), (2, 3)),
        _ => panic!("expected a parse error"),
    }
}

#[test]
fn the_time_column_prefers_earlier_names() {
    let headers: Vec<String> = [" x ", " Elapsed", "TIME ", "time"].iter().map(|s| s.to_string()).collect();
    assert_eq!(detect_time_column(&headers), Some(2));
    let headers: Vec<String> = ["a", "Epoch", "elapsed"].iter().map(|s| s.to_string()).collect();
    assert_eq!(detect_time_column(&headers), Some(2));
    let headers: Vec<String> = ["a", "b"].iter().map(|s| s.to_string()).collect();
    assert_eq!(detect_time_column(&headers), None);
}

#[test]
fn extensions_are_lowercased() {
    assert_eq!(extension("data/run.CSV"), "csv");
    assert_eq!(extension("data/run.Parquet"), "parquet");
    assert_eq!(extension("noext"), "");
    assert_eq!(extension(".hidden"), "");
}

#[test]
fn symbol_slots_follow_sorted_variable_order() {
    let f = Formula::parse("speed > 3 and rpm < speed + brake").unwrap();
    let table = SymbolTable::from_formula(&f);
    assert_eq!(table.len(), 3);
    assert_eq!(table.index("brake"), Some(0));
    assert_eq!(table.index("rpm"), Some(1));
    assert_eq!(table.index("speed"), Some(2));
    assert_eq!(table.index("gear"), None);
}

#[test]
fn defaults_of_the_settings() {
    assert_eq!(default_seed(), 42);
    assert_eq!(IntervalMethod::default(), IntervalMethod::Wilson);
    assert_eq!(Interpolation::default(), Interpolation::Linear);
}
