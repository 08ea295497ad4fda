//! A monitor: one handle that pairs a formula with how to check it.
use crate::error::Error;
use crate::formula::ast::{Formula, SpecFormula};
use crate::formula::parser::spec_parse;
use vstd::prelude::*;

verus! {

/// How offline robustness reads between samples.
#[derive(Debug, Clone, Copy, PartialEq, Eq, Structural)]
pub enum TimeMode {
    /// Evaluate at the sample points only.
    Discrete,
    /// Interpolate piecewise-linearly between samples.
    Dense,
}

impl Default for TimeMode {
    fn default() -> (r: TimeMode)
        ensures
            r == TimeMode::Discrete,
    {
        TimeMode::Discrete
    }
}

/// How a [`Monitor`] checks its formula: for now, the time mode.
#[derive(Debug, Clone, Copy)]
pub struct MonitorConfig {
    time: TimeMode,
}

impl View for MonitorConfig {
    type V = TimeMode;

    /// The time mode in force.
    closed spec fn view(&self) -> TimeMode {
        self.time
    }
}

impl Default for MonitorConfig {
    fn default() -> (r: MonitorConfig)
        ensures
            r@ == TimeMode::Discrete,
    {
        MonitorConfig { time: TimeMode::Discrete }
    }
}

impl MonitorConfig {
    /// The default configuration: discrete time.
    pub fn new() -> (r: MonitorConfig)
        ensures
            r@ == TimeMode::Discrete,
    {
        MonitorConfig::default()
    }

    /// The same configuration with the time mode set to `mode`.
    pub fn time(self, mode: TimeMode) -> (r: MonitorConfig)
        ensures
            r@ == mode,
    {
        MonitorConfig { time: mode }
    }

    /// The time mode in force.
    pub fn time_mode(&self) -> (r: TimeMode)
        ensures
            r == self@,
    {
        self.time
    }
}

/// A formula paired with how to check it.
pub struct Monitor {
    formula: Formula,
    config: MonitorConfig,
}

impl Monitor {
    /// Parses `formula` and holds it under `config`; a malformed formula gives
    /// the parse error.
    pub fn new(formula: &str, config: MonitorConfig) -> (r: Result<Monitor, Error>)
        requires
            formula@.len() < usize::MAX,
        ensures
            match (r, spec_parse(formula@)) {
                (Ok(m), Ok(f)) => m.formula_view() == f && m.config_view() == config@,
                (Err(Error::Parse(e)), Err(se)) => e@ == se,
                _ => false,
            },
    {
        match Formula::parse(formula) {
            Ok(f) => Ok(Monitor::from_formula(f, config)),
            Err(e) => Err(e),
        }
    }

    /// Holds an already-parsed `formula` under `config`.
    pub fn from_formula(formula: Formula, config: MonitorConfig) -> (r: Monitor)
        ensures
            r.formula_view() == formula@,
            r.config_view() == config@,
    {
        Monitor { formula, config }
    }

    /// The reading of the formula being monitored.
    pub closed spec fn formula_view(&self) -> SpecFormula {
        self.formula@
    }

    /// The time mode in force.
    pub closed spec fn config_view(&self) -> TimeMode {
        self.config@
    }

    /// The formula being monitored.
    pub fn formula(&self) -> (r: &Formula)
        ensures
            r@ == self.formula_view(),
    {
        &self.formula
    }

    /// The configuration in force.
    pub fn config(&self) -> (r: &MonitorConfig)
        ensures
            r@ == self.config_view(),
    {
        &self.config
    }
}

} // verus!
