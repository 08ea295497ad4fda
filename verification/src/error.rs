//! The library's error types.
use vstd::prelude::*;

verus! {

/// A formula failed to parse.
#[derive(Debug, Clone, PartialEq)]
pub struct ParseError {
    /// What went wrong.
    pub message: String,
    /// The 1-based line of the offending token.
    pub line: usize,
    /// The 1-based column of the offending token.
    pub column: usize,
}

/// What a [`ParseError`] says: its message and its 1-based position.
pub struct SpecParseError {
    pub message: Seq<char>,
    pub line: int,
    pub column: int,
}

impl View for ParseError {
    type V = SpecParseError;

    open spec fn view(&self) -> SpecParseError {
        SpecParseError { message: self.message@, line: self.line as int, column: self.column as int }
    }
}

impl ParseError {
    /// Builds a parse error at a 1-based line and column.
    pub fn at(message: String, line: usize, column: usize) -> (r: ParseError)
        ensures
            r@ == (SpecParseError { message: message@, line: line as int, column: column as int }),
    {
        ParseError { message, line, column }
    }
}

/// Everything that can go wrong in the library, as one enum.
#[derive(Debug, Clone, PartialEq)]
pub enum Error {
    /// A formula string could not be parsed.
    Parse(ParseError),
    /// A formula refers to a variable with no value available.
    UnknownVariable {
        /// The variable as written in the formula.
        name: String,
    },
    /// An arithmetic term divided by zero.
    DivisionByZero {
        /// The sub-expression that divided by zero.
        term: String,
    },
    /// A predicate called a function the evaluator does not provide.
    UnknownFunction {
        /// The function name as written.
        name: String,
        /// How many arguments it was given.
        arity: usize,
    },
    /// A known function was called with the wrong number of arguments.
    ArityMismatch {
        /// The function name as written.
        name: String,
        /// How many arguments the function takes.
        expected: usize,
        /// How many arguments it was given.
        found: usize,
    },
    /// A signal's sample count did not match the trace's time points.
    SignalLengthMismatch {
        /// The signal whose length was wrong.
        variable: String,
        /// The number of time points the trace has.
        expected: usize,
        /// The number of samples the signal provided.
        found: usize,
    },
    /// Robustness was requested over a trace with no samples.
    EmptyTrace,
    /// A packed streaming update carried fewer values than the formula needs.
    PackedLength {
        /// The number of variables the formula references.
        expected: usize,
        /// The number of values supplied.
        found: usize,
    },
    /// A probabilistic operator reached deterministic evaluation.
    ProbabilisticOperator,
    /// The current build, target, or evaluation path does not support a feature.
    Unsupported {
        /// What is not supported.
        feature: String,
    },
    /// Statistical checking was asked to run on a formula not wrapped in the
    /// probabilistic operator.
    NotProbabilistic,
    /// A noise model's parameters were invalid.
    InvalidNoiseModel {
        /// The distribution, such as `Gaussian`.
        model: String,
        /// What was wrong with its parameters.
        reason: String,
    },
    /// A trace could not be read.
    Ingest {
        /// The file being read, if any.
        path: Option<String>,
        /// The data row at fault, if any.
        row: Option<usize>,
        /// What went wrong.
        message: String,
    },
    /// A model could not be fitted to data.
    Fit {
        /// The fitting method.
        method: String,
        /// What went wrong.
        message: String,
    },
    /// A procedure was handed an invalid configuration.
    InvalidConfig {
        /// The procedure, for example `interval` or `specification`.
        context: String,
        /// What was wrong with the configuration.
        message: String,
    },
    /// Adaptive splitting failed.
    Splitting {
        /// The particle being advanced.
        particle: usize,
        /// The level being split.
        level: usize,
        /// What went wrong.
        message: String,
    },
    /// A formula could not be lowered to a GPU shader.
    Transpilation {
        /// Why the formula cannot run on the GPU.
        message: String,
    },
    /// A GPU run failed after a device was acquired.
    Gpu {
        /// What went wrong on the device.
        message: String,
    },
}

} // verus!
