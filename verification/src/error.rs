//! The error type shared by the analysis library.

use vstd::prelude::*;

verus! {

/// A classified analysis failure. Any failure aborts the whole run; there is
/// no partial-result mode.
#[derive(Debug)]
pub enum AnalysisError {
    /// A version-catalog document could not be decoded.
    TomlParsing(String),
    /// A command-line option carried a value outside its allowed range.
    Validation(String),
}

/// Mathematical image of an `AnalysisError`.
pub enum AnalysisErrorV {
    TomlParsing(Seq<char>),
    Validation(Seq<char>),
}

impl View for AnalysisError {
    type V = AnalysisErrorV;

    open spec fn view(&self) -> AnalysisErrorV {
        match self {
            AnalysisError::TomlParsing(m) => AnalysisErrorV::TomlParsing(m@),
            AnalysisError::Validation(m) => AnalysisErrorV::Validation(m@),
        }
    }
}

impl DeepView for AnalysisError {
    type V = AnalysisErrorV;

    open spec fn deep_view(&self) -> AnalysisErrorV {
        self.view()
    }
}

/// The rendered form of an error: a class prefix followed by the detail.
pub open spec fn spec_error_message(e: AnalysisErrorV) -> Seq<char> {
    match e {
        AnalysisErrorV::TomlParsing(m) => "TOML parsing error: "@ + m,
        AnalysisErrorV::Validation(m) => "Validation error: "@ + m,
    }
}

impl AnalysisError {
    /// A human-readable description of the failure.
    pub fn message(&self) -> (r: String)
        ensures
            r@ == spec_error_message(self@),
    {
        match self {
            AnalysisError::TomlParsing(m) => {
                let mut s = "TOML parsing error: ".to_owned();
                s.append(m.as_str());
                s
            },
            AnalysisError::Validation(m) => {
                let mut s = "Validation error: ".to_owned();
                s.append(m.as_str());
                s
            },
        }
    }
}

} // verus!
