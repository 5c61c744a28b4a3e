//! Errors of the core pipeline.

use vstd::prelude::*;

verus! {

/// An error of the core pipeline. Decoding, encoding and I/O failures are
/// the concern of the surrounding program, not of this library.
#[derive(Clone, Copy, PartialEq, Eq, Structural, Debug)]
pub enum LowPolyError {
    /// More than one of the mutually exclusive point-count options was set.
    CLIError,
    /// The external colour mapper returned output that does not parse into
    /// exactly three byte-range integers.
    MapperError,
}

impl LowPolyError {
    /// A short description, for the surrounding program to print.
    pub fn message(&self) -> (r: &'static str)
        ensures
            self is CLIError ==> r@ == "only one of the point count options can be set"@,
            self is MapperError ==> r@
                == "the color mapper did not return three byte values"@,
    {
        match self {
            LowPolyError::CLIError => "only one of the point count options can be set",
            LowPolyError::MapperError => "the color mapper did not return three byte values",
        }
    }
}

} // verus!
