use vstd::prelude::*;

verus! {

/// A configuration fault detected before any line is processed.
///
/// All of these are fatal at startup: the assignment engine itself never
/// fails once a delimiter and a non-empty palette exist.
#[derive(Clone, Copy, Debug, PartialEq, Eq, Structural)]
pub enum ConfigError {
    /// The delimiter pattern could not be compiled.
    BadDelimiter,
    /// An entry of the color filter list is not a valid color id.
    BadFilterEntry,
    /// The filter excludes the entire color range, leaving nothing to assign.
    EmptyPalette,
}

} // verus!
