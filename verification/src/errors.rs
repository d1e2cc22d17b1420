use vstd::prelude::*;

verus! {

/// Errors reported by the library, following a three-part taxonomy:
/// validation errors (caller misuse), store errors (the backing store is in
/// an unexpected shape), and mismatches detected when comparing a submitted
/// experiment against stored data.
#[derive(Debug, Clone, Copy, PartialEq, Eq, Structural)]
pub enum Error {
    /// A string did not name any data type.
    UnknownDataTypeName,
    /// A textual value is not a valid encoding for the declared data type.
    InvalidValue,
    /// A value's variant does not match the variable's declared data type.
    TypeMismatch,
    /// A variable name does not occur among the relevant variables.
    UnknownVariable,
    /// The supplied input values do not cover the version's input variables
    /// exactly (a variable is missing, duplicated, or unexpected).
    InputVariableMismatch,
    /// The reported measurements do not cover the version's output variables
    /// exactly (a variable is missing, duplicated, or unexpected).
    MeasurementMismatch,
    /// A freshly generated id collides with an id already in the store.
    DuplicateId,
    /// A stored experiment with this name has a different description.
    DescriptionMismatch,
    /// A stored experiment with this name has a different researcher entry.
    ResearcherMismatch,
    /// A stored experiment with this name has a different variable set.
    VariableSetMismatch,
    /// A run number does not belong to any run of the experiment.
    UnknownRunNumber,
    /// A run-number list or range could not be parsed.
    InvalidRunNumbers,
    /// No run with this id is in the store.
    UnknownRun,
    /// A default configuration entry is already set.
    DefaultAlreadySet,
    /// No configuration entry with this name exists.
    UnknownEntry,
    /// The operation is not offered by this library.
    Unsupported,
}

impl Error {
    /// A short human-readable description of the error.
    pub fn message(&self) -> &'static str {
        match self {
            Error::UnknownDataTypeName => "invalid name for DataType",
            Error::InvalidValue => "value does not match the declared data type",
            Error::TypeMismatch => "wrong kind of value for the variable",
            Error::UnknownVariable => "no variable with this name found",
            Error::InputVariableMismatch => "input values do not match the set of input variables",
            Error::MeasurementMismatch => "missing or extra measurements for output variables",
            Error::DuplicateId => "generated id already exists in the store",
            Error::DescriptionMismatch => "experiment data does not match: different description",
            Error::ResearcherMismatch => "experiment data does not match: different researchers",
            Error::VariableSetMismatch => "experiment data does not match: different variables",
            Error::UnknownRunNumber => "no run found with this run number",
            Error::InvalidRunNumbers => "could not parse run numbers",
            Error::UnknownRun => "no run with this id found",
            Error::DefaultAlreadySet => "an entry is already set as the default",
            Error::UnknownEntry => "no configuration entry with this name",
            Error::Unsupported => "operation is not supported",
        }
    }
}

} // verus!
