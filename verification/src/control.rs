use vstd::prelude::*;

verus! {

/// Truth value for external atoms.
#[derive(Debug, Clone, Copy, PartialEq, Eq, Structural)]
pub enum TruthValue {
    /// Let the solver decide.
    Free,
    /// Assign true.
    True,
    /// Assign false.
    False,
}

/// The code of [`TruthValue::Free`] in clingo's C interface.
pub const TRUTH_VALUE_FREE: i32 = 0;

/// The code of [`TruthValue::True`] in clingo's C interface.
pub const TRUTH_VALUE_TRUE: i32 = 1;

/// The code of [`TruthValue::False`] in clingo's C interface.
pub const TRUTH_VALUE_FALSE: i32 = 2;

impl TruthValue {
    /// The code of this truth value in clingo's C interface.
    pub open spec fn spec_to_raw(self) -> i32 {
        match self {
            TruthValue::Free => TRUTH_VALUE_FREE,
            TruthValue::True => TRUTH_VALUE_TRUE,
            TruthValue::False => TRUTH_VALUE_FALSE,
        }
    }

    /// The code of this truth value in clingo's C interface.
    pub fn to_raw(self) -> (r: i32)
        ensures
            r == self.spec_to_raw(),
    {
        match self {
            TruthValue::Free => TRUTH_VALUE_FREE,
            TruthValue::True => TRUTH_VALUE_TRUE,
            TruthValue::False => TRUTH_VALUE_FALSE,
        }
    }
}

/// Warning codes from the clingo logger.
#[derive(Debug, Clone, Copy, PartialEq, Eq, Structural)]
pub enum Warning {
    OperationUndefined,
    RuntimeError,
    AtomUndefined,
    FileIncluded,
    VariableUnbounded,
    GlobalVariable,
    Other,
}

impl Warning {
    /// The warning for a raw warning code of clingo's C interface
    /// (codes 0 to 5 in the order of the variants); any other code is
    /// `Other`.
    pub open spec fn spec_from_raw(code: i32) -> Warning {
        if code == 0 {
            Warning::OperationUndefined
        } else if code == 1 {
            Warning::RuntimeError
        } else if code == 2 {
            Warning::AtomUndefined
        } else if code == 3 {
            Warning::FileIncluded
        } else if code == 4 {
            Warning::VariableUnbounded
        } else if code == 5 {
            Warning::GlobalVariable
        } else {
            Warning::Other
        }
    }

    /// The warning for a raw warning code of clingo's C interface.
    pub fn from_raw(code: i32) -> (r: Warning)
        ensures
            r == Warning::spec_from_raw(code),
    {
        if code == 0 {
            Warning::OperationUndefined
        } else if code == 1 {
            Warning::RuntimeError
        } else if code == 2 {
            Warning::AtomUndefined
        } else if code == 3 {
            Warning::FileIncluded
        } else if code == 4 {
            Warning::VariableUnbounded
        } else if code == 5 {
            Warning::GlobalVariable
        } else {
            Warning::Other
        }
    }
}

/// Distinct truth values have distinct codes.
pub proof fn lemma_truth_codes_distinct(a: TruthValue, b: TruthValue)
    ensures
        a != b ==> a.spec_to_raw() != b.spec_to_raw(),
{
}

/// The warning codes 0 to 5 name six different warnings, none of them
/// `Other`; every other code is `Other`.
pub proof fn lemma_warning_codes(a: i32, b: i32)
    ensures
        0 <= a <= 5 ==> Warning::spec_from_raw(a) != Warning::Other,
        !(0 <= a <= 5) ==> Warning::spec_from_raw(a) == Warning::Other,
        0 <= a <= 5 && 0 <= b <= 5 && a != b ==> Warning::spec_from_raw(a) != Warning::spec_from_raw(
            b,
        ),
{
}

} // verus!
