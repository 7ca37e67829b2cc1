use vstd::prelude::*;

verus! {

/// The two error taxonomies of the interpreter: one compile-time kind and
/// three runtime kinds, kept apart so a host can react to each differently.
#[allow(non_camel_case_types)]
#[derive(PartialEq, Eq, Structural, Clone, Copy, Debug)]
pub enum InterpretError {
    COMPILE_ERROR,
    RUNTIME_ERROR,
    RUNTIME_UNRECOGNIZED_VARIABLE_ERROR,
    RUNTIME_ASSERT_ERROR,
}

impl InterpretError {
    /// A stable, human-readable name for the error kind.
    pub fn message(&self) -> (s: &'static str)
        ensures
            *self == InterpretError::COMPILE_ERROR ==> s@ == "COMPILE_ERROR"@,
            *self == InterpretError::RUNTIME_ERROR ==> s@ == "RUNTIME_ERROR"@,
            *self == InterpretError::RUNTIME_UNRECOGNIZED_VARIABLE_ERROR ==> s@
                == "RUNTIME_UNRECOGNIZED_VARIABLE_ERROR"@,
            *self == InterpretError::RUNTIME_ASSERT_ERROR ==> s@ == "RUNTIME_ASSERT_ERROR"@,
    {
        match self {
            InterpretError::COMPILE_ERROR => "COMPILE_ERROR",
            InterpretError::RUNTIME_ERROR => "RUNTIME_ERROR",
            InterpretError::RUNTIME_UNRECOGNIZED_VARIABLE_ERROR => {
                "RUNTIME_UNRECOGNIZED_VARIABLE_ERROR"
            },
            InterpretError::RUNTIME_ASSERT_ERROR => "RUNTIME_ASSERT_ERROR",
        }
    }
}

} // verus!
