use vstd::prelude::*;

verus! {

/// The failure classes that a caller of the launcher can tell apart by exit code.
#[derive(Debug, PartialEq, Eq, Structural, Clone, Copy)]
pub enum SandboxExecError {
    /// The permission specification or the configuration is wrong.
    ApiError,
    /// No usable sandbox mechanism, or the mechanism failed.
    SandboxError,
    /// The child process could not be started.
    ExecError,
    /// The child ran and failed.
    ChildError,
}

impl SandboxExecError {
    /// The exit code reported for this failure class.
    pub open spec fn spec_code(self) -> i32 {
        match self {
            SandboxExecError::ApiError => 1,
            SandboxExecError::SandboxError => 2,
            SandboxExecError::ExecError => 3,
            SandboxExecError::ChildError => 4,
        }
    }

    /// The process exit code for this failure class.
    pub fn code(&self) -> (r: i32)
        ensures
            r == self.spec_code(),
    {
        match self {
            SandboxExecError::ApiError => 1,
            SandboxExecError::SandboxError => 2,
            SandboxExecError::ExecError => 3,
            SandboxExecError::ChildError => 4,
        }
    }
}

/// Why a permission specification was rejected.
#[derive(Debug, PartialEq, Eq, Structural, Clone, Copy)]
pub enum ParseError {
    /// A raw byte outside the plain set that does not start an escape.
    InvalidByte(u8),
    /// A byte inside an escape that is neither the `x` marker nor a hex digit.
    InvalidEscapeByte(u8),
    /// The input ends inside an escape.
    IncompleteEscape,
    /// The unescaped bytes are not well-formed UTF-8.
    InvalidUtf8,
    /// The input ends with a key that has no `:` and no value.
    IncompletePair,
    /// `AllowNetwork` with a value other than `in` or `out`.
    InvalidPermission,
    /// A key that names no permission.
    UnknownKey,
}

impl ParseError {
    /// Every specification error is reported as a configuration failure.
    pub fn kind(&self) -> (r: SandboxExecError)
        ensures
            r == SandboxExecError::ApiError,
    {
        SandboxExecError::ApiError
    }
}

} // verus!
