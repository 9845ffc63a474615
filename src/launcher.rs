//! The decisions around running the child: whether to run at all without a native
//! sandbox, and how the child's end maps to the launcher's result.
use vstd::prelude::*;
use crate::error::SandboxExecError;

verus! {

/// On a platform without a native sandbox: run the child unsandboxed only when the
/// opportunistic mode was chosen, else refuse before anything is spawned.
pub fn fallback_decision(opportunistic: bool) -> (r: Result<(), SandboxExecError>)
    ensures
        opportunistic ==> r is Ok,
        !opportunistic ==> r == Err::<(), SandboxExecError>(SandboxExecError::SandboxError),
{
    if opportunistic {
        Ok(())
    } else {
        Err(SandboxExecError::SandboxError)
    }
}

/// How the launch ends: a child that could not be started is an exec failure, one
/// that exited unsuccessfully (with a non-zero code or by a signal) is a child
/// failure, and only a successful exit is success.
pub fn launch_outcome(spawned: bool, exited_successfully: bool) -> (r: Result<(), SandboxExecError>)
    ensures
        !spawned ==> r == Err::<(), SandboxExecError>(SandboxExecError::ExecError),
        spawned && !exited_successfully ==> r == Err::<(), SandboxExecError>(
            SandboxExecError::ChildError,
        ),
        spawned && exited_successfully ==> r is Ok,
{
    if !spawned {
        Err(SandboxExecError::ExecError)
    } else if !exited_successfully {
        Err(SandboxExecError::ChildError)
    } else {
        Ok(())
    }
}

/// The launcher's own exit code: zero on success, else the failure's code.
pub fn exit_code(result: Result<(), SandboxExecError>) -> (r: i32)
    ensures
        match result {
            Ok(()) => r == 0,
            Err(e) => r == e.spec_code(),
        },
{
    match result {
        Ok(()) => 0,
        Err(e) => e.code(),
    }
}

} // verus!
