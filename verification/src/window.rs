//! Window control: the status a process exits with.
use vstd::prelude::*;

verus! {

/// The status that the process exits with.
#[derive(Clone, Copy, PartialEq, Eq, Structural, Debug)]
pub struct ExitStatus(i32);

impl ExitStatus {
    /// The status of a run that succeeded.
    pub fn success() -> (r: Self)
        ensures
            r.code() == 0,
    {
        ExitStatus(0)
    }

    /// The status of a run that failed.
    pub fn failure() -> (r: Self)
        ensures
            r.code() == 1,
    {
        ExitStatus(1)
    }

    /// The status's code.
    pub closed spec fn code(&self) -> i32 {
        self.0
    }

    /// The status's code.
    pub fn exit_code(&self) -> (r: i32)
        ensures
            r == self.code(),
    {
        self.0
    }
}

/// Why a run of the application counts as failed.
#[derive(Clone, Copy, PartialEq, Eq, Structural, Debug)]
pub enum RunFailure {
    /// The application exited with the failure status.
    FailureStatus,
    /// The application exited with a status that is neither success nor
    /// failure; its code.
    UnknownStatus(i32),
}

/// What a run of the application that exited with `status` comes to: the
/// success status is success, the failure status a failure, and any other
/// status a failure that names its code.
pub fn run_result(status: ExitStatus) -> (r: Result<(), RunFailure>)
    ensures
        status.code() == 0 ==> r is Ok,
        status.code() == 1 ==> r == Err::<(), RunFailure>(RunFailure::FailureStatus),
        status.code() != 0 && status.code() != 1 ==> r == Err::<(), RunFailure>(RunFailure::UnknownStatus(status.code())),
{
    let code = status.exit_code();
    if code == 0 {
        Ok(())
    } else if code == 1 {
        Err(RunFailure::FailureStatus)
    } else {
        Err(RunFailure::UnknownStatus(code))
    }
}

} // verus!
