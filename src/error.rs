//! The fatal conditions of a run, and the exit status of each.

use vstd::prelude::*;

verus! {

/// Every condition that ends a run.
#[derive(Clone, Copy, Debug, PartialEq, Eq, Structural)]
pub enum MlcError {
    /// No configuration file is present.
    ConfigNotFound,
    /// `mode` is neither `workspace` nor `repository`.
    InvalidMode,
    /// A repository specification is not `<index>::<name>`.
    MalformedSpec,
    /// A specification's index addresses no URL template.
    IndexOutOfRange,
    /// The operation needs repository mode.
    BuildInWorkspace,
    /// A requested package is not among the configured repositories.
    UnknownPackage,
    /// The package has no directory to build in.
    PackageDirNotFound,
    /// The process runs as the superuser.
    RunAsRoot,
}

/// The exit status that reports `e`: one per kind, none of them zero.
pub open spec fn exit_status(e: MlcError) -> i32 {
    match e {
        MlcError::ConfigNotFound => 1,
        MlcError::InvalidMode => 2,
        MlcError::MalformedSpec => 3,
        MlcError::IndexOutOfRange => 4,
        MlcError::BuildInWorkspace => 5,
        MlcError::UnknownPackage => 6,
        MlcError::PackageDirNotFound => 7,
        MlcError::RunAsRoot => 8,
    }
}

impl MlcError {
    /// The process exit status for this error.
    pub fn exit_code(&self) -> (r: i32)
        ensures
            r == exit_status(*self),
            r != 0,
    {
        match self {
            MlcError::ConfigNotFound => 1,
            MlcError::InvalidMode => 2,
            MlcError::MalformedSpec => 3,
            MlcError::IndexOutOfRange => 4,
            MlcError::BuildInWorkspace => 5,
            MlcError::UnknownPackage => 6,
            MlcError::PackageDirNotFound => 7,
            MlcError::RunAsRoot => 8,
        }
    }
}

/// Distinct errors exit with distinct statuses.
pub proof fn lemma_exit_status_distinct(a: MlcError, b: MlcError)
    ensures
        exit_status(a) == exit_status(b) <==> a == b,
{
}

/// Refuses to run as the superuser, whose effective user id is zero.
pub fn check_user(euid: u32) -> (r: Result<(), MlcError>)
    ensures
        r == (if euid == 0 { Err(MlcError::RunAsRoot) } else { Ok::<(), MlcError>(()) }),
{
    if euid == 0 {
        Err(MlcError::RunAsRoot)
    } else {
        Ok(())
    }
}

} // verus!
