//! The errors of the engine.

use vstd::prelude::*;
use vstd::string::StringExecFns;

verus! {

/// What can go wrong in the engine.
#[derive(Debug)]
pub enum SquishError {
    /// Any other failure, with its reason.
    GenericError(String),
    /// The network helper's control socket did not accept a connection in time.
    SlirpSocketCouldntBeFound,
    /// The base-image release manifest is not a list of releases.
    AlpineManifestInvalid,
    /// The base-image release manifest lists no minimal root filesystem.
    AlpineManifestMissing,
    /// The minimal root filesystem's entry names no file.
    AlpineManifestFileMissing,
    /// A cgroup controller name is not one that the engine knows.
    CgroupDelegationInvalid,
    /// A cgroup path holds no slice.
    CgroupNoMoreSlices,
    /// A manifest is not well-typed; the offending key.
    ManifestParse(String),
    /// A requested host port is already bound.
    PortInUse(u16),
    /// The executor did not report a guest PID; its diagnostic output.
    ExecutorFailed(String),
    /// The base image could not be fetched; the reason.
    ImageUnavailable(String),
    /// The network helper refused a port forward; the forwards that were
    /// applied and those that were not, as (host, container) pairs. What was
    /// applied is left in place.
    PortForwardRejected(Vec<(u16, u16)>, Vec<(u16, u16)>),
    /// The registry already held the new container's id or PID.
    RegistryConflict,
    /// No container has the given id.
    NotFound,
    /// A container with the same id or PID is already registered.
    Duplicate,
}

/// A generic error carrying `reason`.
pub fn err<T>(reason: &str) -> (r: Result<T, SquishError>)
    ensures
        r matches Err(SquishError::GenericError(s)) && s@ == reason@,
{
    Err(SquishError::GenericError(String::from_str(reason)))
}

} // verus!
