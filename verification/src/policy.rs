//! Placement policy for collected resources.

use vstd::prelude::*;

verus! {

/// Where a resource's payload is placed at run time.
#[derive(Clone, Copy, Debug, PartialEq, Eq, Structural)]
pub enum ResourceLocation {
    /// The payload is embedded in the binary and loaded from memory.
    InMemory,
    /// The payload is installed on the filesystem relative to the binary.
    RelativePath,
}

/// Build-time policy dictating which placements resource adds may request.
#[derive(Clone, Debug, PartialEq, Eq)]
pub enum PythonResourcesPolicy {
    /// Only in-memory placement is permitted.
    InMemoryOnly,
    /// Only filesystem-relative placement, under the given prefix, is
    /// permitted.
    FilesystemRelativeOnly(String),
    /// In-memory placement is preferred but filesystem-relative placement
    /// under the given prefix is also permitted.
    PreferInMemoryFallbackFilesystemRelative(String),
}

/// Whether `policy` permits a resource placed at `location`.
pub open spec fn policy_allows(policy: PythonResourcesPolicy, location: ResourceLocation) -> bool {
    match policy {
        PythonResourcesPolicy::InMemoryOnly => location == ResourceLocation::InMemory,
        PythonResourcesPolicy::FilesystemRelativeOnly(_) => location
            == ResourceLocation::RelativePath,
        PythonResourcesPolicy::PreferInMemoryFallbackFilesystemRelative(_) => true,
    }
}

impl PythonResourcesPolicy {
    /// Check a requested placement against this policy.
    pub fn check_policy(&self, location: ResourceLocation) -> (r: Result<
        (),
        crate::error::PackagingError,
    >)
        ensures
            r is Ok <==> policy_allows(*self, location),
            r is Err ==> r == Result::<(), crate::error::PackagingError>::Err(
                crate::error::PackagingError::PolicyViolation,
            ),
    {
        match self {
            PythonResourcesPolicy::InMemoryOnly => {
                if location == ResourceLocation::InMemory {
                    Ok(())
                } else {
                    Err(crate::error::PackagingError::PolicyViolation)
                }
            },
            PythonResourcesPolicy::FilesystemRelativeOnly(_) => {
                if location == ResourceLocation::RelativePath {
                    Ok(())
                } else {
                    Err(crate::error::PackagingError::PolicyViolation)
                }
            },
            PythonResourcesPolicy::PreferInMemoryFallbackFilesystemRelative(_) => Ok(()),
        }
    }
}

} // verus!
