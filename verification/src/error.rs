//! Error kinds surfaced by the packaging pipeline.

use vstd::prelude::*;
use vstd::string::*;

verus! {

/// A fatal failure of the packaging pipeline.
///
/// Every failure aborts the operation that raised it; nothing in this crate
/// attempts partial recovery.
#[derive(Clone, Debug, PartialEq, Eq)]
pub enum PackagingError {
    /// A resource add conflicted with the active placement policy.
    PolicyViolation,
    /// Byte data required for the requested placement is absent.
    /// Carries the name of the offending module.
    MissingPayload(String),
    /// The external bytecode compiler failed.
    /// Carries the name of the module being compiled and a detail message.
    CompileError(String, String),
    /// A path-backed payload could not be read, or the compiler service
    /// could not be started.  Carries a detail message.
    IoError(String),
    /// The resource table could not be serialized.  Carries a detail message.
    EncodeError(String),
    /// Two different payloads were registered for the same install path.
    /// Carries the path.
    FileConflict(String),
}

impl PackagingError {
    /// A short human-readable description of the failure.
    pub fn message(&self) -> String {
        match self {
            PackagingError::PolicyViolation => String::from_str(
                "resource placement is not permitted by the active policy",
            ),
            PackagingError::MissingPayload(name) => String::from_str(
                "required payload data is missing for module ",
            ).concat(name.as_str()),
            PackagingError::CompileError(name, detail) => String::from_str(
                "bytecode compilation failed for module ",
            ).concat(name.as_str()).concat(": ").concat(detail.as_str()),
            PackagingError::IoError(detail) => String::from_str("i/o failure: ").concat(
                detail.as_str(),
            ),
            PackagingError::EncodeError(detail) => String::from_str(
                "resource table serialization failed: ",
            ).concat(detail.as_str()),
            PackagingError::FileConflict(path) => String::from_str(
                "conflicting content for install path ",
            ).concat(path.as_str()),
        }
    }
}

} // verus!
