//! Core for packaging Python resources into a self-contained binary.
//!
//! Callers add resource descriptors (source modules, bytecode requests,
//! package data, extension modules, shared libraries) one at a time under a
//! placement policy.  A single `package` operation then infers missing parent
//! packages, materializes bytecode through an external compiler, and produces
//! an immutable result from which the packed resource table, the auxiliary
//! install files and the native linking plan are derived.

pub mod collector;
pub mod embedded;
pub mod error;
pub mod order;
pub mod packaging;
pub mod laws;
pub mod manifest;
pub mod paths;
pub mod smap;
pub mod sset;
pub mod extension;
pub mod externals;
pub mod policy;
pub mod resource;
