//! Resource descriptors handed to the collector by callers.

use vstd::prelude::*;

verus! {

/// The kind of a collected resource entry.
#[derive(Clone, Copy, Debug, PartialEq, Eq, Structural, Default)]
pub enum ResourceFlavor {
    /// A Python module (or package) defined by source or bytecode.
    #[default]
    Module,
    /// A native extension module linked into the binary and registered with
    /// the builtin importer.
    BuiltinExtensionModule,
    /// A native extension module loaded as a shared library.
    Extension,
    /// A standalone shared library resource.
    SharedLibrary,
}

/// An abstract location for binary payload data.
///
/// Data is either resident in memory or read lazily from a filesystem path.
#[derive(Clone, Debug, PartialEq, Eq)]
pub enum DataLocation {
    /// Payload resident in memory.
    Memory(Vec<u8>),
    /// Payload read on demand from this filesystem path.
    Path(String),
}

impl DataLocation {
    /// Resolve the raw content of this location.
    ///
    /// A memory-backed location always resolves to its exact bytes; a
    /// path-backed location resolves to whatever the file held when it was
    /// read, or an i/o error.
    pub fn resolve(&self) -> (r: Result<Vec<u8>, crate::error::PackagingError>)
        ensures
            self is Memory ==> r is Ok,
            forall|b: Vec<u8>|
                self == DataLocation::Memory(b) && r is Ok ==> r.unwrap()@ == b@,
            r is Err ==> r.unwrap_err() is IoError,
    {
        match self {
            DataLocation::Memory(data) => Ok(data.clone()),
            DataLocation::Path(p) => crate::externals::read_path_bytes(p.as_str()),
        }
    }
}

/// An optimization level for generated bytecode.
#[derive(Clone, Copy, Debug, PartialEq, Eq, Structural)]
pub enum BytecodeOptimizationLevel {
    /// No optimization.
    Zero,
    /// Basic optimization.
    One,
    /// Aggressive optimization.
    Two,
}

/// Whether two data locations refer to the same payload: same variant and
/// same bytes or path.
pub open spec fn loc_eq(a: DataLocation, b: DataLocation) -> bool {
    match (a, b) {
        (DataLocation::Memory(x), DataLocation::Memory(y)) => x@ == y@,
        (DataLocation::Path(p), DataLocation::Path(q)) => p@ == q@,
        _ => false,
    }
}

/// Whether two optional data locations agree, by `loc_eq`.
pub open spec fn opt_loc_eq(a: Option<DataLocation>, b: Option<DataLocation>) -> bool {
    match (a, b) {
        (Some(x), Some(y)) => loc_eq(x, y),
        (None, None) => true,
        _ => false,
    }
}

/// Copy a byte vector.
pub fn clone_bytes(v: &Vec<u8>) -> (r: Vec<u8>)
    ensures
        r@ == v@,
{
    let mut r: Vec<u8> = Vec::new();
    let n: usize = v.len();
    let mut i: usize = 0;
    while i < n
        invariant
            0 <= i <= n,
            n == v@.len(),
            r@ == v@.take(i as int),
        decreases n - i,
    {
        r.push(v[i]);
        proof {
            assert(r@ =~= v@.take(i + 1));
        }
        i = i + 1;
    }
    proof {
        assert(v@.take(n as int) =~= v@);
    }
    r
}

impl DataLocation {
    /// Copy this location.
    pub fn duplicate(&self) -> (r: DataLocation)
        ensures
            loc_eq(r, *self),
    {
        match self {
            DataLocation::Memory(b) => DataLocation::Memory(clone_bytes(b)),
            DataLocation::Path(p) => DataLocation::Path(p.clone()),
        }
    }
}

impl BytecodeOptimizationLevel {
    /// The numeric value of this optimization level.
    pub open spec fn spec_level(&self) -> int {
        match self {
            BytecodeOptimizationLevel::Zero => 0,
            BytecodeOptimizationLevel::One => 1,
            BytecodeOptimizationLevel::Two => 2,
        }
    }

    /// The numeric value of this optimization level.
    pub fn as_i32(&self) -> (r: i32)
        ensures
            r == self.spec_level(),
    {
        match self {
            BytecodeOptimizationLevel::Zero => 0,
            BytecodeOptimizationLevel::One => 1,
            BytecodeOptimizationLevel::Two => 2,
        }
    }
}

/// A Python module defined via source code.
#[derive(Clone, Debug, PartialEq)]
pub struct PythonModuleSource {
    /// The fully qualified dotted module name.
    pub name: String,
    /// The module's source code.
    pub source: DataLocation,
    /// Whether this module is also a package.
    pub is_package: bool,
    /// Tag applied to bytecode cache file names, e.g. `cpython-37`.
    pub cache_tag: String,
}

/// A request to generate bytecode for a module from source code.
#[derive(Clone, Debug, PartialEq)]
pub struct PythonModuleBytecodeFromSource {
    /// The fully qualified dotted module name.
    pub name: String,
    /// The module's source code.
    pub source: DataLocation,
    /// The optimization level for the generated bytecode.
    pub optimize_level: BytecodeOptimizationLevel,
    /// Whether this module is also a package.
    pub is_package: bool,
    /// Tag applied to bytecode cache file names.
    pub cache_tag: String,
}

/// Data belonging to a Python package, addressed by a relative name.
#[derive(Clone, Debug, PartialEq)]
pub struct PythonPackageResource {
    /// The leaf-most package this resource belongs to.
    pub leaf_package: String,
    /// The path of this resource relative to `leaf_package`.
    pub relative_name: String,
    /// The resource's payload.
    pub data: DataLocation,
}

/// A file carrying Python package distribution metadata.
#[derive(Clone, Debug, PartialEq)]
pub struct PythonPackageDistributionResource {
    /// The package this metadata belongs to.
    pub package: String,
    /// The package's version string.
    pub version: String,
    /// The file's name within the distribution metadata directory.
    pub name: String,
    /// The file's payload.
    pub data: DataLocation,
}

/// A native extension module supplied by the caller.
#[derive(Clone, Debug, PartialEq)]
pub struct PythonExtensionModule {
    /// The fully qualified dotted module name.
    pub name: String,
    /// The name of the C initialization function, if known.
    pub init_fn: Option<String>,
    /// File suffix for the compiled shared library, e.g. `.so`.
    pub extension_file_suffix: String,
    /// The compiled shared library, if one exists.
    pub extension_data: Option<DataLocation>,
    /// Object file data to link the extension into the binary.
    pub object_file_data: Vec<Vec<u8>>,
    /// Whether this module is also a package.
    pub is_package: bool,
    /// Names of libraries the extension links against.
    pub libraries: Vec<String>,
}

} // verus!
