//! Trusted boundary to the external collaborators of the pipeline: lazy
//! path-backed payload reads, the Python source marker scan, and the
//! packed resource-table encoder.  The bytecode compiler service is not
//! called from here: its protocol can panic when the helper process dies,
//! so the caller drives it and hands the library the replies.
//!
//! Every function here is `external_body`: its contract is believed, not
//! proved.  Contracts state only what the called crate's source shows.

use vstd::prelude::*;

use crate::error::PackagingError;
use python_packed_resources::data::ResourceFlavor as RawFlavor;
use std::borrow::Cow;
use std::path::PathBuf;

verus! {

/// Relies on `python_packaging::resource::DataLocation::resolve`, which reads
/// the file at `path` with `std::fs::read`.  What comes back depends on the
/// filesystem, so nothing is promised of the bytes.
#[verifier::external_body]
pub(crate) fn read_path_bytes(path: &str) -> (r: Result<Vec<u8>, PackagingError>)
    ensures
        r is Err ==> r.unwrap_err() is IoError,
{
    let location = python_packaging::resource::DataLocation::Path(
        std::path::PathBuf::from(path),
    );
    location
        .resolve()
        .map_err(|e| PackagingError::IoError(format!("{:#}", e)))
}

/// Whether Python source text contains the module-identity marker
/// `__file__`, as decided by `python_packaging::python_source`: the bytes are
/// decoded per their declared source encoding and the decoded text is
/// searched for the marker's code points.
pub uninterp spec fn has_module_identity_marker(source: Seq<u8>) -> bool;

/// Relies on `python_packaging::python_source::has_dunder_file`: a pure
/// function of the source bytes.  Every path of its body returns `Ok`, so
/// the call always succeeds.
#[verifier::external_body]
pub(crate) fn source_has_marker(source: &Vec<u8>) -> (r: Result<bool, PackagingError>)
    ensures
        r is Ok,
        r matches Ok(b) ==> b == has_module_identity_marker(source@),
{
    python_packaging::python_source::has_dunder_file(source.as_slice())
        .map_err(|e| PackagingError::IoError(format!("{:#}", e)))
}

/// The packed-format resource record of `python_packed_resources`, carried
/// opaquely between the conversion wrappers and the encoder.
#[verifier::external_type_specification]
#[verifier::external_body]
#[verifier::reject_recursive_types(X)]
pub struct ExRawResource<'a, X: 'a>(python_packed_resources::data::Resource<'a, X>) where [X]: ToOwned<Owned = Vec<X>>;

/// Relies on `python_packed_resources::data::Resource`: builds a record
/// carrying the entry's kind, name and package flag.
#[verifier::external_body]
pub(crate) fn raw_resource_base(e: &crate::packaging::PackedResource) -> (r: python_packed_resources::data::Resource<'static, u8>)
{
    let flavor = match e.flavor {
        crate::resource::ResourceFlavor::Module => RawFlavor::Module,
        crate::resource::ResourceFlavor::BuiltinExtensionModule => RawFlavor::BuiltinExtensionModule,
        crate::resource::ResourceFlavor::Extension => RawFlavor::Extension,
        crate::resource::ResourceFlavor::SharedLibrary => RawFlavor::SharedLibrary,
    };
    python_packed_resources::data::Resource {
        flavor, name: Cow::Owned(e.name.clone()), is_package: e.is_package, ..Default::default()
    }
}

/// Relies on `python_packed_resources::data::Resource`: attaches the
/// entry's in-memory payloads to the record.
#[verifier::external_body]
pub(crate) fn raw_resource_set_memory(
    r: &mut python_packed_resources::data::Resource<'static, u8>,
    e: &crate::packaging::PackedResource,
)
{
    r.in_memory_source = e.in_memory_source.clone().map(Cow::Owned);
    r.in_memory_bytecode = e.in_memory_bytecode.clone().map(Cow::Owned);
    r.in_memory_bytecode_opt1 = e.in_memory_bytecode_opt1.clone().map(Cow::Owned);
    r.in_memory_bytecode_opt2 = e.in_memory_bytecode_opt2.clone().map(Cow::Owned);
    r.in_memory_extension_module_shared_library = e.in_memory_extension_module_shared_library.clone().map(Cow::Owned);
    r.in_memory_shared_library = e.in_memory_shared_library.clone().map(Cow::Owned);
}

/// Relies on `python_packed_resources::data::Resource`: attaches the
/// entry's name-keyed payload maps and dependency names to the record.
#[verifier::external_body]
pub(crate) fn raw_resource_set_maps(
    r: &mut python_packed_resources::data::Resource<'static, u8>,
    e: &crate::packaging::PackedResource,
)
{
    r.shared_library_dependency_names = e.shared_library_dependency_names.clone().map(|v| v.into_iter().map(Cow::Owned).collect());
    r.in_memory_package_resources = e.in_memory_package_resources.clone().map(|v| v.into_iter().map(|(k, d)| (Cow::Owned(k), Cow::Owned(d))).collect());
    r.in_memory_distribution_resources = e.in_memory_distribution_resources.clone().map(|v| v.into_iter().map(|(k, d)| (Cow::Owned(k), Cow::Owned(d))).collect());
}

/// Relies on `python_packed_resources::data::Resource`: attaches the
/// entry's relative install paths to the record.
#[verifier::external_body]
pub(crate) fn raw_resource_set_paths(
    r: &mut python_packed_resources::data::Resource<'static, u8>,
    e: &crate::packaging::PackedResource,
)
{
    r.relative_path_module_source = e.relative_path_module_source.clone().map(|s| Cow::Owned(PathBuf::from(s)));
    r.relative_path_module_bytecode = e.relative_path_module_bytecode.clone().map(|s| Cow::Owned(PathBuf::from(s)));
    r.relative_path_module_bytecode_opt1 = e.relative_path_module_bytecode_opt1.clone().map(|s| Cow::Owned(PathBuf::from(s)));
    r.relative_path_module_bytecode_opt2 = e.relative_path_module_bytecode_opt2.clone().map(|s| Cow::Owned(PathBuf::from(s)));
    r.relative_path_extension_module_shared_library = e.relative_path_extension_module_shared_library.clone().map(|s| Cow::Owned(PathBuf::from(s)));
}

/// Relies on `python_packed_resources::data::Resource`: attaches the
/// entry's package and distribution resource install paths to the record.
#[verifier::external_body]
pub(crate) fn raw_resource_set_resource_paths(
    r: &mut python_packed_resources::data::Resource<'static, u8>,
    e: &crate::packaging::PackedResource,
)
{
    r.relative_path_package_resources = e.relative_path_package_resources.clone().map(|v| v.into_iter().map(|(k, p)| (Cow::Owned(k), Cow::Owned(PathBuf::from(p)))).collect());
    r.relative_path_distribution_resources = e.relative_path_distribution_resources.clone().map(|v| v.into_iter().map(|(k, p)| (Cow::Owned(k), Cow::Owned(PathBuf::from(p)))).collect());
}

/// Relies on `python_packed_resources::writer::write_embedded_resources_v1`:
/// serializes the entries, converted to the packed format's records, into
/// the versioned byte format.  Writing into a vector cannot fail, and with
/// every length within the format's fields (`encodable_entry`) the size
/// conversions cannot either, so the call then succeeds.  The byte layout
/// is the encoder's own, and for name-keyed payload maps it follows the
/// iteration order of the hash maps the records carry, which is seeded per
/// process; so nothing is promised of the bytes.
#[verifier::external_body]
pub(crate) fn encode_packed_table(
    entries: &Vec<(String, crate::packaging::PackedResource)>,
) -> (r: Result<Vec<u8>, PackagingError>)
    ensures
        (forall|i: int|
            0 <= i < entries@.len() ==> crate::packaging::encodable_entry(
                (#[trigger] entries@[i]).1,
            )) ==> r is Ok,
        r is Err ==> r.unwrap_err() is EncodeError,
{
    let mut raws: Vec<python_packed_resources::data::Resource<'static, u8>> = Vec::new();
    for p in entries.iter() {
        let mut raw = raw_resource_base(&p.1);
        raw_resource_set_memory(&mut raw, &p.1);
        raw_resource_set_maps(&mut raw, &p.1);
        raw_resource_set_paths(&mut raw, &p.1);
        raw_resource_set_resource_paths(&mut raw, &p.1);
        raws.push(raw);
    }
    let mut out: Vec<u8> = Vec::new();
    python_packed_resources::writer::write_embedded_resources_v1(raws.as_slice(), &mut out, None)
        .map_err(|e| PackagingError::EncodeError(format!("{:#}", e)))?;
    Ok(out)
}

} // verus!
