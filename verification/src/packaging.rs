//! The packaging pipeline: package inference, bytecode materialization and
//! assembly of the immutable packaging result.

use vstd::prelude::*;
use vstd::string::*;

use crate::collector::{PrePackagedResource, PrePackagedResources};
use crate::error::PackagingError;
use crate::extension::ExtensionModuleBuildState;
use crate::manifest::FileManifest;
use crate::resource::{BytecodeOptimizationLevel, DataLocation, ResourceFlavor};
use crate::smap::SortedMap;

verus! {

/// A finalized resource entry: every payload resolved to bytes, bytecode
/// compiled, and install paths derived.
#[derive(Clone, Debug, PartialEq, Default)]
pub struct PackedResource {
    /// The kind of the entry.
    pub flavor: ResourceFlavor,
    /// The resource's name.
    pub name: String,
    /// Whether the entry is a package.
    pub is_package: bool,
    /// Source code embedded for in-memory import.
    pub in_memory_source: Option<Vec<u8>>,
    /// Compiled bytecode embedded for in-memory import.
    pub in_memory_bytecode: Option<Vec<u8>>,
    /// As above, at optimization level one.
    pub in_memory_bytecode_opt1: Option<Vec<u8>>,
    /// As above, at optimization level two.
    pub in_memory_bytecode_opt2: Option<Vec<u8>>,
    /// An extension module shared library embedded for in-memory import.
    pub in_memory_extension_module_shared_library: Option<Vec<u8>>,
    /// Package resource data embedded in memory, keyed by relative name.
    pub in_memory_package_resources: Option<Vec<(String, Vec<u8>)>>,
    /// Distribution metadata embedded in memory, keyed by file name.
    pub in_memory_distribution_resources: Option<Vec<(String, Vec<u8>)>>,
    /// A shared library embedded in memory.
    pub in_memory_shared_library: Option<Vec<u8>>,
    /// Names of shared libraries this entry depends on.
    pub shared_library_dependency_names: Option<Vec<String>>,
    /// Relative install path of the module's source file.
    pub relative_path_module_source: Option<String>,
    /// Relative install path of the module's bytecode file.
    pub relative_path_module_bytecode: Option<String>,
    /// As above, at optimization level one.
    pub relative_path_module_bytecode_opt1: Option<String>,
    /// As above, at optimization level two.
    pub relative_path_module_bytecode_opt2: Option<String>,
    /// Relative install path of the extension module's shared library.
    pub relative_path_extension_module_shared_library: Option<String>,
    /// Relative install paths of package resources, keyed by relative name.
    pub relative_path_package_resources: Option<Vec<(String, String)>>,
    /// Relative install paths of distribution metadata, keyed by file name.
    pub relative_path_distribution_resources: Option<Vec<(String, String)>>,
}

/// A string whose UTF-8 form fits the packed format's 16-bit name-length
/// fields.
pub open spec fn str_small(s: String) -> bool {
    vstd::utf8::encode_utf8(s@).len() <= 0xFFFF
}

/// An optional payload whose length fits the packed format's 32-bit
/// length fields.
pub open spec fn opt_bytes_ok(o: Option<Vec<u8>>) -> bool {
    match o {
        Some(v) => v@.len() <= 0xFFFFFFFF,
        None => true,
    }
}

/// An optional path string that fits the packed format's length fields.
pub open spec fn opt_str_small(o: Option<String>) -> bool {
    match o {
        Some(s) => str_small(s),
        None => true,
    }
}

/// Every count, name and payload of the entry fits the length fields of
/// the packed format, so the encoder's size conversions cannot fail on it.
pub open spec fn encodable_entry(pe: PackedResource) -> bool {
    &&& str_small(pe.name)
    &&& opt_bytes_ok(pe.in_memory_source)
    &&& opt_bytes_ok(pe.in_memory_bytecode)
    &&& opt_bytes_ok(pe.in_memory_bytecode_opt1)
    &&& opt_bytes_ok(pe.in_memory_bytecode_opt2)
    &&& opt_bytes_ok(pe.in_memory_extension_module_shared_library)
    &&& opt_bytes_ok(pe.in_memory_shared_library)
    &&& match pe.in_memory_package_resources {
        Some(v) => v@.len() <= 0xFFFF && forall|j: int|
            0 <= j < v@.len() ==> str_small((#[trigger] v@[j]).0) && v@[j].1@.len() <= 0xFFFFFFFF,
        None => true,
    }
    &&& match pe.in_memory_distribution_resources {
        Some(v) => v@.len() <= 0xFFFF && forall|j: int|
            0 <= j < v@.len() ==> str_small((#[trigger] v@[j]).0) && v@[j].1@.len() <= 0xFFFFFFFF,
        None => true,
    }
    &&& match pe.shared_library_dependency_names {
        Some(v) => v@.len() <= 0xFFFF && forall|j: int|
            0 <= j < v@.len() ==> str_small(#[trigger] v@[j]),
        None => true,
    }
    &&& opt_str_small(pe.relative_path_module_source)
    &&& opt_str_small(pe.relative_path_module_bytecode)
    &&& opt_str_small(pe.relative_path_module_bytecode_opt1)
    &&& opt_str_small(pe.relative_path_module_bytecode_opt2)
    &&& opt_str_small(pe.relative_path_extension_module_shared_library)
    &&& match pe.relative_path_package_resources {
        Some(v) => v@.len() <= 0xFFFF && forall|j: int|
            0 <= j < v@.len() ==> str_small((#[trigger] v@[j]).0) && str_small(v@[j].1),
        None => true,
    }
    &&& match pe.relative_path_distribution_resources {
        Some(v) => v@.len() <= 0xFFFF && forall|j: int|
            0 <= j < v@.len() ==> str_small((#[trigger] v@[j]).0) && str_small(v@[j].1),
        None => true,
    }
}

/// The packed entry `pe` is the finalized form of the collected entry `e`
/// stored under key `k`: same kind and flags, byte-exact in-memory payloads,
/// bytecode fields filled exactly where a source was collected, and install
/// paths derived deterministically from `k`.
pub open spec fn packed_entry_matches(
    pe: PackedResource,
    e: PrePackagedResource,
    k: Seq<char>,
) -> bool {
    &&& pe.flavor == e.flavor
    &&& pe.is_package == e.is_package
    &&& pe.name == e.name
    &&& (pe.in_memory_source is Some <==> e.in_memory_source is Some)
    &&& (e.in_memory_source matches Some(DataLocation::Memory(b))
        ==> (pe.in_memory_source matches Some(b2) && b2@ == b@))
    &&& (pe.in_memory_bytecode is Some <==> e.in_memory_bytecode_source is Some)
    &&& (pe.in_memory_bytecode_opt1 is Some <==> e.in_memory_bytecode_opt1_source is Some)
    &&& (pe.in_memory_bytecode_opt2 is Some <==> e.in_memory_bytecode_opt2_source is Some)
    &&& (pe.in_memory_extension_module_shared_library is Some
        <==> e.in_memory_extension_module_shared_library is Some)
    &&& (e.in_memory_extension_module_shared_library matches Some(DataLocation::Memory(b))
        ==> (pe.in_memory_extension_module_shared_library matches Some(b2) && b2@ == b@))
    &&& (pe.in_memory_shared_library is Some <==> e.in_memory_shared_library is Some)
    &&& (e.in_memory_shared_library matches Some(DataLocation::Memory(b))
        ==> (pe.in_memory_shared_library matches Some(b2) && b2@ == b@))
    &&& (pe.in_memory_package_resources is Some <==> e.in_memory_resources.view_seq().len() > 0)
    &&& (pe.in_memory_package_resources matches Some(v) ==> v@.len()
        == e.in_memory_resources.view_seq().len() && forall|j: int|
        0 <= j < v@.len() ==> (#[trigger] v@[j]).0 == e.in_memory_resources.view_seq()[j].0 && (
        e.in_memory_resources.view_seq()[j].1 matches DataLocation::Memory(b) ==> v@[j].1@ == b@))
    &&& (pe.in_memory_distribution_resources is Some
        <==> e.in_memory_distribution_resources.view_seq().len() > 0)
    &&& (pe.in_memory_distribution_resources matches Some(v) ==> v@.len()
        == e.in_memory_distribution_resources.view_seq().len() && forall|j: int|
        0 <= j < v@.len() ==> (#[trigger] v@[j]).0
            == e.in_memory_distribution_resources.view_seq()[j].0 && (
        e.in_memory_distribution_resources.view_seq()[j].1 matches DataLocation::Memory(b)
            ==> v@[j].1@ == b@))
    &&& (match e.shared_library_dependency_names {
        Some(v) => pe.shared_library_dependency_names matches Some(v2) && v2@ == v@,
        None => pe.shared_library_dependency_names is None,
    })
    &&& (match e.relative_path_module_source {
        Some((p, _l)) => pe.relative_path_module_source matches Some(s) && s@
            == crate::paths::module_source_path(p@, k, e.is_package),
        None => pe.relative_path_module_source is None,
    })
    &&& (match e.relative_path_bytecode_source {
        Some((p, t, _l)) => pe.relative_path_module_bytecode matches Some(s) && s@
            == crate::paths::bytecode_path(p@, k, e.is_package, t@, BytecodeOptimizationLevel::Zero),
        None => pe.relative_path_module_bytecode is None,
    })
    &&& (match e.relative_path_bytecode_opt1_source {
        Some((p, t, _l)) => pe.relative_path_module_bytecode_opt1 matches Some(s) && s@
            == crate::paths::bytecode_path(p@, k, e.is_package, t@, BytecodeOptimizationLevel::One),
        None => pe.relative_path_module_bytecode_opt1 is None,
    })
    &&& (match e.relative_path_bytecode_opt2_source {
        Some((p, t, _l)) => pe.relative_path_module_bytecode_opt2 matches Some(s) && s@
            == crate::paths::bytecode_path(p@, k, e.is_package, t@, BytecodeOptimizationLevel::Two),
        None => pe.relative_path_module_bytecode_opt2 is None,
    })
    &&& (match e.relative_path_extension_module_shared_library {
        Some((_p, ip, _l)) => pe.relative_path_extension_module_shared_library matches Some(s)
            && s@ == ip@,
        None => pe.relative_path_extension_module_shared_library is None,
    })
    &&& (pe.relative_path_package_resources is Some
        <==> e.relative_path_package_resources.view_seq().len() > 0)
    &&& (pe.relative_path_package_resources matches Some(v) ==> v@.len()
        == e.relative_path_package_resources.view_seq().len() && forall|j: int|
        0 <= j < v@.len() ==> (#[trigger] v@[j]).0
            == e.relative_path_package_resources.view_seq()[j].0 && v@[j].1
            == e.relative_path_package_resources.view_seq()[j].1.0)
    &&& (pe.relative_path_distribution_resources is Some
        <==> e.relative_path_distribution_resources.view_seq().len() > 0)
    &&& (pe.relative_path_distribution_resources matches Some(v) ==> v@.len()
        == e.relative_path_distribution_resources.view_seq().len() && forall|j: int|
        0 <= j < v@.len() ==> (#[trigger] v@[j]).0
            == e.relative_path_distribution_resources.view_seq()[j].0 && v@[j].1
            == e.relative_path_distribution_resources.view_seq()[j].1.0)
}

/// Resolve an optional location to bytes.
fn resolve_opt(loc: &Option<DataLocation>) -> (r: Result<Option<Vec<u8>>, PackagingError>)
    ensures
        r matches Err(e) ==> e is IoError,
        r matches Ok(o) ==> (o is Some <==> loc is Some),
        r matches Ok(o) ==> (*loc matches Some(DataLocation::Memory(b)) ==> (o matches Some(b2)
            && b2@ == b@)),
{
    match loc {
        Some(l) => {
            match l.resolve() {
                Ok(d) => Ok(Some(d)),
                Err(e) => Err(e),
            }
        },
        None => Ok(None),
    }
}

/// Resolve every value of a sub-table to bytes.
fn resolve_submap(m: &SortedMap<DataLocation>) -> (r: Result<
    Option<Vec<(String, Vec<u8>)>>,
    PackagingError,
>)
    ensures
        r matches Err(e) ==> e is IoError,
        r matches Ok(o) ==> (o is Some <==> m.view_seq().len() > 0),
        r matches Ok(o) ==> (o matches Some(v) ==> v@.len() == m.view_seq().len() && forall|j: int|
            0 <= j < v@.len() ==> (#[trigger] v@[j]).0 == m.view_seq()[j].0 && (
            m.view_seq()[j].1 matches DataLocation::Memory(b) ==> v@[j].1@ == b@)),
{
    if m.len() == 0 {
        return Ok(None);
    }
    let mut v: Vec<(String, Vec<u8>)> = Vec::new();
    let n: usize = m.len();
    let mut i: usize = 0;
    while i < n
        invariant
            0 <= i <= n,
            n == m.view_seq().len(),
            v@.len() == i,
            forall|j: int|
                0 <= j < i ==> (#[trigger] v@[j]).0 == m.view_seq()[j].0 && (
                m.view_seq()[j].1 matches DataLocation::Memory(b) ==> v@[j].1@ == b@),
        decreases n - i,
    {
        let key = m.key_at(i);
        let loc = m.val_at(i);
        let data = match loc.resolve() {
            Ok(d) => d,
            Err(e) => {
                return Err(e);
            },
        };
        v.push((key.clone(), data));
        i = i + 1;
    }
    Ok(Some(v))
}

/// Collect the install paths of a path-valued sub-table.
fn collect_subpaths(m: &SortedMap<(String, DataLocation)>) -> (r: Option<Vec<(String, String)>>)
    ensures
        r is Some <==> m.view_seq().len() > 0,
        r matches Some(v) ==> v@.len() == m.view_seq().len() && forall|j: int|
            0 <= j < v@.len() ==> (#[trigger] v@[j]).0 == m.view_seq()[j].0 && v@[j].1
                == m.view_seq()[j].1.0,
{
    if m.len() == 0 {
        return None;
    }
    let mut v: Vec<(String, String)> = Vec::new();
    let n: usize = m.len();
    let mut i: usize = 0;
    while i < n
        invariant
            0 <= i <= n,
            n == m.view_seq().len(),
            v@.len() == i,
            forall|j: int|
                0 <= j < i ==> (#[trigger] v@[j]).0 == m.view_seq()[j].0 && v@[j].1
                    == m.view_seq()[j].1.0,
        decreases n - i,
    {
        let key = m.key_at(i);
        let pair = m.val_at(i);
        v.push((key.clone(), pair.0.clone()));
        i = i + 1;
    }
    Some(v)
}

/// Output mode requested from the bytecode compiler service.
#[derive(Clone, Copy, Debug, PartialEq, Eq, Structural)]
pub enum CompileMode {
    /// Emit bare bytecode.
    Bytecode,
    /// Emit a `.pyc` file whose header embeds an unchecked content hash
    /// instead of a timestamp, for reproducible on-disk caches.
    PycUncheckedHash,
}

/// One invocation of the external bytecode compiler service: source text to
/// compile for a named module, at one optimization level, in one output
/// mode.  The caller performs the invocations, in order, and hands the
/// replies to `package_with_bytecodes`.
#[derive(Clone, Debug, PartialEq)]
pub struct CompileRequest {
    /// The fully qualified dotted module name.
    pub name: String,
    /// The source text to compile.
    pub source: Vec<u8>,
    /// The optimization level to compile at.
    pub level: BytecodeOptimizationLevel,
    /// The output mode to request.
    pub mode: CompileMode,
}

/// The shape of one compile request: the module name, the source bytes
/// where they were collected in memory, the level and the mode.
pub struct ReqSpec {
    /// The module name.
    pub name: Seq<char>,
    /// The source bytes, for a memory-backed source; a path-backed source's
    /// bytes come from the filesystem and are not fixed here.
    pub source_mem: Option<Seq<u8>>,
    /// The optimization level.
    pub level: BytecodeOptimizationLevel,
    /// The output mode.
    pub mode: CompileMode,
}

/// The request implied by one optional in-memory bytecode source.
pub open spec fn opt_req(
    o: Option<DataLocation>,
    k: Seq<char>,
    level: BytecodeOptimizationLevel,
) -> Seq<ReqSpec> {
    match o {
        Some(l) => seq![
            ReqSpec {
                name: k,
                source_mem: match l {
                    DataLocation::Memory(b) => Some(b@),
                    DataLocation::Path(_) => None,
                },
                level,
                mode: CompileMode::Bytecode,
            },
        ],
        None => Seq::empty(),
    }
}

/// The request implied by one optional relative-path bytecode source.
pub open spec fn opt_req_rel(
    o: Option<(String, String, DataLocation)>,
    k: Seq<char>,
    level: BytecodeOptimizationLevel,
) -> Seq<ReqSpec> {
    match o {
        Some((_p, _t, l)) => seq![
            ReqSpec {
                name: k,
                source_mem: match l {
                    DataLocation::Memory(b) => Some(b@),
                    DataLocation::Path(_) => None,
                },
                level,
                mode: CompileMode::PycUncheckedHash,
            },
        ],
        None => Seq::empty(),
    }
}

/// The compile requests implied by one entry, in a fixed order: the three
/// in-memory levels, then the three relative-path levels.
pub open spec fn entry_reqs(e: PrePackagedResource, k: Seq<char>) -> Seq<ReqSpec> {
    opt_req(e.in_memory_bytecode_source, k, BytecodeOptimizationLevel::Zero) + opt_req(
        e.in_memory_bytecode_opt1_source,
        k,
        BytecodeOptimizationLevel::One,
    ) + opt_req(e.in_memory_bytecode_opt2_source, k, BytecodeOptimizationLevel::Two) + opt_req_rel(
        e.relative_path_bytecode_source,
        k,
        BytecodeOptimizationLevel::Zero,
    ) + opt_req_rel(e.relative_path_bytecode_opt1_source, k, BytecodeOptimizationLevel::One)
        + opt_req_rel(e.relative_path_bytecode_opt2_source, k, BytecodeOptimizationLevel::Two)
}

/// The compile requests implied by the whole table, in table order.
pub open spec fn requests_of(t: Seq<(String, PrePackagedResource)>) -> Seq<ReqSpec>
    decreases t.len(),
{
    if t.len() == 0 {
        Seq::empty()
    } else {
        requests_of(t.drop_last()) + entry_reqs(t.last().1, t.last().0@)
    }
}

/// The request `r` carries what the shape `q` demands.
pub open spec fn req_matches(r: CompileRequest, q: ReqSpec) -> bool {
    r.name@ == q.name && r.level == q.level && r.mode == q.mode && (q.source_mem matches Some(b)
        ==> r.source@ == b)
}

/// Every request of `v` carries what the same-position shape of `q`
/// demands.
pub open spec fn reqs_match_seq(v: Seq<CompileRequest>, q: Seq<ReqSpec>) -> bool {
    v.len() == q.len() && forall|j: int| 0 <= j < v.len() ==> req_matches(#[trigger] v[j], q[j])
}

/// One table step extends the request sequence by the entry's own.
pub proof fn lemma_requests_take_succ(t: Seq<(String, PrePackagedResource)>, i: int)
    requires
        0 <= i < t.len(),
    ensures
        requests_of(t.take(i + 1)) == requests_of(t.take(i)) + entry_reqs(t[i].1, t[i].0@),
{
    assert(t.take(i + 1).drop_last() =~= t.take(i));
    assert(t.take(i + 1).last() == t[i]);
}

/// A prefix of the table implies no more requests than the whole.
pub proof fn lemma_requests_take_le(t: Seq<(String, PrePackagedResource)>, i: int)
    requires
        0 <= i <= t.len(),
    ensures
        requests_of(t.take(i)).len() <= requests_of(t).len(),
    decreases t.len() - i,
{
    if i < t.len() {
        lemma_requests_take_succ(t, i);
        lemma_requests_take_le(t, i + 1);
    } else {
        assert(t.take(i) =~= t);
    }
}

/// Append the compile requests implied by one entry, resolving its source
/// payloads.
#[verifier::rlimit(60)]
fn push_entry_requests(out: &mut Vec<CompileRequest>, key: &String, e: &PrePackagedResource) -> (r:
    Result<(), PackagingError>)
    ensures
        r matches Err(err) ==> err is IoError,
        r is Ok ==> final(out)@.len() == old(out)@.len() + entry_reqs(*e, key@).len(),
        r is Ok ==> forall|j: int|
            0 <= j < old(out)@.len() ==> final(out)@[j] == old(out)@[j],
        r is Ok ==> reqs_match_seq(
            final(out)@.skip(old(out)@.len() as int),
            entry_reqs(*e, key@),
        ),
{
    let ghost base = out@.len() as int;
    let ghost s1 = opt_req(e.in_memory_bytecode_source, key@, BytecodeOptimizationLevel::Zero);
    let ghost s2 = opt_req(e.in_memory_bytecode_opt1_source, key@, BytecodeOptimizationLevel::One);
    let ghost s3 = opt_req(e.in_memory_bytecode_opt2_source, key@, BytecodeOptimizationLevel::Two);
    let ghost s4 = opt_req_rel(
        e.relative_path_bytecode_source,
        key@,
        BytecodeOptimizationLevel::Zero,
    );
    let ghost s5 = opt_req_rel(
        e.relative_path_bytecode_opt1_source,
        key@,
        BytecodeOptimizationLevel::One,
    );
    let ghost s6 = opt_req_rel(
        e.relative_path_bytecode_opt2_source,
        key@,
        BytecodeOptimizationLevel::Two,
    );
    match &e.in_memory_bytecode_source {
        Some(l) => {
            let b = match l.resolve() {
                Ok(d) => d,
                Err(err) => {
                    return Err(err);
                },
            };
            out.push(
                CompileRequest {
                    name: key.clone(),
                    source: b,
                    level: BytecodeOptimizationLevel::Zero,
                    mode: CompileMode::Bytecode,
                },
            );
        },
        None => {},
    }
    proof {
        assert(reqs_match_seq(out@.skip(base), s1));
    }
    match &e.in_memory_bytecode_opt1_source {
        Some(l) => {
            let b = match l.resolve() {
                Ok(d) => d,
                Err(err) => {
                    return Err(err);
                },
            };
            out.push(
                CompileRequest {
                    name: key.clone(),
                    source: b,
                    level: BytecodeOptimizationLevel::One,
                    mode: CompileMode::Bytecode,
                },
            );
        },
        None => {},
    }
    proof {
        assert(out@.skip(base) =~= out@.skip(base));
        assert(reqs_match_seq(out@.skip(base), s1 + s2));
    }
    match &e.in_memory_bytecode_opt2_source {
        Some(l) => {
            let b = match l.resolve() {
                Ok(d) => d,
                Err(err) => {
                    return Err(err);
                },
            };
            out.push(
                CompileRequest {
                    name: key.clone(),
                    source: b,
                    level: BytecodeOptimizationLevel::Two,
                    mode: CompileMode::Bytecode,
                },
            );
        },
        None => {},
    }
    proof {
        assert(reqs_match_seq(out@.skip(base), s1 + s2 + s3));
    }
    match &e.relative_path_bytecode_source {
        Some((_p, _t, l)) => {
            let b = match l.resolve() {
                Ok(d) => d,
                Err(err) => {
                    return Err(err);
                },
            };
            out.push(
                CompileRequest {
                    name: key.clone(),
                    source: b,
                    level: BytecodeOptimizationLevel::Zero,
                    mode: CompileMode::PycUncheckedHash,
                },
            );
        },
        None => {},
    }
    proof {
        assert(reqs_match_seq(out@.skip(base), s1 + s2 + s3 + s4));
    }
    match &e.relative_path_bytecode_opt1_source {
        Some((_p, _t, l)) => {
            let b = match l.resolve() {
                Ok(d) => d,
                Err(err) => {
                    return Err(err);
                },
            };
            out.push(
                CompileRequest {
                    name: key.clone(),
                    source: b,
                    level: BytecodeOptimizationLevel::One,
                    mode: CompileMode::PycUncheckedHash,
                },
            );
        },
        None => {},
    }
    proof {
        assert(reqs_match_seq(out@.skip(base), s1 + s2 + s3 + s4 + s5));
    }
    match &e.relative_path_bytecode_opt2_source {
        Some((_p, _t, l)) => {
            let b = match l.resolve() {
                Ok(d) => d,
                Err(err) => {
                    return Err(err);
                },
            };
            out.push(
                CompileRequest {
                    name: key.clone(),
                    source: b,
                    level: BytecodeOptimizationLevel::Two,
                    mode: CompileMode::PycUncheckedHash,
                },
            );
        },
        None => {},
    }
    proof {
        assert(reqs_match_seq(out@.skip(base), s1 + s2 + s3 + s4 + s5 + s6));
        assert(entry_reqs(*e, key@) == s1 + s2 + s3 + s4 + s5 + s6);
    }
    Ok(())
}

/// Register one produced bytecode file and return its install path.
fn place_bytecode_file(
    files: &mut FileManifest,
    key: &str,
    is_package: bool,
    prefix: &str,
    cache_tag: &str,
    data: Vec<u8>,
    level: BytecodeOptimizationLevel,
) -> (r: Result<String, PackagingError>)
    requires
        old(files).wf(),
    ensures
        final(files).wf(),
        crate::manifest::manifest_extends(*final(files), *old(files)),
        r matches Ok(s) ==> s@ == crate::paths::bytecode_path(
            prefix@,
            key@,
            is_package,
            cache_tag@,
            level,
        ),
        r matches Ok(s) ==> (final(files).spec_get(s@) matches Some(c) && !c.executable),
        r matches Ok(s) ==> forall|p: Seq<char>|
            #[trigger] final(files).contains_path(p) <==> old(files).contains_path(p) || p == s@,
        r is Err ==> *final(files) == *old(files),
        r matches Err(e) ==> e is FileConflict,
{
    let path = crate::paths::resolve_bytecode_path(prefix, key, is_package, cache_tag, level);
    match files.add_file(path.clone(), data, false) {
        Ok(()) => {},
        Err(e) => {
            return Err(e);
        },
    }
    Ok(path)
}

/// Whether `p` is the derived path of a bytecode file the entry `e`,
/// stored under key `k`, asks to produce.
pub open spec fn entry_bytecode_path(e: PrePackagedResource, k: Seq<char>, p: Seq<char>) -> bool {
    ||| (e.relative_path_bytecode_source matches Some((pp, t, _l)) && p
        == crate::paths::bytecode_path(pp@, k, e.is_package, t@, BytecodeOptimizationLevel::Zero))
    ||| (e.relative_path_bytecode_opt1_source matches Some((pp, t, _l)) && p
        == crate::paths::bytecode_path(pp@, k, e.is_package, t@, BytecodeOptimizationLevel::One))
    ||| (e.relative_path_bytecode_opt2_source matches Some((pp, t, _l)) && p
        == crate::paths::bytecode_path(pp@, k, e.is_package, t@, BytecodeOptimizationLevel::Two))
}

/// Whether `p` is the derived path of a bytecode file some entry of the
/// table asks to produce.
pub open spec fn implied_bytecode(t: Seq<(String, PrePackagedResource)>, p: Seq<char>) -> bool {
    exists|i: int|
        0 <= i < t.len() && entry_bytecode_path((#[trigger] t[i]).1, t[i].0@, p)
}

/// Every bytecode file implied by the entry's relative-path bytecode
/// requests is registered in `m`, non-executable, at its derived path.
pub open spec fn bytecode_files_ok(
    m: FileManifest,
    e: PrePackagedResource,
    k: Seq<char>,
) -> bool {
    &&& (e.relative_path_bytecode_source matches Some((p, t, _l)) ==> (m.spec_get(
        crate::paths::bytecode_path(p@, k, e.is_package, t@, BytecodeOptimizationLevel::Zero),
    ) matches Some(c) && !c.executable))
    &&& (e.relative_path_bytecode_opt1_source matches Some((p, t, _l)) ==> (m.spec_get(
        crate::paths::bytecode_path(p@, k, e.is_package, t@, BytecodeOptimizationLevel::One),
    ) matches Some(c) && !c.executable))
    &&& (e.relative_path_bytecode_opt2_source matches Some((p, t, _l)) ==> (m.spec_get(
        crate::paths::bytecode_path(p@, k, e.is_package, t@, BytecodeOptimizationLevel::Two),
    ) matches Some(c) && !c.executable))
}

/// The registered-bytecode-file claims survive a manifest extension.
pub proof fn lemma_bytecode_files_ok_extends(
    m1: FileManifest,
    m2: FileManifest,
    e: PrePackagedResource,
    k: Seq<char>,
)
    requires
        bytecode_files_ok(m1, e, k),
        crate::manifest::manifest_extends(m2, m1),
    ensures
        bytecode_files_ok(m2, e, k),
{
}

/// Finalize one collected entry: resolve payloads, compile bytecode, derive
/// install paths, and register produced bytecode files.
fn convert_entry(
    files: &mut FileManifest,
    key: &String,
    e: &PrePackagedResource,
    results: &Vec<Vec<u8>>,
    cursor: usize,
) -> (r: Result<(PackedResource, usize), PackagingError>)
    requires
        old(files).wf(),
        crate::collector::entry_wf(*e),
        cursor + entry_reqs(*e, key@).len() <= results@.len(),
    ensures
        final(files).wf(),
        crate::manifest::manifest_extends(*final(files), *old(files)),
        r matches Ok(pc) ==> packed_entry_matches(pc.0, *e, key@),
        r matches Ok(pc) ==> bytecode_files_ok(*final(files), *e, key@),
        r matches Ok(pc) ==> pc.1 == cursor + entry_reqs(*e, key@).len(),
        forall|p: Seq<char>|
            #[trigger] final(files).contains_path(p) ==> old(files).contains_path(p)
                || entry_bytecode_path(*e, key@, p),
        r matches Err(err) ==> err is IoError || err is FileConflict,
{
    let ghost total = entry_reqs(*e, key@).len() as int;
    let ghost c1: int = if e.in_memory_bytecode_source is Some { 1int } else { 0int };
    let ghost c2: int = if e.in_memory_bytecode_opt1_source is Some { 1int } else { 0int };
    let ghost c3: int = if e.in_memory_bytecode_opt2_source is Some { 1int } else { 0int };
    let ghost c4: int = if e.relative_path_bytecode_source is Some { 1int } else { 0int };
    let ghost c5: int = if e.relative_path_bytecode_opt1_source is Some { 1int } else { 0int };
    let ghost c6: int = if e.relative_path_bytecode_opt2_source is Some { 1int } else { 0int };
    let rlen: usize = results.len();
    proof {
        assert(total == c1 + c2 + c3 + c4 + c5 + c6);
        assert(cursor + total <= rlen);
    }
    let mut cur: usize = cursor;
    let in_memory_source = match resolve_opt(&e.in_memory_source) {
        Ok(o) => o,
        Err(err) => {
            return Err(err);
        },
    };
    let in_memory_bytecode = match &e.in_memory_bytecode_source {
        Some(_l) => {
            let b = crate::resource::clone_bytes(&results[cur]);
            cur = cur + 1;
            Some(b)
        },
        None => None,
    };
    let in_memory_bytecode_opt1 = match &e.in_memory_bytecode_opt1_source {
        Some(_l) => {
            let b = crate::resource::clone_bytes(&results[cur]);
            cur = cur + 1;
            Some(b)
        },
        None => None,
    };
    let in_memory_bytecode_opt2 = match &e.in_memory_bytecode_opt2_source {
        Some(_l) => {
            let b = crate::resource::clone_bytes(&results[cur]);
            cur = cur + 1;
            Some(b)
        },
        None => None,
    };
    let in_memory_extension_module_shared_library = match resolve_opt(
        &e.in_memory_extension_module_shared_library,
    ) {
        Ok(o) => o,
        Err(err) => {
            return Err(err);
        },
    };
    let in_memory_package_resources = match resolve_submap(&e.in_memory_resources) {
        Ok(o) => o,
        Err(err) => {
            return Err(err);
        },
    };
    let in_memory_distribution_resources = match resolve_submap(
        &e.in_memory_distribution_resources,
    ) {
        Ok(o) => o,
        Err(err) => {
            return Err(err);
        },
    };
    let in_memory_shared_library = match resolve_opt(&e.in_memory_shared_library) {
        Ok(o) => o,
        Err(err) => {
            return Err(err);
        },
    };
    let shared_library_dependency_names = match &e.shared_library_dependency_names {
        Some(v) => {
            let mut v2: Vec<String> = Vec::new();
            crate::collector::append_string_clones(&mut v2, v);
            Some(v2)
        },
        None => None,
    };
    let relative_path_module_source = match &e.relative_path_module_source {
        Some((p, _l)) => Some(
            crate::paths::resolve_module_source_path(p.as_str(), key.as_str(), e.is_package),
        ),
        None => None,
    };
    let relative_path_module_bytecode = match &e.relative_path_bytecode_source {
        Some((p, t, _l)) => {
            let b = crate::resource::clone_bytes(&results[cur]);
            cur = cur + 1;
            match place_bytecode_file(
                files,
                key.as_str(),
                e.is_package,
                p.as_str(),
                t.as_str(),
                b,
                BytecodeOptimizationLevel::Zero,
            ) {
                Ok(s) => Some(s),
                Err(err) => {
                    return Err(err);
                },
            }
        },
        None => None,
    };
    let relative_path_module_bytecode_opt1 = match &e.relative_path_bytecode_opt1_source {
        Some((p, t, _l)) => {
            let b = crate::resource::clone_bytes(&results[cur]);
            cur = cur + 1;
            match place_bytecode_file(
                files,
                key.as_str(),
                e.is_package,
                p.as_str(),
                t.as_str(),
                b,
                BytecodeOptimizationLevel::One,
            ) {
                Ok(s) => Some(s),
                Err(err) => {
                    return Err(err);
                },
            }
        },
        None => None,
    };
    let relative_path_module_bytecode_opt2 = match &e.relative_path_bytecode_opt2_source {
        Some((p, t, _l)) => {
            let b = crate::resource::clone_bytes(&results[cur]);
            cur = cur + 1;
            match place_bytecode_file(
                files,
                key.as_str(),
                e.is_package,
                p.as_str(),
                t.as_str(),
                b,
                BytecodeOptimizationLevel::Two,
            ) {
                Ok(s) => Some(s),
                Err(err) => {
                    return Err(err);
                },
            }
        },
        None => None,
    };
    let relative_path_extension_module_shared_library = match &e
        .relative_path_extension_module_shared_library {
        Some((_p, ip, _l)) => Some(ip.clone()),
        None => None,
    };
    let relative_path_package_resources = collect_subpaths(&e.relative_path_package_resources);
    let relative_path_distribution_resources = collect_subpaths(
        &e.relative_path_distribution_resources,
    );
    Ok(
        (
            PackedResource {
                flavor: e.flavor,
                name: e.name.clone(),
                is_package: e.is_package,
                in_memory_source,
                in_memory_bytecode,
                in_memory_bytecode_opt1,
                in_memory_bytecode_opt2,
                in_memory_extension_module_shared_library,
                in_memory_package_resources,
                in_memory_distribution_resources,
                in_memory_shared_library,
                shared_library_dependency_names,
                relative_path_module_source,
                relative_path_module_bytecode,
                relative_path_module_bytecode_opt1,
                relative_path_module_bytecode_opt2,
                relative_path_extension_module_shared_library,
                relative_path_package_resources,
                relative_path_distribution_resources,
            },
            cur,
        ),
    )
}

/// Whether `k` is an ancestor package name implied by some name of `names`.
pub open spec fn anc_names(k: Seq<char>, names: Seq<String>) -> bool {
    exists|i: int| 0 <= i < names.len() && crate::paths::is_ancestor(k, (#[trigger] names[i])@)
}

/// Whether `k` is the view of one of the first `j` elements of `v`.
pub open spec fn in_views_upto(k: Seq<char>, v: Seq<String>, j: int) -> bool {
    exists|j2: int| 0 <= j2 < j && (#[trigger] v[j2])@ == k
}

/// A packed entry carries no payload at all.
pub open spec fn packed_payload_empty(pe: PackedResource) -> bool {
    pe.in_memory_source is None && pe.in_memory_bytecode is None && pe.in_memory_bytecode_opt1
        is None && pe.in_memory_bytecode_opt2 is None
        && pe.in_memory_extension_module_shared_library is None && pe.in_memory_package_resources
        is None && pe.in_memory_distribution_resources is None && pe.in_memory_shared_library
        is None && pe.shared_library_dependency_names is None && pe.relative_path_module_source
        is None && pe.relative_path_module_bytecode is None && pe.relative_path_module_bytecode_opt1
        is None && pe.relative_path_module_bytecode_opt2 is None
        && pe.relative_path_extension_module_shared_library is None
        && pe.relative_path_package_resources is None && pe.relative_path_distribution_resources
        is None
}

/// The entry `pe` is `pe0` with its package flag raised when `up` holds.
pub open spec fn flag_merged(pe: PackedResource, pe0: PackedResource, up: bool) -> bool {
    pe == PackedResource { is_package: pe0.is_package || up, ..pe0 }
}

/// A freshly inferred package entry for name `k`.
///
/// The packed format has no separate kind for a bare package: a package is
/// a module with the package flag set, so that is what inference creates.
pub open spec fn inferred_package(pe: PackedResource, k: Seq<char>) -> bool {
    pe.is_package && pe.flavor == ResourceFlavor::Module && pe.name@ == k && packed_payload_empty(
        pe,
    )
}

/// The table `t` reflects `t0` after inferring packages for the ancestor
/// set given by `up`: `up`-ancestors exist as packages, other entries are
/// unchanged but for raised package flags.
pub open spec fn infer_state_ok(
    t: SortedMap<PackedResource>,
    t0: SortedMap<PackedResource>,
    names: Seq<String>,
    i: int,
    ancs: Seq<String>,
    j: int,
) -> bool {
    &&& forall|k: Seq<char>|
        #[trigger] t.contains_key(k) <==> t0.contains_key(k) || anc_names(k, names.take(i))
            || in_views_upto(k, ancs, j)
    &&& forall|k: Seq<char>|
        match #[trigger] t0.spec_get(k) {
            Some(pe0) => t.spec_get(k) matches Some(pe) && flag_merged(
                pe,
                pe0,
                anc_names(k, names.take(i)) || in_views_upto(k, ancs, j),
            ),
            None => (anc_names(k, names.take(i)) || in_views_upto(k, ancs, j)) ==> (t.spec_get(
                k,
            ) matches Some(pe) && inferred_package(pe, k)),
        }
}

/// After handling one ancestor name `av`: the entry under `av` is present
/// as required, and nothing else changed relative to `pret`.
pub open spec fn branch_summary(
    t: SortedMap<PackedResource>,
    pret: SortedMap<PackedResource>,
    t0: SortedMap<PackedResource>,
    av: Seq<char>,
) -> bool {
    &&& t.contains_key(av)
    &&& forall|k: Seq<char>| k != av ==> t.spec_get(k) == pret.spec_get(k)
    &&& match t0.spec_get(av) {
        Some(pe0) => t.spec_get(av) matches Some(pe) && flag_merged(pe, pe0, true),
        None => t.spec_get(av) matches Some(pe) && inferred_package(pe, av),
    }
}

/// A fresh packed entry marking `name` as a package, with no payload.
fn fresh_package_entry(name: String) -> (pe: PackedResource)
    ensures
        inferred_package(pe, name@),
{
    PackedResource {
        flavor: ResourceFlavor::Module,
        name,
        is_package: true,
        in_memory_source: None,
        in_memory_bytecode: None,
        in_memory_bytecode_opt1: None,
        in_memory_bytecode_opt2: None,
        in_memory_extension_module_shared_library: None,
        in_memory_package_resources: None,
        in_memory_distribution_resources: None,
        in_memory_shared_library: None,
        shared_library_dependency_names: None,
        relative_path_module_source: None,
        relative_path_module_bytecode: None,
        relative_path_module_bytecode_opt1: None,
        relative_path_module_bytecode_opt2: None,
        relative_path_extension_module_shared_library: None,
        relative_path_package_resources: None,
        relative_path_distribution_resources: None,
    }
}

/// Synthesize the parent packages implied by the dotted names of `names`:
/// every ancestor missing from the table gets a fresh package entry, and
/// every ancestor already present has its package flag raised.
pub fn infer_packages(table: &mut SortedMap<PackedResource>, names: &Vec<String>)
    requires
        old(table).wf(),
    ensures
        final(table).wf(),
        forall|k: Seq<char>|
            #[trigger] final(table).contains_key(k) <==> old(table).contains_key(k) || anc_names(
                k,
                names@,
            ),
        forall|k: Seq<char>|
            match #[trigger] old(table).spec_get(k) {
                Some(pe0) => final(table).spec_get(k) matches Some(pe) && flag_merged(
                    pe,
                    pe0,
                    anc_names(k, names@),
                ),
                None => anc_names(k, names@) ==> (final(table).spec_get(k) matches Some(pe)
                    && inferred_package(pe, k)),
            },
{
    let ghost t0 = *table;
    let n: usize = names.len();
    let mut i: usize = 0;
    proof {
        assert forall|k: Seq<char>| !anc_names(k, names@.take(0)) && !in_views_upto(
            k,
            Seq::<String>::empty(),
            0,
        ) by {}
        assert(infer_state_ok(*table, t0, names@, 0, Seq::<String>::empty(), 0));
    }
    while i < n
        invariant
            0 <= i <= n,
            n == names@.len(),
            table.wf(),
            infer_state_ok(*table, t0, names@, i as int, Seq::<String>::empty(), 0),
        decreases n - i,
    {
        let ancs = crate::paths::package_ancestors(names[i].as_str());
        let m: usize = ancs.len();
        let mut j: usize = 0;
        while j < m
            invariant
                0 <= j <= m,
                0 <= i < n,
                n == names@.len(),
                m == ancs@.len(),
                table.wf(),
                forall|p: Seq<char>|
                    #![trigger crate::paths::is_ancestor(p, names@[i as int]@)]
                    #![trigger crate::paths::in_views(p, ancs@)]
                    crate::paths::is_ancestor(p, names@[i as int]@) <==> crate::paths::in_views(
                        p,
                        ancs@,
                    ),
                infer_state_ok(*table, t0, names@, i as int, ancs@, j as int),
            decreases m - j,
        {
            let ghost pret = *table;
            let a = &ancs[j];
            let ghost av = ancs@[j as int]@;
            match table.index_of(a.as_str()) {
                Some(idx) => {
                    let flagged = table.val_at(idx).is_package;
                    if !flagged {
                        let mut pe = table.take(a.as_str()).unwrap();
                        pe.is_package = true;
                        let ghost gpe = pe;
                        table.put(a.clone(), pe);
                        proof {
                            assert(table.spec_get(av) == Some(gpe));
                            assert(pret.contains_key(av));
                            let spe = pret.spec_get(av).unwrap();
                            if t0.spec_get(av) is Some {
                                let pe0 = t0.spec_get(av).unwrap();
                                assert(flag_merged(
                                    spe,
                                    pe0,
                                    anc_names(av, names@.take(i as int)) || in_views_upto(
                                        av,
                                        ancs@,
                                        j as int,
                                    ),
                                ));
                                assert(flag_merged(gpe, pe0, true));
                            } else {
                                assert(anc_names(av, names@.take(i as int)) || in_views_upto(
                                    av,
                                    ancs@,
                                    j as int,
                                ));
                                assert(inferred_package(spe, av));
                                assert(inferred_package(gpe, av));
                            }
                            assert(branch_summary(*table, pret, t0, av));
                        }
                    } else {
                        proof {
                            assert(table.spec_get(av) == pret.spec_get(av));
                            assert(branch_summary(*table, pret, t0, av));
                        }
                    }
                },
                None => {
                    let fresh = fresh_package_entry(a.clone());
                    let ghost gf = fresh;
                    table.put(a.clone(), fresh);
                    proof {
                        assert(table.spec_get(av) == Some(gf));
                        assert(branch_summary(*table, pret, t0, av));
                    }
                },
            }
            proof {
                assert(table.contains_key(ancs@[j as int]@));
                assert forall|k: Seq<char>| #[trigger] table.contains_key(k)
                    <==> t0.contains_key(k) || anc_names(k, names@.take(i as int))
                    || in_views_upto(k, ancs@, j + 1) by {
                    if k != ancs@[j as int]@ {
                        assert(table.spec_get(k) == pret.spec_get(k));
                        assert(table.contains_key(k) == pret.contains_key(k));
                        if in_views_upto(k, ancs@, j + 1) {
                            let j2 = choose|j2: int| 0 <= j2 < j + 1 && ancs@[j2]@ == k;
                            assert(j2 < j);
                            assert(in_views_upto(k, ancs@, j as int));
                        }
                    }
                }
                assert forall|k: Seq<char>|
                    match #[trigger] t0.spec_get(k) {
                        Some(pe0) => table.spec_get(k) matches Some(pe) && flag_merged(
                            pe,
                            pe0,
                            anc_names(k, names@.take(i as int)) || in_views_upto(k, ancs@, j + 1),
                        ),
                        None => (anc_names(k, names@.take(i as int)) || in_views_upto(
                            k,
                            ancs@,
                            j + 1,
                        )) ==> (table.spec_get(k) matches Some(pe) && inferred_package(pe, k)),
                    } by {
                    if k != ancs@[j as int]@ {
                        assert(table.spec_get(k) == pret.spec_get(k));
                        assert(table.contains_key(k) == pret.contains_key(k));
                        if in_views_upto(k, ancs@, j + 1) {
                            let j2 = choose|j2: int| 0 <= j2 < j + 1 && ancs@[j2]@ == k;
                            assert(j2 < j);
                            assert(in_views_upto(k, ancs@, j as int));
                        }
                    } else {
                        assert(in_views_upto(k, ancs@, j + 1));
                        assert(branch_summary(*table, pret, t0, k));
                    }
                }
            }
            j = j + 1;
        }
        proof {
            assert(names@.take(i + 1)[i as int] == names@[i as int]);
            assert forall|k: Seq<char>| anc_names(k, names@.take(i + 1)) <==> anc_names(
                k,
                names@.take(i as int),
            ) || in_views_upto(k, ancs@, m as int) by {
                if anc_names(k, names@.take(i + 1)) {
                    let i2 = choose|i2: int|
                        0 <= i2 < i + 1 && crate::paths::is_ancestor(
                            k,
                            (#[trigger] names@.take(i + 1)[i2])@,
                        );
                    if i2 < i {
                        assert(names@.take(i as int)[i2] == names@[i2]);
                        assert(anc_names(k, names@.take(i as int)));
                    } else {
                        assert(crate::paths::is_ancestor(k, names@[i as int]@));
                        assert(crate::paths::in_views(k, ancs@));
                        let j2 = choose|j2: int| 0 <= j2 < ancs@.len() && ancs@[j2]@ == k;
                        assert(in_views_upto(k, ancs@, m as int));
                    }
                }
                if anc_names(k, names@.take(i as int)) {
                    let i2 = choose|i2: int|
                        0 <= i2 < i && crate::paths::is_ancestor(
                            k,
                            (#[trigger] names@.take(i as int)[i2])@,
                        );
                    assert(names@.take(i + 1)[i2] == names@[i2]);
                    assert(anc_names(k, names@.take(i + 1)));
                }
                if in_views_upto(k, ancs@, m as int) {
                    let j2 = choose|j2: int| 0 <= j2 < m && ancs@[j2]@ == k;
                    assert(crate::paths::in_views(k, ancs@));
                    assert(crate::paths::is_ancestor(k, names@[i as int]@));
                    assert(names@.take(i + 1)[i as int] == names@[i as int]);
                    assert(anc_names(k, names@.take(i + 1)));
                }
            }
            assert(infer_state_ok(*table, t0, names@, i + 1, Seq::<String>::empty(), 0));
        }
        i = i + 1;
    }
    proof {
        assert(names@.take(n as int) =~= names@);
        assert forall|k: Seq<char>| #[trigger] table.contains_key(k) <==> t0.contains_key(k)
            || anc_names(k, names@) by {
            assert(table.contains_key(k) <==> t0.contains_key(k) || anc_names(
                k,
                names@.take(n as int),
            ) || in_views_upto(k, Seq::<String>::empty(), 0));
        }
    }
}

/// The copy `a` of a build state `b`: identical names and flags, and
/// payload-equal object files.
pub open spec fn state_matches(a: ExtensionModuleBuildState, b: ExtensionModuleBuildState) -> bool {
    &&& a.init_fn == b.init_fn
    &&& a.link_object_files@.len() == b.link_object_files@.len()
    &&& forall|i: int|
        0 <= i < a.link_object_files@.len() ==> crate::resource::loc_eq(
            #[trigger] a.link_object_files@[i],
            b.link_object_files@[i],
        )
    &&& a.link_frameworks.items.view_seq() == b.link_frameworks.items.view_seq()
    &&& a.link_system_libraries.items.view_seq() == b.link_system_libraries.items.view_seq()
    &&& a.link_static_libraries.items.view_seq() == b.link_static_libraries.items.view_seq()
    &&& a.link_dynamic_libraries.items.view_seq() == b.link_dynamic_libraries.items.view_seq()
    &&& a.link_external_libraries.items.view_seq() == b.link_external_libraries.items.view_seq()
}

/// Copy a name set.
fn duplicate_set(s: &crate::sset::StringSet) -> (r: crate::sset::StringSet)
    ensures
        r.items.view_seq() == s.items.view_seq(),
        s.wf() ==> r.wf(),
{
    let mut v: Vec<(String, ())> = Vec::new();
    let n: usize = s.len();
    let mut i: usize = 0;
    while i < n
        invariant
            0 <= i <= n,
            n == s.items.view_seq().len(),
            v@.len() == i,
            forall|j: int| 0 <= j < i ==> v@[j] == s.items.view_seq()[j],
        decreases n - i,
    {
        let name = s.items.key_at(i);
        v.push((name.clone(), ()));
        proof {
            assert(v@[i as int] == s.items.view_seq()[i as int]);
        }
        i = i + 1;
    }
    let r = crate::sset::StringSet { items: SortedMap { entries: v } };
    proof {
        assert(r.items.view_seq() =~= s.items.view_seq());
    }
    r
}

/// Copy a build state.
fn duplicate_state(st: &ExtensionModuleBuildState) -> (r: ExtensionModuleBuildState)
    ensures
        state_matches(r, *st),
        st.wf() ==> r.wf(),
{
    let mut objects: Vec<DataLocation> = Vec::new();
    let n: usize = st.link_object_files.len();
    let mut i: usize = 0;
    while i < n
        invariant
            0 <= i <= n,
            n == st.link_object_files@.len(),
            objects@.len() == i,
            forall|j: int|
                0 <= j < i ==> crate::resource::loc_eq(
                    #[trigger] objects@[j],
                    st.link_object_files@[j],
                ),
        decreases n - i,
    {
        objects.push(st.link_object_files[i].duplicate());
        i = i + 1;
    }
    ExtensionModuleBuildState {
        init_fn: crate::collector::clone_opt_string(&st.init_fn),
        link_object_files: objects,
        link_frameworks: duplicate_set(&st.link_frameworks),
        link_system_libraries: duplicate_set(&st.link_system_libraries),
        link_static_libraries: duplicate_set(&st.link_static_libraries),
        link_dynamic_libraries: duplicate_set(&st.link_dynamic_libraries),
        link_external_libraries: duplicate_set(&st.link_external_libraries),
    }
}

/// Copy the extension-module state table.
fn copy_states(src: &SortedMap<ExtensionModuleBuildState>) -> (r: SortedMap<
    ExtensionModuleBuildState,
>)
    requires
        src.wf(),
        forall|i: int|
            0 <= i < src.view_seq().len() ==> (#[trigger] src.view_seq()[i].1).wf(),
    ensures
        r.wf(),
        r.view_seq().len() == src.view_seq().len(),
        forall|i: int|
            0 <= i < src.view_seq().len() ==> (#[trigger] r.view_seq()[i]).0
                == src.view_seq()[i].0 && state_matches(r.view_seq()[i].1, src.view_seq()[i].1)
                && r.view_seq()[i].1.wf(),
{
    let mut v: Vec<(String, ExtensionModuleBuildState)> = Vec::new();
    let n: usize = src.len();
    let mut i: usize = 0;
    while i < n
        invariant
            0 <= i <= n,
            n == src.view_seq().len(),
            src.wf(),
            forall|i2: int|
                0 <= i2 < src.view_seq().len() ==> (#[trigger] src.view_seq()[i2].1).wf(),
            v@.len() == i,
            forall|j: int|
                0 <= j < i ==> (#[trigger] v@[j]).0 == src.view_seq()[j].0 && state_matches(
                    v@[j].1,
                    src.view_seq()[j].1,
                ) && v@[j].1.wf(),
        decreases n - i,
    {
        let key = src.key_at(i);
        let st = src.val_at(i);
        proof {
            assert(src.view_seq()[i as int].1.wf());
        }
        v.push((key.clone(), duplicate_state(st)));
        i = i + 1;
    }
    let r = SortedMap { entries: v };
    proof {
        assert forall|i2: int, j2: int|
            0 <= i2 < j2 < r.view_seq().len() implies crate::order::lex_lt(
            r.view_seq()[i2].0@,
            r.view_seq()[j2].0@,
        ) by {
            assert(r.view_seq()[i2].0 == src.view_seq()[i2].0);
            assert(r.view_seq()[j2].0 == src.view_seq()[j2].0);
        }
    }
    r
}

/// Whether `k` is an ancestor package implied by a name of either table of
/// `c`.
pub open spec fn table_implied_anc(c: PrePackagedResources, k: Seq<char>) -> bool {
    ||| exists|i: int|
        0 <= i < c.resources.view_seq().len() && crate::paths::is_ancestor(
            k,
            (#[trigger] c.resources.view_seq()[i]).0@,
        )
    ||| exists|i: int|
        0 <= i < c.extension_module_states.view_seq().len() && crate::paths::is_ancestor(
            k,
            (#[trigger] c.extension_module_states.view_seq()[i]).0@,
        )
}

/// The immutable result of one packaging run.
#[derive(Clone, Debug, Default)]
pub struct EmbeddedPythonResources {
    /// The finalized resource table, in name order.
    pub resources: SortedMap<PackedResource>,
    /// Files to install next to the produced binary.
    pub extra_files: FileManifest,
    /// Link state for builtin extension modules, keyed by module name.
    pub extension_modules: SortedMap<ExtensionModuleBuildState>,
}

impl EmbeddedPythonResources {
    /// All tables are well formed, as is every extension-module state.
    pub open spec fn wf(&self) -> bool {
        &&& self.resources.wf()
        &&& self.extra_files.wf()
        &&& self.extension_modules.wf()
        &&& forall|i: int|
            0 <= i < self.extension_modules.view_seq().len()
                ==> (#[trigger] self.extension_modules.view_seq()[i].1).wf()
    }
}

impl PrePackagedResources {
    /// The compile requests the collected resources imply, in table order:
    /// for every entry carrying a bytecode source, one request per level,
    /// the in-memory levels before the filesystem-relative ones.  Resolves
    /// each source payload; fails only when a path-backed payload cannot be
    /// read.
    ///
    /// The caller performs these invocations against the external compiler
    /// service — whose failure modes, including a helper-process death that
    /// the underlying protocol does not survive, stay outside the verified
    /// library — and hands the replies, in order, to
    /// `package_with_bytecodes`.
    pub fn compile_requests(&self) -> (r: Result<Vec<CompileRequest>, PackagingError>)
        requires
            self.wf(),
        ensures
            r matches Err(err) ==> err is IoError,
            r matches Ok(v) ==> reqs_match_seq(v@, requests_of(self.resources.view_seq())),
    {
        let ghost t = self.resources.view_seq();
        let mut out: Vec<CompileRequest> = Vec::new();
        let n: usize = self.resources.len();
        let mut i: usize = 0;
        proof {
            assert(t.take(0) =~= Seq::<(String, PrePackagedResource)>::empty());
        }
        while i < n
            invariant
                0 <= i <= n,
                n == t.len(),
                t == self.resources.view_seq(),
                reqs_match_seq(out@, requests_of(t.take(i as int))),
            decreases n - i,
        {
            let key = self.resources.key_at(i);
            let e = self.resources.val_at(i);
            let ghost pre = out@;
            match push_entry_requests(&mut out, key, e) {
                Ok(()) => {},
                Err(err) => {
                    return Err(err);
                },
            }
            proof {
                lemma_requests_take_succ(t, i as int);
                let ghost q1 = requests_of(t.take(i as int));
                let ghost q2 = entry_reqs(t[i as int].1, t[i as int].0@);
                assert(out@.skip(pre.len() as int) =~= out@.skip(pre.len() as int));
                assert forall|j: int| 0 <= j < out@.len() implies req_matches(
                    #[trigger] out@[j],
                    (q1 + q2)[j],
                ) by {
                    if j < pre.len() {
                        assert(out@[j] == pre[j]);
                    } else {
                        assert(out@[j] == out@.skip(pre.len() as int)[j - pre.len()]);
                    }
                }
                assert(reqs_match_seq(out@, requests_of(t.take(i + 1))));
            }
            i = i + 1;
        }
        proof {
            assert(t.take(n as int) =~= t);
        }
        Ok(out)
    }

    /// Transform the collected resources into the immutable packaging
    /// result, given the external compiler service's reply to each request
    /// of `compile_requests`, in order.
    ///
    /// Derives the install-file manifest, synthesizes missing parent
    /// packages implied by dotted names across both tables, resolves every
    /// payload, and attaches each compiled bytecode where its request
    /// arose.  On success the result holds an entry for exactly the
    /// collected names and their ancestors; ancestors are packages; every
    /// collected entry is finalized faithfully, with its package flag
    /// raised when the name has descendants.
    pub fn package_with_bytecodes(&self, results: &Vec<Vec<u8>>) -> (r: Result<
        EmbeddedPythonResources,
        PackagingError,
    >)
        requires
            self.wf(),
            results@.len() == requests_of(self.resources.view_seq()).len(),
        ensures
            r matches Err(err) ==> err is IoError || err is FileConflict,
            r matches Ok(res) ==> {
                &&& res.wf()
                &&& forall|k: Seq<char>|
                    #[trigger] res.resources.contains_key(k) <==> self.resources.contains_key(k)
                        || table_implied_anc(*self, k)
                &&& forall|k: Seq<char>|
                    match #[trigger] self.resources.spec_get(k) {
                        Some(e) => exists|pe0: PackedResource|
                            res.resources.spec_get(k) matches Some(pe) && #[trigger] packed_entry_matches(
                                pe0,
                                e,
                                k,
                            ) && flag_merged(pe, pe0, table_implied_anc(*self, k)),
                        None => table_implied_anc(*self, k) ==> (res.resources.spec_get(
                            k,
                        ) matches Some(pe) && inferred_package(pe, k)),
                    }
                &&& forall|k: Seq<char>|
                    #[trigger] table_implied_anc(*self, k) ==> (res.resources.spec_get(
                        k,
                    ) matches Some(pe) && pe.is_package)
                &&& forall|i: int|
                    0 <= i < self.resources.view_seq().len() ==> crate::collector::entry_files_ok(
                        res.extra_files,
                        #[trigger] self.resources.view_seq()[i],
                    )
                &&& forall|i: int|
                    0 <= i < self.resources.view_seq().len() ==> bytecode_files_ok(
                        res.extra_files,
                        (#[trigger] self.resources.view_seq()[i]).1,
                        self.resources.view_seq()[i].0@,
                    )
                &&& forall|p: Seq<char>|
                    #[trigger] res.extra_files.contains_path(p)
                        ==> crate::collector::implied_install(self.resources.view_seq(), p)
                        || implied_bytecode(self.resources.view_seq(), p)
                &&& res.extension_modules.view_seq().len()
                    == self.extension_module_states.view_seq().len()
                &&& forall|i: int|
                    0 <= i < self.extension_module_states.view_seq().len()
                        ==> (#[trigger] res.extension_modules.view_seq()[i]).0
                        == self.extension_module_states.view_seq()[i].0 && state_matches(
                        res.extension_modules.view_seq()[i].1,
                        self.extension_module_states.view_seq()[i].1,
                    )
            },
    {
        let mut names: Vec<String> = Vec::new();
        let rn: usize = self.resources.len();
        let mut i: usize = 0;
        while i < rn
            invariant
                0 <= i <= rn,
                rn == self.resources.view_seq().len(),
                names@.len() == i,
                forall|j: int| 0 <= j < i ==> (#[trigger] names@[j]) == self.resources.view_seq()[j].0,
            decreases rn - i,
        {
            names.push(self.resources.key_at(i).clone());
            i = i + 1;
        }
        let ghost res_names = names@;
        let sn: usize = self.extension_module_states.len();
        let mut i2: usize = 0;
        while i2 < sn
            invariant
                0 <= i2 <= sn,
                sn == self.extension_module_states.view_seq().len(),
                names@.len() == res_names.len() + i2,
                names@.take(res_names.len() as int) == res_names,
                forall|j: int|
                    0 <= j < res_names.len() ==> (#[trigger] names@[j])
                        == self.resources.view_seq()[j].0,
                forall|j: int|
                    0 <= j < i2 ==> (#[trigger] names@[res_names.len() + j])
                        == self.extension_module_states.view_seq()[j].0,
            decreases sn - i2,
        {
            let ghost pre = names@;
            names.push(self.extension_module_states.key_at(i2).clone());
            proof {
                assert(names@.take(res_names.len() as int) =~= pre.take(res_names.len() as int));
            }
            i2 = i2 + 1;
        }
        proof {
            assert(res_names.len() == rn as int);
            assert forall|k: Seq<char>| anc_names(k, names@) <==> table_implied_anc(*self, k) by {
                if anc_names(k, names@) {
                    let ix = choose|ix: int|
                        0 <= ix < names@.len() && crate::paths::is_ancestor(
                            k,
                            (#[trigger] names@[ix])@,
                        );
                    if ix < rn {
                        assert(names@[ix] == self.resources.view_seq()[ix].0);
                    } else {
                        assert(names@[res_names.len() + (ix - rn)]
                            == self.extension_module_states.view_seq()[ix - rn].0);
                        assert(names@[ix] == self.extension_module_states.view_seq()[ix - rn].0);
                    }
                }
                if table_implied_anc(*self, k) {
                    if exists|ix: int|
                        0 <= ix < self.resources.view_seq().len() && crate::paths::is_ancestor(
                            k,
                            (#[trigger] self.resources.view_seq()[ix]).0@,
                        ) {
                        let ix = choose|ix: int|
                            0 <= ix < self.resources.view_seq().len()
                                && crate::paths::is_ancestor(
                                k,
                                (#[trigger] self.resources.view_seq()[ix]).0@,
                            );
                        assert(names@[ix] == self.resources.view_seq()[ix].0);
                        assert(crate::paths::is_ancestor(k, names@[ix]@));
                    } else {
                        let ix = choose|ix: int|
                            0 <= ix < self.extension_module_states.view_seq().len()
                                && crate::paths::is_ancestor(
                                k,
                                (#[trigger] self.extension_module_states.view_seq()[ix]).0@,
                            );
                        assert(names@[rn + ix] == self.extension_module_states.view_seq()[ix].0);
                        assert(crate::paths::is_ancestor(k, names@[rn + ix]@));
                    }
                }
            }
        }
        let mut files = match self.derive_extra_files() {
            Ok(m) => m,
            Err(e) => {
                return Err(e);
            },
        };
        let mut v: Vec<(String, PackedResource)> = Vec::new();
        let mut cur: usize = 0;
        let mut i3: usize = 0;
        while i3 < rn
            invariant
                0 <= i3 <= rn,
                rn == self.resources.view_seq().len(),
                self.wf(),
                results@.len() == requests_of(self.resources.view_seq()).len(),
                cur == requests_of(self.resources.view_seq().take(i3 as int)).len(),
                files.wf(),
                forall|i4: int|
                    0 <= i4 < self.resources.view_seq().len()
                        ==> crate::collector::entry_files_ok(
                        files,
                        #[trigger] self.resources.view_seq()[i4],
                    ),
                forall|i4: int|
                    0 <= i4 < i3 ==> bytecode_files_ok(
                        files,
                        (#[trigger] self.resources.view_seq()[i4]).1,
                        self.resources.view_seq()[i4].0@,
                    ),
                forall|p: Seq<char>|
                    #[trigger] files.contains_path(p) ==> crate::collector::implied_install(
                        self.resources.view_seq(),
                        p,
                    ) || implied_bytecode(self.resources.view_seq(), p),
                v@.len() == i3,
                forall|j: int|
                    0 <= j < i3 ==> (#[trigger] v@[j]).0 == self.resources.view_seq()[j].0
                        && packed_entry_matches(
                        v@[j].1,
                        self.resources.view_seq()[j].1,
                        self.resources.view_seq()[j].0@,
                    ),
            decreases rn - i3,
        {
            let key = self.resources.key_at(i3);
            let e = self.resources.val_at(i3);
            proof {
                assert(crate::collector::entry_wf(self.resources.view_seq()[i3 as int].1));
            }
            let ghost files_pre = files;
            proof {
                lemma_requests_take_succ(self.resources.view_seq(), i3 as int);
                lemma_requests_take_le(self.resources.view_seq(), i3 + 1);
            }
            let pe = match convert_entry(&mut files, key, e, results, cur) {
                Ok(pc) => {
                    cur = pc.1;
                    pc.0
                },
                Err(err) => {
                    return Err(err);
                },
            };
            proof {
                assert forall|i4: int|
                    0 <= i4 < self.resources.view_seq().len()
                        implies crate::collector::entry_files_ok(
                    files,
                    #[trigger] self.resources.view_seq()[i4],
                ) by {
                    crate::collector::lemma_entry_files_ok_extends(
                        files_pre,
                        files,
                        self.resources.view_seq()[i4],
                    );
                }
                assert forall|i4: int| 0 <= i4 < i3 + 1 implies bytecode_files_ok(
                    files,
                    (#[trigger] self.resources.view_seq()[i4]).1,
                    self.resources.view_seq()[i4].0@,
                ) by {
                    if i4 < i3 {
                        lemma_bytecode_files_ok_extends(
                            files_pre,
                            files,
                            self.resources.view_seq()[i4].1,
                            self.resources.view_seq()[i4].0@,
                        );
                    }
                }
                assert forall|p: Seq<char>|
                    #[trigger] files.contains_path(p) implies crate::collector::implied_install(
                    self.resources.view_seq(),
                    p,
                ) || implied_bytecode(self.resources.view_seq(), p) by {
                    if !files_pre.contains_path(p) {
                        assert(entry_bytecode_path(
                            self.resources.view_seq()[i3 as int].1,
                            self.resources.view_seq()[i3 as int].0@,
                            p,
                        ));
                    }
                }
            }
            v.push((key.clone(), pe));
            i3 = i3 + 1;
        }
        let mut table = SortedMap { entries: v };
        let ghost t0 = table;
        proof {
            assert forall|a: int, b: int|
                0 <= a < b < table.view_seq().len() implies crate::order::lex_lt(
                table.view_seq()[a].0@,
                table.view_seq()[b].0@,
            ) by {
                assert(table.view_seq()[a].0 == self.resources.view_seq()[a].0);
                assert(table.view_seq()[b].0 == self.resources.view_seq()[b].0);
            }
            assert forall|k: Seq<char>| #[trigger] t0.contains_key(k)
                <==> self.resources.contains_key(k) by {
                crate::smap::lemma_get_from_exists(t0.view_seq(), k);
                crate::smap::lemma_get_from_exists(self.resources.view_seq(), k);
                if t0.contains_key(k) {
                    let ix = choose|ix: int|
                        0 <= ix < t0.view_seq().len() && t0.view_seq()[ix].0@ == k;
                    assert(self.resources.view_seq()[ix].0@ == k);
                }
                if self.resources.contains_key(k) {
                    let ix = choose|ix: int|
                        0 <= ix < self.resources.view_seq().len()
                            && self.resources.view_seq()[ix].0@ == k;
                    assert(t0.view_seq()[ix].0@ == k);
                }
            }
            assert forall|k: Seq<char>|
                match #[trigger] self.resources.spec_get(k) {
                    Some(e) => t0.spec_get(k) matches Some(pe0) && packed_entry_matches(pe0, e, k),
                    None => !t0.contains_key(k),
                } by {
                if self.resources.spec_get(k) is Some {
                    crate::smap::lemma_get_from_exists(self.resources.view_seq(), k);
                    let ix = choose|ix: int|
                        0 <= ix < self.resources.view_seq().len()
                            && self.resources.view_seq()[ix].0@ == k;
                    crate::smap::lemma_get_member(self.resources.view_seq(), ix);
                    crate::smap::lemma_get_member(t0.view_seq(), ix);
                    assert(t0.view_seq()[ix].0@ == k);
                }
            }
        }
        infer_packages(&mut table, &names);
        let states = copy_states(&self.extension_module_states);
        let res = EmbeddedPythonResources { resources: table, extra_files: files, extension_modules: states };
        proof {
            assert forall|k: Seq<char>|
                match #[trigger] self.resources.spec_get(k) {
                    Some(e) => exists|pe0: PackedResource|
                        res.resources.spec_get(k) matches Some(pe) && #[trigger] packed_entry_matches(
                            pe0,
                            e,
                            k,
                        ) && flag_merged(pe, pe0, table_implied_anc(*self, k)),
                    None => table_implied_anc(*self, k) ==> (res.resources.spec_get(
                        k,
                    ) matches Some(pe) && inferred_package(pe, k)),
                } by {
                if self.resources.spec_get(k) is Some {
                    let pe0 = t0.spec_get(k).unwrap();
                    assert(res.resources.spec_get(k) matches Some(pe) && flag_merged(
                        pe,
                        pe0,
                        anc_names(k, names@),
                    ));
                }
            }
            assert forall|k: Seq<char>| #[trigger] table_implied_anc(*self, k) implies (
            res.resources.spec_get(k) matches Some(pe) && pe.is_package) by {
                assert(anc_names(k, names@));
                if t0.spec_get(k) is Some {
                    let pe0 = t0.spec_get(k).unwrap();
                    assert(res.resources.spec_get(k) matches Some(pe) && flag_merged(
                        pe,
                        pe0,
                        anc_names(k, names@),
                    ));
                }
            }
        }
        Ok(res)
    }
}

} // verus!
