//! The resource collector: an ordered table of resource entries, mutated by
//! policy-checked adds and consumed by the packaging pipeline.

use vstd::prelude::*;
use vstd::string::*;

use crate::error::PackagingError;
use crate::extension::{
    collect_links, DistributionExtensionModule, ExtensionModuleBuildState, LibraryDependency,
    LinkKind,
};
use crate::policy::{policy_allows, PythonResourcesPolicy, ResourceLocation};
use crate::resource::{
    loc_eq, DataLocation, PythonExtensionModule, PythonModuleBytecodeFromSource,
    PythonModuleSource, PythonPackageDistributionResource, PythonPackageResource, ResourceFlavor,
};
use crate::smap::SortedMap;

verus! {

/// A resource entry before packaging: the payloads collected for one dotted
/// name, each optional, with in-memory and filesystem-relative variants.
#[derive(Clone, Debug, PartialEq, Default)]
pub struct PrePackagedResource {
    /// The kind of the entry.
    pub flavor: ResourceFlavor,
    /// The resource's name (usually the table key; a shared library entry
    /// registered under its library name carries its file name here).
    pub name: String,
    /// Whether the entry is a package.
    pub is_package: bool,
    /// Source code to embed for in-memory import.
    pub in_memory_source: Option<DataLocation>,
    /// Source to compile to bytecode embedded for in-memory import.
    pub in_memory_bytecode_source: Option<DataLocation>,
    /// As above, at optimization level one.
    pub in_memory_bytecode_opt1_source: Option<DataLocation>,
    /// As above, at optimization level two.
    pub in_memory_bytecode_opt2_source: Option<DataLocation>,
    /// An extension module shared library to embed for in-memory import.
    pub in_memory_extension_module_shared_library: Option<DataLocation>,
    /// Package resource data to embed, keyed by relative name.
    pub in_memory_resources: SortedMap<DataLocation>,
    /// Distribution metadata to embed, keyed by file name.
    pub in_memory_distribution_resources: SortedMap<DataLocation>,
    /// A shared library to embed.
    pub in_memory_shared_library: Option<DataLocation>,
    /// Names of shared libraries this entry depends on.
    pub shared_library_dependency_names: Option<Vec<String>>,
    /// Source code installed relative to the binary: (prefix, source).
    pub relative_path_module_source: Option<(String, DataLocation)>,
    /// Source compiled to an installed bytecode file:
    /// (prefix, cache tag, source).
    pub relative_path_bytecode_source: Option<(String, String, DataLocation)>,
    /// As above, at optimization level one.
    pub relative_path_bytecode_opt1_source: Option<(String, String, DataLocation)>,
    /// As above, at optimization level two.
    pub relative_path_bytecode_opt2_source: Option<(String, String, DataLocation)>,
    /// An extension module shared library installed relative to the binary:
    /// (prefix, install path, data).
    pub relative_path_extension_module_shared_library: Option<(String, String, DataLocation)>,
    /// Package resource files to install, keyed by relative name:
    /// (install path, data).
    pub relative_path_package_resources: SortedMap<(String, DataLocation)>,
    /// Distribution metadata files to install, keyed by file name:
    /// (install path, data).
    pub relative_path_distribution_resources: SortedMap<(String, DataLocation)>,
    /// A shared library installed relative to the binary: (prefix, data).
    pub relative_path_shared_library: Option<(String, DataLocation)>,
}

/// A payload field of `PrePackagedResource`, used to say which field an add
/// touched.
#[derive(Clone, Copy, Debug, PartialEq, Eq, Structural)]
pub enum EntryField {
    /// No field.
    Nothing,
    /// `in_memory_source`.
    ImSource,
    /// `in_memory_bytecode_source`.
    ImBytecode0,
    /// `in_memory_bytecode_opt1_source`.
    ImBytecode1,
    /// `in_memory_bytecode_opt2_source`.
    ImBytecode2,
    /// `in_memory_extension_module_shared_library`.
    ImExtLib,
    /// `in_memory_resources`.
    ImResources,
    /// `in_memory_distribution_resources`.
    ImDistResources,
    /// `in_memory_shared_library`.
    ImSharedLib,
    /// `shared_library_dependency_names`.
    SharedLibDeps,
    /// `relative_path_module_source`.
    RelSource,
    /// `relative_path_bytecode_source`.
    RelBytecode0,
    /// `relative_path_bytecode_opt1_source`.
    RelBytecode1,
    /// `relative_path_bytecode_opt2_source`.
    RelBytecode2,
    /// `relative_path_extension_module_shared_library`.
    RelExtLib,
    /// `relative_path_package_resources`.
    RelResources,
    /// `relative_path_distribution_resources`.
    RelDistResources,
    /// `relative_path_shared_library`.
    RelSharedLib,
}

/// Every payload field of `e` other than `t` equals the corresponding field
/// of `base`, or is absent when the entry is new (`base` is `None`).
pub open spec fn payload_keeps(e: PrePackagedResource, base: Option<PrePackagedResource>, t: EntryField) -> bool {
    &&& (t != EntryField::ImSource ==> e.in_memory_source == match base {
        Some(b) => b.in_memory_source,
        None => None::<DataLocation>,
    })
    &&& (t != EntryField::ImBytecode0 ==> e.in_memory_bytecode_source == match base {
        Some(b) => b.in_memory_bytecode_source,
        None => None::<DataLocation>,
    })
    &&& (t != EntryField::ImBytecode1 ==> e.in_memory_bytecode_opt1_source == match base {
        Some(b) => b.in_memory_bytecode_opt1_source,
        None => None::<DataLocation>,
    })
    &&& (t != EntryField::ImBytecode2 ==> e.in_memory_bytecode_opt2_source == match base {
        Some(b) => b.in_memory_bytecode_opt2_source,
        None => None::<DataLocation>,
    })
    &&& (t != EntryField::ImExtLib ==> e.in_memory_extension_module_shared_library == match base {
        Some(b) => b.in_memory_extension_module_shared_library,
        None => None::<DataLocation>,
    })
    &&& (t != EntryField::ImResources ==> match base {
        Some(b) => e.in_memory_resources == b.in_memory_resources,
        None => e.in_memory_resources.view_seq().len() == 0,
    })
    &&& (t != EntryField::ImDistResources ==> match base {
        Some(b) => e.in_memory_distribution_resources == b.in_memory_distribution_resources,
        None => e.in_memory_distribution_resources.view_seq().len() == 0,
    })
    &&& (t != EntryField::ImSharedLib ==> e.in_memory_shared_library == match base {
        Some(b) => b.in_memory_shared_library,
        None => None::<DataLocation>,
    })
    &&& (t != EntryField::SharedLibDeps ==> e.shared_library_dependency_names == match base {
        Some(b) => b.shared_library_dependency_names,
        None => None::<Vec<String>>,
    })
    &&& (t != EntryField::RelSource ==> e.relative_path_module_source == match base {
        Some(b) => b.relative_path_module_source,
        None => None::<(String, DataLocation)>,
    })
    &&& (t != EntryField::RelBytecode0 ==> e.relative_path_bytecode_source == match base {
        Some(b) => b.relative_path_bytecode_source,
        None => None::<(String, String, DataLocation)>,
    })
    &&& (t != EntryField::RelBytecode1 ==> e.relative_path_bytecode_opt1_source == match base {
        Some(b) => b.relative_path_bytecode_opt1_source,
        None => None::<(String, String, DataLocation)>,
    })
    &&& (t != EntryField::RelBytecode2 ==> e.relative_path_bytecode_opt2_source == match base {
        Some(b) => b.relative_path_bytecode_opt2_source,
        None => None::<(String, String, DataLocation)>,
    })
    &&& (t != EntryField::RelExtLib ==> e.relative_path_extension_module_shared_library
        == match base {
        Some(b) => b.relative_path_extension_module_shared_library,
        None => None::<(String, String, DataLocation)>,
    })
    &&& (t != EntryField::RelResources ==> match base {
        Some(b) => e.relative_path_package_resources == b.relative_path_package_resources,
        None => e.relative_path_package_resources.view_seq().len() == 0,
    })
    &&& (t != EntryField::RelDistResources ==> match base {
        Some(b) => e.relative_path_distribution_resources
            == b.relative_path_distribution_resources,
        None => e.relative_path_distribution_resources.view_seq().len() == 0,
    })
    &&& (t != EntryField::RelSharedLib ==> e.relative_path_shared_library == match base {
        Some(b) => b.relative_path_shared_library,
        None => None::<(String, DataLocation)>,
    })
}

/// An entry's sub-tables are well formed.
pub open spec fn entry_wf(e: PrePackagedResource) -> bool {
    e.in_memory_resources.wf() && e.in_memory_distribution_resources.wf()
        && e.relative_path_package_resources.wf()
        && e.relative_path_distribution_resources.wf()
}

impl PrePackagedResource {
    /// A new entry with the given name and flavor and no payload.
    pub fn fresh(name: String, flavor: ResourceFlavor) -> (r: Self)
        ensures
            r.name == name,
            r.flavor == flavor,
            !r.is_package,
            payload_keeps(r, None::<PrePackagedResource>, EntryField::Nothing),
            entry_wf(r),
    {
        PrePackagedResource {
            flavor,
            name,
            is_package: false,
            in_memory_source: None,
            in_memory_bytecode_source: None,
            in_memory_bytecode_opt1_source: None,
            in_memory_bytecode_opt2_source: None,
            in_memory_extension_module_shared_library: None,
            in_memory_resources: SortedMap::new(),
            in_memory_distribution_resources: SortedMap::new(),
            in_memory_shared_library: None,
            shared_library_dependency_names: None,
            relative_path_module_source: None,
            relative_path_bytecode_source: None,
            relative_path_bytecode_opt1_source: None,
            relative_path_bytecode_opt2_source: None,
            relative_path_extension_module_shared_library: None,
            relative_path_package_resources: SortedMap::new(),
            relative_path_distribution_resources: SortedMap::new(),
            relative_path_shared_library: None,
        }
    }
}

/// Copy an optional string.
pub fn clone_opt_string(o: &Option<String>) -> (r: Option<String>)
    ensures
        r == *o,
{
    match o {
        Some(s) => Some(s.clone()),
        None => None,
    }
}

/// Python resources collected for embedding, before packaging.
///
/// Adds are checked against the placement policy; entries for the same name
/// merge field-wise, later adds winning on the field they set.
#[derive(Clone, Debug, PartialEq)]
pub struct PrePackagedResources {
    /// The active placement policy.
    pub policy: PythonResourcesPolicy,
    /// Tag applied to bytecode cache file names.
    pub cache_tag: String,
    /// The resource entries, keyed by name.
    pub resources: SortedMap<PrePackagedResource>,
    /// Link state for builtin extension modules, keyed by module name.
    pub extension_module_states: SortedMap<ExtensionModuleBuildState>,
}

impl PrePackagedResources {
    /// Both tables are well formed, as is everything in them.
    pub open spec fn wf(&self) -> bool {
        &&& self.resources.wf()
        &&& self.extension_module_states.wf()
        &&& forall|i: int|
            0 <= i < self.resources.view_seq().len() ==> entry_wf(
                #[trigger] self.resources.view_seq()[i].1,
            )
        &&& forall|i: int|
            0 <= i < self.extension_module_states.view_seq().len()
                ==> (#[trigger] self.extension_module_states.view_seq()[i].1).wf()
    }

    /// The entry stored under `name`.
    pub open spec fn spec_entry(&self, name: Seq<char>) -> Option<PrePackagedResource> {
        self.resources.spec_get(name)
    }

    /// Everything but the resource table is unchanged.
    pub open spec fn same_but_resources(&self, other: &Self) -> bool {
        self.policy == other.policy && self.cache_tag == other.cache_tag
            && self.extension_module_states == other.extension_module_states
    }

    /// Everything but the extension-module state table is unchanged.
    pub open spec fn same_but_states(&self, other: &Self) -> bool {
        self.policy == other.policy && self.cache_tag == other.cache_tag && self.resources
            == other.resources
    }

    /// A stored entry is well formed.
    pub proof fn lemma_entry_wf(&self, name: Seq<char>)
        requires
            self.wf(),
            self.spec_entry(name) is Some,
        ensures
            entry_wf(self.spec_entry(name).unwrap()),
    {
        crate::smap::lemma_get_from_exists(self.resources.view_seq(), name);
        let i = choose|i: int|
            0 <= i < self.resources.view_seq().len() && self.resources.view_seq()[i].0@ == name;
        crate::smap::lemma_sorted_distinct(self.resources.view_seq(), i);
        crate::smap::lemma_get_from_prefix(self.resources.view_seq(), i);
    }

    /// An empty collection under `policy` with the given cache tag.
    pub fn new(policy: &PythonResourcesPolicy, cache_tag: &str) -> (r: Self)
        ensures
            r.wf(),
            r.policy == *policy,
            r.cache_tag@ == cache_tag@,
            r.resources.view_seq().len() == 0,
            r.extension_module_states.view_seq().len() == 0,
            forall|k: Seq<char>| !r.resources.contains_key(k),
            forall|k: Seq<char>| !r.extension_module_states.contains_key(k),
    {
        let p = match policy {
            PythonResourcesPolicy::InMemoryOnly => PythonResourcesPolicy::InMemoryOnly,
            PythonResourcesPolicy::FilesystemRelativeOnly(s) => {
                PythonResourcesPolicy::FilesystemRelativeOnly(s.clone())
            },
            PythonResourcesPolicy::PreferInMemoryFallbackFilesystemRelative(s) => {
                PythonResourcesPolicy::PreferInMemoryFallbackFilesystemRelative(s.clone())
            },
        };
        let r = PrePackagedResources {
            policy: p,
            cache_tag: String::from_str(cache_tag),
            resources: SortedMap::new(),
            extension_module_states: SortedMap::new(),
        };
        proof {
            assert forall|k: Seq<char>| !r.resources.contains_key(k) by {
                crate::smap::lemma_get_from_exists(r.resources.view_seq(), k);
            }
            assert forall|k: Seq<char>| !r.extension_module_states.contains_key(k) by {
                crate::smap::lemma_get_from_exists(r.extension_module_states.view_seq(), k);
            }
        }
        r
    }

    /// Take the entry for `name` out of the table, or make a fresh one with
    /// the given flavor.
    fn take_or_fresh(&mut self, name: &String, flavor: ResourceFlavor) -> (r: PrePackagedResource)
        requires
            old(self).wf(),
        ensures
            final(self).wf(),
            final(self).same_but_resources(old(self)),
            !final(self).resources.contains_key(name@),
            forall|k: Seq<char>|
                k != name@ ==> final(self).resources.spec_get(k) == old(self).resources.spec_get(
                    k,
                ),
            entry_wf(r),
            match old(self).spec_entry(name@) {
                Some(b) => r == b,
                None => r.name == *name && r.flavor == flavor && !r.is_package && payload_keeps(
                    r,
                    None::<PrePackagedResource>,
                    EntryField::Nothing,
                ),
            },
    {
        proof {
            if old(self).spec_entry(name@) is Some {
                old(self).lemma_entry_wf(name@);
            }
        }
        match self.resources.take(name.as_str()) {
            Some(e) => e,
            None => PrePackagedResource::fresh(name.clone(), flavor),
        }
    }

    /// Put an entry back under `name`.
    fn put_entry(&mut self, name: &String, e: PrePackagedResource)
        requires
            old(self).wf(),
            !old(self).resources.contains_key(name@),
            entry_wf(e),
        ensures
            final(self).wf(),
            final(self).same_but_resources(old(self)),
            final(self).spec_entry(name@) == Some(e),
            forall|k: Seq<char>|
                k != name@ ==> final(self).resources.spec_get(k) == old(self).resources.spec_get(
                    k,
                ),
    {
        let ghost pre = *self;
        self.resources.put(name.clone(), e);
        proof {
            assert forall|j: int| 0 <= j < self.resources.view_seq().len() implies entry_wf(
                #[trigger] self.resources.view_seq()[j].1,
            ) by {
                if self.resources.view_seq()[j].1 != e {
                    assert(pre.resources.view_seq().contains(self.resources.view_seq()[j]));
                    let idx = choose|idx: int|
                        0 <= idx < pre.resources.view_seq().len() && pre.resources.view_seq()[idx]
                            == self.resources.view_seq()[j];
                    assert(entry_wf(pre.resources.view_seq()[idx].1));
                }
            }
        }
    }

    /// As `take_or_fresh`, with the name given as a slice.
    fn take_or_fresh_str(&mut self, name: &str, flavor: ResourceFlavor) -> (r: PrePackagedResource)
        requires
            old(self).wf(),
        ensures
            final(self).wf(),
            final(self).same_but_resources(old(self)),
            !final(self).resources.contains_key(name@),
            forall|k: Seq<char>|
                k != name@ ==> final(self).resources.spec_get(k) == old(self).resources.spec_get(
                    k,
                ),
            entry_wf(r),
            match old(self).spec_entry(name@) {
                Some(b) => r == b,
                None => r.name@ == name@ && r.flavor == flavor && !r.is_package && payload_keeps(
                    r,
                    None::<PrePackagedResource>,
                    EntryField::Nothing,
                ),
            },
    {
        proof {
            if old(self).spec_entry(name@) is Some {
                old(self).lemma_entry_wf(name@);
            }
        }
        match self.resources.take(name) {
            Some(e) => e,
            None => PrePackagedResource::fresh(String::from_str(name), flavor),
        }
    }

    /// As `put_entry`, with the name given as a slice.
    fn put_entry_str(&mut self, name: &str, e: PrePackagedResource)
        requires
            old(self).wf(),
            !old(self).resources.contains_key(name@),
            entry_wf(e),
        ensures
            final(self).wf(),
            final(self).same_but_resources(old(self)),
            final(self).spec_entry(name@) == Some(e),
            forall|k: Seq<char>|
                k != name@ ==> final(self).resources.spec_get(k) == old(self).resources.spec_get(
                    k,
                ),
    {
        let ghost pre = *self;
        self.resources.put(String::from_str(name), e);
        proof {
            assert forall|j: int| 0 <= j < self.resources.view_seq().len() implies entry_wf(
                #[trigger] self.resources.view_seq()[j].1,
            ) by {
                if self.resources.view_seq()[j].1 != e {
                    assert(pre.resources.view_seq().contains(self.resources.view_seq()[j]));
                    let idx = choose|idx: int|
                        0 <= idx < pre.resources.view_seq().len() && pre.resources.view_seq()[idx]
                            == self.resources.view_seq()[j];
                    assert(entry_wf(pre.resources.view_seq()[idx].1));
                }
            }
        }
    }

    /// Add a source module to be imported from memory.
    ///
    /// Fails exactly when the policy forbids in-memory placement; the
    /// collection is then unchanged.
    pub fn add_in_memory_module_source(&mut self, module: &PythonModuleSource) -> (r: Result<
        (),
        PackagingError,
    >)
        requires
            old(self).wf(),
        ensures
            final(self).wf(),
            r is Ok <==> policy_allows(old(self).policy, ResourceLocation::InMemory),
            r is Err ==> *final(self) == *old(self) && r == Result::<(), PackagingError>::Err(
                PackagingError::PolicyViolation,
            ),
            r is Ok ==> final(self).same_but_resources(old(self)) && (forall|k: Seq<char>|
                k != module.name@ ==> final(self).resources.spec_get(k) == old(
                    self,
                ).resources.spec_get(k)) && exists|e: PrePackagedResource|
                final(self).spec_entry(module.name@) == Some(e) && e.flavor
                    == ResourceFlavor::Module && (old(self).spec_entry(module.name@) is None
                    ==> e.name == module.name) && e.is_package == module.is_package && (
                e.in_memory_source matches Some(l) && loc_eq(l, module.source)) && payload_keeps(
                    e,
                    old(self).spec_entry(module.name@),
                    EntryField::ImSource,
                ),
    {
        match self.policy.check_policy(ResourceLocation::InMemory) {
            Ok(()) => {},
            Err(e) => {
                return Err(e);
            },
        }
        let mut e = self.take_or_fresh(&module.name, ResourceFlavor::Module);
        e.flavor = ResourceFlavor::Module;
        e.is_package = module.is_package;
        e.in_memory_source = Some(module.source.duplicate());
        let ghost ge = e;
        self.put_entry(&module.name, e);
        proof {
            assert(self.spec_entry(module.name@) == Some(ge));
            assert(payload_keeps(ge, old(self).spec_entry(module.name@), EntryField::ImSource));
        }
        Ok(())
    }

    /// Add a source module to be installed relative to the binary.
    ///
    /// Fails exactly when the policy forbids filesystem-relative placement;
    /// the collection is then unchanged.
    pub fn add_relative_path_module_source(
        &mut self,
        module: &PythonModuleSource,
        prefix: &str,
    ) -> (r: Result<(), PackagingError>)
        requires
            old(self).wf(),
        ensures
            final(self).wf(),
            r is Ok <==> policy_allows(old(self).policy, ResourceLocation::RelativePath),
            r is Err ==> *final(self) == *old(self) && r == Result::<(), PackagingError>::Err(
                PackagingError::PolicyViolation,
            ),
            r is Ok ==> final(self).same_but_resources(old(self)) && (forall|k: Seq<char>|
                k != module.name@ ==> final(self).resources.spec_get(k) == old(
                    self,
                ).resources.spec_get(k)) && exists|e: PrePackagedResource|
                final(self).spec_entry(module.name@) == Some(e) && e.flavor
                    == ResourceFlavor::Module && (old(self).spec_entry(module.name@) is None
                    ==> e.name == module.name) && e.is_package == module.is_package && (
                e.relative_path_module_source matches Some((p, l)) && p@ == prefix@ && loc_eq(
                    l,
                    module.source,
                )) && payload_keeps(e, old(self).spec_entry(module.name@), EntryField::RelSource),
    {
        match self.policy.check_policy(ResourceLocation::RelativePath) {
            Ok(()) => {},
            Err(e) => {
                return Err(e);
            },
        }
        let mut e = self.take_or_fresh(&module.name, ResourceFlavor::Module);
        e.flavor = ResourceFlavor::Module;
        e.is_package = module.is_package;
        e.relative_path_module_source = Some((String::from_str(prefix), module.source.duplicate()));
        let ghost ge = e;
        self.put_entry(&module.name, e);
        proof {
            assert(self.spec_entry(module.name@) == Some(ge));
            assert(payload_keeps(ge, old(self).spec_entry(module.name@), EntryField::RelSource));
        }
        Ok(())
    }
    /// Add a request to embed bytecode compiled from source for in-memory
    /// import, at the request's optimization level.
    ///
    /// Fails exactly when the policy forbids in-memory placement; the
    /// collection is then unchanged.
    pub fn add_in_memory_module_bytecode(&mut self, module: &PythonModuleBytecodeFromSource) -> (r:
        Result<(), PackagingError>)
        requires
            old(self).wf(),
        ensures
            final(self).wf(),
            r is Ok <==> policy_allows(old(self).policy, ResourceLocation::InMemory),
            r is Err ==> *final(self) == *old(self) && r == Result::<(), PackagingError>::Err(
                PackagingError::PolicyViolation,
            ),
            r is Ok ==> final(self).same_but_resources(old(self)) && (forall|k: Seq<char>|
                k != module.name@ ==> final(self).resources.spec_get(k) == old(
                    self,
                ).resources.spec_get(k)) && exists|e: PrePackagedResource|
                final(self).spec_entry(module.name@) == Some(e) && e.flavor
                    == ResourceFlavor::Module && (old(self).spec_entry(module.name@) is None
                    ==> e.name == module.name) && e.is_package == module.is_package && (
                im_bytecode_field(e, module.optimize_level) matches Some(l) && loc_eq(
                    l,
                    module.source,
                )) && payload_keeps(
                    e,
                    old(self).spec_entry(module.name@),
                    im_bytecode_tag(module.optimize_level),
                ),
    {
        match self.policy.check_policy(ResourceLocation::InMemory) {
            Ok(()) => {},
            Err(e) => {
                return Err(e);
            },
        }
        let mut e = self.take_or_fresh(&module.name, ResourceFlavor::Module);
        e.flavor = ResourceFlavor::Module;
        e.is_package = module.is_package;
        let loc = module.source.duplicate();
        match module.optimize_level {
            crate::resource::BytecodeOptimizationLevel::Zero => {
                e.in_memory_bytecode_source = Some(loc);
            },
            crate::resource::BytecodeOptimizationLevel::One => {
                e.in_memory_bytecode_opt1_source = Some(loc);
            },
            crate::resource::BytecodeOptimizationLevel::Two => {
                e.in_memory_bytecode_opt2_source = Some(loc);
            },
        }
        let ghost ge = e;
        self.put_entry(&module.name, e);
        proof {
            assert(self.spec_entry(module.name@) == Some(ge));
            assert(payload_keeps(
                ge,
                old(self).spec_entry(module.name@),
                im_bytecode_tag(module.optimize_level),
            ));
        }
        Ok(())
    }

    /// Add a request to compile source to a bytecode file installed relative
    /// to the binary, at the request's optimization level.
    ///
    /// Fails exactly when the policy forbids filesystem-relative placement;
    /// the collection is then unchanged.
    pub fn add_relative_path_module_bytecode(
        &mut self,
        module: &PythonModuleBytecodeFromSource,
        prefix: &str,
    ) -> (r: Result<(), PackagingError>)
        requires
            old(self).wf(),
        ensures
            final(self).wf(),
            r is Ok <==> policy_allows(old(self).policy, ResourceLocation::RelativePath),
            r is Err ==> *final(self) == *old(self) && r == Result::<(), PackagingError>::Err(
                PackagingError::PolicyViolation,
            ),
            r is Ok ==> final(self).same_but_resources(old(self)) && (forall|k: Seq<char>|
                k != module.name@ ==> final(self).resources.spec_get(k) == old(
                    self,
                ).resources.spec_get(k)) && exists|e: PrePackagedResource|
                final(self).spec_entry(module.name@) == Some(e) && e.flavor
                    == ResourceFlavor::Module && (old(self).spec_entry(module.name@) is None
                    ==> e.name == module.name) && e.is_package == module.is_package && (
                rel_bytecode_field(e, module.optimize_level) matches Some((p, t, l)) && p@
                    == prefix@ && t@ == module.cache_tag@ && loc_eq(l, module.source))
                    && payload_keeps(
                    e,
                    old(self).spec_entry(module.name@),
                    rel_bytecode_tag(module.optimize_level),
                ),
    {
        match self.policy.check_policy(ResourceLocation::RelativePath) {
            Ok(()) => {},
            Err(e) => {
                return Err(e);
            },
        }
        let mut e = self.take_or_fresh(&module.name, ResourceFlavor::Module);
        e.flavor = ResourceFlavor::Module;
        e.is_package = module.is_package;
        let stored = (String::from_str(prefix), module.cache_tag.clone(), module.source.duplicate());
        match module.optimize_level {
            crate::resource::BytecodeOptimizationLevel::Zero => {
                e.relative_path_bytecode_source = Some(stored);
            },
            crate::resource::BytecodeOptimizationLevel::One => {
                e.relative_path_bytecode_opt1_source = Some(stored);
            },
            crate::resource::BytecodeOptimizationLevel::Two => {
                e.relative_path_bytecode_opt2_source = Some(stored);
            },
        }
        let ghost ge = e;
        self.put_entry(&module.name, e);
        proof {
            assert(self.spec_entry(module.name@) == Some(ge));
            assert(payload_keeps(
                ge,
                old(self).spec_entry(module.name@),
                rel_bytecode_tag(module.optimize_level),
            ));
        }
        Ok(())
    }

    /// Add package resource data to be loaded from memory.
    ///
    /// The data attaches to the entry of its leaf package, which becomes a
    /// package.  Fails exactly when the policy forbids in-memory placement;
    /// the collection is then unchanged.
    pub fn add_in_memory_package_resource(&mut self, resource: &PythonPackageResource) -> (r:
        Result<(), PackagingError>)
        requires
            old(self).wf(),
        ensures
            final(self).wf(),
            r is Ok <==> policy_allows(old(self).policy, ResourceLocation::InMemory),
            r is Err ==> *final(self) == *old(self) && r == Result::<(), PackagingError>::Err(
                PackagingError::PolicyViolation,
            ),
            r is Ok ==> final(self).same_but_resources(old(self)) && (forall|k: Seq<char>|
                k != resource.leaf_package@ ==> final(self).resources.spec_get(k) == old(
                    self,
                ).resources.spec_get(k)) && exists|e: PrePackagedResource|
                final(self).spec_entry(resource.leaf_package@) == Some(e) && e.flavor
                    == ResourceFlavor::Module && (old(self).spec_entry(resource.leaf_package@)
                    is None ==> e.name == resource.leaf_package) && e.is_package && (
                e.in_memory_resources.spec_get(resource.relative_name@) matches Some(l) && loc_eq(
                    l,
                    resource.data,
                )) && (forall|k2: Seq<char>|
                    k2 != resource.relative_name@ ==> e.in_memory_resources.spec_get(k2)
                        == sub_loc_get(old(self).spec_entry(resource.leaf_package@), k2))
                    && payload_keeps(
                    e,
                    old(self).spec_entry(resource.leaf_package@),
                    EntryField::ImResources,
                ),
    {
        match self.policy.check_policy(ResourceLocation::InMemory) {
            Ok(()) => {},
            Err(e) => {
                return Err(e);
            },
        }
        let mut e = self.take_or_fresh(&resource.leaf_package, ResourceFlavor::Module);
        e.flavor = ResourceFlavor::Module;
        e.is_package = true;
        let _ = e.in_memory_resources.take(resource.relative_name.as_str());
        e.in_memory_resources.put(resource.relative_name.clone(), resource.data.duplicate());
        let ghost ge = e;
        self.put_entry(&resource.leaf_package, e);
        proof {
            assert(self.spec_entry(resource.leaf_package@) == Some(ge));
            assert(payload_keeps(
                ge,
                old(self).spec_entry(resource.leaf_package@),
                EntryField::ImResources,
            ));
        }
        Ok(())
    }

    /// Add a package resource file to be installed relative to the binary.
    ///
    /// Fails exactly when the policy forbids filesystem-relative placement;
    /// the collection is then unchanged.
    pub fn add_relative_path_package_resource(
        &mut self,
        prefix: &str,
        resource: &PythonPackageResource,
    ) -> (r: Result<(), PackagingError>)
        requires
            old(self).wf(),
        ensures
            final(self).wf(),
            r is Ok <==> policy_allows(old(self).policy, ResourceLocation::RelativePath),
            r is Err ==> *final(self) == *old(self) && r == Result::<(), PackagingError>::Err(
                PackagingError::PolicyViolation,
            ),
            r is Ok ==> final(self).same_but_resources(old(self)) && (forall|k: Seq<char>|
                k != resource.leaf_package@ ==> final(self).resources.spec_get(k) == old(
                    self,
                ).resources.spec_get(k)) && exists|e: PrePackagedResource|
                final(self).spec_entry(resource.leaf_package@) == Some(e) && e.flavor
                    == ResourceFlavor::Module && (old(self).spec_entry(resource.leaf_package@)
                    is None ==> e.name == resource.leaf_package) && e.is_package && (
                e.relative_path_package_resources.spec_get(resource.relative_name@) matches Some(
                    (p, l),
                ) && p@ == crate::paths::package_resource_path(
                    prefix@,
                    resource.leaf_package@,
                    resource.relative_name@,
                ) && loc_eq(l, resource.data)) && payload_keeps(
                    e,
                    old(self).spec_entry(resource.leaf_package@),
                    EntryField::RelResources,
                ),
    {
        match self.policy.check_policy(ResourceLocation::RelativePath) {
            Ok(()) => {},
            Err(e) => {
                return Err(e);
            },
        }
        let mut e = self.take_or_fresh(&resource.leaf_package, ResourceFlavor::Module);
        e.flavor = ResourceFlavor::Module;
        e.is_package = true;
        let path = crate::paths::resolve_package_resource_path(
            prefix,
            resource.leaf_package.as_str(),
            resource.relative_name.as_str(),
        );
        let _ = e.relative_path_package_resources.take(resource.relative_name.as_str());
        e.relative_path_package_resources.put(
            resource.relative_name.clone(),
            (path, resource.data.duplicate()),
        );
        let ghost ge = e;
        self.put_entry(&resource.leaf_package, e);
        proof {
            assert(self.spec_entry(resource.leaf_package@) == Some(ge));
            assert(payload_keeps(
                ge,
                old(self).spec_entry(resource.leaf_package@),
                EntryField::RelResources,
            ));
        }
        Ok(())
    }

    /// Add package distribution metadata to be loaded from memory.
    ///
    /// Fails exactly when the policy forbids in-memory placement; the
    /// collection is then unchanged.
    pub fn add_in_memory_package_distribution_resource(
        &mut self,
        resource: &PythonPackageDistributionResource,
    ) -> (r: Result<(), PackagingError>)
        requires
            old(self).wf(),
        ensures
            final(self).wf(),
            r is Ok <==> policy_allows(old(self).policy, ResourceLocation::InMemory),
            r is Err ==> *final(self) == *old(self) && r == Result::<(), PackagingError>::Err(
                PackagingError::PolicyViolation,
            ),
            r is Ok ==> final(self).same_but_resources(old(self)) && (forall|k: Seq<char>|
                k != resource.package@ ==> final(self).resources.spec_get(k) == old(
                    self,
                ).resources.spec_get(k)) && exists|e: PrePackagedResource|
                final(self).spec_entry(resource.package@) == Some(e) && e.flavor
                    == ResourceFlavor::Module && (old(self).spec_entry(resource.package@) is None
                    ==> e.name == resource.package) && e.is_package && (
                e.in_memory_distribution_resources.spec_get(resource.name@) matches Some(l)
                    && loc_eq(l, resource.data)) && payload_keeps(
                    e,
                    old(self).spec_entry(resource.package@),
                    EntryField::ImDistResources,
                ),
    {
        match self.policy.check_policy(ResourceLocation::InMemory) {
            Ok(()) => {},
            Err(e) => {
                return Err(e);
            },
        }
        let mut e = self.take_or_fresh(&resource.package, ResourceFlavor::Module);
        e.flavor = ResourceFlavor::Module;
        e.is_package = true;
        let _ = e.in_memory_distribution_resources.take(resource.name.as_str());
        e.in_memory_distribution_resources.put(resource.name.clone(), resource.data.duplicate());
        let ghost ge = e;
        self.put_entry(&resource.package, e);
        proof {
            assert(self.spec_entry(resource.package@) == Some(ge));
            assert(payload_keeps(
                ge,
                old(self).spec_entry(resource.package@),
                EntryField::ImDistResources,
            ));
        }
        Ok(())
    }

    /// Add a package distribution metadata file to be installed relative to
    /// the binary.
    ///
    /// Fails exactly when the policy forbids filesystem-relative placement;
    /// the collection is then unchanged.
    pub fn add_relative_path_package_distribution_resource(
        &mut self,
        prefix: &str,
        resource: &PythonPackageDistributionResource,
    ) -> (r: Result<(), PackagingError>)
        requires
            old(self).wf(),
        ensures
            final(self).wf(),
            r is Ok <==> policy_allows(old(self).policy, ResourceLocation::RelativePath),
            r is Err ==> *final(self) == *old(self) && r == Result::<(), PackagingError>::Err(
                PackagingError::PolicyViolation,
            ),
            r is Ok ==> final(self).same_but_resources(old(self)) && (forall|k: Seq<char>|
                k != resource.package@ ==> final(self).resources.spec_get(k) == old(
                    self,
                ).resources.spec_get(k)) && exists|e: PrePackagedResource|
                final(self).spec_entry(resource.package@) == Some(e) && e.flavor
                    == ResourceFlavor::Module && (old(self).spec_entry(resource.package@) is None
                    ==> e.name == resource.package) && e.is_package && (
                e.relative_path_distribution_resources.spec_get(resource.name@) matches Some(
                    (p, l),
                ) && p@ == crate::paths::distribution_resource_path(
                    prefix@,
                    resource.package@,
                    resource.version@,
                    resource.name@,
                ) && loc_eq(l, resource.data)) && payload_keeps(
                    e,
                    old(self).spec_entry(resource.package@),
                    EntryField::RelDistResources,
                ),
    {
        match self.policy.check_policy(ResourceLocation::RelativePath) {
            Ok(()) => {},
            Err(e) => {
                return Err(e);
            },
        }
        let mut e = self.take_or_fresh(&resource.package, ResourceFlavor::Module);
        e.flavor = ResourceFlavor::Module;
        e.is_package = true;
        let path = crate::paths::resolve_distribution_resource_path(
            prefix,
            resource.package.as_str(),
            resource.version.as_str(),
            resource.name.as_str(),
        );
        let _ = e.relative_path_distribution_resources.take(resource.name.as_str());
        e.relative_path_distribution_resources.put(
            resource.name.clone(),
            (path, resource.data.duplicate()),
        );
        let ghost ge = e;
        self.put_entry(&resource.package, e);
        proof {
            assert(self.spec_entry(resource.package@) == Some(ge));
            assert(payload_keeps(
                ge,
                old(self).spec_entry(resource.package@),
                EntryField::RelDistResources,
            ));
        }
        Ok(())
    }
}

/// Whether some link of `links` carries a dynamic library whose file name
/// is `k`.
pub open spec fn dyn_lib_name(links: Seq<LibraryDependency>, k: Seq<char>) -> bool {
    exists|j: int|
        0 <= j < links.len() && ((#[trigger] links[j]).dynamic_path matches Some(dp)
            && crate::paths::slash_basename(dp@) == k)
}

/// Whether some link of `links` with a dynamic library is named `k`.
pub open spec fn rel_link_name(links: Seq<LibraryDependency>, k: Seq<char>) -> bool {
    exists|j: int|
        0 <= j < links.len() && (#[trigger] links[j]).dynamic_path is Some && links[j].name@ == k
}

/// The shared-library entry implied by link `j` is present: flavored as a
/// shared library and embedding the dynamic library's path.
pub open spec fn im_lib_entry_ok(
    r: PrePackagedResources,
    links: Seq<LibraryDependency>,
    j: int,
) -> bool {
    links[j].dynamic_path matches Some(dp) ==> (r.spec_entry(
        crate::paths::slash_basename(dp@),
    ) matches Some(le) && le.flavor == ResourceFlavor::SharedLibrary && (
    le.in_memory_shared_library matches Some(DataLocation::Path(q)) && exists|j2: int|
        0 <= j2 < links.len() && ((#[trigger] links[j2]).dynamic_path matches Some(dp2)
            && crate::paths::slash_basename(dp2@) == crate::paths::slash_basename(dp@) && dp2@
            == q@)))
}

/// The shared-library entry implied by link `j` is present under the link's
/// name: flavored as a shared library, named by the library's file name, and
/// installing the library under `prefix`.
pub open spec fn rel_lib_entry_ok(
    r: PrePackagedResources,
    links: Seq<LibraryDependency>,
    j: int,
    prefix: Seq<char>,
) -> bool {
    links[j].dynamic_path is Some ==> (r.spec_entry(links[j].name@) matches Some(le) && le.flavor
        == ResourceFlavor::SharedLibrary && (le.relative_path_shared_library matches Some((p, l))
        && p@ == prefix && (l matches DataLocation::Path(q) && le.name@
        == crate::paths::slash_basename(q@) && exists|j2: int|
        0 <= j2 < links.len() && ((#[trigger] links[j2]).dynamic_path matches Some(dp2)
            && links[j2].name@ == links[j].name@ && dp2@ == q@))))
}

/// The dependency names already recorded on the entry `base`, as views.
pub open spec fn base_dep_views(base: Option<PrePackagedResource>) -> Seq<Seq<char>> {
    match base {
        Some(b) => match b.shared_library_dependency_names {
            Some(v) => str_views(v@),
            None => Seq::empty(),
        },
        None => Seq::empty(),
    }
}

/// As `payload_keeps`, with two touched fields.
pub open spec fn payload_keeps2(
    e: PrePackagedResource,
    base: Option<PrePackagedResource>,
    t1: EntryField,
    t2: EntryField,
) -> bool {
    payload_keeps(PrePackagedResource { shared_library_dependency_names: match base {
        Some(b) => b.shared_library_dependency_names,
        None => None::<Vec<String>>,
    }, ..e }, base, t1) && (t2 == EntryField::SharedLibDeps)
}

/// Append a copy of every string of `src` to `dst`.
pub fn append_string_clones(dst: &mut Vec<String>, src: &Vec<String>)
    ensures
        final(dst)@ == old(dst)@ + src@,
{
    let n: usize = src.len();
    let mut i: usize = 0;
    while i < n
        invariant
            0 <= i <= n,
            n == src@.len(),
            dst@ == old(dst)@ + src@.take(i as int),
        decreases n - i,
    {
        dst.push(src[i].clone());
        proof {
            assert(dst@ =~= old(dst)@ + src@.take(i + 1));
        }
        i = i + 1;
    }
    proof {
        assert(old(dst)@ + src@.take(n as int) =~= old(dst)@ + src@);
    }
}

/// The file names of the dynamic libraries of `links`, in link order.
pub open spec fn dyn_names(links: Seq<LibraryDependency>) -> Seq<Seq<char>>
    decreases links.len(),
{
    if links.len() == 0 {
        Seq::empty()
    } else {
        dyn_names(links.drop_last()) + (match links.last().dynamic_path {
            Some(dp) => seq![crate::paths::slash_basename(dp@)],
            None => Seq::empty(),
        })
    }
}

/// The views of a sequence of strings.
pub open spec fn str_views(v: Seq<String>) -> Seq<Seq<char>> {
    v.map_values(|s: String| s@)
}

impl PrePackagedResources {
    /// Take the state for `name` out of the state table, if present.
    fn take_state(&mut self, name: &str) -> (r: Option<ExtensionModuleBuildState>)
        requires
            old(self).wf(),
        ensures
            final(self).wf(),
            final(self).same_but_states(old(self)),
            !final(self).extension_module_states.contains_key(name@),
            forall|k: Seq<char>|
                k != name@ ==> final(self).extension_module_states.spec_get(k) == old(
                    self,
                ).extension_module_states.spec_get(k),
    {
        self.extension_module_states.take(name)
    }

    /// Put a state into the state table under `name`.
    fn put_state(&mut self, name: &str, st: ExtensionModuleBuildState)
        requires
            old(self).wf(),
            !old(self).extension_module_states.contains_key(name@),
            st.wf(),
        ensures
            final(self).wf(),
            final(self).same_but_states(old(self)),
            final(self).extension_module_states.spec_get(name@) == Some(st),
            forall|k: Seq<char>|
                k != name@ ==> final(self).extension_module_states.spec_get(k) == old(
                    self,
                ).extension_module_states.spec_get(k),
    {
        let ghost pre = *self;
        self.extension_module_states.put(String::from_str(name), st);
        proof {
            assert forall|j: int|
                0 <= j < self.extension_module_states.view_seq().len() implies (
            #[trigger] self.extension_module_states.view_seq()[j].1).wf() by {
                if self.extension_module_states.view_seq()[j].1 != st {
                    assert(pre.extension_module_states.view_seq().contains(
                        self.extension_module_states.view_seq()[j],
                    ));
                    let idx = choose|idx: int|
                        0 <= idx < pre.extension_module_states.view_seq().len()
                            && pre.extension_module_states.view_seq()[idx]
                            == self.extension_module_states.view_seq()[j];
                    assert(pre.extension_module_states.view_seq()[idx].1.wf());
                }
            }
        }
    }

    /// Register an extension module of the distribution to be linked into
    /// the binary and imported through the builtin importer.
    ///
    /// Never fails; placement policy does not govern builtin linking.  The
    /// recorded state carries the module's object files (none when the
    /// distribution links it by default) and its link dependencies sorted
    /// into the framework, system, static and dynamic sets.
    pub fn add_builtin_distribution_extension_module(
        &mut self,
        module: &DistributionExtensionModule,
    ) -> (r: Result<(), PackagingError>)
        requires
            old(self).wf(),
        ensures
            final(self).wf(),
            r is Ok,
            final(self).same_but_states(old(self)),
            forall|k: Seq<char>|
                k != module.module@ ==> final(self).extension_module_states.spec_get(k) == old(
                    self,
                ).extension_module_states.spec_get(k),
            exists|st: ExtensionModuleBuildState|
                final(self).extension_module_states.spec_get(module.module@) == Some(st)
                    && st.init_fn == module.init_fn && (module.builtin_default
                    ==> st.link_object_files@.len() == 0) && (!module.builtin_default
                    ==> st.link_object_files@.len() == module.object_paths@.len() && forall|i: int|
                    0 <= i < module.object_paths@.len()
                        ==> ((#[trigger] st.link_object_files@[i]) matches DataLocation::Path(p)
                        && p@ == module.object_paths@[i]@)) && crate::extension::links_set_ok(
                    st.link_frameworks,
                    module.links@,
                    LinkKind::Framework,
                ) && crate::extension::links_set_ok(
                    st.link_system_libraries,
                    module.links@,
                    LinkKind::System,
                ) && crate::extension::links_set_ok(
                    st.link_static_libraries,
                    module.links@,
                    LinkKind::Static,
                ) && crate::extension::links_set_ok(
                    st.link_dynamic_libraries,
                    module.links@,
                    LinkKind::Dynamic,
                ) && st.link_external_libraries.view_names().len() == 0,
    {
        let mut objects: Vec<DataLocation> = Vec::new();
        if !module.builtin_default {
            let n: usize = module.object_paths.len();
            let mut i: usize = 0;
            while i < n
                invariant
                    0 <= i <= n,
                    n == module.object_paths@.len(),
                    objects@.len() == i,
                    forall|j: int|
                        0 <= j < i ==> ((#[trigger] objects@[j]) matches DataLocation::Path(p)
                            && p@ == module.object_paths@[j]@),
                decreases n - i,
            {
                objects.push(DataLocation::Path(module.object_paths[i].clone()));
                i = i + 1;
            }
        }
        let st = ExtensionModuleBuildState {
            init_fn: clone_opt_string(&module.init_fn),
            link_object_files: objects,
            link_frameworks: collect_links(&module.links, LinkKind::Framework),
            link_system_libraries: collect_links(&module.links, LinkKind::System),
            link_static_libraries: collect_links(&module.links, LinkKind::Static),
            link_dynamic_libraries: collect_links(&module.links, LinkKind::Dynamic),
            link_external_libraries: crate::sset::StringSet::new(),
        };
        let ghost gst = st;
        let _ = self.take_state(module.module.as_str());
        self.put_state(module.module.as_str(), st);
        proof {
            assert(self.extension_module_states.spec_get(module.module@) == Some(gst));
            assert(gst.init_fn == module.init_fn);
            assert(module.builtin_default ==> gst.link_object_files@.len() == 0);
            assert(crate::extension::links_set_ok(
                gst.link_frameworks,
                module.links@,
                LinkKind::Framework,
            ));
            assert(crate::extension::links_set_ok(
                gst.link_system_libraries,
                module.links@,
                LinkKind::System,
            ));
            assert(crate::extension::links_set_ok(
                gst.link_static_libraries,
                module.links@,
                LinkKind::Static,
            ));
            assert(crate::extension::links_set_ok(
                gst.link_dynamic_libraries,
                module.links@,
                LinkKind::Dynamic,
            ));
            assert(gst.link_external_libraries.view_names().len() == 0);
        }
        Ok(())
    }

    /// Register an extension module supplied with object-file data to be
    /// linked into the binary and imported through the builtin importer.
    ///
    /// Fails exactly when the module carries no object-file data; the
    /// collection is then unchanged.  The module also gets a resource entry
    /// so the packed table advertises it as a builtin.
    pub fn add_builtin_extension_module(&mut self, module: &PythonExtensionModule) -> (r: Result<
        (),
        PackagingError,
    >)
        requires
            old(self).wf(),
        ensures
            final(self).wf(),
            r is Ok <==> module.object_file_data@.len() > 0,
            r is Err ==> *final(self) == *old(self) && (r.unwrap_err() matches
                PackagingError::MissingPayload(m) && m@ == module.name@),
            r is Ok ==> final(self).policy == old(self).policy && final(self).cache_tag == old(
                self,
            ).cache_tag,
            r is Ok ==> (forall|k: Seq<char>|
                k != module.name@ ==> final(self).resources.spec_get(k) == old(
                    self,
                ).resources.spec_get(k)) && exists|e: PrePackagedResource|
                final(self).spec_entry(module.name@) == Some(e) && e.flavor
                    == ResourceFlavor::BuiltinExtensionModule && (old(self).spec_entry(
                    module.name@,
                ) is None ==> e.name == module.name) && e.is_package == module.is_package
                    && payload_keeps(e, old(self).spec_entry(module.name@), EntryField::Nothing),
            r is Ok ==> (forall|k: Seq<char>|
                k != module.name@ ==> final(self).extension_module_states.spec_get(k) == old(
                    self,
                ).extension_module_states.spec_get(k)) && exists|st: ExtensionModuleBuildState|
                final(self).extension_module_states.spec_get(module.name@) == Some(st)
                    && st.init_fn == module.init_fn && st.link_object_files@.len()
                    == module.object_file_data@.len() && (forall|i: int|
                    0 <= i < module.object_file_data@.len()
                        ==> ((#[trigger] st.link_object_files@[i]) matches DataLocation::Memory(b)
                        && b@ == module.object_file_data@[i]@)) && crate::extension::names_set_ok(
                    st.link_external_libraries,
                    module.libraries@,
                ) && st.link_frameworks.view_names().len() == 0
                    && st.link_system_libraries.view_names().len() == 0
                    && st.link_static_libraries.view_names().len() == 0
                    && st.link_dynamic_libraries.view_names().len() == 0,
    {
        if module.object_file_data.len() == 0 {
            return Err(PackagingError::MissingPayload(module.name.clone()));
        }
        let mut e = self.take_or_fresh(&module.name, ResourceFlavor::BuiltinExtensionModule);
        e.flavor = ResourceFlavor::BuiltinExtensionModule;
        e.is_package = module.is_package;
        let ghost ge = e;
        self.put_entry(&module.name, e);
        let mut objects: Vec<DataLocation> = Vec::new();
        let n: usize = module.object_file_data.len();
        let mut i: usize = 0;
        while i < n
            invariant
                0 <= i <= n,
                n == module.object_file_data@.len(),
                objects@.len() == i,
                forall|j: int|
                    0 <= j < i ==> ((#[trigger] objects@[j]) matches DataLocation::Memory(b) && b@
                        == module.object_file_data@[j]@),
            decreases n - i,
        {
            objects.push(DataLocation::Memory(crate::resource::clone_bytes(
                &module.object_file_data[i],
            )));
            i = i + 1;
        }
        let externals = crate::extension::collect_names(&module.libraries);
        let st = ExtensionModuleBuildState {
            init_fn: clone_opt_string(&module.init_fn),
            link_object_files: objects,
            link_frameworks: crate::sset::StringSet::new(),
            link_system_libraries: crate::sset::StringSet::new(),
            link_static_libraries: crate::sset::StringSet::new(),
            link_dynamic_libraries: crate::sset::StringSet::new(),
            link_external_libraries: externals,
        };
        let ghost gst = st;
        let _ = self.take_state(module.name.as_str());
        self.put_state(module.name.as_str(), st);
        proof {
            assert(self.extension_module_states.spec_get(module.name@) == Some(gst));
            assert(self.spec_entry(module.name@) == Some(ge));
            assert(payload_keeps(ge, old(self).spec_entry(module.name@), EntryField::Nothing));
            assert(gst.init_fn == module.init_fn);
            assert(gst.link_object_files@.len() == module.object_file_data@.len());
            assert(crate::extension::names_set_ok(gst.link_external_libraries, module.libraries@));
            assert(gst.link_frameworks.view_names().len() == 0);
        }
        Ok(())
    }

    /// Add an extension module of the distribution to be imported from
    /// memory.
    ///
    /// Fails with a missing payload, naming the module, when the
    /// distribution supplies no shared library for it; otherwise fails when
    /// the library cannot be read or when the policy forbids in-memory
    /// placement.  On failure the collection is unchanged.  On success the
    /// module's entry embeds the shared library and records the file names
    /// of the module's dynamic-library dependencies, and each such
    /// dependency gets a shared-library entry of its own.
    pub fn add_in_memory_distribution_extension_module(
        &mut self,
        module: &DistributionExtensionModule,
    ) -> (r: Result<(), PackagingError>)
        requires
            old(self).wf(),
        ensures
            final(self).wf(),
            r is Err ==> *final(self) == *old(self),
            module.shared_library is None ==> (r.unwrap_err() matches
                PackagingError::MissingPayload(m) && m@ == module.module@),
            r is Ok ==> policy_allows(old(self).policy, ResourceLocation::InMemory)
                && module.shared_library is Some,
            module.shared_library is Some && !policy_allows(
                old(self).policy,
                ResourceLocation::InMemory,
            ) && r is Err && !(r.unwrap_err() is IoError) ==> r == Result::<
                (),
                PackagingError,
            >::Err(PackagingError::PolicyViolation),
            r is Ok ==> final(self).same_but_resources(old(self)) && (forall|k: Seq<char>|
                k != module.module@ && !dyn_lib_name(module.links@, k)
                    ==> final(self).resources.spec_get(k) == old(self).resources.spec_get(k)),
            r is Ok && !dyn_lib_name(module.links@, module.module@) ==> forall|j: int|
                0 <= j < module.links@.len() ==> im_lib_entry_ok(*final(self), module.links@, j),
            r is Ok && !dyn_lib_name(module.links@, module.module@) ==> exists|
                e: PrePackagedResource,
            |
                final(self).spec_entry(module.module@) == Some(e) && e.flavor
                    == ResourceFlavor::Extension && (old(self).spec_entry(module.module@) is None
                    ==> e.name == module.module) && !e.is_package && (
                e.in_memory_extension_module_shared_library matches Some(DataLocation::Memory(_)))
                    && (e.shared_library_dependency_names matches Some(v) && str_views(v@)
                    == base_dep_views(old(self).spec_entry(module.module@)) + dyn_names(
                    module.links@,
                )) && payload_keeps2(
                    e,
                    old(self).spec_entry(module.module@),
                    EntryField::ImExtLib,
                    EntryField::SharedLibDeps,
                ),
    {
        let lib = match &module.shared_library {
            Some(p) => p,
            None => {
                return Err(PackagingError::MissingPayload(module.module.clone()));
            },
        };
        let data = match crate::externals::read_path_bytes(lib.as_str()) {
            Ok(d) => d,
            Err(e) => {
                return Err(e);
            },
        };
        match self.policy.check_policy(ResourceLocation::InMemory) {
            Ok(()) => {},
            Err(e) => {
                return Err(e);
            },
        }
        let mut new_names: Vec<String> = Vec::new();
        let n: usize = module.links.len();
        let mut i: usize = 0;
        while i < n
            invariant
                0 <= i <= n,
                n == module.links@.len(),
                self.wf(),
                self.same_but_resources(old(self)),
                str_views(new_names@) =~= dyn_names(module.links@.take(i as int)),
                forall|k: Seq<char>|
                    k != module.module@ && !dyn_lib_name(module.links@, k) ==> self.resources.spec_get(
                        k,
                    ) == old(self).resources.spec_get(k),
                !dyn_lib_name(module.links@, module.module@) ==> self.resources.spec_get(
                    module.module@,
                ) == old(self).resources.spec_get(module.module@),
                forall|j: int| 0 <= j < i ==> im_lib_entry_ok(*self, module.links@, j),
            decreases n - i,
        {
            proof {
                assert(module.links@.take(i + 1).drop_last() =~= module.links@.take(i as int));
            }
            let ghost pres = *self;
            let ghost prev_names = new_names@;
            match &module.links[i].dynamic_path {
                Some(dp) => {
                    let fname = crate::paths::path_file_name(dp.as_str());
                    let mut le = self.take_or_fresh(&fname, ResourceFlavor::SharedLibrary);
                    le.flavor = ResourceFlavor::SharedLibrary;
                    le.in_memory_shared_library = Some(DataLocation::Path(dp.clone()));
                    let ghost gle = le;
                    self.put_entry(&fname, le);
                    new_names.push(fname);
                    proof {
                        let ghost fv = crate::paths::slash_basename(dp@);
                        assert(self.spec_entry(fv) == Some(gle));
                        assert(module.links@[i as int].dynamic_path matches Some(d2) && d2@ == dp@);
                        assert(dyn_lib_name(module.links@, fv));
                        assert(str_views(new_names@) =~= str_views(prev_names).push(fv));
                        assert(str_views(new_names@) =~= dyn_names(module.links@.take(i + 1)));
                        assert forall|j: int| 0 <= j < i + 1 implies im_lib_entry_ok(
                            *self,
                            module.links@,
                            j,
                        ) by {
                            if j < i && module.links@[j].dynamic_path is Some {
                                let dpj = module.links@[j].dynamic_path.unwrap();
                                if crate::paths::slash_basename(dpj@) == fv {
                                    assert(self.spec_entry(crate::paths::slash_basename(dpj@))
                                        == Some(gle));
                                } else {
                                    assert(self.resources.spec_get(
                                        crate::paths::slash_basename(dpj@),
                                    ) == pres.resources.spec_get(
                                        crate::paths::slash_basename(dpj@),
                                    ));
                                    assert(im_lib_entry_ok(pres, module.links@, j));
                                }
                            }
                        }
                    }
                },
                None => {
                    proof {
                        assert(str_views(new_names@) =~= dyn_names(module.links@.take(i + 1)));
                    }
                },
            }
            i = i + 1;
        }
        proof {
            assert(module.links@.take(n as int) =~= module.links@);
        }
        let ghost loopend = *self;
        let mut e = self.take_or_fresh(&module.module, ResourceFlavor::Extension);
        e.flavor = ResourceFlavor::Extension;
        e.is_package = false;
        e.in_memory_extension_module_shared_library = Some(DataLocation::Memory(data));
        let mut all: Vec<String> = Vec::new();
        match &e.shared_library_dependency_names {
            Some(v) => append_string_clones(&mut all, v),
            None => {},
        }
        append_string_clones(&mut all, &new_names);
        e.shared_library_dependency_names = Some(all);
        let ghost ge = e;
        self.put_entry(&module.module, e);
        proof {
            if !dyn_lib_name(module.links@, module.module@) {
                assert(self.spec_entry(module.module@) == Some(ge));
                assert(str_views(ge.shared_library_dependency_names.unwrap()@) =~= base_dep_views(
                    old(self).spec_entry(module.module@),
                ) + dyn_names(module.links@));
                assert(payload_keeps2(
                    ge,
                    old(self).spec_entry(module.module@),
                    EntryField::ImExtLib,
                    EntryField::SharedLibDeps,
                ));
                assert forall|j: int| 0 <= j < module.links@.len() implies im_lib_entry_ok(
                    *self,
                    module.links@,
                    j,
                ) by {
                    if module.links@[j].dynamic_path is Some {
                        let dpj = module.links@[j].dynamic_path.unwrap();
                        assert(dyn_lib_name(module.links@, crate::paths::slash_basename(dpj@)));
                        assert(self.resources.spec_get(crate::paths::slash_basename(dpj@))
                            == loopend.resources.spec_get(crate::paths::slash_basename(dpj@)));
                        assert(im_lib_entry_ok(loopend, module.links@, j));
                    }
                }
            }
        }
        Ok(())
    }

    /// Add an extension module of the distribution to be installed as a
    /// shared library next to the binary, under `prefix`, together with its
    /// dynamic-library dependencies.
    ///
    /// Fails when the policy forbids filesystem-relative placement, and with
    /// a missing payload, naming the module, when the distribution supplies
    /// no shared library; the collection is then unchanged.
    pub fn add_relative_path_distribution_extension_module(
        &mut self,
        prefix: &str,
        module: &DistributionExtensionModule,
    ) -> (r: Result<(), PackagingError>)
        requires
            old(self).wf(),
        ensures
            final(self).wf(),
            r is Err ==> *final(self) == *old(self),
            r is Ok <==> policy_allows(old(self).policy, ResourceLocation::RelativePath)
                && module.shared_library is Some,
            !policy_allows(old(self).policy, ResourceLocation::RelativePath) ==> r == Result::<
                (),
                PackagingError,
            >::Err(PackagingError::PolicyViolation),
            policy_allows(old(self).policy, ResourceLocation::RelativePath)
                && module.shared_library is None ==> (r.unwrap_err() matches
                PackagingError::MissingPayload(m) && m@ == module.module@),
            r is Ok ==> final(self).same_but_resources(old(self)) && (forall|k: Seq<char>|
                k != module.module@ && !rel_link_name(module.links@, k)
                    ==> final(self).resources.spec_get(k) == old(self).resources.spec_get(k)) && (
            forall|j: int|
                0 <= j < module.links@.len() ==> rel_lib_entry_ok(
                    *final(self),
                    module.links@,
                    j,
                    prefix@,
                )),
            r is Ok && !rel_link_name(module.links@, module.module@) ==> exists|
                e: PrePackagedResource,
            |
                final(self).spec_entry(module.module@) == Some(e) && e.flavor
                    == ResourceFlavor::Extension && (old(self).spec_entry(module.module@) is None
                    ==> e.name == module.module) && !e.is_package && (
                e.relative_path_extension_module_shared_library matches Some((p, ip, l)) && p@
                    == prefix@ && ip@ == crate::paths::prefix_part(prefix@)
                    + crate::paths::slash_basename(module.shared_library.unwrap()@) && (l matches
                DataLocation::Path(q) && q@ == module.shared_library.unwrap()@)) && payload_keeps(
                    e,
                    old(self).spec_entry(module.module@),
                    EntryField::RelExtLib,
                ),
    {
        match self.policy.check_policy(ResourceLocation::RelativePath) {
            Ok(()) => {},
            Err(e) => {
                return Err(e);
            },
        }
        let lib = match &module.shared_library {
            Some(p) => p,
            None => {
                return Err(PackagingError::MissingPayload(module.module.clone()));
            },
        };
        let fname = crate::paths::path_file_name(lib.as_str());
        let mut install_path = String::new();
        crate::paths::push_prefix(&mut install_path, prefix);
        install_path.append(fname.as_str());
        let mut e = self.take_or_fresh(&module.module, ResourceFlavor::Extension);
        e.flavor = ResourceFlavor::Extension;
        e.is_package = false;
        e.relative_path_extension_module_shared_library = Some((
            String::from_str(prefix),
            install_path,
            DataLocation::Path(lib.clone()),
        ));
        let ghost ge = e;
        self.put_entry(&module.module, e);
        proof {
            assert(self.spec_entry(module.module@) == Some(ge));
            assert(payload_keeps(ge, old(self).spec_entry(module.module@), EntryField::RelExtLib));
        }
        let ghost mid = *self;
        let n: usize = module.links.len();
        let mut i: usize = 0;
        while i < n
            invariant
                0 <= i <= n,
                n == module.links@.len(),
                self.wf(),
                self.same_but_resources(old(self)),
                forall|k: Seq<char>|
                    !rel_link_name(module.links@, k) ==> self.resources.spec_get(k)
                        == mid.resources.spec_get(k),
                forall|j: int|
                    0 <= j < i ==> rel_lib_entry_ok(*self, module.links@, j, prefix@),
            decreases n - i,
        {
            let ghost pres = *self;
            match &module.links[i].dynamic_path {
                Some(dp) => {
                    let fnamei = crate::paths::path_file_name(dp.as_str());
                    let mut le = self.take_or_fresh(&module.links[i].name, ResourceFlavor::SharedLibrary);
                    le.flavor = ResourceFlavor::SharedLibrary;
                    le.name = fnamei;
                    le.relative_path_shared_library = Some((
                        String::from_str(prefix),
                        DataLocation::Path(dp.clone()),
                    ));
                    let ghost gle = le;
                    self.put_entry(&module.links[i].name, le);
                    proof {
                        let ghost kv = module.links@[i as int].name@;
                        assert(self.spec_entry(kv) == Some(gle));
                        assert(module.links@[i as int].dynamic_path matches Some(d2) && d2@ == dp@);
                        assert(rel_link_name(module.links@, kv));
                        assert forall|j: int| 0 <= j < i + 1 implies rel_lib_entry_ok(
                            *self,
                            module.links@,
                            j,
                            prefix@,
                        ) by {
                            if j < i && module.links@[j].dynamic_path is Some {
                                if module.links@[j].name@ == kv {
                                    assert(self.spec_entry(module.links@[j].name@) == Some(gle));
                                } else {
                                    assert(self.resources.spec_get(module.links@[j].name@)
                                        == pres.resources.spec_get(module.links@[j].name@));
                                    assert(rel_lib_entry_ok(pres, module.links@, j, prefix@));
                                }
                            }
                        }
                    }
                },
                None => {},
            }
            i = i + 1;
        }
        proof {
            if !rel_link_name(module.links@, module.module@) {
                assert(self.spec_entry(module.module@) == Some(ge));
            }
        }
        Ok(())
    }

    /// Add an extension module shared library to be imported from memory.
    ///
    /// Fails exactly when the policy forbids in-memory placement; the
    /// collection is then unchanged.
    pub fn add_in_memory_extension_module_shared_library(
        &mut self,
        module: &str,
        is_package: bool,
        data: &[u8],
    ) -> (r: Result<(), PackagingError>)
        requires
            old(self).wf(),
        ensures
            final(self).wf(),
            r is Ok <==> policy_allows(old(self).policy, ResourceLocation::InMemory),
            r is Err ==> *final(self) == *old(self) && r == Result::<(), PackagingError>::Err(
                PackagingError::PolicyViolation,
            ),
            r is Ok ==> final(self).same_but_resources(old(self)) && (forall|k: Seq<char>|
                k != module@ ==> final(self).resources.spec_get(k) == old(
                    self,
                ).resources.spec_get(k)) && exists|e: PrePackagedResource|
                final(self).spec_entry(module@) == Some(e) && e.flavor == ResourceFlavor::Extension
                    && (old(self).spec_entry(module@) is None ==> e.name@ == module@)
                    && e.is_package == is_package && (
                e.in_memory_extension_module_shared_library matches Some(DataLocation::Memory(b))
                    && b@ == data@) && payload_keeps(
                    e,
                    old(self).spec_entry(module@),
                    EntryField::ImExtLib,
                ),
    {
        match self.policy.check_policy(ResourceLocation::InMemory) {
            Ok(()) => {},
            Err(e) => {
                return Err(e);
            },
        }
        let mut e = self.take_or_fresh_str(module, ResourceFlavor::Extension);
        e.flavor = ResourceFlavor::Extension;
        e.is_package = is_package;
        e.in_memory_extension_module_shared_library = Some(
            DataLocation::Memory(vstd::slice::slice_to_vec(data)),
        );
        let ghost ge = e;
        self.put_entry_str(module, e);
        proof {
            assert(self.spec_entry(module@) == Some(ge));
            assert(payload_keeps(ge, old(self).spec_entry(module@), EntryField::ImExtLib));
        }
        Ok(())
    }

    /// Add an extension module to be installed as a shared library loaded
    /// from the filesystem.
    ///
    /// Fails when the policy forbids filesystem-relative placement, and with
    /// a missing payload when the module carries no shared-library data; the
    /// collection is then unchanged.
    pub fn add_relative_path_extension_module(
        &mut self,
        em: &PythonExtensionModule,
        prefix: &str,
    ) -> (r: Result<(), PackagingError>)
        requires
            old(self).wf(),
        ensures
            final(self).wf(),
            r is Ok <==> policy_allows(old(self).policy, ResourceLocation::RelativePath)
                && em.extension_data is Some,
            r is Err ==> *final(self) == *old(self),
            !policy_allows(old(self).policy, ResourceLocation::RelativePath) ==> r
                == Result::<(), PackagingError>::Err(PackagingError::PolicyViolation),
            r is Err && policy_allows(old(self).policy, ResourceLocation::RelativePath) ==> (
            r.unwrap_err() matches PackagingError::MissingPayload(m) && m@ == em.name@),
            r is Ok ==> final(self).same_but_resources(old(self)) && (forall|k: Seq<char>|
                k != em.name@ ==> final(self).resources.spec_get(k) == old(
                    self,
                ).resources.spec_get(k)) && exists|e: PrePackagedResource|
                final(self).spec_entry(em.name@) == Some(e) && e.flavor
                    == ResourceFlavor::Extension && (old(self).spec_entry(em.name@) is None
                    ==> e.name == em.name) && e.is_package == em.is_package && (
                e.relative_path_extension_module_shared_library matches Some((p, ip, l)) && p@
                    == prefix@ && ip@ == crate::paths::extension_module_path(
                    prefix@,
                    em.name@,
                    em.extension_file_suffix@,
                ) && loc_eq(l, em.extension_data.unwrap())) && payload_keeps(
                    e,
                    old(self).spec_entry(em.name@),
                    EntryField::RelExtLib,
                ),
    {
        match self.policy.check_policy(ResourceLocation::RelativePath) {
            Ok(()) => {},
            Err(e) => {
                return Err(e);
            },
        }
        let data = match &em.extension_data {
            Some(d) => d,
            None => {
                return Err(PackagingError::MissingPayload(em.name.clone()));
            },
        };
        let path = crate::paths::resolve_extension_module_path(
            prefix,
            em.name.as_str(),
            em.extension_file_suffix.as_str(),
        );
        let mut e = self.take_or_fresh(&em.name, ResourceFlavor::Extension);
        e.flavor = ResourceFlavor::Extension;
        e.is_package = em.is_package;
        e.relative_path_extension_module_shared_library = Some((
            String::from_str(prefix),
            path,
            data.duplicate(),
        ));
        let ghost ge = e;
        self.put_entry(&em.name, e);
        proof {
            assert(self.spec_entry(em.name@) == Some(ge));
            assert(payload_keeps(ge, old(self).spec_entry(em.name@), EntryField::RelExtLib));
        }
        Ok(())
    }
}

/// `m` installs a file at `path` with the given executable flag, holding
/// exactly the bytes of `loc` when those are in memory.
pub open spec fn file_claim(
    m: crate::manifest::FileManifest,
    path: Seq<char>,
    loc: DataLocation,
    exec: bool,
) -> bool {
    m.spec_get(path) matches Some(c) && c.executable == exec && (loc matches DataLocation::Memory(
        b,
    ) ==> c.data@ == b@)
}

/// The install files implied by the entry `pair` are all present in `m`.
pub open spec fn entry_files_ok(
    m: crate::manifest::FileManifest,
    pair: (String, PrePackagedResource),
) -> bool {
    &&& (pair.1.relative_path_module_source matches Some((p, l)) ==> file_claim(
        m,
        crate::paths::module_source_path(p@, pair.0@, pair.1.is_package),
        l,
        false,
    ))
    &&& (pair.1.relative_path_extension_module_shared_library matches Some((_p, ip, l))
        ==> file_claim(m, ip@, l, true))
    &&& (pair.1.relative_path_shared_library matches Some((p, l)) ==> file_claim(
        m,
        crate::paths::prefix_part(p@) + pair.1.name@,
        l,
        true,
    ))
    &&& (forall|j: int|
        0 <= j < pair.1.relative_path_package_resources.view_seq().len() ==> file_claim(
            m,
            (#[trigger] pair.1.relative_path_package_resources.view_seq()[j]).1.0@,
            pair.1.relative_path_package_resources.view_seq()[j].1.1,
            false,
        ))
    &&& (forall|j: int|
        0 <= j < pair.1.relative_path_distribution_resources.view_seq().len() ==> file_claim(
            m,
            (#[trigger] pair.1.relative_path_distribution_resources.view_seq()[j]).1.0@,
            pair.1.relative_path_distribution_resources.view_seq()[j].1.1,
            false,
        ))
}

impl PrePackagedResources {
    /// Derive the manifest of files installed by filesystem-relative
    /// resources: module sources, extension module shared libraries and
    /// their dependencies, package resources and distribution metadata.
    ///
    /// Shared libraries and extension modules are marked executable; data
    /// and source files are not.  Fails when a path cannot be read or two
    /// resources install different content at one path.
    pub fn derive_extra_files(&self) -> (r: Result<
        crate::manifest::FileManifest,
        PackagingError,
    >)
        requires
            self.wf(),
        ensures
            r matches Err(e) ==> e is IoError || e is FileConflict,
            r matches Err(e) ==> (e is FileConflict ==> !distinct_installs(
                self.resources.view_seq(),
            )),
            all_installs_memory(self.resources.view_seq()) && distinct_installs(
                self.resources.view_seq(),
            ) ==> r is Ok,
            r matches Ok(m) ==> m.wf() && forall|i: int|
                0 <= i < self.resources.view_seq().len() ==> entry_files_ok(
                    m,
                    #[trigger] self.resources.view_seq()[i],
                ),
            r matches Ok(m) ==> forall|p: Seq<char>|
                #[trigger] m.contains_path(p) ==> implied_install(self.resources.view_seq(), p),
    {
        let ghost t = self.resources.view_seq();
        let mut m = crate::manifest::FileManifest::new();
        let n: usize = self.resources.len();
        let mut i: usize = 0;
        while i < n
            invariant
                0 <= i <= n,
                n == t.len(),
                t == self.resources.view_seq(),
                self.wf(),
                m.wf(),
                forall|i2: int|
                    0 <= i2 < i ==> entry_files_ok(m, #[trigger] self.resources.view_seq()[i2]),
                manifest_from_scanned(m, t, i as int, 0, 0),
            decreases n - i,
        {
            let ghost pair = self.resources.view_seq()[i as int];
            let key = self.resources.key_at(i);
            let e = self.resources.val_at(i);
            proof {
                assert(entry_wf(pair.1));
            }
            match &e.relative_path_module_source {
                Some((prefix, loc)) => {
                    let ghost sc = InstallSrc::ModuleSource { i: i as int };
                    let path = crate::paths::resolve_module_source_path(
                        prefix.as_str(),
                        key.as_str(),
                        e.is_package,
                    );
                    let data = match loc.resolve() {
                        Ok(d) => d,
                        Err(err) => {
                            proof {
                                if all_installs_memory(t) {
                                    assert(valid_src(t, sc));
                                    assert(src_loc(t, sc) is Memory);
                                }
                            }
                            return Err(err);
                        },
                    };
                    let ghost pre_m = m;
                    let ghost pathv = path@;
                    match m.add_file(path, data, false) {
                        Ok(()) => {},
                        Err(err) => {
                            proof {
                                assert(valid_src(t, sc));
                                assert(src_path(t, sc) == pathv);
                                assert(pre_m.contains_path(pathv));
                                let s1 = choose|s1: InstallSrc|
                                    #[trigger] valid_src(t, s1) && src_path(t, s1) == pathv
                                        && src_before(s1, i as int, 0, 0);
                                assert(!src_before(sc, i as int, 0, 0));
                                assert(s1 != sc);
                                if distinct_installs(t) {
                                    assert(s1 == sc);
                                    assert(false);
                                }
                            }
                            return Err(err);
                        },
                    }
                    proof {
                        assert(valid_src(t, sc));
                        assert forall|p: Seq<char>| #[trigger] m.contains_path(p) implies exists|
                            s: InstallSrc,
                        |
                            #[trigger] valid_src(t, s) && src_path(t, s) == p && src_before(
                                s,
                                i as int,
                                1,
                                0,
                            ) by {
                            if pre_m.contains_path(p) {
                                let s = choose|s: InstallSrc|
                                    #[trigger] valid_src(t, s) && src_path(t, s) == p
                                        && src_before(s, i as int, 0, 0);
                                assert(src_before(s, i as int, 1, 0));
                            } else {
                                assert(src_path(t, sc) == p && src_before(sc, i as int, 1, 0));
                            }
                        }
                    }
                },
                None => {
                    proof {
                        assert forall|p: Seq<char>| #[trigger] m.contains_path(p) implies exists|
                            s: InstallSrc,
                        |
                            #[trigger] valid_src(t, s) && src_path(t, s) == p && src_before(
                                s,
                                i as int,
                                1,
                                0,
                            ) by {
                            let s = choose|s: InstallSrc|
                                #[trigger] valid_src(t, s) && src_path(t, s) == p && src_before(
                                    s,
                                    i as int,
                                    0,
                                    0,
                                );
                            assert(src_before(s, i as int, 1, 0));
                        }
                    }
                },
            }
            match &e.relative_path_extension_module_shared_library {
                Some((_prefix, ip, loc)) => {
                    let ghost sc = InstallSrc::ExtensionLibrary { i: i as int };
                    let data = match loc.resolve() {
                        Ok(d) => d,
                        Err(err) => {
                            proof {
                                if all_installs_memory(t) {
                                    assert(valid_src(t, sc));
                                    assert(src_loc(t, sc) is Memory);
                                }
                            }
                            return Err(err);
                        },
                    };
                    let ghost pre_m = m;
                    let ghost pathv = ip@;
                    match m.add_file(ip.clone(), data, true) {
                        Ok(()) => {},
                        Err(err) => {
                            proof {
                                assert(valid_src(t, sc));
                                assert(src_path(t, sc) == pathv);
                                assert(pre_m.contains_path(pathv));
                                let s1 = choose|s1: InstallSrc|
                                    #[trigger] valid_src(t, s1) && src_path(t, s1) == pathv
                                        && src_before(s1, i as int, 1, 0);
                                assert(!src_before(sc, i as int, 1, 0));
                                assert(s1 != sc);
                                if distinct_installs(t) {
                                    assert(s1 == sc);
                                    assert(false);
                                }
                            }
                            return Err(err);
                        },
                    }
                    proof {
                        assert(valid_src(t, sc));
                        assert forall|p: Seq<char>| #[trigger] m.contains_path(p) implies exists|
                            s: InstallSrc,
                        |
                            #[trigger] valid_src(t, s) && src_path(t, s) == p && src_before(
                                s,
                                i as int,
                                2,
                                0,
                            ) by {
                            if pre_m.contains_path(p) {
                                let s = choose|s: InstallSrc|
                                    #[trigger] valid_src(t, s) && src_path(t, s) == p
                                        && src_before(s, i as int, 1, 0);
                                assert(src_before(s, i as int, 2, 0));
                            } else {
                                assert(src_path(t, sc) == p && src_before(sc, i as int, 2, 0));
                            }
                        }
                    }
                },
                None => {
                    proof {
                        assert forall|p: Seq<char>| #[trigger] m.contains_path(p) implies exists|
                            s: InstallSrc,
                        |
                            #[trigger] valid_src(t, s) && src_path(t, s) == p && src_before(
                                s,
                                i as int,
                                2,
                                0,
                            ) by {
                            let s = choose|s: InstallSrc|
                                #[trigger] valid_src(t, s) && src_path(t, s) == p && src_before(
                                    s,
                                    i as int,
                                    1,
                                    0,
                                );
                            assert(src_before(s, i as int, 2, 0));
                        }
                    }
                },
            }
            match &e.relative_path_shared_library {
                Some((prefix, loc)) => {
                    let ghost sc = InstallSrc::SharedLibrary { i: i as int };
                    let mut path = String::new();
                    crate::paths::push_prefix(&mut path, prefix.as_str());
                    path.append(e.name.as_str());
                    let data = match loc.resolve() {
                        Ok(d) => d,
                        Err(err) => {
                            proof {
                                if all_installs_memory(t) {
                                    assert(valid_src(t, sc));
                                    assert(src_loc(t, sc) is Memory);
                                }
                            }
                            return Err(err);
                        },
                    };
                    let ghost pre_m = m;
                    let ghost pathv = path@;
                    match m.add_file(path, data, true) {
                        Ok(()) => {},
                        Err(err) => {
                            proof {
                                assert(valid_src(t, sc));
                                assert(src_path(t, sc) == pathv);
                                assert(pre_m.contains_path(pathv));
                                let s1 = choose|s1: InstallSrc|
                                    #[trigger] valid_src(t, s1) && src_path(t, s1) == pathv
                                        && src_before(s1, i as int, 2, 0);
                                assert(!src_before(sc, i as int, 2, 0));
                                assert(s1 != sc);
                                if distinct_installs(t) {
                                    assert(s1 == sc);
                                    assert(false);
                                }
                            }
                            return Err(err);
                        },
                    }
                    proof {
                        assert(valid_src(t, sc));
                        assert forall|p: Seq<char>| #[trigger] m.contains_path(p) implies exists|
                            s: InstallSrc,
                        |
                            #[trigger] valid_src(t, s) && src_path(t, s) == p && src_before(
                                s,
                                i as int,
                                3,
                                0,
                            ) by {
                            if pre_m.contains_path(p) {
                                let s = choose|s: InstallSrc|
                                    #[trigger] valid_src(t, s) && src_path(t, s) == p
                                        && src_before(s, i as int, 2, 0);
                                assert(src_before(s, i as int, 3, 0));
                            } else {
                                assert(src_path(t, sc) == p && src_before(sc, i as int, 3, 0));
                            }
                        }
                    }
                },
                None => {
                    proof {
                        assert forall|p: Seq<char>| #[trigger] m.contains_path(p) implies exists|
                            s: InstallSrc,
                        |
                            #[trigger] valid_src(t, s) && src_path(t, s) == p && src_before(
                                s,
                                i as int,
                                3,
                                0,
                            ) by {
                            let s = choose|s: InstallSrc|
                                #[trigger] valid_src(t, s) && src_path(t, s) == p && src_before(
                                    s,
                                    i as int,
                                    2,
                                    0,
                                );
                            assert(src_before(s, i as int, 3, 0));
                        }
                    }
                },
            }
            let rn: usize = e.relative_path_package_resources.len();
            let mut j: usize = 0;
            while j < rn
                invariant
                    0 <= j <= rn,
                    0 <= i < n,
                    n == t.len(),
                    t == self.resources.view_seq(),
                    rn == pair.1.relative_path_package_resources.view_seq().len(),
                    pair == self.resources.view_seq()[i as int],
                    *e == pair.1,
                    m.wf(),
                    forall|i2: int|
                        0 <= i2 < i ==> entry_files_ok(
                            m,
                            #[trigger] self.resources.view_seq()[i2],
                        ),
                    entry_scalar_files_ok(m, pair),
                    entry_files_ok_prefix_pkg(m, pair, j as int),
                    manifest_from_scanned(m, t, i as int, 3, j as int),
                decreases rn - j,
            {
                let ghost sc = InstallSrc::PackageResource { i: i as int, j: j as int };
                let (path, loc) = e.relative_path_package_resources.val_at(j);
                let data = match loc.resolve() {
                    Ok(d) => d,
                    Err(err) => {
                        proof {
                            if all_installs_memory(t) {
                                assert(valid_src(t, sc));
                                assert(src_loc(t, sc) is Memory);
                            }
                        }
                        return Err(err);
                    },
                };
                let ghost pre_m = m;
                let ghost pathv = path@;
                match m.add_file(path.clone(), data, false) {
                    Ok(()) => {},
                    Err(err) => {
                        proof {
                            assert(valid_src(t, sc));
                            assert(src_path(t, sc) == pathv);
                            assert(pre_m.contains_path(pathv));
                            let s1 = choose|s1: InstallSrc|
                                #[trigger] valid_src(t, s1) && src_path(t, s1) == pathv
                                    && src_before(s1, i as int, 3, j as int);
                            assert(!src_before(sc, i as int, 3, j as int));
                            assert(s1 != sc);
                            if distinct_installs(t) {
                                assert(s1 == sc);
                                assert(false);
                            }
                        }
                        return Err(err);
                    },
                }
                proof {
                    assert(valid_src(t, sc));
                    assert forall|p: Seq<char>| #[trigger] m.contains_path(p) implies exists|
                        s: InstallSrc,
                    |
                        #[trigger] valid_src(t, s) && src_path(t, s) == p && src_before(
                            s,
                            i as int,
                            3,
                            j + 1,
                        ) by {
                        if pre_m.contains_path(p) {
                            let s = choose|s: InstallSrc|
                                #[trigger] valid_src(t, s) && src_path(t, s) == p && src_before(
                                    s,
                                    i as int,
                                    3,
                                    j as int,
                                );
                            assert(src_before(s, i as int, 3, j + 1));
                        } else {
                            assert(src_path(t, sc) == p && src_before(sc, i as int, 3, j + 1));
                        }
                    }
                }
                j = j + 1;
            }
            let dn: usize = e.relative_path_distribution_resources.len();
            let mut j2: usize = 0;
            proof {
                assert forall|p: Seq<char>| #[trigger] m.contains_path(p) implies exists|
                    s: InstallSrc,
                |
                    #[trigger] valid_src(t, s) && src_path(t, s) == p && src_before(
                        s,
                        i as int,
                        4,
                        0,
                    ) by {
                    let s = choose|s: InstallSrc|
                        #[trigger] valid_src(t, s) && src_path(t, s) == p && src_before(
                            s,
                            i as int,
                            3,
                            rn as int,
                        );
                    assert(src_before(s, i as int, 4, 0));
                }
            }
            while j2 < dn
                invariant
                    0 <= j2 <= dn,
                    0 <= i < n,
                    n == t.len(),
                    t == self.resources.view_seq(),
                    dn == pair.1.relative_path_distribution_resources.view_seq().len(),
                    pair == self.resources.view_seq()[i as int],
                    *e == pair.1,
                    m.wf(),
                    forall|i2: int|
                        0 <= i2 < i ==> entry_files_ok(
                            m,
                            #[trigger] self.resources.view_seq()[i2],
                        ),
                    entry_scalar_files_ok(m, pair),
                    entry_files_ok_prefix_pkg(m, pair, rn as int),
                    rn == pair.1.relative_path_package_resources.view_seq().len(),
                    entry_files_ok_prefix_dist(m, pair, j2 as int),
                    manifest_from_scanned(m, t, i as int, 4, j2 as int),
                decreases dn - j2,
            {
                let ghost sc = InstallSrc::DistributionResource { i: i as int, j: j2 as int };
                let (path, loc) = e.relative_path_distribution_resources.val_at(j2);
                let data = match loc.resolve() {
                    Ok(d) => d,
                    Err(err) => {
                        proof {
                            if all_installs_memory(t) {
                                assert(valid_src(t, sc));
                                assert(src_loc(t, sc) is Memory);
                            }
                        }
                        return Err(err);
                    },
                };
                let ghost pre_m = m;
                let ghost pathv = path@;
                match m.add_file(path.clone(), data, false) {
                    Ok(()) => {},
                    Err(err) => {
                        proof {
                            assert(valid_src(t, sc));
                            assert(src_path(t, sc) == pathv);
                            assert(pre_m.contains_path(pathv));
                            let s1 = choose|s1: InstallSrc|
                                #[trigger] valid_src(t, s1) && src_path(t, s1) == pathv
                                    && src_before(s1, i as int, 4, j2 as int);
                            assert(!src_before(sc, i as int, 4, j2 as int));
                            assert(s1 != sc);
                            if distinct_installs(t) {
                                assert(s1 == sc);
                                assert(false);
                            }
                        }
                        return Err(err);
                    },
                }
                proof {
                    assert(valid_src(t, sc));
                    assert forall|p: Seq<char>| #[trigger] m.contains_path(p) implies exists|
                        s: InstallSrc,
                    |
                        #[trigger] valid_src(t, s) && src_path(t, s) == p && src_before(
                            s,
                            i as int,
                            4,
                            j2 + 1,
                        ) by {
                        if pre_m.contains_path(p) {
                            let s = choose|s: InstallSrc|
                                #[trigger] valid_src(t, s) && src_path(t, s) == p && src_before(
                                    s,
                                    i as int,
                                    4,
                                    j2 as int,
                                );
                            assert(src_before(s, i as int, 4, j2 + 1));
                        } else {
                            assert(src_path(t, sc) == p && src_before(sc, i as int, 4, j2 + 1));
                        }
                    }
                }
                j2 = j2 + 1;
            }
            proof {
                assert(entry_files_ok(m, pair));
                assert forall|p: Seq<char>| #[trigger] m.contains_path(p) implies exists|
                    s: InstallSrc,
                |
                    #[trigger] valid_src(t, s) && src_path(t, s) == p && src_before(
                        s,
                        i + 1,
                        0,
                        0,
                    ) by {
                    let s = choose|s: InstallSrc|
                        #[trigger] valid_src(t, s) && src_path(t, s) == p && src_before(
                            s,
                            i as int,
                            4,
                            dn as int,
                        );
                    assert(src_before(s, i + 1, 0, 0));
                }
            }
            i = i + 1;
        }
        proof {
            assert forall|p: Seq<char>| #[trigger] m.contains_path(p) implies implied_install(
                t,
                p,
            ) by {
                let s = choose|s: InstallSrc|
                    #[trigger] valid_src(t, s) && src_path(t, s) == p && src_before(
                        s,
                        n as int,
                        0,
                        0,
                    );
            }
        }
        Ok(m)
    }

    /// The names of every module whose source text carries the
    /// module-identity marker `__file__`, in table order.
    ///
    /// Such modules may misbehave at run time, since the embedding runtime
    /// does not provide a file-backed module identity.  Every collected
    /// source payload is scanned, a path-backed one after reading it, so
    /// the call fails only when such a read fails.
    pub fn find_dunder_file(&self) -> (r: Result<Vec<String>, PackagingError>)
        requires
            self.wf(),
        ensures
            r matches Err(e) ==> e is IoError,
            (forall|i: int|
                0 <= i < self.resources.view_seq().len() ==> scan_sources_memory(
                    (#[trigger] self.resources.view_seq()[i]).1,
                )) ==> r is Ok,
            r matches Ok(v) ==> forall|j: int|
                0 <= j < v@.len() ==> (self.resources.spec_get(
                    (#[trigger] v@[j])@,
                ) matches Some(e) && (scan_sources_memory(e) ==> entry_marked(e))),
            r matches Ok(v) ==> marked_names_complete(self.resources.view_seq(), v@),
    {
        let mut v: Vec<String> = Vec::new();
        let n: usize = self.resources.len();
        let mut i: usize = 0;
        while i < n
            invariant
                0 <= i <= n,
                n == self.resources.view_seq().len(),
                self.wf(),
                forall|j: int|
                    0 <= j < v@.len() ==> (self.resources.spec_get(
                        (#[trigger] v@[j])@,
                    ) matches Some(e) && (scan_sources_memory(e) ==> entry_marked(e))),
                forall|i2: int|
                    0 <= i2 < i && entry_marked((#[trigger] self.resources.view_seq()[i2]).1)
                        ==> exists|j: int|
                        0 <= j < v@.len() && v@[j]@ == self.resources.view_seq()[i2].0@,
            decreases n - i,
        {
            let key = self.resources.key_at(i);
            let e = self.resources.val_at(i);
            let mut hit: bool = false;
            match scan_optional_source(&e.in_memory_source) {
                Ok(b) => {
                    if b {
                        hit = true;
                    }
                },
                Err(err) => {
                    return Err(err);
                },
            }
            if !hit {
                match scan_optional_source(&e.in_memory_bytecode_source) {
                    Ok(b) => {
                        if b {
                            hit = true;
                        }
                    },
                    Err(err) => {
                        return Err(err);
                    },
                }
            }
            if !hit {
                match scan_optional_source(&e.in_memory_bytecode_opt1_source) {
                    Ok(b) => {
                        if b {
                            hit = true;
                        }
                    },
                    Err(err) => {
                        return Err(err);
                    },
                }
            }
            if !hit {
                match scan_optional_source(&e.in_memory_bytecode_opt2_source) {
                    Ok(b) => {
                        if b {
                            hit = true;
                        }
                    },
                    Err(err) => {
                        return Err(err);
                    },
                }
            }
            let ghost oldv = v@;
            if hit {
                proof {
                    crate::smap::lemma_get_member(self.resources.view_seq(), i as int);
                }
                v.push(key.clone());
                proof {
                    assert(v@[oldv.len() as int]@ == self.resources.view_seq()[i as int].0@);
                }
            } else {
                proof {
                    assert(!entry_marked(self.resources.view_seq()[i as int].1));
                }
            }
            proof {
                assert forall|i2: int|
                    0 <= i2 < i + 1 && entry_marked(
                        (#[trigger] self.resources.view_seq()[i2]).1,
                    ) implies exists|j: int|
                    0 <= j < v@.len() && v@[j]@ == self.resources.view_seq()[i2].0@ by {
                    if i2 < i {
                        let j = choose|j: int|
                            0 <= j < oldv.len() && oldv[j]@ == self.resources.view_seq()[i2].0@;
                        assert(v@[j]@ == self.resources.view_seq()[i2].0@);
                    } else {
                        assert(v@[v@.len() - 1]@ == self.resources.view_seq()[i2].0@);
                    }
                }
            }
            i = i + 1;
        }
        proof {
            assert(marked_names_complete(self.resources.view_seq(), v@));
        }
        Ok(v)
    }

    /// Restrict both tables to the given resource names, silently dropping
    /// everything else.  Never fails; the order of the remaining entries is
    /// preserved.
    pub fn filter_from_resource_names(&mut self, names: &Vec<String>)
        requires
            old(self).wf(),
        ensures
            final(self).wf(),
            final(self).policy == old(self).policy,
            final(self).cache_tag == old(self).cache_tag,
            forall|k: Seq<char>|
                final(self).resources.spec_get(k) == (if crate::paths::in_views(k, names@) {
                    old(self).resources.spec_get(k)
                } else {
                    None::<PrePackagedResource>
                }),
            forall|k: Seq<char>|
                final(self).extension_module_states.spec_get(k) == (if crate::paths::in_views(
                    k,
                    names@,
                ) {
                    old(self).extension_module_states.spec_get(k)
                } else {
                    None::<ExtensionModuleBuildState>
                }),
    {
        let ghost pre = *self;
        self.resources.retain_names(names);
        self.extension_module_states.retain_names(names);
        proof {
            assert forall|j: int| 0 <= j < self.resources.view_seq().len() implies entry_wf(
                #[trigger] self.resources.view_seq()[j].1,
            ) by {
                assert(pre.resources.view_seq().contains(self.resources.view_seq()[j]));
                let idx = choose|idx: int|
                    0 <= idx < pre.resources.view_seq().len() && pre.resources.view_seq()[idx]
                        == self.resources.view_seq()[j];
                assert(entry_wf(pre.resources.view_seq()[idx].1));
            }
            assert forall|j: int|
                0 <= j < self.extension_module_states.view_seq().len() implies (
            #[trigger] self.extension_module_states.view_seq()[j].1).wf() by {
                assert(pre.extension_module_states.view_seq().contains(
                    self.extension_module_states.view_seq()[j],
                ));
                let idx = choose|idx: int|
                    0 <= idx < pre.extension_module_states.view_seq().len()
                        && pre.extension_module_states.view_seq()[idx]
                        == self.extension_module_states.view_seq()[j];
                assert(pre.extension_module_states.view_seq()[idx].1.wf());
            }
        }
    }

    /// The source modules collected for in-memory import, in table order.
    pub fn get_in_memory_module_sources(&self) -> (r: Vec<(String, PythonModuleSource)>)
        requires
            self.wf(),
        ensures
            forall|j: int|
                0 <= j < r@.len() ==> (self.resources.spec_get(
                    (#[trigger] r@[j]).0@,
                ) matches Some(e) && (e.in_memory_source matches Some(l) && loc_eq(
                    r@[j].1.source,
                    l,
                )) && r@[j].1.name == r@[j].0 && r@[j].1.is_package == e.is_package
                    && r@[j].1.cache_tag == self.cache_tag),
            forall|i: int|
                0 <= i < self.resources.view_seq().len()
                    && (#[trigger] self.resources.view_seq()[i]).1.in_memory_source is Some
                    ==> exists|j: int| 0 <= j < r@.len() && (#[trigger] r@[j]).0
                    == self.resources.view_seq()[i].0,
    {
        let mut r: Vec<(String, PythonModuleSource)> = Vec::new();
        let n: usize = self.resources.len();
        let mut i: usize = 0;
        while i < n
            invariant
                0 <= i <= n,
                n == self.resources.view_seq().len(),
                self.wf(),
                forall|j: int|
                    0 <= j < r@.len() ==> (self.resources.spec_get(
                        (#[trigger] r@[j]).0@,
                    ) matches Some(e) && (e.in_memory_source matches Some(l) && loc_eq(
                        r@[j].1.source,
                        l,
                    )) && r@[j].1.name == r@[j].0 && r@[j].1.is_package == e.is_package
                        && r@[j].1.cache_tag == self.cache_tag),
                forall|i2: int|
                    0 <= i2 < i
                        && (#[trigger] self.resources.view_seq()[i2]).1.in_memory_source is Some
                        ==> exists|j: int| 0 <= j < r@.len() && (#[trigger] r@[j]).0
                        == self.resources.view_seq()[i2].0,
            decreases n - i,
        {
            let key = self.resources.key_at(i);
            let e = self.resources.val_at(i);
            let ghost oldr = r@;
            match &e.in_memory_source {
                Some(l) => {
                    proof {
                        crate::smap::lemma_get_member(self.resources.view_seq(), i as int);
                    }
                    r.push(
                        (
                            key.clone(),
                            PythonModuleSource {
                                name: key.clone(),
                                source: l.duplicate(),
                                is_package: e.is_package,
                                cache_tag: self.cache_tag.clone(),
                            },
                        ),
                    );
                    proof {
                        assert(r@[oldr.len() as int].0 == self.resources.view_seq()[i as int].0);
                    }
                },
                None => {},
            }
            proof {
                assert forall|i2: int|
                    0 <= i2 < i + 1 && (
                    #[trigger] self.resources.view_seq()[i2]).1.in_memory_source
                        is Some implies exists|j: int|
                    0 <= j < r@.len() && (#[trigger] r@[j]).0
                        == self.resources.view_seq()[i2].0 by {
                    if i2 < i {
                        let j = choose|j: int|
                            0 <= j < oldr.len() && (#[trigger] oldr[j]).0
                                == self.resources.view_seq()[i2].0;
                        assert(r@[j].0 == self.resources.view_seq()[i2].0);
                    } else {
                        assert(r@[r@.len() - 1].0 == self.resources.view_seq()[i2].0);
                    }
                }
            }
            i = i + 1;
        }
        r
    }

    /// The bytecode requests collected for in-memory import at the base
    /// optimization level, in table order.
    pub fn get_in_memory_module_bytecodes(&self) -> (r: Vec<(
        String,
        PythonModuleBytecodeFromSource,
    )>)
        requires
            self.wf(),
        ensures
            forall|j: int|
                0 <= j < r@.len() ==> (self.resources.spec_get(
                    (#[trigger] r@[j]).0@,
                ) matches Some(e) && (e.in_memory_bytecode_source matches Some(l) && loc_eq(
                    r@[j].1.source,
                    l,
                )) && r@[j].1.name == r@[j].0 && r@[j].1.is_package == e.is_package
                    && r@[j].1.optimize_level == crate::resource::BytecodeOptimizationLevel::Zero
                    && r@[j].1.cache_tag == self.cache_tag),
            forall|i: int|
                0 <= i < self.resources.view_seq().len()
                    && (#[trigger] self.resources.view_seq()[i]).1.in_memory_bytecode_source
                    is Some ==> exists|j: int| 0 <= j < r@.len() && (#[trigger] r@[j]).0
                    == self.resources.view_seq()[i].0,
    {
        let mut r: Vec<(String, PythonModuleBytecodeFromSource)> = Vec::new();
        let n: usize = self.resources.len();
        let mut i: usize = 0;
        while i < n
            invariant
                0 <= i <= n,
                n == self.resources.view_seq().len(),
                self.wf(),
                forall|j: int|
                    0 <= j < r@.len() ==> (self.resources.spec_get(
                        (#[trigger] r@[j]).0@,
                    ) matches Some(e) && (e.in_memory_bytecode_source matches Some(l) && loc_eq(
                        r@[j].1.source,
                        l,
                    )) && r@[j].1.name == r@[j].0 && r@[j].1.is_package == e.is_package
                        && r@[j].1.optimize_level
                        == crate::resource::BytecodeOptimizationLevel::Zero && r@[j].1.cache_tag
                        == self.cache_tag),
                forall|i2: int|
                    0 <= i2 < i
                        && (#[trigger] self.resources.view_seq()[i2]).1.in_memory_bytecode_source
                        is Some ==> exists|j: int| 0 <= j < r@.len() && (#[trigger] r@[j]).0
                        == self.resources.view_seq()[i2].0,
            decreases n - i,
        {
            let key = self.resources.key_at(i);
            let e = self.resources.val_at(i);
            let ghost oldr = r@;
            match &e.in_memory_bytecode_source {
                Some(l) => {
                    proof {
                        crate::smap::lemma_get_member(self.resources.view_seq(), i as int);
                    }
                    r.push(
                        (
                            key.clone(),
                            PythonModuleBytecodeFromSource {
                                name: key.clone(),
                                source: l.duplicate(),
                                optimize_level: crate::resource::BytecodeOptimizationLevel::Zero,
                                is_package: e.is_package,
                                cache_tag: self.cache_tag.clone(),
                            },
                        ),
                    );
                    proof {
                        assert(r@[oldr.len() as int].0 == self.resources.view_seq()[i as int].0);
                    }
                },
                None => {},
            }
            proof {
                assert forall|i2: int|
                    0 <= i2 < i + 1 && (
                    #[trigger] self.resources.view_seq()[i2]).1.in_memory_bytecode_source
                        is Some implies exists|j: int|
                    0 <= j < r@.len() && (#[trigger] r@[j]).0
                        == self.resources.view_seq()[i2].0 by {
                    if i2 < i {
                        let j = choose|j: int|
                            0 <= j < oldr.len() && (#[trigger] oldr[j]).0
                                == self.resources.view_seq()[i2].0;
                        assert(r@[j].0 == self.resources.view_seq()[i2].0);
                    } else {
                        assert(r@[r@.len() - 1].0 == self.resources.view_seq()[i2].0);
                    }
                }
            }
            i = i + 1;
        }
        r
    }

    /// The package resource data collected for in-memory loading, in table
    /// order: for each package, its resources resident in memory.  Data
    /// registered through a path-backed location is not read and therefore
    /// not included here.
    pub fn get_in_memory_package_resources(&self) -> (r: Vec<(String, Vec<(String, Vec<u8>)>)>)
        requires
            self.wf(),
        ensures
            forall|j: int|
                0 <= j < r@.len() ==> (self.resources.spec_get(
                    (#[trigger] r@[j]).0@,
                ) matches Some(e) && e.in_memory_resources.view_seq().len() > 0 && item_views(
                    r@[j].1@,
                ) == mem_views(e.in_memory_resources.view_seq())),
            forall|i: int|
                0 <= i < self.resources.view_seq().len()
                    && (#[trigger] self.resources.view_seq()[i]).1.in_memory_resources.view_seq().len()
                    > 0 ==> exists|j: int| 0 <= j < r@.len() && (#[trigger] r@[j]).0
                    == self.resources.view_seq()[i].0,
    {
        let mut r: Vec<(String, Vec<(String, Vec<u8>)>)> = Vec::new();
        let n: usize = self.resources.len();
        let mut i: usize = 0;
        while i < n
            invariant
                0 <= i <= n,
                n == self.resources.view_seq().len(),
                self.wf(),
                forall|j: int|
                    0 <= j < r@.len() ==> (self.resources.spec_get(
                        (#[trigger] r@[j]).0@,
                    ) matches Some(e) && e.in_memory_resources.view_seq().len() > 0 && item_views(
                        r@[j].1@,
                    ) == mem_views(e.in_memory_resources.view_seq())),
                forall|i2: int|
                    0 <= i2 < i && (
                    #[trigger] self.resources.view_seq()[i2]).1.in_memory_resources.view_seq().len()
                        > 0 ==> exists|j: int| 0 <= j < r@.len() && (#[trigger] r@[j]).0
                        == self.resources.view_seq()[i2].0,
            decreases n - i,
        {
            let key = self.resources.key_at(i);
            let e = self.resources.val_at(i);
            let m: usize = e.in_memory_resources.len();
            let ghost oldr = r@;
            if m > 0 {
                let items = collect_memory_items(&e.in_memory_resources);
                proof {
                    crate::smap::lemma_get_member(self.resources.view_seq(), i as int);
                }
                r.push((key.clone(), items));
                proof {
                    assert(r@[oldr.len() as int].0 == self.resources.view_seq()[i as int].0);
                }
            }
            proof {
                assert forall|i2: int|
                    0 <= i2 < i + 1 && (
                    #[trigger] self.resources.view_seq()[i2]).1.in_memory_resources.view_seq().len()
                        > 0 implies exists|j: int|
                    0 <= j < r@.len() && (#[trigger] r@[j]).0
                        == self.resources.view_seq()[i2].0 by {
                    if i2 < i {
                        let j = choose|j: int|
                            0 <= j < oldr.len() && (#[trigger] oldr[j]).0
                                == self.resources.view_seq()[i2].0;
                        assert(r@[j].0 == self.resources.view_seq()[i2].0);
                    } else {
                        assert(r@[r@.len() - 1].0 == self.resources.view_seq()[i2].0);
                    }
                }
            }
            i = i + 1;
        }
        r
    }
}

/// The (name, bytes) views of the memory-resident sub-resources of `sub`,
/// in order; path-backed sub-resources are not read and do not appear.
pub open spec fn mem_views(sub: Seq<(String, DataLocation)>) -> Seq<(Seq<char>, Seq<u8>)>
    decreases sub.len(),
{
    if sub.len() == 0 {
        Seq::empty()
    } else {
        mem_views(sub.drop_last()) + (match sub.last().1 {
            DataLocation::Memory(b) => seq![(sub.last().0@, b@)],
            DataLocation::Path(_) => Seq::empty(),
        })
    }
}

/// The (name, bytes) views of returned data items.
pub open spec fn item_views(v: Seq<(String, Vec<u8>)>) -> Seq<(Seq<char>, Seq<u8>)> {
    v.map_values(|p: (String, Vec<u8>)| (p.0@, p.1@))
}

/// Copy out the memory-resident sub-resources of one package, in order.
fn collect_memory_items(subm: &SortedMap<DataLocation>) -> (items: Vec<(String, Vec<u8>)>)
    ensures
        item_views(items@) == mem_views(subm.view_seq()),
{
    let ghost sub = subm.view_seq();
    let mut items: Vec<(String, Vec<u8>)> = Vec::new();
    let m: usize = subm.len();
    let mut j: usize = 0;
    proof {
        assert(sub.take(0) =~= Seq::<(String, DataLocation)>::empty());
        assert(item_views(items@) =~= mem_views(sub.take(0)));
    }
    while j < m
        invariant
            0 <= j <= m,
            m == sub.len(),
            sub == subm.view_seq(),
            item_views(items@) == mem_views(sub.take(j as int)),
        decreases m - j,
    {
        proof {
            assert(sub.take(j + 1).drop_last() =~= sub.take(j as int));
            assert(sub.take(j + 1).last() == sub[j as int]);
        }
        let rk = subm.key_at(j);
        match subm.val_at(j) {
            DataLocation::Memory(b) => {
                items.push((rk.clone(), crate::resource::clone_bytes(b)));
                proof {
                    assert(item_views(items@) =~= mem_views(sub.take(j + 1)));
                }
            },
            DataLocation::Path(_) => {
                proof {
                    assert(item_views(items@) =~= mem_views(sub.take(j + 1)));
                }
            },
        }
        j = j + 1;
    }
    proof {
        assert(sub.take(m as int) =~= sub);
    }
    items
}

/// One install file implied by the collected entries: which table entry,
/// and which of its filesystem-relative payloads.
pub enum InstallSrc {
    /// The module-source file of entry `i`.
    ModuleSource { i: int },
    /// The extension-module shared library of entry `i`.
    ExtensionLibrary { i: int },
    /// The shared library of entry `i`.
    SharedLibrary { i: int },
    /// The `j`-th package resource file of entry `i`.
    PackageResource { i: int, j: int },
    /// The `j`-th distribution metadata file of entry `i`.
    DistributionResource { i: int, j: int },
}

/// Whether `s` designates a payload the table `t` actually carries.
pub open spec fn valid_src(t: Seq<(String, PrePackagedResource)>, s: InstallSrc) -> bool {
    match s {
        InstallSrc::ModuleSource { i } => 0 <= i < t.len()
            && t[i].1.relative_path_module_source is Some,
        InstallSrc::ExtensionLibrary { i } => 0 <= i < t.len()
            && t[i].1.relative_path_extension_module_shared_library is Some,
        InstallSrc::SharedLibrary { i } => 0 <= i < t.len()
            && t[i].1.relative_path_shared_library is Some,
        InstallSrc::PackageResource { i, j } => 0 <= i < t.len() && 0 <= j
            < t[i].1.relative_path_package_resources.view_seq().len(),
        InstallSrc::DistributionResource { i, j } => 0 <= i < t.len() && 0 <= j
            < t[i].1.relative_path_distribution_resources.view_seq().len(),
    }
}

/// The install path of the payload `s` designates.
pub open spec fn src_path(t: Seq<(String, PrePackagedResource)>, s: InstallSrc) -> Seq<char> {
    match s {
        InstallSrc::ModuleSource { i } => crate::paths::module_source_path(
            t[i].1.relative_path_module_source.unwrap().0@,
            t[i].0@,
            t[i].1.is_package,
        ),
        InstallSrc::ExtensionLibrary { i } => t[
            i
        ].1.relative_path_extension_module_shared_library.unwrap().1@,
        InstallSrc::SharedLibrary { i } => crate::paths::prefix_part(
            t[i].1.relative_path_shared_library.unwrap().0@,
        ) + t[i].1.name@,
        InstallSrc::PackageResource { i, j } => t[
            i
        ].1.relative_path_package_resources.view_seq()[j].1.0@,
        InstallSrc::DistributionResource { i, j } => t[
            i
        ].1.relative_path_distribution_resources.view_seq()[j].1.0@,
    }
}

/// The payload data of the source `s` designates.
pub open spec fn src_loc(t: Seq<(String, PrePackagedResource)>, s: InstallSrc) -> DataLocation {
    match s {
        InstallSrc::ModuleSource { i } => t[i].1.relative_path_module_source.unwrap().1,
        InstallSrc::ExtensionLibrary { i } => t[
            i
        ].1.relative_path_extension_module_shared_library.unwrap().2,
        InstallSrc::SharedLibrary { i } => t[i].1.relative_path_shared_library.unwrap().1,
        InstallSrc::PackageResource { i, j } => t[
            i
        ].1.relative_path_package_resources.view_seq()[j].1.1,
        InstallSrc::DistributionResource { i, j } => t[
            i
        ].1.relative_path_distribution_resources.view_seq()[j].1.1,
    }
}

/// Whether the table implies an install file at path `p`.
pub open spec fn implied_install(t: Seq<(String, PrePackagedResource)>, p: Seq<char>) -> bool {
    exists|s: InstallSrc| #[trigger] valid_src(t, s) && src_path(t, s) == p
}

/// Every implied payload is resident in memory.
pub open spec fn all_installs_memory(t: Seq<(String, PrePackagedResource)>) -> bool {
    forall|s: InstallSrc| #[trigger] valid_src(t, s) ==> src_loc(t, s) is Memory
}

/// No two distinct implied payloads share an install path.
pub open spec fn distinct_installs(t: Seq<(String, PrePackagedResource)>) -> bool {
    forall|s1: InstallSrc, s2: InstallSrc|
        #[trigger] valid_src(t, s1) && #[trigger] valid_src(t, s2) && src_path(t, s1) == src_path(
            t,
            s2,
        ) ==> s1 == s2
}

/// Whether `s` is processed strictly before position (`i`, `st`, `j`) of
/// the derivation scan: entries in order, within one entry the module
/// source, extension library, shared library, package resources and
/// distribution metadata in that order.
pub open spec fn src_before(s: InstallSrc, i: int, st: int, j: int) -> bool {
    match s {
        InstallSrc::ModuleSource { i: si } => si < i || (si == i && 0 < st),
        InstallSrc::ExtensionLibrary { i: si } => si < i || (si == i && 1 < st),
        InstallSrc::SharedLibrary { i: si } => si < i || (si == i && 2 < st),
        InstallSrc::PackageResource { i: si, j: sj } => si < i || (si == i && (3 < st || (3 == st
            && sj < j))),
        InstallSrc::DistributionResource { i: si, j: sj } => si < i || (si == i && (4 < st || (4
            == st && sj < j))),
    }
}

/// Every path of `m` is implied by a payload scanned before position
/// (`i`, `st`, `j`).
pub open spec fn manifest_from_scanned(
    m: crate::manifest::FileManifest,
    t: Seq<(String, PrePackagedResource)>,
    i: int,
    st: int,
    j: int,
) -> bool {
    forall|p: Seq<char>|
        #[trigger] m.contains_path(p) ==> exists|s: InstallSrc|
            #[trigger] valid_src(t, s) && src_path(t, s) == p && src_before(s, i, st, j)
}

/// The scalar install files implied by the entry `pair` are present in `m`.
pub open spec fn entry_scalar_files_ok(
    m: crate::manifest::FileManifest,
    pair: (String, PrePackagedResource),
) -> bool {
    &&& (pair.1.relative_path_module_source matches Some((p, l)) ==> file_claim(
        m,
        crate::paths::module_source_path(p@, pair.0@, pair.1.is_package),
        l,
        false,
    ))
    &&& (pair.1.relative_path_extension_module_shared_library matches Some((_p, ip, l))
        ==> file_claim(m, ip@, l, true))
    &&& (pair.1.relative_path_shared_library matches Some((p, l)) ==> file_claim(
        m,
        crate::paths::prefix_part(p@) + pair.1.name@,
        l,
        true,
    ))
}

/// The first `j` package-resource files of `pair` are present in `m`.
pub open spec fn entry_files_ok_prefix_pkg(
    m: crate::manifest::FileManifest,
    pair: (String, PrePackagedResource),
    j: int,
) -> bool {
    forall|j2: int|
        0 <= j2 < j && j <= pair.1.relative_path_package_resources.view_seq().len() ==> file_claim(
            m,
            (#[trigger] pair.1.relative_path_package_resources.view_seq()[j2]).1.0@,
            pair.1.relative_path_package_resources.view_seq()[j2].1.1,
            false,
        )
}

/// The first `j` distribution metadata files of `pair` are present in `m`.
pub open spec fn entry_files_ok_prefix_dist(
    m: crate::manifest::FileManifest,
    pair: (String, PrePackagedResource),
    j: int,
) -> bool {
    forall|j2: int|
        0 <= j2 < j && j <= pair.1.relative_path_distribution_resources.view_seq().len()
            ==> file_claim(
            m,
            (#[trigger] pair.1.relative_path_distribution_resources.view_seq()[j2]).1.0@,
            pair.1.relative_path_distribution_resources.view_seq()[j2].1.1,
            false,
        )
}

/// Every table entry carrying the module-identity marker appears in `v`.
pub open spec fn marked_names_complete(
    table: Seq<(String, PrePackagedResource)>,
    v: Seq<String>,
) -> bool {
    forall|i: int|
        0 <= i < table.len() && entry_marked((#[trigger] table[i]).1) ==> exists|j: int|
            0 <= j < v.len() && v[j]@ == table[i].0@
}

/// The install-file claims of an entry survive a manifest extension.
pub proof fn lemma_entry_files_ok_extends(
    m1: crate::manifest::FileManifest,
    m2: crate::manifest::FileManifest,
    pair: (String, PrePackagedResource),
)
    requires
        entry_files_ok(m1, pair),
        crate::manifest::manifest_extends(m2, m1),
    ensures
        entry_files_ok(m2, pair),
{
    assert forall|j: int|
        0 <= j < pair.1.relative_path_package_resources.view_seq().len() implies file_claim(
        m2,
        (#[trigger] pair.1.relative_path_package_resources.view_seq()[j]).1.0@,
        pair.1.relative_path_package_resources.view_seq()[j].1.1,
        false,
    ) by {
        assert(file_claim(
            m1,
            pair.1.relative_path_package_resources.view_seq()[j].1.0@,
            pair.1.relative_path_package_resources.view_seq()[j].1.1,
            false,
        ));
    }
    assert forall|j: int|
        0 <= j < pair.1.relative_path_distribution_resources.view_seq().len() implies file_claim(
        m2,
        (#[trigger] pair.1.relative_path_distribution_resources.view_seq()[j]).1.0@,
        pair.1.relative_path_distribution_resources.view_seq()[j].1.1,
        false,
    ) by {
        assert(file_claim(
            m1,
            pair.1.relative_path_distribution_resources.view_seq()[j].1.0@,
            pair.1.relative_path_distribution_resources.view_seq()[j].1.1,
            false,
        ));
    }
}

/// Whether one of an entry's memory-resident source payloads carries the
/// module-identity marker.
pub open spec fn entry_marked(e: PrePackagedResource) -> bool {
    ||| (e.in_memory_source matches Some(DataLocation::Memory(b))
        && crate::externals::has_module_identity_marker(b@))
    ||| (e.in_memory_bytecode_source matches Some(DataLocation::Memory(b))
        && crate::externals::has_module_identity_marker(b@))
    ||| (e.in_memory_bytecode_opt1_source matches Some(DataLocation::Memory(b))
        && crate::externals::has_module_identity_marker(b@))
    ||| (e.in_memory_bytecode_opt2_source matches Some(DataLocation::Memory(b))
        && crate::externals::has_module_identity_marker(b@))
}

/// Every source payload the marker scan reads is resident in memory.
pub open spec fn scan_sources_memory(e: PrePackagedResource) -> bool {
    &&& (e.in_memory_source matches Some(l) ==> l is Memory)
    &&& (e.in_memory_bytecode_source matches Some(l) ==> l is Memory)
    &&& (e.in_memory_bytecode_opt1_source matches Some(l) ==> l is Memory)
    &&& (e.in_memory_bytecode_opt2_source matches Some(l) ==> l is Memory)
}

/// Scan one optional source payload for the module-identity marker,
/// reading it when it is path-backed.
fn scan_optional_source(loc: &Option<DataLocation>) -> (r: Result<bool, PackagingError>)
    ensures
        r matches Err(e) ==> e is IoError,
        loc is None ==> (r matches Ok(b) && !b),
        (loc matches Some(l) && l is Memory) ==> r is Ok,
        r matches Ok(b) ==> (loc matches Some(DataLocation::Memory(bb)) ==> b
            == crate::externals::has_module_identity_marker(bb@)),
{
    match loc {
        Some(l) => {
            let bytes = match l.resolve() {
                Ok(d) => d,
                Err(err) => {
                    return Err(err);
                },
            };
            match crate::externals::source_has_marker(&bytes) {
                Ok(b) => Ok(b),
                Err(err) => Err(err),
            }
        },
        None => Ok(false),
    }
}

/// The in-memory bytecode-source field of `e` for `level`.
pub open spec fn im_bytecode_field(
    e: PrePackagedResource,
    level: crate::resource::BytecodeOptimizationLevel,
) -> Option<DataLocation> {
    match level {
        crate::resource::BytecodeOptimizationLevel::Zero => e.in_memory_bytecode_source,
        crate::resource::BytecodeOptimizationLevel::One => e.in_memory_bytecode_opt1_source,
        crate::resource::BytecodeOptimizationLevel::Two => e.in_memory_bytecode_opt2_source,
    }
}

/// The field tag of the in-memory bytecode-source field for `level`.
pub open spec fn im_bytecode_tag(level: crate::resource::BytecodeOptimizationLevel) -> EntryField {
    match level {
        crate::resource::BytecodeOptimizationLevel::Zero => EntryField::ImBytecode0,
        crate::resource::BytecodeOptimizationLevel::One => EntryField::ImBytecode1,
        crate::resource::BytecodeOptimizationLevel::Two => EntryField::ImBytecode2,
    }
}

/// The relative-path bytecode-source field of `e` for `level`.
pub open spec fn rel_bytecode_field(
    e: PrePackagedResource,
    level: crate::resource::BytecodeOptimizationLevel,
) -> Option<(String, String, DataLocation)> {
    match level {
        crate::resource::BytecodeOptimizationLevel::Zero => e.relative_path_bytecode_source,
        crate::resource::BytecodeOptimizationLevel::One => e.relative_path_bytecode_opt1_source,
        crate::resource::BytecodeOptimizationLevel::Two => e.relative_path_bytecode_opt2_source,
    }
}

/// The field tag of the relative-path bytecode-source field for `level`.
pub open spec fn rel_bytecode_tag(level: crate::resource::BytecodeOptimizationLevel) -> EntryField {
    match level {
        crate::resource::BytecodeOptimizationLevel::Zero => EntryField::RelBytecode0,
        crate::resource::BytecodeOptimizationLevel::One => EntryField::RelBytecode1,
        crate::resource::BytecodeOptimizationLevel::Two => EntryField::RelBytecode2,
    }
}

/// The in-memory package-resource data stored under `k2` in the entry
/// `base`, if any.
pub open spec fn sub_loc_get(base: Option<PrePackagedResource>, k2: Seq<char>) -> Option<
    DataLocation,
> {
    match base {
        Some(b) => b.in_memory_resources.spec_get(k2),
        None => None,
    }
}

} // verus!
