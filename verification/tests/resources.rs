//! Tests of the resource collector and the packaging pipeline.

use embedded_resources::collector::{PrePackagedResource, PrePackagedResources};
use embedded_resources::error::PackagingError;
use embedded_resources::extension::{
    DistributionExtensionModule, ExtensionModuleBuildState, LibraryDependency,
};
use embedded_resources::manifest::{FileContent, FileManifest};
use embedded_resources::packaging::{
    infer_packages, CompileMode, EmbeddedPythonResources, PackedResource,
};
use embedded_resources::paths::{resolve_bytecode_path, resolve_module_source_path};
use embedded_resources::policy::PythonResourcesPolicy;
use embedded_resources::resource::{
    BytecodeOptimizationLevel, DataLocation, PythonExtensionModule,
    PythonModuleBytecodeFromSource, PythonModuleSource, PythonPackageResource, ResourceFlavor,
};
use embedded_resources::smap::SortedMap;
use embedded_resources::sset::StringSet;

use python_packaging::bytecode::PythonBytecodeCompiler;

const DEFAULT_CACHE_TAG: &str = "cpython-37";

/// Drive the external compiler service over the collection's compile
/// requests and assemble the packaging result, as a caller of the library
/// would.
fn run_package(r: &PrePackagedResources) -> Result<EmbeddedPythonResources, PackagingError> {
    let requests = r.compile_requests()?;
    let mut compiler = python_packaging::bytecode::BytecodeCompiler::new(std::path::Path::new(
        "/usr/bin/python3",
    ))
    .expect("starting the compiler service");
    let mut replies: Vec<Vec<u8>> = Vec::new();
    for q in &requests {
        let level = python_packaging::resource::BytecodeOptimizationLevel::try_from(
            q.level.as_i32(),
        )
        .expect("level in range");
        let mode = match q.mode {
            CompileMode::Bytecode => python_packaging::bytecode::CompileMode::Bytecode,
            CompileMode::PycUncheckedHash => {
                python_packaging::bytecode::CompileMode::PycUncheckedHash
            }
        };
        replies.push(compiler.compile(&q.source, &q.name, level, mode).expect("compiling"));
    }
    r.package_with_bytecodes(&replies)
}

#[test]
fn test_add_relative_path_source_module() -> Result<(), PackagingError> {
    let mut r = PrePackagedResources::new(
        &PythonResourcesPolicy::FilesystemRelativeOnly("".to_string()),
        DEFAULT_CACHE_TAG,
    );
    r.add_relative_path_module_source(
        &PythonModuleSource {
            name: "foo".to_string(),
            source: DataLocation::Memory(vec![42]),
            is_package: false,
            cache_tag: DEFAULT_CACHE_TAG.to_string(),
        },
        "",
    )?;

    assert!(r.resources.get("foo").is_some());
    assert_eq!(
        r.resources.get("foo"),
        Some(&PrePackagedResource {
            flavor: ResourceFlavor::Module,
            name: "foo".to_string(),
            is_package: false,
            relative_path_module_source: Some(("".to_string(), DataLocation::Memory(vec![42]))),
            ..Default::default()
        })
    );
    let m = r.derive_extra_files()?;
    assert_eq!(m.len(), 1);
    assert_eq!(m.path_at(0), "foo.py");
    assert_eq!(
        m.content_at(0),
        &FileContent { data: vec![42], executable: false }
    );

    Ok(())
}

#[test]
fn test_add_distribution_extension_module() -> Result<(), PackagingError> {
    let mut r =
        PrePackagedResources::new(&PythonResourcesPolicy::InMemoryOnly, DEFAULT_CACHE_TAG);
    let em = DistributionExtensionModule {
        module: "foo.bar".to_string(),
        init_fn: None,
        builtin_default: false,
        disableable: false,
        object_paths: vec![],
        static_library: None,
        shared_library: None,
        links: vec![],
        required: false,
        variant: "".to_string(),
        licenses: None,
        license_paths: None,
        license_public_domain: None,
    };

    r.add_builtin_distribution_extension_module(&em)?;
    assert_eq!(r.extension_module_states.len(), 1);
    assert_eq!(
        r.extension_module_states.get("foo.bar"),
        Some(&ExtensionModuleBuildState {
            init_fn: None,
            link_object_files: vec![],
            link_frameworks: StringSet::new(),
            link_system_libraries: StringSet::new(),
            link_static_libraries: StringSet::new(),
            link_dynamic_libraries: StringSet::new(),
            link_external_libraries: StringSet::new()
        })
    );

    Ok(())
}

#[test]
fn test_add_extension_module_data() -> Result<(), PackagingError> {
    let mut r =
        PrePackagedResources::new(&PythonResourcesPolicy::InMemoryOnly, DEFAULT_CACHE_TAG);
    let em = PythonExtensionModule {
        name: "foo.bar".to_string(),
        init_fn: Some("".to_string()),
        extension_file_suffix: "".to_string(),
        extension_data: None,
        object_file_data: vec![vec![42]],
        is_package: false,
        libraries: vec![],
    };

    r.add_builtin_extension_module(&em)?;
    assert_eq!(r.extension_module_states.len(), 1);
    assert_eq!(
        r.extension_module_states.get("foo.bar"),
        Some(&ExtensionModuleBuildState {
            init_fn: Some("".to_string()),
            link_object_files: vec![DataLocation::Memory(vec![42])],
            link_frameworks: StringSet::new(),
            link_system_libraries: StringSet::new(),
            link_static_libraries: StringSet::new(),
            link_dynamic_libraries: StringSet::new(),
            link_external_libraries: StringSet::new()
        })
    );

    Ok(())
}

#[test]
fn test_add_relative_path_extension_module() -> Result<(), PackagingError> {
    let mut r = PrePackagedResources::new(
        &PythonResourcesPolicy::FilesystemRelativeOnly("".to_string()),
        DEFAULT_CACHE_TAG,
    );
    let em = PythonExtensionModule {
        name: "foo.bar".to_string(),
        init_fn: Some("PyInit_bar".to_string()),
        extension_file_suffix: ".so".to_string(),
        extension_data: Some(DataLocation::Memory(vec![42])),
        object_file_data: vec![],
        is_package: false,
        libraries: vec![],
    };

    r.add_relative_path_extension_module(&em, "prefix")?;
    assert_eq!(r.resources.len(), 1);
    assert_eq!(
        r.resources.get("foo.bar"),
        Some(&PrePackagedResource {
            flavor: ResourceFlavor::Extension,
            name: "foo.bar".to_string(),
            is_package: false,
            relative_path_extension_module_shared_library: Some((
                "prefix".to_string(),
                "prefix/foo/bar.so".to_string(),
                DataLocation::Memory(vec![42])
            )),
            ..Default::default()
        })
    );

    let m = r.derive_extra_files()?;
    assert_eq!(m.len(), 1);
    assert_eq!(m.path_at(0), "prefix/foo/bar.so");
    assert_eq!(
        m.content_at(0),
        &FileContent { data: vec![42], executable: true }
    );

    Ok(())
}

#[test]
fn test_policy_violation_leaves_collection_unchanged() {
    let mut r = PrePackagedResources::new(
        &PythonResourcesPolicy::FilesystemRelativeOnly("".to_string()),
        DEFAULT_CACHE_TAG,
    );
    let module = PythonModuleSource {
        name: "foo".to_string(),
        source: DataLocation::Memory(vec![1, 2]),
        is_package: false,
        cache_tag: DEFAULT_CACHE_TAG.to_string(),
    };
    let err = r.add_in_memory_module_source(&module).unwrap_err();
    assert_eq!(err, PackagingError::PolicyViolation);
    assert_eq!(r.resources.len(), 0);

    let mut r2 = PrePackagedResources::new(&PythonResourcesPolicy::InMemoryOnly, DEFAULT_CACHE_TAG);
    let err2 = r2.add_relative_path_module_source(&module, "lib").unwrap_err();
    assert_eq!(err2, PackagingError::PolicyViolation);
    assert_eq!(r2.resources.len(), 0);
}

#[test]
fn test_package_inference_creates_ancestors() {
    let mut table: SortedMap<PackedResource> = SortedMap::new();
    infer_packages(&mut table, &vec!["a.b.c".to_string()]);
    assert_eq!(table.len(), 2);
    assert_eq!(table.key_at(0), "a");
    assert_eq!(table.key_at(1), "a.b");
    let a = table.get("a").unwrap();
    assert!(a.is_package);
    assert_eq!(a.flavor, ResourceFlavor::Module);
    let ab = table.get("a.b").unwrap();
    assert!(ab.is_package);

    let mut table2: SortedMap<PackedResource> = SortedMap::new();
    infer_packages(
        &mut table2,
        &vec!["zeta.one".to_string(), "alpha.two".to_string()],
    );
    assert_eq!(table2.key_at(0), "alpha");
    assert_eq!(table2.key_at(1), "zeta");
}

#[test]
fn test_write_blobs_name_list_order() -> Result<(), PackagingError> {
    let mut table: SortedMap<PackedResource> = SortedMap::new();
    infer_packages(
        &mut table,
        &vec!["zeta.one".to_string(), "alpha.two".to_string()],
    );
    let res = EmbeddedPythonResources {
        resources: table,
        extra_files: FileManifest::new(),
        extension_modules: SortedMap::new(),
    };
    let (names, packed) = res.write_blobs()?;
    assert_eq!(names, b"alpha\nzeta\n".to_vec());
    assert!(!packed.is_empty());
    Ok(())
}

#[test]
fn test_linking_resolution_merges_and_dedups() -> Result<(), PackagingError> {
    let mut r =
        PrePackagedResources::new(&PythonResourcesPolicy::InMemoryOnly, DEFAULT_CACHE_TAG);
    let link_z = LibraryDependency {
        name: "z".to_string(),
        static_path: None,
        dynamic_path: None,
        framework: false,
        system: true,
    };
    let base = DistributionExtensionModule {
        module: "foo".to_string(),
        init_fn: None,
        builtin_default: true,
        disableable: false,
        object_paths: vec![],
        static_library: None,
        shared_library: None,
        links: vec![link_z.clone()],
        required: false,
        variant: "".to_string(),
        licenses: None,
        license_paths: None,
        license_public_domain: None,
    };
    r.add_builtin_distribution_extension_module(&base)?;
    let mut second = base.clone();
    second.module = "bar".to_string();
    r.add_builtin_distribution_extension_module(&second)?;

    let res = EmbeddedPythonResources {
        resources: SortedMap::new(),
        extra_files: FileManifest::new(),
        extension_modules: r.extension_module_states,
    };
    let info = res.resolve_libpython_linking_info();
    assert_eq!(info.link_system_libraries.len(), 1);
    assert!(info.link_system_libraries.contains("z"));
    assert_eq!(info.link_libraries.len(), 0);
    assert_eq!(info.link_frameworks.len(), 0);
    Ok(())
}

#[test]
fn test_builtin_extensions_excludes_missing_initializer() -> Result<(), PackagingError> {
    let mut r =
        PrePackagedResources::new(&PythonResourcesPolicy::InMemoryOnly, DEFAULT_CACHE_TAG);
    let em = PythonExtensionModule {
        name: "foo.bar".to_string(),
        init_fn: None,
        extension_file_suffix: "".to_string(),
        extension_data: None,
        object_file_data: vec![vec![42]],
        is_package: false,
        libraries: vec![],
    };
    r.add_builtin_extension_module(&em)?;
    let st = r.extension_module_states.get("foo.bar").unwrap();
    assert_eq!(st.link_object_files, vec![DataLocation::Memory(vec![42])]);
    assert_eq!(st.link_frameworks.len(), 0);
    assert_eq!(st.link_system_libraries.len(), 0);
    assert_eq!(st.link_static_libraries.len(), 0);
    assert_eq!(st.link_dynamic_libraries.len(), 0);

    let res = EmbeddedPythonResources {
        resources: SortedMap::new(),
        extra_files: FileManifest::new(),
        extension_modules: r.extension_module_states,
    };
    assert_eq!(res.builtin_extensions(), vec![]);
    Ok(())
}

#[test]
fn test_in_memory_distribution_extension_module_requires_library() {
    let mut r =
        PrePackagedResources::new(&PythonResourcesPolicy::InMemoryOnly, DEFAULT_CACHE_TAG);
    let em = DistributionExtensionModule {
        module: "foo.bar".to_string(),
        init_fn: None,
        builtin_default: false,
        disableable: false,
        object_paths: vec![],
        static_library: None,
        shared_library: None,
        links: vec![],
        required: false,
        variant: "".to_string(),
        licenses: None,
        license_paths: None,
        license_public_domain: None,
    };
    let err = r.add_in_memory_distribution_extension_module(&em).unwrap_err();
    assert_eq!(err, PackagingError::MissingPayload("foo.bar".to_string()));
    assert_eq!(r.resources.len(), 0);
}

#[test]
fn test_builtin_extension_module_requires_object_data() {
    let mut r =
        PrePackagedResources::new(&PythonResourcesPolicy::InMemoryOnly, DEFAULT_CACHE_TAG);
    let em = PythonExtensionModule {
        name: "foo".to_string(),
        init_fn: None,
        extension_file_suffix: "".to_string(),
        extension_data: None,
        object_file_data: vec![],
        is_package: false,
        libraries: vec![],
    };
    let err = r.add_builtin_extension_module(&em).unwrap_err();
    assert_eq!(err, PackagingError::MissingPayload("foo".to_string()));
}

#[test]
fn test_conflicting_install_files_are_rejected() -> Result<(), PackagingError> {
    let mut r = PrePackagedResources::new(
        &PythonResourcesPolicy::FilesystemRelativeOnly("".to_string()),
        DEFAULT_CACHE_TAG,
    );
    r.add_relative_path_module_source(
        &PythonModuleSource {
            name: "a.b".to_string(),
            source: DataLocation::Memory(vec![1]),
            is_package: false,
            cache_tag: DEFAULT_CACHE_TAG.to_string(),
        },
        "",
    )?;
    r.add_relative_path_package_resource(
        "",
        &PythonPackageResource {
            leaf_package: "a".to_string(),
            relative_name: "b.py".to_string(),
            data: DataLocation::Memory(vec![2]),
        },
    )?;
    let err = r.derive_extra_files().unwrap_err();
    assert_eq!(err, PackagingError::FileConflict("a/b.py".to_string()));
    Ok(())
}

#[test]
fn test_find_dunder_file_scans_embedded_sources() -> Result<(), PackagingError> {
    let mut r =
        PrePackagedResources::new(&PythonResourcesPolicy::InMemoryOnly, DEFAULT_CACHE_TAG);
    r.add_in_memory_module_source(&PythonModuleSource {
        name: "plain".to_string(),
        source: DataLocation::Memory(b"x = 1\n".to_vec()),
        is_package: false,
        cache_tag: DEFAULT_CACHE_TAG.to_string(),
    })?;
    r.add_in_memory_module_source(&PythonModuleSource {
        name: "marked".to_string(),
        source: DataLocation::Memory(b"print(__file__)\n".to_vec()),
        is_package: false,
        cache_tag: DEFAULT_CACHE_TAG.to_string(),
    })?;
    let hits = r.find_dunder_file()?;
    assert_eq!(hits, vec!["marked".to_string()]);
    Ok(())
}

#[test]
fn test_filter_from_resource_names_drops_unlisted() -> Result<(), PackagingError> {
    let mut r =
        PrePackagedResources::new(&PythonResourcesPolicy::InMemoryOnly, DEFAULT_CACHE_TAG);
    for name in ["keep", "drop"] {
        r.add_in_memory_module_source(&PythonModuleSource {
            name: name.to_string(),
            source: DataLocation::Memory(vec![0]),
            is_package: false,
            cache_tag: DEFAULT_CACHE_TAG.to_string(),
        })?;
    }
    r.filter_from_resource_names(&vec!["keep".to_string(), "absent".to_string()]);
    assert_eq!(r.resources.len(), 1);
    assert!(r.resources.get("keep").is_some());
    assert!(r.resources.get("drop").is_none());
    Ok(())
}

#[test]
fn test_path_derivation_formulas() {
    assert_eq!(resolve_module_source_path("", "foo", false), "foo.py");
    assert_eq!(resolve_module_source_path("lib", "a.b", true), "lib/a/b/__init__.py");
    assert_eq!(
        resolve_bytecode_path("pre", "a.b", false, "cpython-37", BytecodeOptimizationLevel::One),
        "pre/a/__pycache__/b.cpython-37.opt-1.pyc"
    );
    assert_eq!(
        resolve_bytecode_path("", "m", false, "cpython-37", BytecodeOptimizationLevel::Zero),
        "__pycache__/m.cpython-37.pyc"
    );
    assert_eq!(
        resolve_bytecode_path("", "p", true, "t", BytecodeOptimizationLevel::Two),
        "p/__pycache__/__init__.t.opt-2.pyc"
    );
}

#[test]
fn test_get_in_memory_module_sources_round_trip() -> Result<(), PackagingError> {
    let mut r =
        PrePackagedResources::new(&PythonResourcesPolicy::InMemoryOnly, DEFAULT_CACHE_TAG);
    r.add_in_memory_module_source(&PythonModuleSource {
        name: "m".to_string(),
        source: DataLocation::Memory(vec![9, 9]),
        is_package: true,
        cache_tag: DEFAULT_CACHE_TAG.to_string(),
    })?;
    let sources = r.get_in_memory_module_sources();
    assert_eq!(sources.len(), 1);
    assert_eq!(sources[0].0, "m");
    assert_eq!(sources[0].1.source, DataLocation::Memory(vec![9, 9]));
    assert!(sources[0].1.is_package);
    assert_eq!(sources[0].1.cache_tag, DEFAULT_CACHE_TAG);
    Ok(())
}

#[test]
fn test_enumeration_order_ignores_insertion_order() -> Result<(), PackagingError> {
    let source = |name: &str| PythonModuleSource {
        name: name.to_string(),
        source: DataLocation::Memory(vec![0]),
        is_package: false,
        cache_tag: DEFAULT_CACHE_TAG.to_string(),
    };
    let mut forward =
        PrePackagedResources::new(&PythonResourcesPolicy::InMemoryOnly, DEFAULT_CACHE_TAG);
    forward.add_in_memory_module_source(&source("alpha"))?;
    forward.add_in_memory_module_source(&source("beta"))?;
    let mut backward =
        PrePackagedResources::new(&PythonResourcesPolicy::InMemoryOnly, DEFAULT_CACHE_TAG);
    backward.add_in_memory_module_source(&source("beta"))?;
    backward.add_in_memory_module_source(&source("alpha"))?;
    assert_eq!(forward.resources.len(), 2);
    assert_eq!(forward.resources.key_at(0), backward.resources.key_at(0));
    assert_eq!(forward.resources.key_at(1), backward.resources.key_at(1));
    assert_eq!(forward.resources.key_at(0).as_str(), "alpha");
    Ok(())
}

#[test]
fn test_add_module_bytecode_records_level_fields() -> Result<(), PackagingError> {
    let mut r =
        PrePackagedResources::new(&PythonResourcesPolicy::InMemoryOnly, DEFAULT_CACHE_TAG);
    r.add_in_memory_module_bytecode(&PythonModuleBytecodeFromSource {
        name: "foo".to_string(),
        source: DataLocation::Memory(vec![7]),
        optimize_level: BytecodeOptimizationLevel::One,
        is_package: false,
        cache_tag: DEFAULT_CACHE_TAG.to_string(),
    })?;
    assert_eq!(
        r.resources.get("foo"),
        Some(&PrePackagedResource {
            flavor: ResourceFlavor::Module,
            name: "foo".to_string(),
            is_package: false,
            in_memory_bytecode_opt1_source: Some(DataLocation::Memory(vec![7])),
            ..Default::default()
        })
    );

    let mut r2 = PrePackagedResources::new(
        &PythonResourcesPolicy::FilesystemRelativeOnly("".to_string()),
        DEFAULT_CACHE_TAG,
    );
    r2.add_relative_path_module_bytecode(
        &PythonModuleBytecodeFromSource {
            name: "foo".to_string(),
            source: DataLocation::Memory(vec![8]),
            optimize_level: BytecodeOptimizationLevel::Two,
            is_package: false,
            cache_tag: DEFAULT_CACHE_TAG.to_string(),
        },
        "lib",
    )?;
    let entry = r2.resources.get("foo").unwrap();
    assert_eq!(
        entry.relative_path_bytecode_opt2_source,
        Some((
            "lib".to_string(),
            DEFAULT_CACHE_TAG.to_string(),
            DataLocation::Memory(vec![8])
        ))
    );
    Ok(())
}

#[test]
fn test_add_relative_path_distribution_extension_module_links() -> Result<(), PackagingError> {
    let mut r = PrePackagedResources::new(
        &PythonResourcesPolicy::FilesystemRelativeOnly("prefix".to_string()),
        DEFAULT_CACHE_TAG,
    );
    let em = DistributionExtensionModule {
        module: "foo.bar".to_string(),
        init_fn: Some("PyInit_bar".to_string()),
        builtin_default: false,
        disableable: false,
        object_paths: vec![],
        static_library: None,
        shared_library: Some("dist/lib/foo_bar.so".to_string()),
        links: vec![LibraryDependency {
            name: "z".to_string(),
            static_path: None,
            dynamic_path: Some("dist/lib/libz.so.1".to_string()),
            framework: false,
            system: false,
        }],
        required: false,
        variant: "".to_string(),
        licenses: None,
        license_paths: None,
        license_public_domain: None,
    };
    r.add_relative_path_distribution_extension_module("prefix", &em)?;

    let main = r.resources.get("foo.bar").unwrap();
    assert_eq!(main.flavor, ResourceFlavor::Extension);
    assert_eq!(
        main.relative_path_extension_module_shared_library,
        Some((
            "prefix".to_string(),
            "prefix/foo_bar.so".to_string(),
            DataLocation::Path("dist/lib/foo_bar.so".to_string())
        ))
    );
    let lib = r.resources.get("z").unwrap();
    assert_eq!(lib.flavor, ResourceFlavor::SharedLibrary);
    assert_eq!(lib.name, "libz.so.1");
    assert_eq!(
        lib.relative_path_shared_library,
        Some(("prefix".to_string(), DataLocation::Path("dist/lib/libz.so.1".to_string())))
    );

    let mut wrong_policy =
        PrePackagedResources::new(&PythonResourcesPolicy::InMemoryOnly, DEFAULT_CACHE_TAG);
    let err = wrong_policy
        .add_relative_path_distribution_extension_module("prefix", &em)
        .unwrap_err();
    assert_eq!(err, PackagingError::PolicyViolation);

    let mut no_lib = PrePackagedResources::new(
        &PythonResourcesPolicy::FilesystemRelativeOnly("prefix".to_string()),
        DEFAULT_CACHE_TAG,
    );
    let mut em2 = em.clone();
    em2.shared_library = None;
    let err2 = no_lib
        .add_relative_path_distribution_extension_module("prefix", &em2)
        .unwrap_err();
    assert_eq!(err2, PackagingError::MissingPayload("foo.bar".to_string()));
    Ok(())
}

#[test]
fn test_relative_path_extension_module_requires_payload() {
    let mut r = PrePackagedResources::new(
        &PythonResourcesPolicy::FilesystemRelativeOnly("".to_string()),
        DEFAULT_CACHE_TAG,
    );
    let em = PythonExtensionModule {
        name: "foo".to_string(),
        init_fn: None,
        extension_file_suffix: ".so".to_string(),
        extension_data: None,
        object_file_data: vec![],
        is_package: false,
        libraries: vec![],
    };
    let err = r.add_relative_path_extension_module(&em, "").unwrap_err();
    assert_eq!(err, PackagingError::MissingPayload("foo".to_string()));
    assert_eq!(r.resources.len(), 0);
}

#[test]
fn test_package_compiles_and_infers() -> Result<(), PackagingError> {
    let mut r =
        PrePackagedResources::new(&PythonResourcesPolicy::InMemoryOnly, DEFAULT_CACHE_TAG);
    r.add_in_memory_module_source(&PythonModuleSource {
        name: "pkg.mod".to_string(),
        source: DataLocation::Memory(b"x = 1\n".to_vec()),
        is_package: false,
        cache_tag: DEFAULT_CACHE_TAG.to_string(),
    })?;
    r.add_in_memory_module_bytecode(&PythonModuleBytecodeFromSource {
        name: "pkg.mod".to_string(),
        source: DataLocation::Memory(b"x = 1\n".to_vec()),
        optimize_level: BytecodeOptimizationLevel::Zero,
        is_package: false,
        cache_tag: DEFAULT_CACHE_TAG.to_string(),
    })?;
    let res = run_package(&r)?;

    let parent = res.resources.get("pkg").unwrap();
    assert!(parent.is_package);
    let entry = res.resources.get("pkg.mod").unwrap();
    assert!(!entry.is_package);
    assert_eq!(entry.in_memory_source, Some(b"x = 1\n".to_vec()));
    let bytecode = entry.in_memory_bytecode.clone().unwrap();
    assert!(!bytecode.is_empty());

    let res2 = run_package(&r)?;
    assert_eq!(
        res2.resources.get("pkg.mod").unwrap().in_memory_bytecode,
        Some(bytecode)
    );
    Ok(())
}

#[test]
fn test_package_places_relative_source_file() -> Result<(), PackagingError> {
    let mut r = PrePackagedResources::new(
        &PythonResourcesPolicy::FilesystemRelativeOnly("".to_string()),
        DEFAULT_CACHE_TAG,
    );
    r.add_relative_path_module_source(
        &PythonModuleSource {
            name: "foo".to_string(),
            source: DataLocation::Memory(vec![42]),
            is_package: false,
            cache_tag: DEFAULT_CACHE_TAG.to_string(),
        },
        "",
    )?;
    let res = run_package(&r)?;
    assert_eq!(res.extra_files.len(), 1);
    assert_eq!(res.extra_files.path_at(0), "foo.py");
    assert_eq!(
        res.extra_files.content_at(0),
        &FileContent { data: vec![42], executable: false }
    );
    let entry = res.resources.get("foo").unwrap();
    assert_eq!(entry.flavor, ResourceFlavor::Module);
    assert!(!entry.is_package);
    assert_eq!(entry.relative_path_module_source, Some("foo.py".to_string()));
    assert_eq!(entry.in_memory_bytecode, None);
    Ok(())
}

#[test]
fn test_get_in_memory_package_resources_round_trip() -> Result<(), PackagingError> {
    let mut r =
        PrePackagedResources::new(&PythonResourcesPolicy::InMemoryOnly, DEFAULT_CACHE_TAG);
    r.add_in_memory_package_resource(&PythonPackageResource {
        leaf_package: "pkg".to_string(),
        relative_name: "data.txt".to_string(),
        data: DataLocation::Memory(vec![5, 6]),
    })?;
    let listed = r.get_in_memory_package_resources();
    assert_eq!(listed.len(), 1);
    assert_eq!(listed[0].0, "pkg");
    assert_eq!(listed[0].1, vec![("data.txt".to_string(), vec![5, 6])]);
    Ok(())
}
