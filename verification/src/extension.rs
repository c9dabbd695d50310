//! Link state for extension modules built into the binary.

use vstd::prelude::*;

use crate::resource::DataLocation;
use crate::sset::StringSet;

verus! {

/// A dependency of an extension module on a native library.
#[derive(Clone, Debug, PartialEq)]
pub struct LibraryDependency {
    /// The library name, as handed to the linker.
    pub name: String,
    /// Path to a static library version, if one exists.
    pub static_path: Option<String>,
    /// Path to a dynamic library version, if one exists.
    pub dynamic_path: Option<String>,
    /// Whether the dependency is a framework.
    pub framework: bool,
    /// Whether the dependency is a system library.
    pub system: bool,
}

/// An extension module shipped with a Python distribution.
#[derive(Clone, Debug, PartialEq)]
pub struct DistributionExtensionModule {
    /// The fully qualified dotted module name.
    pub module: String,
    /// The name of the C initialization function, if known.
    pub init_fn: Option<String>,
    /// Whether the distribution links this extension by default.
    pub builtin_default: bool,
    /// Whether the extension may be disabled.
    pub disableable: bool,
    /// Paths to object files constituting the extension.
    pub object_paths: Vec<String>,
    /// Path to a static library form, if one exists.
    pub static_library: Option<String>,
    /// Path to a shared library form, if one exists.
    pub shared_library: Option<String>,
    /// Native libraries the extension links against.
    pub links: Vec<LibraryDependency>,
    /// Whether the extension is required by the runtime.
    pub required: bool,
    /// The distribution's variant label for this extension.
    pub variant: String,
    /// License identifiers, if known.
    pub licenses: Option<Vec<String>>,
    /// Paths to license files, if known.
    pub license_paths: Option<Vec<String>>,
    /// Whether the extension is in the public domain, if known.
    pub license_public_domain: Option<bool>,
}

/// State necessary to link one extension module into the binary.
#[derive(Clone, Debug, PartialEq, Default)]
pub struct ExtensionModuleBuildState {
    /// The C initialization function, if one is declared.
    pub init_fn: Option<String>,
    /// Object files to link into the produced binary.
    pub link_object_files: Vec<DataLocation>,
    /// Frameworks the module links against.
    pub link_frameworks: StringSet,
    /// System libraries the module links against.
    pub link_system_libraries: StringSet,
    /// Static libraries the module links against.
    pub link_static_libraries: StringSet,
    /// Dynamic libraries the module links against.
    pub link_dynamic_libraries: StringSet,
    /// Libraries supplied outside the distribution that the module links
    /// against.
    pub link_external_libraries: StringSet,
}

impl ExtensionModuleBuildState {
    /// All dependency sets are well formed.
    pub open spec fn wf(&self) -> bool {
        self.link_frameworks.wf() && self.link_system_libraries.wf()
            && self.link_static_libraries.wf() && self.link_dynamic_libraries.wf()
            && self.link_external_libraries.wf()
    }
}

/// A category of link dependency carried by a `LibraryDependency`.
#[derive(Clone, Copy, Debug, PartialEq, Eq, Structural)]
pub enum LinkKind {
    /// Frameworks.
    Framework,
    /// System libraries.
    System,
    /// Static libraries.
    Static,
    /// Dynamic libraries.
    Dynamic,
}

/// Whether `link` carries a dependency of category `kind`.
pub open spec fn link_selected(link: LibraryDependency, kind: LinkKind) -> bool {
    match kind {
        LinkKind::Framework => link.framework,
        LinkKind::System => link.system,
        LinkKind::Static => link.static_path is Some,
        LinkKind::Dynamic => link.dynamic_path is Some,
    }
}

/// `s` holds exactly the names of the links of `links` that carry a
/// dependency of category `kind`.
pub open spec fn links_set_ok(s: StringSet, links: Seq<LibraryDependency>, kind: LinkKind) -> bool {
    forall|k: Seq<char>|
        #[trigger] s.spec_contains(k) <==> exists|i: int|
            0 <= i < links.len() && link_selected(links[i], kind) && links[i].name@ == k
}

/// `s` holds exactly the names of `names`.
pub open spec fn names_set_ok(s: StringSet, names: Seq<String>) -> bool {
    forall|k: Seq<char>|
        #[trigger] s.spec_contains(k) <==> exists|i: int| 0 <= i < names.len() && names[i]@ == k
}

/// Collect the names of the links of category `kind`, deduplicated.
pub fn collect_links(links: &Vec<LibraryDependency>, kind: LinkKind) -> (s: StringSet)
    ensures
        s.wf(),
        links_set_ok(s, links@, kind),
    {
    let mut s = StringSet::new();
    let n: usize = links.len();
    let mut i: usize = 0;
    while i < n
        invariant
            0 <= i <= n,
            n == links@.len(),
            s.wf(),
            forall|k: Seq<char>|
                #[trigger] s.spec_contains(k) <==> exists|j: int|
                    0 <= j < i && link_selected(links@[j], kind) && links@[j].name@ == k,
        decreases n - i,
    {
        let selected: bool = match kind {
            LinkKind::Framework => links[i].framework,
            LinkKind::System => links[i].system,
            LinkKind::Static => links[i].static_path.is_some(),
            LinkKind::Dynamic => links[i].dynamic_path.is_some(),
        };
        if selected {
            s.insert(links[i].name.clone());
        }
        proof {
            assert forall|k: Seq<char>| #[trigger] s.spec_contains(k) implies exists|j: int|
                0 <= j < i + 1 && link_selected(links@[j], kind) && links@[j].name@ == k by {
                if !(exists|j: int| 0 <= j < i && link_selected(links@[j], kind) && links@[j].name@
                    == k) {
                    assert(link_selected(links@[i as int], kind) && links@[i as int].name@ == k);
                }
            }
        }
        i = i + 1;
    }
    proof {
        assert forall|k: Seq<char>| #[trigger] s.spec_contains(k) <==> exists|i2: int|
            0 <= i2 < links@.len() && link_selected(links@[i2], kind) && links@[i2].name@ == k by {
        }
    }
    s
}

/// Collect every name of `names`, deduplicated.
pub fn collect_names(names: &Vec<String>) -> (s: StringSet)
    ensures
        s.wf(),
        names_set_ok(s, names@),
{
    let mut s = StringSet::new();
    let n: usize = names.len();
    let mut i: usize = 0;
    while i < n
        invariant
            0 <= i <= n,
            n == names@.len(),
            s.wf(),
            forall|k: Seq<char>|
                #[trigger] s.spec_contains(k) <==> exists|j: int| 0 <= j < i && names@[j]@ == k,
        decreases n - i,
    {
        s.insert(names[i].clone());
        proof {
            assert forall|k: Seq<char>| #[trigger] s.spec_contains(k) implies exists|j: int|
                0 <= j < i + 1 && names@[j]@ == k by {
                if !(exists|j: int| 0 <= j < i && names@[j]@ == k) {
                    assert(names@[i as int]@ == k);
                }
            }
        }
        i = i + 1;
    }
    s
}

} // verus!
