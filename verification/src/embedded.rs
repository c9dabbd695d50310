//! Operations on the immutable packaging result: serialization, builtin
//! registration and linking-plan resolution.

use vstd::prelude::*;
use vstd::string::*;

use crate::error::PackagingError;
use crate::extension::ExtensionModuleBuildState;
use crate::manifest::{content_eq, FileManifest};
use crate::packaging::{EmbeddedPythonResources, PackedResource};
use crate::resource::DataLocation;
use crate::sset::StringSet;

verus! {

/// The newline-delimited list of resource names, in table order: for each
/// entry its name's bytes followed by one line feed.
pub open spec fn names_blob_of(s: Seq<(String, PackedResource)>) -> Seq<u8>
    decreases s.len(),
{
    if s.len() == 0 {
        Seq::empty()
    } else {
        names_blob_of(s.drop_last()) + vstd::utf8::encode_utf8(s.last().0@) + seq![10u8]
    }
}

/// The (name, initializer) pairs of the states declaring an initializer, in
/// table order.
pub open spec fn builtins_of(s: Seq<(String, ExtensionModuleBuildState)>) -> Seq<(String, String)>
    decreases s.len(),
{
    if s.len() == 0 {
        Seq::empty()
    } else {
        builtins_of(s.drop_last()) + (match s.last().1.init_fn {
            Some(f) => seq![(s.last().0, f)],
            None => Seq::empty(),
        })
    }
}

/// The object files of all states, concatenated in table order.
pub open spec fn objects_of(s: Seq<(String, ExtensionModuleBuildState)>) -> Seq<DataLocation>
    decreases s.len(),
{
    if s.len() == 0 {
        Seq::empty()
    } else {
        objects_of(s.drop_last()) + s.last().1.link_object_files@
    }
}

/// State necessary to link the embedded runtime library.
#[derive(Clone, Debug)]
pub struct LibpythonLinkingInfo {
    /// Object files that need to be linked.
    pub object_files: Vec<DataLocation>,
    /// Static and dynamic libraries to link against, merged.
    pub link_libraries: StringSet,
    /// Frameworks to link against.
    pub link_frameworks: StringSet,
    /// System libraries to link against.
    pub link_system_libraries: StringSet,
    /// Externally supplied libraries to link against.
    pub link_libraries_external: StringSet,
}

/// Add every member of `src` to `dst`.
fn insert_all(dst: &mut StringSet, src: &StringSet)
    requires
        old(dst).wf(),
        src.wf(),
    ensures
        final(dst).wf(),
        forall|k: Seq<char>|
            #[trigger] final(dst).spec_contains(k) <==> old(dst).spec_contains(k)
                || src.spec_contains(k),
{
    let n: usize = src.len();
    let mut i: usize = 0;
    while i < n
        invariant
            0 <= i <= n,
            n == src.view_names().len(),
            src.wf(),
            dst.wf(),
            forall|k: Seq<char>|
                #[trigger] dst.spec_contains(k) <==> old(dst).spec_contains(k) || exists|j: int|
                    0 <= j < i && src.view_names()[j] == k,
        decreases n - i,
    {
        dst.insert(src.name_at(i).clone());
        proof {
            src.lemma_member_at(i as int);
            assert forall|k: Seq<char>| #[trigger] dst.spec_contains(k) implies old(
                dst,
            ).spec_contains(k) || exists|j: int| 0 <= j < i + 1 && src.view_names()[j] == k by {
                if !old(dst).spec_contains(k) && !(exists|j: int|
                    0 <= j < i && src.view_names()[j] == k)  {
                    assert(src.view_names()[i as int] == k);
                }
            }
        }
        i = i + 1;
    }
    proof {
        assert forall|k: Seq<char>| #[trigger] final(dst).spec_contains(k) <==> old(
            dst,
        ).spec_contains(k) || src.spec_contains(k) by {
            if exists|j: int| 0 <= j < n && src.view_names()[j] == k {
                let j = choose|j: int| 0 <= j < n && src.view_names()[j] == k;
                src.lemma_member_at(j);
            }
            if src.spec_contains(k) {
                src.lemma_contains_position(k);
            }
        }
    }
}

impl EmbeddedPythonResources {
    /// Serialize the result: the newline-delimited name list, in table
    /// order, and the packed resource table encoded by the external
    /// versioned encoder.  Succeeds whenever every entry's names, counts
    /// and payloads fit the format's length fields.
    pub fn write_blobs(&self) -> (r: Result<(Vec<u8>, Vec<u8>), PackagingError>)
        requires
            self.wf(),
        ensures
            r matches Ok(p) ==> p.0@ == names_blob_of(self.resources.view_seq()),
            r is Err ==> r.unwrap_err() is EncodeError,
            (forall|i: int|
                0 <= i < self.resources.view_seq().len() ==> crate::packaging::encodable_entry(
                    (#[trigger] self.resources.view_seq()[i]).1,
                )) ==> r is Ok,
    {
        let mut names: Vec<u8> = Vec::new();
        let n: usize = self.resources.len();
        let mut i: usize = 0;
        while i < n
            invariant
                0 <= i <= n,
                n == self.resources.view_seq().len(),
                names@ == names_blob_of(self.resources.view_seq().take(i as int)),
            decreases n - i,
        {
            let key = self.resources.key_at(i);
            let mut kb = key.as_str().as_bytes_vec();
            names.append(&mut kb);
            names.push(10u8);
            proof {
                assert(self.resources.view_seq().take(i + 1).drop_last()
                    =~= self.resources.view_seq().take(i as int));
                assert(names@ =~= names_blob_of(self.resources.view_seq().take(i + 1)));
            }
            i = i + 1;
        }
        proof {
            assert(self.resources.view_seq().take(n as int) =~= self.resources.view_seq());
        }
        let table = match crate::externals::encode_packed_table(&self.resources.entries) {
            Ok(t) => t,
            Err(e) => {
                return Err(e);
            },
        };
        Ok((names, table))
    }

    /// The (module name, initializer symbol) pairs of every extension module
    /// state that declares an initializer, in table order: the list handed
    /// to the runtime's builtin-module registration.
    pub fn builtin_extensions(&self) -> (r: Vec<(String, String)>)
        requires
            self.wf(),
        ensures
            r@ == builtins_of(self.extension_modules.view_seq()),
    {
        let mut out: Vec<(String, String)> = Vec::new();
        let n: usize = self.extension_modules.len();
        let mut i: usize = 0;
        while i < n
            invariant
                0 <= i <= n,
                n == self.extension_modules.view_seq().len(),
                out@ == builtins_of(self.extension_modules.view_seq().take(i as int)),
            decreases n - i,
        {
            let key = self.extension_modules.key_at(i);
            let st = self.extension_modules.val_at(i);
            proof {
                assert(self.extension_modules.view_seq().take(i + 1).drop_last()
                    =~= self.extension_modules.view_seq().take(i as int));
            }
            match &st.init_fn {
                Some(f) => {
                    out.push((key.clone(), f.clone()));
                    proof {
                        assert(out@ =~= builtins_of(
                            self.extension_modules.view_seq().take(i + 1),
                        ));
                    }
                },
                None => {
                    proof {
                        assert(out@ =~= builtins_of(
                            self.extension_modules.view_seq().take(i + 1),
                        ));
                    }
                },
            }
            i = i + 1;
        }
        proof {
            assert(self.extension_modules.view_seq().take(n as int)
                =~= self.extension_modules.view_seq());
        }
        out
    }

    /// The manifest of extra files to install next to the produced binary.
    /// Copying the stored manifest into an empty one cannot conflict, so
    /// the call always succeeds.
    pub fn extra_install_files(&self) -> (r: Result<FileManifest, PackagingError>)
        requires
            self.wf(),
        ensures
            r is Ok,
            r matches Ok(m) ==> m.wf() && (forall|p: Seq<char>|
                #[trigger] m.contains_path(p) <==> self.extra_files.contains_path(p)) && (forall|
                i: int,
            |
                0 <= i < self.extra_files.view_seq().len() ==> match m.spec_get(
                    (#[trigger] self.extra_files.view_seq()[i]).0@,
                ) {
                    Some(c) => content_eq(c, self.extra_files.view_seq()[i].1),
                    None => false,
                }),
    {
        let mut res = FileManifest::new();
        let ghost empty = res;
        match res.add_manifest(&self.extra_files) {
            Ok(()) => Ok(res),
            Err(e) => {
                proof {
                    assert(crate::manifest::manifests_compatible(empty, self.extra_files));
                }
                Err(e)
            },
        }
    }

    /// Aggregate the link requirements of every extension module into one
    /// plan: object files concatenated in table order, and each category of
    /// dependency names merged into one deduplicated set, static and
    /// dynamic libraries together.
    pub fn resolve_libpython_linking_info(&self) -> (r: LibpythonLinkingInfo)
        requires
            self.wf(),
        ensures
            r.object_files@.len() == objects_of(self.extension_modules.view_seq()).len(),
            forall|i: int|
                0 <= i < r.object_files@.len() ==> crate::resource::loc_eq(
                    #[trigger] r.object_files@[i],
                    objects_of(self.extension_modules.view_seq())[i],
                ),
            r.link_frameworks.wf() && r.link_system_libraries.wf() && r.link_libraries.wf()
                && r.link_libraries_external.wf(),
            forall|k: Seq<char>|
                #[trigger] r.link_frameworks.spec_contains(k) <==> exists|i: int|
                    0 <= i < self.extension_modules.view_seq().len()
                        && (#[trigger] self.extension_modules.view_seq()[i]).1.link_frameworks.spec_contains(
                        k,
                    ),
            forall|k: Seq<char>|
                #[trigger] r.link_system_libraries.spec_contains(k) <==> exists|i: int|
                    0 <= i < self.extension_modules.view_seq().len()
                        && (#[trigger] self.extension_modules.view_seq()[i]).1.link_system_libraries.spec_contains(
                        k,
                    ),
            forall|k: Seq<char>|
                #[trigger] r.link_libraries.spec_contains(k) <==> exists|i: int|
                    0 <= i < self.extension_modules.view_seq().len() && ((
                    #[trigger] self.extension_modules.view_seq()[i]).1.link_static_libraries.spec_contains(
                        k,
                    ) || self.extension_modules.view_seq()[i].1.link_dynamic_libraries.spec_contains(
                        k,
                    )),
            forall|k: Seq<char>|
                #[trigger] r.link_libraries_external.spec_contains(k) <==> exists|i: int|
                    0 <= i < self.extension_modules.view_seq().len()
                        && (#[trigger] self.extension_modules.view_seq()[i]).1.link_external_libraries.spec_contains(
                        k,
                    ),
    {
        let mut object_files: Vec<DataLocation> = Vec::new();
        let mut link_libraries = StringSet::new();
        let mut link_frameworks = StringSet::new();
        let mut link_system_libraries = StringSet::new();
        let mut link_libraries_external = StringSet::new();
        let n: usize = self.extension_modules.len();
        let mut i: usize = 0;
        while i < n
            invariant
                0 <= i <= n,
                n == self.extension_modules.view_seq().len(),
                self.wf(),
                object_files@.len() == objects_of(
                    self.extension_modules.view_seq().take(i as int),
                ).len(),
                forall|j: int|
                    0 <= j < object_files@.len() ==> crate::resource::loc_eq(
                        #[trigger] object_files@[j],
                        objects_of(self.extension_modules.view_seq().take(i as int))[j],
                    ),
                link_frameworks.wf() && link_system_libraries.wf() && link_libraries.wf()
                    && link_libraries_external.wf(),
                forall|k: Seq<char>|
                    #[trigger] link_frameworks.spec_contains(k) <==> exists|i2: int|
                        0 <= i2 < i
                            && (#[trigger] self.extension_modules.view_seq()[i2]).1.link_frameworks.spec_contains(
                            k,
                        ),
                forall|k: Seq<char>|
                    #[trigger] link_system_libraries.spec_contains(k) <==> exists|i2: int|
                        0 <= i2 < i
                            && (#[trigger] self.extension_modules.view_seq()[i2]).1.link_system_libraries.spec_contains(
                            k,
                        ),
                forall|k: Seq<char>|
                    #[trigger] link_libraries.spec_contains(k) <==> exists|i2: int|
                        0 <= i2 < i && ((
                        #[trigger] self.extension_modules.view_seq()[i2]).1.link_static_libraries.spec_contains(
                            k,
                        )
                            || self.extension_modules.view_seq()[i2].1.link_dynamic_libraries.spec_contains(
                            k,
                        )),
                forall|k: Seq<char>|
                    #[trigger] link_libraries_external.spec_contains(k) <==> exists|i2: int|
                        0 <= i2 < i
                            && (#[trigger] self.extension_modules.view_seq()[i2]).1.link_external_libraries.spec_contains(
                            k,
                        ),
            decreases n - i,
        {
            let ghost pre_objs = object_files@;
            let st = self.extension_modules.val_at(i);
            proof {
                assert(self.extension_modules.view_seq()[i as int].1.wf());
                assert(self.extension_modules.view_seq().take(i + 1).drop_last()
                    =~= self.extension_modules.view_seq().take(i as int));
            }
            let m: usize = st.link_object_files.len();
            let mut j: usize = 0;
            while j < m
                invariant
                    0 <= j <= m,
                    m == st.link_object_files@.len(),
                    object_files@.len() == pre_objs.len() + j,
                    forall|j2: int| 0 <= j2 < pre_objs.len() ==> object_files@[j2] == pre_objs[j2],
                    forall|j2: int|
                        0 <= j2 < j ==> crate::resource::loc_eq(
                            #[trigger] object_files@[pre_objs.len() + j2],
                            st.link_object_files@[j2],
                        ),
                decreases m - j,
            {
                object_files.push(st.link_object_files[j].duplicate());
                j = j + 1;
            }
            insert_all(&mut link_frameworks, &st.link_frameworks);
            insert_all(&mut link_system_libraries, &st.link_system_libraries);
            insert_all(&mut link_libraries, &st.link_static_libraries);
            insert_all(&mut link_libraries, &st.link_dynamic_libraries);
            insert_all(&mut link_libraries_external, &st.link_external_libraries);
            proof {
                let full = objects_of(self.extension_modules.view_seq().take(i + 1));
                assert(full =~= objects_of(self.extension_modules.view_seq().take(i as int))
                    + st.link_object_files@);
                assert forall|j2: int| 0 <= j2 < object_files@.len() implies crate::resource::loc_eq(
                    #[trigger] object_files@[j2],
                    full[j2],
                ) by {
                    if j2 < pre_objs.len() {
                        assert(object_files@[j2] == pre_objs[j2]);
                    } else {
                        assert(crate::resource::loc_eq(
                            object_files@[pre_objs.len() + (j2 - pre_objs.len())],
                            st.link_object_files@[j2 - pre_objs.len()],
                        ));
                    }
                }
            }
            i = i + 1;
        }
        proof {
            assert(self.extension_modules.view_seq().take(n as int)
                =~= self.extension_modules.view_seq());
        }
        LibpythonLinkingInfo {
            object_files,
            link_libraries,
            link_frameworks,
            link_system_libraries,
            link_libraries_external,
        }
    }
}

} // verus!
