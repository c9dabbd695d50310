//! The manifest of files to install next to the produced binary.

use vstd::prelude::*;

use crate::error::PackagingError;
use crate::resource::clone_bytes;
use crate::smap::SortedMap;

verus! {

/// The payload of one install file.
#[derive(Clone, Debug, PartialEq, Default)]
pub struct FileContent {
    /// The file's bytes.
    pub data: Vec<u8>,
    /// Whether the installed file is marked executable.
    pub executable: bool,
}

/// Whether two file contents agree byte for byte.
pub open spec fn content_eq(a: FileContent, b: FileContent) -> bool {
    a.data@ == b.data@ && a.executable == b.executable
}

/// Whether every path registered in both manifests carries the same
/// content in each.
pub open spec fn manifests_compatible(a: FileManifest, b: FileManifest) -> bool {
    forall|p: Seq<char>|
        match (#[trigger] a.spec_get(p), #[trigger] b.spec_get(p)) {
            (Some(c1), Some(c2)) => content_eq(c1, c2),
            _ => true,
        }
}

/// An ordered mapping from install path to file content.
///
/// Paths are enumerated in lexicographic order.  Registering the same path
/// twice is an error unless the contents agree.
#[derive(Clone, Debug, PartialEq, Default)]
pub struct FileManifest {
    /// The files, keyed by install path.
    pub files: SortedMap<FileContent>,
}

impl FileManifest {
    /// The (path, content) pairs in increasing path order.
    pub open spec fn view_seq(&self) -> Seq<(String, FileContent)> {
        self.files.view_seq()
    }

    /// The content registered for `path`.
    pub open spec fn spec_get(&self, path: Seq<char>) -> Option<FileContent> {
        self.files.spec_get(path)
    }

    /// Whether a file is registered at `path`.
    pub open spec fn contains_path(&self, path: Seq<char>) -> bool {
        self.files.contains_key(path)
    }

    /// Paths are strictly increasing.
    pub open spec fn wf(&self) -> bool {
        self.files.wf()
    }

    /// An empty manifest.
    pub fn new() -> (r: Self)
        ensures
            r.view_seq() =~= Seq::<(String, FileContent)>::empty(),
            r.wf(),
            forall|p: Seq<char>| !r.contains_path(p),
    {
        let r = FileManifest { files: SortedMap::new() };
        proof {
            assert forall|p: Seq<char>| !r.contains_path(p) by {
                crate::smap::lemma_get_from_exists(r.files.view_seq(), p);
            }
        }
        r
    }

    /// The number of files.
    pub fn len(&self) -> (r: usize)
        ensures
            r == self.view_seq().len(),
    {
        self.files.len()
    }

    /// The install path at position `i`.
    pub fn path_at(&self, i: usize) -> (r: &String)
        requires
            i < self.view_seq().len(),
        ensures
            *r == self.view_seq()[i as int].0,
    {
        self.files.key_at(i)
    }

    /// The file content at position `i`.
    pub fn content_at(&self, i: usize) -> (r: &FileContent)
        requires
            i < self.view_seq().len(),
        ensures
            *r == self.view_seq()[i as int].1,
    {
        self.files.val_at(i)
    }

    /// Register a file, failing when `path` already holds different content.
    pub fn add_file(&mut self, path: String, data: Vec<u8>, executable: bool) -> (r: Result<
        (),
        PackagingError,
    >)
        requires
            old(self).wf(),
        ensures
            final(self).wf(),
            r is Ok <==> match old(self).spec_get(path@) {
                Some(c) => c.data@ == data@ && c.executable == executable,
                None => true,
            },
            r is Err ==> *final(self) == *old(self) && r == Result::<(), PackagingError>::Err(
                PackagingError::FileConflict(path),
            ),
            r is Ok ==> {
                &&& match final(self).spec_get(path@) {
                    Some(c) => c.data@ == data@ && c.executable == executable,
                    None => false,
                }
                &&& forall|p2: Seq<char>|
                    p2 != path@ ==> final(self).spec_get(p2) == old(self).spec_get(p2)
                &&& forall|p2: Seq<char>|
                    #[trigger] final(self).contains_path(p2) <==> old(self).contains_path(p2)
                        || p2 == path@
                &&& manifest_extends(*final(self), *old(self))
            },
    {
        match self.files.get(path.as_str()) {
            Some(existing) => {
                if existing.executable == executable && bytes_equal(&existing.data, &data) {
                    Ok(())
                } else {
                    Err(PackagingError::FileConflict(path))
                }
            },
            None => {
                self.files.put(path, FileContent { data, executable });
                Ok(())
            },
        }
    }

    /// Merge every file of `other` into this manifest.  Fails exactly when
    /// some path carries different content in the two manifests, on the
    /// first such path.
    pub fn add_manifest(&mut self, other: &FileManifest) -> (r: Result<(), PackagingError>)
        requires
            old(self).wf(),
            other.wf(),
        ensures
            final(self).wf(),
            r is Ok <==> manifests_compatible(*old(self), *other),
            r is Err ==> r.unwrap_err() is FileConflict,
            r is Ok ==> forall|p: Seq<char>|
                #[trigger] final(self).contains_path(p) <==> old(self).contains_path(p)
                    || other.contains_path(p),
            r is Ok ==> forall|i: int|
                0 <= i < other.view_seq().len() ==> match final(self).spec_get(
                    (#[trigger] other.view_seq()[i]).0@,
                ) {
                    Some(c) => content_eq(c, other.view_seq()[i].1),
                    None => false,
                },
            r is Ok ==> forall|p: Seq<char>|
                !other.contains_path(p) ==> final(self).spec_get(p) == old(self).spec_get(p),
    {
        let n: usize = other.len();
        let mut i: usize = 0;
        while i < n
            invariant
                0 <= i <= n,
                n == other.view_seq().len(),
                self.wf(),
                other.wf(),
                forall|p: Seq<char>|
                    #[trigger] self.contains_path(p) <==> old(self).contains_path(p) || exists|
                        j: int,
                    | 0 <= j < i && other.view_seq()[j].0@ == p,
                forall|j: int|
                    0 <= j < i ==> match self.spec_get((#[trigger] other.view_seq()[j]).0@) {
                        Some(c) => content_eq(c, other.view_seq()[j].1),
                        None => false,
                    },
                forall|p: Seq<char>|
                    (forall|j: int| 0 <= j < i ==> other.view_seq()[j].0@ != p) ==> self.spec_get(
                        p,
                    ) == old(self).spec_get(p),
                forall|j: int|
                    0 <= j < i ==> match old(self).spec_get(
                        (#[trigger] other.view_seq()[j]).0@,
                    ) {
                        Some(c1) => content_eq(c1, other.view_seq()[j].1),
                        None => true,
                    },
            decreases n - i,
        {
            proof {
                crate::smap::lemma_sorted_distinct(other.view_seq(), i as int);
            }
            let ghost pv = other.view_seq()[i as int].0@;
            proof {
                assert(self.spec_get(pv) == old(self).spec_get(pv));
            }
            let path = other.path_at(i).clone();
            let content = other.content_at(i);
            let data = clone_bytes(&content.data);
            let executable = content.executable;
            match self.add_file(path, data, executable) {
                Ok(()) => {},
                Err(e) => {
                    proof {
                        assert(old(self).spec_get(pv) is Some);
                        assert(match (old(self).spec_get(pv), other.spec_get(pv)) {
                            (Some(c1), Some(c2)) => !content_eq(c1, c2),
                            _ => false,
                        }) by {
                            crate::smap::lemma_get_member(other.view_seq(), i as int);
                        }
                    }
                    return Err(e);
                },
            }
            i = i + 1;
        }
        proof {
            assert forall|p: Seq<char>| #[trigger] other.contains_path(p) implies exists|j: int|
                0 <= j < n && other.view_seq()[j].0@ == p by {
                crate::smap::lemma_get_from_exists(other.view_seq(), p);
            }
            assert forall|p: Seq<char>| (exists|j: int|
                0 <= j < n && other.view_seq()[j].0@ == p) implies #[trigger] other.contains_path(
                p,
            ) by {
                crate::smap::lemma_get_from_exists(other.view_seq(), p);
            }
            assert forall|p: Seq<char>|
                match (#[trigger] old(self).spec_get(p), #[trigger] other.spec_get(p)) {
                    (Some(c1), Some(c2)) => content_eq(c1, c2),
                    _ => true,
                } by {
                if old(self).spec_get(p) is Some && other.spec_get(p) is Some {
                    crate::smap::lemma_get_from_exists(other.view_seq(), p);
                    let j = choose|j: int|
                        0 <= j < other.view_seq().len() && other.view_seq()[j].0@ == p;
                    crate::smap::lemma_get_member(other.view_seq(), j);
                }
            }
        }
        Ok(())
    }
}

/// `a` extends `b`: every file of `b` is present in `a` with identical
/// content.
pub open spec fn manifest_extends(a: FileManifest, b: FileManifest) -> bool {
    forall|p: Seq<char>|
        (#[trigger] b.spec_get(p)) matches Some(c) ==> (a.spec_get(p) matches Some(c2)
            && content_eq(c2, c))
}

/// Whether two byte vectors hold the same bytes.
pub fn bytes_equal(a: &Vec<u8>, b: &Vec<u8>) -> (r: bool)
    ensures
        r == (a@ == b@),
{
    if a.len() != b.len() {
        proof {
            assert(a@.len() != b@.len());
        }
        return false;
    }
    let n: usize = a.len();
    let mut i: usize = 0;
    while i < n
        invariant
            0 <= i <= n,
            n == a@.len(),
            n == b@.len(),
            forall|j: int| 0 <= j < i ==> a@[j] == b@[j],
        decreases n - i,
    {
        if a[i] != b[i] {
            return false;
        }
        i = i + 1;
    }
    proof {
        assert(a@ =~= b@);
    }
    true
}

} // verus!
