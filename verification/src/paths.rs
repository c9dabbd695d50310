//! Deterministic derivation of install paths from dotted module names.

use vstd::prelude::*;
use vstd::string::*;

verus! {

/// `s` with every `.` replaced by `/`: the directory form of a dotted name.
pub open spec fn replace_dots(s: Seq<char>) -> Seq<char> {
    s.map_values(|c: char| if c == '.' { '/' } else { c })
}

/// The index of the last `.` in `s`, or `-1` when there is none.
pub open spec fn last_dot(s: Seq<char>) -> int
    decreases s.len(),
{
    if s.len() == 0 {
        -1
    } else if s.last() == '.' {
        s.len() - 1
    } else {
        last_dot(s.drop_last())
    }
}

/// The last dot is inside the sequence.
pub proof fn lemma_last_dot_range(s: Seq<char>)
    ensures
        -1 <= last_dot(s) < s.len(),
        last_dot(s) >= 0 ==> s[last_dot(s)] == '.',
    decreases s.len(),
{
    if s.len() > 0 && s.last() != '.' {
        lemma_last_dot_range(s.drop_last());
    }
}

/// The prefix as a directory component: empty, or ending in `/`.
pub open spec fn prefix_part(prefix: Seq<char>) -> Seq<char> {
    if prefix.len() == 0 {
        prefix
    } else {
        prefix + "/"@
    }
}

/// The directory part implied by the packages of `name`, ending in `/`, or
/// empty for a top-level name.
pub open spec fn stem_dirs(name: Seq<char>) -> Seq<char> {
    if last_dot(name) == -1 {
        Seq::empty()
    } else {
        replace_dots(name.take(last_dot(name) + 1))
    }
}

/// The final component of `name`, after the last dot.
pub open spec fn basename(name: Seq<char>) -> Seq<char> {
    name.skip(last_dot(name) + 1)
}

/// The install path of a source module: its package directories, then the
/// module file, `__init__.py` for a package.
pub open spec fn module_source_path(prefix: Seq<char>, name: Seq<char>, is_package: bool) -> Seq<
    char,
> {
    if is_package {
        prefix_part(prefix) + replace_dots(name) + "/"@ + "__init__"@ + ".py"@
    } else {
        prefix_part(prefix) + stem_dirs(name) + basename(name) + ".py"@
    }
}

/// The extra file-name tag of an optimization level: empty for level zero.
pub open spec fn level_tag(level: crate::resource::BytecodeOptimizationLevel) -> Seq<char> {
    match level {
        crate::resource::BytecodeOptimizationLevel::Zero => Seq::empty(),
        crate::resource::BytecodeOptimizationLevel::One => ".opt-1"@,
        crate::resource::BytecodeOptimizationLevel::Two => ".opt-2"@,
    }
}

/// The install path of a bytecode file: the module's package directories,
/// a `__pycache__` directory, then the module file tagged with the cache tag
/// and the optimization level.
pub open spec fn bytecode_path(
    prefix: Seq<char>,
    name: Seq<char>,
    is_package: bool,
    cache_tag: Seq<char>,
    level: crate::resource::BytecodeOptimizationLevel,
) -> Seq<char> {
    (if is_package {
        prefix_part(prefix) + replace_dots(name) + "/"@
    } else {
        prefix_part(prefix) + stem_dirs(name)
    }) + "__pycache__"@ + "/"@ + (if is_package {
        "__init__"@
    } else {
        basename(name)
    }) + "."@ + cache_tag + level_tag(level) + ".pyc"@
}

/// The install path of an extension module shared library: its package
/// directories, then the final name component with the platform suffix.
pub open spec fn extension_module_path(
    prefix: Seq<char>,
    name: Seq<char>,
    suffix: Seq<char>,
) -> Seq<char> {
    prefix_part(prefix) + stem_dirs(name) + basename(name) + suffix
}

/// The install path of a package resource: the package's directories, then
/// the resource's relative name.
pub open spec fn package_resource_path(
    prefix: Seq<char>,
    leaf_package: Seq<char>,
    relative_name: Seq<char>,
) -> Seq<char> {
    prefix_part(prefix) + replace_dots(leaf_package) + "/"@ + relative_name
}

/// The install path of a distribution metadata file: the
/// `<package>-<version>.dist-info` directory, then the file name.
pub open spec fn distribution_resource_path(
    prefix: Seq<char>,
    package: Seq<char>,
    version: Seq<char>,
    name: Seq<char>,
) -> Seq<char> {
    prefix_part(prefix) + package + "-"@ + version + ".dist-info"@ + "/"@ + name
}

/// The file name at the end of a `/`-separated path.
pub open spec fn slash_basename(path: Seq<char>) -> Seq<char>
    decreases path.len(),
{
    if path.len() == 0 {
        path
    } else if path.last() == '/' {
        Seq::empty()
    } else {
        slash_basename(path.drop_last()).push(path.last())
    }
}

/// Whether `p` is an ancestor package name implied by the dotted name
/// `name`: a prefix of `name` cut at a dot.
pub open spec fn is_ancestor(p: Seq<char>, name: Seq<char>) -> bool {
    exists|i: int| 0 <= i < name.len() && name[i] == '.' && p == #[trigger] name.take(i)
}

/// Whether `p` is a prefix of `name` cut at a dot before position `i`.
pub open spec fn ancestor_upto(p: Seq<char>, name: Seq<char>, i: int) -> bool {
    exists|i2: int| 0 <= i2 < i && name[i2] == '.' && p == #[trigger] name.take(i2)
}

/// Whether `p` is the view of some element of `v`.
pub open spec fn in_views(p: Seq<char>, v: Seq<String>) -> bool {
    exists|j: int| 0 <= j < v.len() && (#[trigger] v[j])@ == p
}

/// The ancestor package names implied by `name`, shortest first.
pub fn package_ancestors(name: &str) -> (v: Vec<String>)
    ensures
        forall|p: Seq<char>|
            #![trigger is_ancestor(p, name@)]
            #![trigger in_views(p, v@)]
            is_ancestor(p, name@) <==> in_views(p, v@),
{
    let mut v: Vec<String> = Vec::new();
    let n: usize = name.unicode_len();
    let mut i: usize = 0;
    while i < n
        invariant
            0 <= i <= n,
            n == name@.len(),
            forall|p: Seq<char>|
                #![trigger ancestor_upto(p, name@, i as int)]
                #![trigger in_views(p, v@)]
                ancestor_upto(p, name@, i as int) <==> in_views(p, v@),
        decreases n - i,
    {
        if name.get_char(i) == '.' {
            let piece = name.substring_char(0, i);
            let ghost oldv = v@;
            v.push(String::from_str(piece));
            proof {
                assert(v@[oldv.len() as int]@ == name@.take(i as int));
                assert forall|p: Seq<char>|
                    ancestor_upto(p, name@, i + 1) implies in_views(p, v@) by {
                    let i2 = choose|i2: int|
                        0 <= i2 < i + 1 && name@[i2] == '.' && p == name@.take(i2);
                    if i2 < i {
                        assert(ancestor_upto(p, name@, i as int));
                        assert(in_views(p, oldv));
                        let j = choose|j: int| 0 <= j < oldv.len() && oldv[j]@ == p;
                        assert(v@[j]@ == p);
                    } else {
                        assert(v@[oldv.len() as int]@ == p);
                    }
                }
                assert forall|p: Seq<char>|
                    in_views(p, v@) implies ancestor_upto(p, name@, i + 1) by {
                    let j = choose|j: int| 0 <= j < v@.len() && v@[j]@ == p;
                    if j < oldv.len() {
                        assert(oldv[j]@ == p);
                        assert(in_views(p, oldv));
                        assert(ancestor_upto(p, name@, i as int));
                    } else {
                        assert(p == name@.take(i as int));
                    }
                }
            }
        } else {
            proof {
                assert forall|p: Seq<char>|
                    ancestor_upto(p, name@, i + 1) implies ancestor_upto(p, name@, i as int) by {
                    let i2 = choose|i2: int|
                        0 <= i2 < i + 1 && name@[i2] == '.' && p == name@.take(i2);
                    assert(i2 < i);
                }
            }
        }
        i = i + 1;
    }
    proof {
        assert forall|p: Seq<char>| is_ancestor(p, name@) implies in_views(p, v@) by {
            assert(ancestor_upto(p, name@, n as int));
        }
        assert forall|p: Seq<char>| in_views(p, v@) implies is_ancestor(p, name@) by {
            assert(ancestor_upto(p, name@, n as int));
        }
    }
    v
}

/// Append `prefix` and a separating `/` when the prefix is not empty.
pub fn push_prefix(out: &mut String, prefix: &str)
    ensures
        final(out)@ == old(out)@ + prefix_part(prefix@),
{
    if prefix.unicode_len() > 0 {
        out.append(prefix);
        out.append("/");
        proof {
            assert(final(out)@ =~= old(out)@ + prefix_part(prefix@));
        }
    } else {
        proof {
            assert(final(out)@ =~= old(out)@ + prefix_part(prefix@));
        }
    }
}

/// Append the first `upto` characters of `name`, replacing dots by slashes.
fn push_replaced(out: &mut String, name: &str, upto: usize)
    requires
        upto <= name@.len(),
    ensures
        final(out)@ == old(out)@ + replace_dots(name@.take(upto as int)),
{
    let mut i: usize = 0;
    while i < upto
        invariant
            0 <= i <= upto,
            upto <= name@.len(),
            out@ == old(out)@ + replace_dots(name@.take(i as int)),
        decreases upto - i,
    {
        let c = name.get_char(i);
        if c == '.' {
            out.append("/");
        } else {
            let piece = name.substring_char(i, i + 1);
            out.append(piece);
        }
        proof {
            reveal_strlit("/");
            assert(out@ =~= old(out)@ + replace_dots(name@.take(i + 1)));
        }
        i = i + 1;
    }
    proof {
        assert(out@ =~= old(out)@ + replace_dots(name@.take(upto as int)));
    }
}

/// The position after the last dot of `name`: `0` for a dotless name.
fn after_last_dot(name: &str) -> (r: usize)
    ensures
        r == last_dot(name@) + 1,
{
    let n: usize = name.unicode_len();
    let mut i: usize = 0;
    let mut r: usize = 0;
    while i < n
        invariant
            0 <= r <= i <= n,
            n == name@.len(),
            r == last_dot(name@.take(i as int)) + 1,
        decreases n - i,
    {
        proof {
            assert(name@.take(i + 1).drop_last() =~= name@.take(i as int));
            assert(name@.take(i + 1).last() == name@[i as int]);
        }
        if name.get_char(i) == '.' {
            r = i + 1;
        }
        i = i + 1;
    }
    proof {
        assert(name@.take(n as int) =~= name@);
    }
    r
}

/// Append the package directories of `name` (everything up to and including
/// the last dot, dots as slashes).
fn push_stem_dirs(out: &mut String, name: &str)
    ensures
        final(out)@ == old(out)@ + stem_dirs(name@),
{
    let cut = after_last_dot(name);
    proof {
        lemma_last_dot_range(name@);
    }
    if cut > 0 {
        push_replaced(out, name, cut);
    } else {
        proof {
            assert(out@ =~= old(out)@ + stem_dirs(name@));
        }
    }
}

/// Append the final name component of `name` (everything after the last
/// dot).
fn push_basename(out: &mut String, name: &str)
    ensures
        final(out)@ == old(out)@ + basename(name@),
{
    let cut = after_last_dot(name);
    proof {
        lemma_last_dot_range(name@);
    }
    let piece = name.substring_char(cut, name.unicode_len());
    out.append(piece);
    proof {
        assert(name@.subrange(cut as int, name@.len() as int) =~= basename(name@));
    }
}

/// Build the install path of a source module.
pub fn resolve_module_source_path(prefix: &str, name: &str, is_package: bool) -> (r: String)
    ensures
        r@ == module_source_path(prefix@, name@, is_package),
{
    let mut out = String::new();
    push_prefix(&mut out, prefix);
    if is_package {
        let n = name.unicode_len();
        push_replaced(&mut out, name, n);
        proof {
            assert(name@.take(n as int) =~= name@);
        }
        out.append("/");
        out.append("__init__");
    } else {
        push_stem_dirs(&mut out, name);
        push_basename(&mut out, name);
    }
    out.append(".py");
    out
}

/// Build the install path of a bytecode file.
pub fn resolve_bytecode_path(
    prefix: &str,
    name: &str,
    is_package: bool,
    cache_tag: &str,
    level: crate::resource::BytecodeOptimizationLevel,
) -> (r: String)
    ensures
        r@ == bytecode_path(prefix@, name@, is_package, cache_tag@, level),
{
    let mut out = String::new();
    push_prefix(&mut out, prefix);
    if is_package {
        let n = name.unicode_len();
        push_replaced(&mut out, name, n);
        proof {
            assert(name@.take(n as int) =~= name@);
        }
        out.append("/");
    } else {
        push_stem_dirs(&mut out, name);
    }
    out.append("__pycache__");
    out.append("/");
    if is_package {
        out.append("__init__");
    } else {
        push_basename(&mut out, name);
    }
    out.append(".");
    out.append(cache_tag);
    match level {
        crate::resource::BytecodeOptimizationLevel::Zero => {},
        crate::resource::BytecodeOptimizationLevel::One => out.append(".opt-1"),
        crate::resource::BytecodeOptimizationLevel::Two => out.append(".opt-2"),
    }
    out.append(".pyc");
    proof {
        assert(out@ =~= bytecode_path(prefix@, name@, is_package, cache_tag@, level));
    }
    out
}

/// Build the install path of an extension module shared library.
pub fn resolve_extension_module_path(prefix: &str, name: &str, suffix: &str) -> (r: String)
    ensures
        r@ == extension_module_path(prefix@, name@, suffix@),
{
    let mut out = String::new();
    push_prefix(&mut out, prefix);
    push_stem_dirs(&mut out, name);
    push_basename(&mut out, name);
    out.append(suffix);
    out
}

/// Build the install path of a package resource.
pub fn resolve_package_resource_path(prefix: &str, leaf_package: &str, relative_name: &str) -> (r:
    String)
    ensures
        r@ == package_resource_path(prefix@, leaf_package@, relative_name@),
{
    let mut out = String::new();
    push_prefix(&mut out, prefix);
    let n = leaf_package.unicode_len();
    push_replaced(&mut out, leaf_package, n);
    proof {
        assert(leaf_package@.take(n as int) =~= leaf_package@);
    }
    out.append("/");
    out.append(relative_name);
    out
}

/// Build the install path of a distribution metadata file.
pub fn resolve_distribution_resource_path(
    prefix: &str,
    package: &str,
    version: &str,
    name: &str,
) -> (r: String)
    ensures
        r@ == distribution_resource_path(prefix@, package@, version@, name@),
{
    let mut out = String::new();
    push_prefix(&mut out, prefix);
    out.append(package);
    out.append("-");
    out.append(version);
    out.append(".dist-info");
    out.append("/");
    out.append(name);
    out
}

/// The file name at the end of a `/`-separated path.
pub fn path_file_name(path: &str) -> (r: String)
    ensures
        r@ == slash_basename(path@),
{
    let n: usize = path.unicode_len();
    let mut start: usize = 0;
    let mut i: usize = 0;
    while i < n
        invariant
            0 <= start <= i <= n,
            n == path@.len(),
            slash_basename(path@.take(i as int)) =~= path@.subrange(start as int, i as int),
        decreases n - i,
    {
        proof {
            assert(path@.take(i + 1).drop_last() =~= path@.take(i as int));
            assert(path@.take(i + 1).last() == path@[i as int]);
        }
        if path.get_char(i) == '/' {
            start = i + 1;
            proof {
                assert(slash_basename(path@.take(i + 1)) =~= path@.subrange(i + 1, i + 1));
            }
        } else {
            proof {
                assert(slash_basename(path@.take(i + 1)) =~= path@.subrange(
                    start as int,
                    i + 1,
                ));
            }
        }
        i = i + 1;
    }
    proof {
        assert(path@.take(n as int) =~= path@);
    }
    let r = path.substring_char(start, n);
    proof {
        assert(r@ =~= slash_basename(path@));
    }
    String::from_str(r)
}

} // verus!
