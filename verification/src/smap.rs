//! An association map keyed by name, kept in strictly increasing
//! lexicographic key order.
//!
//! Every table of the pipeline (resource entries, extension-module build
//! states, install files) is one of these, so enumeration order is always
//! name-lexicographic no matter the insertion order.

use vstd::prelude::*;

use crate::order::{cmp_str, lemma_lex_irrefl, lemma_lex_total, lemma_lex_trans, lex_lt};

verus! {

/// A map from names to values, sorted strictly by name.
#[derive(Clone, Debug, PartialEq)]
pub struct SortedMap<X> {
    /// The (name, value) pairs, in strictly increasing name order.
    pub entries: Vec<(String, X)>,
}

/// The key views of a pair sequence, in order.
pub open spec fn keys_of<X>(s: Seq<(String, X)>) -> Seq<Seq<char>> {
    s.map_values(|p: (String, X)| p.0@)
}

/// The keys of a pair sequence are strictly increasing.
pub open spec fn sorted_keys<X>(s: Seq<(String, X)>) -> bool {
    forall|i: int, j: int| 0 <= i < j < s.len() ==> lex_lt(s[i].0@, s[j].0@)
}

/// In a sorted sequence, keys before position `i` differ from the key at `i`.
pub proof fn lemma_sorted_distinct<X>(s: Seq<(String, X)>, i: int)
    requires
        sorted_keys(s),
        0 <= i < s.len(),
    ensures
        forall|j: int| 0 <= j < i ==> s[j].0@ != s[i].0@,
{
    assert forall|j: int| 0 <= j < i implies s[j].0@ != s[i].0@ by {
        lemma_lex_irrefl(s[i].0@);
        assert(lex_lt(s[j].0@, s[i].0@));
    }
}

/// The value stored under key `k` in `s`, scanning front to back.
pub open spec fn get_from<X>(s: Seq<(String, X)>, k: Seq<char>) -> Option<X>
    decreases s.len(),
{
    if s.len() == 0 {
        None
    } else if s[0].0@ == k {
        Some(s[0].1)
    } else {
        get_from(s.skip(1), k)
    }
}

/// `get_from` finds a value exactly when some pair carries the key.
pub proof fn lemma_get_from_exists<X>(s: Seq<(String, X)>, k: Seq<char>)
    ensures
        (get_from(s, k) is Some) <==> exists|i: int| 0 <= i < s.len() && s[i].0@ == k,
    decreases s.len(),
{
    if s.len() > 0 {
        lemma_get_from_exists(s.skip(1), k);
        if s[0].0@ != k {
            if get_from(s, k) is Some {
                let i = choose|i: int| 0 <= i < s.skip(1).len() && s.skip(1)[i].0@ == k;
                assert(s[i + 1].0@ == k);
            }
            if exists|i: int| 0 <= i < s.len() && s[i].0@ == k {
                let i = choose|i: int| 0 <= i < s.len() && s[i].0@ == k;
                assert(s.skip(1)[i - 1].0@ == k);
            }
        }
    }
}

impl<X> core::default::Default for SortedMap<X> {
    /// The empty map.
    fn default() -> (r: Self)
        ensures
            r.view_seq().len() == 0,
            r.wf(),
    {
        SortedMap { entries: Vec::new() }
    }
}

impl<X> SortedMap<X> {
    /// The sequence of (key view, value) pairs, in storage order.
    pub open spec fn view_seq(&self) -> Seq<(String, X)> {
        self.entries@
    }

    /// The key views in storage order.
    pub open spec fn key_seq(&self) -> Seq<Seq<char>> {
        keys_of(self.entries@)
    }

    /// Keys are strictly increasing.
    pub open spec fn wf(&self) -> bool {
        sorted_keys(self.entries@)
    }

    /// The value stored under `k`.
    pub open spec fn spec_get(&self, k: Seq<char>) -> Option<X> {
        get_from(self.entries@, k)
    }

    /// Whether some value is stored under `k`.
    pub open spec fn contains_key(&self, k: Seq<char>) -> bool {
        self.spec_get(k) is Some
    }

    /// In a well-formed map the pair at index `i` is what lookup of its key
    /// finds.
    pub proof fn lemma_get_at_index(&self, i: int)
        requires
            self.wf(),
            0 <= i < self.view_seq().len(),
        ensures
            self.spec_get(self.key_seq()[i]) == Some(self.view_seq()[i].1),
    {
        lemma_sorted_distinct(self.entries@, i);
        lemma_get_from_prefix(self.entries@, i);
    }

    /// An empty map.
    pub fn new() -> (r: Self)
        ensures
            r.view_seq() =~= Seq::<(String, X)>::empty(),
            r.wf(),
    {
        SortedMap { entries: Vec::new() }
    }

    /// The number of entries.
    pub fn len(&self) -> (r: usize)
        ensures
            r == self.view_seq().len(),
    {
        self.entries.len()
    }

    /// The key stored at position `i`.
    pub fn key_at(&self, i: usize) -> (r: &String)
        requires
            i < self.view_seq().len(),
        ensures
            *r == self.view_seq()[i as int].0,
    {
        &self.entries[i].0
    }

    /// The value stored at position `i`.
    pub fn val_at(&self, i: usize) -> (r: &X)
        requires
            i < self.view_seq().len(),
        ensures
            *r == self.view_seq()[i as int].1,
    {
        &self.entries[i].1
    }

    /// The position holding key `k`, if any.
    pub fn index_of(&self, k: &str) -> (r: Option<usize>)
        ensures
            match r {
                Some(i) => i < self.view_seq().len() && self.view_seq()[i as int].0@ == k@
                    && self.spec_get(k@) == Some(self.view_seq()[i as int].1),
                None => !self.contains_key(k@),
            },
    {
        let n: usize = self.entries.len();
        let mut i: usize = 0;
        while i < n
            invariant
                0 <= i <= n,
                n == self.view_seq().len(),
                forall|j: int| 0 <= j < i ==> self.view_seq()[j].0@ != k@,
            decreases n - i,
        {
            if cmp_str(self.entries[i].0.as_str(), k) == 0 {
                proof {
                    lemma_get_from_prefix(self.entries@, i as int);
                }
                return Some(i);
            }
            i = i + 1;
        }
        proof {
            lemma_get_from_exists(self.entries@, k@);
        }
        None
    }

    /// Borrow the value stored under `k`, if any.
    pub fn get(&self, k: &str) -> (r: Option<&X>)
        ensures
            match r {
                Some(v) => self.spec_get(k@) == Some(*v),
                None => !self.contains_key(k@),
            },
    {
        match self.index_of(k) {
            Some(i) => Some(&self.entries[i].1),
            None => None,
        }
    }

    /// Remove and return the value stored under `k`, if any.
    pub fn take(&mut self, k: &str) -> (r: Option<X>)
        requires
            old(self).wf(),
        ensures
            final(self).wf(),
            match r {
                Some(v) => old(self).spec_get(k@) == Some(v) && !final(self).contains_key(k@),
                None => !old(self).contains_key(k@) && *final(self) == *old(self),
            },
            forall|k2: Seq<char>|
                k2 != k@ ==> final(self).spec_get(k2) == old(self).spec_get(k2),
            forall|k2: Seq<char>|
                #[trigger] final(self).contains_key(k2) ==> old(self).contains_key(k2),
            final(self).view_seq().len() >= old(self).view_seq().len() - 1,
            forall|j: int|
                0 <= j < final(self).view_seq().len() ==> old(self).view_seq().contains(
                    #[trigger] final(self).view_seq()[j],
                ),
    {
        match self.index_of(k) {
            Some(i) => {
                let ghost pre = self.entries@;
                let (_, v) = self.entries.remove(i);
                proof {
                    lemma_remove_preserves(pre, i as int, k@);
                    assert forall|j: int| 0 <= j < self.entries@.len() implies pre.contains(
                        #[trigger] self.entries@[j],
                    ) by {
                        if j < i {
                            assert(self.entries@[j] == pre[j]);
                        } else {
                            assert(self.entries@[j] == pre[j + 1]);
                        }
                    }
                }
                Some(v)
            },
            None => {
                proof {
                    assert forall|j: int| 0 <= j < self.entries@.len() implies self.entries@.contains(
                        #[trigger] self.entries@[j],
                    ) by {}
                }
                None
            },
        }
    }

    /// Insert `v` under a key not yet present, keeping the sort order.
    pub fn put(&mut self, key: String, v: X)
        requires
            old(self).wf(),
            !old(self).contains_key(key@),
        ensures
            final(self).wf(),
            final(self).spec_get(key@) == Some(v),
            forall|k2: Seq<char>|
                k2 != key@ ==> final(self).spec_get(k2) == old(self).spec_get(k2),
            forall|k2: Seq<char>|
                #[trigger] final(self).contains_key(k2) <==> old(self).contains_key(k2) || k2
                    == key@,
            final(self).view_seq().len() == old(self).view_seq().len() + 1,
            exists|i: int|
                0 <= i <= old(self).view_seq().len() && final(self).view_seq() == old(
                    self,
                ).view_seq().insert(i, (key, v)),
            forall|j: int|
                0 <= j < final(self).view_seq().len() ==> ((#[trigger] final(self).view_seq()[j]).1
                    == v && final(self).view_seq()[j].0@ == key@) || old(self).view_seq().contains(
                    final(self).view_seq()[j],
                ),
    {
        let i = self.lower_bound(key.as_str());
        proof {
            if i < self.entries@.len() && self.entries@[i as int].0@ == key@ {
                lemma_sorted_distinct(self.entries@, i as int);
                lemma_get_from_prefix(self.entries@, i as int);
            }
        }
        let ghost pre = self.entries@;
        let ghost e = (key, v);
        self.entries.insert(i, (key, v));
        proof {
            assert(self.entries@ =~= pre.insert(i as int, e));
            lemma_insert_preserves(pre, i as int, e);
            assert forall|j: int| 0 <= j < self.entries@.len() implies ((
            #[trigger] self.entries@[j]).1 == e.1 && self.entries@[j].0@ == e.0@)
                || pre.contains(self.entries@[j]) by {
                if j < i {
                    assert(self.entries@[j] == pre[j]);
                    assert(pre.contains(pre[j]));
                } else if j > i {
                    assert(self.entries@[j] == pre[j - 1]);
                    assert(pre.contains(pre[j - 1]));
                }
            }
        }
    }

    /// Keep only the entries whose keys occur in `keep`, preserving order
    /// and values.
    pub fn retain_names(&mut self, keep: &Vec<String>)
        requires
            old(self).wf(),
        ensures
            final(self).wf(),
            forall|k: Seq<char>|
                final(self).spec_get(k) == (if crate::paths::in_views(k, keep@) {
                    old(self).spec_get(k)
                } else {
                    None::<X>
                }),
            forall|j: int|
                0 <= j < final(self).view_seq().len() ==> old(self).view_seq().contains(
                    #[trigger] final(self).view_seq()[j],
                ),
    {
        let n0: usize = self.entries.len();
        let ghost src = self.entries@;
        let mut acc: Vec<(String, X)> = Vec::new();
        let mut i: usize = 0;
        proof {
            assert(src.take(0) =~= Seq::<(String, X)>::empty());
            assert(src.skip(0) =~= src);
        }
        while self.entries.len() > 0
            invariant
                src.len() == n0,
                0 <= i <= src.len(),
                self.entries@ == src.skip(i as int),
                sorted_keys(src),
                sorted_keys(acc@),
                forall|j: int|
                    0 <= j < acc@.len() ==> exists|idx: int|
                        0 <= idx < i && #[trigger] acc@[j] == src[idx],
                forall|k: Seq<char>|
                    get_from(acc@, k) == (if crate::paths::in_views(k, keep@) {
                        get_from(src.take(i as int), k)
                    } else {
                        None::<X>
                    }),
            decreases self.entries@.len(),
        {
            proof {
                assert(src.skip(i as int)[0] == src[i as int]);
                assert(src.skip(i as int).skip(1) =~= src.skip(i + 1));
                assert(src.take(i + 1) =~= src.take(i as int).push(src[i as int]));
            }
            let pair = self.entries.remove(0);
            let kept = name_in(keep, pair.0.as_str());
            let ghost pre = acc@;
            let ghost cur = src[i as int];
            if kept {
                acc.push(pair);
                proof {
                    assert(acc@ == pre.push(cur));
                    assert forall|a: int, b: int| 0 <= a < b < acc@.len() implies lex_lt(
                        acc@[a].0@,
                        acc@[b].0@,
                    ) by {
                        if b == acc@.len() - 1 {
                            let idx = choose|idx: int| 0 <= idx < i && pre[a] == src[idx];
                            assert(acc@[a] == src[idx]);
                            assert(lex_lt(src[idx].0@, src[i as int].0@));
                        }
                    }
                    assert forall|j: int| 0 <= j < acc@.len() implies exists|idx: int|
                        0 <= idx < i + 1 && #[trigger] acc@[j] == src[idx] by {
                        if j < pre.len() {
                            let idx = choose|idx: int| 0 <= idx < i && pre[j] == src[idx];
                            assert(acc@[j] == src[idx]);
                        } else {
                            assert(acc@[j] == src[i as int]);
                        }
                    }
                }
            }
            proof {
                assert forall|k: Seq<char>|
                    get_from(acc@, k) == (if crate::paths::in_views(k, keep@) {
                        get_from(src.take(i + 1), k)
                    } else {
                        None::<X>
                    }) by {
                    lemma_get_push(pre, cur, k);
                    lemma_get_push(src.take(i as int), cur, k);
                    if kept {
                    } else {
                        if cur.0@ == k {
                            assert(!crate::paths::in_views(k, keep@));
                        }
                    }
                }
            }
            i = i + 1;
        }
        proof {
            assert(src.take(i as int) =~= src);
        }
        self.entries = acc;
    }

    /// The first position whose key does not precede `key`.
    fn lower_bound(&self, key: &str) -> (i: usize)
        requires
            self.wf(),
        ensures
            i <= self.view_seq().len(),
            forall|j: int| 0 <= j < i ==> lex_lt(self.view_seq()[j].0@, key@),
            i < self.view_seq().len() ==> (self.view_seq()[i as int].0@ == key@ || lex_lt(
                key@,
                self.view_seq()[i as int].0@,
            )),
    {
        let n: usize = self.entries.len();
        let mut i: usize = 0;
        while i < n
            invariant
                0 <= i <= n,
                n == self.view_seq().len(),
                forall|j: int| 0 <= j < i ==> lex_lt(self.view_seq()[j].0@, key@),
            decreases n - i,
        {
            if cmp_str(self.entries[i].0.as_str(), key) >= 0 {
                proof {
                    lemma_lex_total_entry(self.entries@[i as int].0@, key@);
                }
                return i;
            }
            i = i + 1;
        }
        n
    }
}

/// In a sequence whose keys up to `i` differ from `s[i]`'s key, lookup of
/// that key lands on index `i`.
pub proof fn lemma_get_from_prefix<X>(s: Seq<(String, X)>, i: int)
    requires
        0 <= i < s.len(),
        forall|j: int| 0 <= j < i ==> s[j].0@ != s[i].0@,
    ensures
        get_from(s, s[i].0@) == Some(s[i].1),
    decreases i,
{
    if i > 0 {
        assert forall|j: int| 0 <= j < i - 1 implies #[trigger] s.skip(1)[j].0@ != s.skip(1)[i
            - 1].0@ by {
            assert(s.skip(1)[j] == s[j + 1]);
            assert(s.skip(1)[i - 1] == s[i]);
        }
        lemma_get_from_prefix(s.skip(1), i - 1);
    }
}

/// In a sorted sequence, lookup of the key at position `i` finds the value
/// at position `i`.
pub proof fn lemma_get_member<X>(s: Seq<(String, X)>, i: int)
    requires
        sorted_keys(s),
        0 <= i < s.len(),
    ensures
        get_from(s, s[i].0@) == Some(s[i].1),
{
    lemma_sorted_distinct(s, i);
    lemma_get_from_prefix(s, i);
}

/// Whether `k` occurs among the views of `keep`.
pub fn name_in(keep: &Vec<String>, k: &str) -> (r: bool)
    ensures
        r == crate::paths::in_views(k@, keep@),
{
    let n: usize = keep.len();
    let mut i: usize = 0;
    while i < n
        invariant
            0 <= i <= n,
            n == keep@.len(),
            forall|j: int| 0 <= j < i ==> (#[trigger] keep@[j])@ != k@,
        decreases n - i,
    {
        if cmp_str(keep[i].as_str(), k) == 0 {
            proof {
                assert((keep@[i as int])@ == k@);
            }
            return true;
        }
        i = i + 1;
    }
    proof {
        if crate::paths::in_views(k@, keep@) {
            let j = choose|j: int| 0 <= j < keep@.len() && (#[trigger] keep@[j])@ == k@;
        }
    }
    false
}

/// Looking a key up in a sequence extended at the back finds the old
/// binding first.
pub proof fn lemma_get_push<X>(s: Seq<(String, X)>, p: (String, X), k: Seq<char>)
    ensures
        get_from(s.push(p), k) == (if get_from(s, k) is Some {
            get_from(s, k)
        } else if p.0@ == k {
            Some(p.1)
        } else {
            None::<X>
        }),
    decreases s.len(),
{
    if s.len() == 0 {
        assert(s.push(p).len() == 1);
        assert(s.push(p)[0] == p);
        assert(s.push(p).skip(1) =~= Seq::<(String, X)>::empty());
        assert(get_from(s, k) == None::<X>);
        if p.0@ == k {
            assert(get_from(s.push(p), k) == Some(p.1));
        } else {
            assert(get_from(s.push(p), k) == get_from(s.push(p).skip(1), k));
        }
    } else {
        assert(s.push(p)[0] == s[0]);
        assert(s.push(p).skip(1) =~= s.skip(1).push(p));
        lemma_get_push(s.skip(1), p, k);
        if s[0].0@ == k {
            assert(get_from(s.push(p), k) == Some(s[0].1));
            assert(get_from(s, k) == Some(s[0].1));
        } else {
            assert(get_from(s.push(p), k) == get_from(s.skip(1).push(p), k));
            assert(get_from(s, k) == get_from(s.skip(1), k));
        }
    }
}

/// Key order is decided or the keys are equal.
proof fn lemma_lex_total_entry(a: Seq<char>, b: Seq<char>)
    ensures
        lex_lt(a, b) || lex_lt(b, a) || a == b,
{
    if !lex_lt(a, b) && !lex_lt(b, a) {
        lemma_lex_total(a, b);
    }
}

/// Removing a position does not change lookups of other keys.
proof fn lemma_get_remove_other<X>(pre: Seq<(String, X)>, i: int, k2: Seq<char>)
    requires
        0 <= i < pre.len(),
        pre[i].0@ != k2,
    ensures
        get_from(pre.remove(i), k2) == get_from(pre, k2),
    decreases pre.len(),
{
    let post = pre.remove(i);
    if i == 0 {
        assert(post =~= pre.skip(1));
    } else {
        assert(post[0] == pre[0]);
        assert(post.skip(1) =~= pre.skip(1).remove(i - 1));
        assert(pre.skip(1)[i - 1] == pre[i]);
        lemma_get_remove_other(pre.skip(1), i - 1, k2);
    }
}

/// Inserting a pair with a different key does not change lookups.
proof fn lemma_get_insert_other<X>(pre: Seq<(String, X)>, i: int, e: (String, X), k2: Seq<char>)
    requires
        0 <= i <= pre.len(),
        e.0@ != k2,
    ensures
        get_from(pre.insert(i, e), k2) == get_from(pre, k2),
{
    assert(pre =~= pre.insert(i, e).remove(i));
    assert(pre.insert(i, e)[i] == e);
    lemma_get_remove_other(pre.insert(i, e), i, k2);
}

/// Removing index `i`, whose key is `k`, keeps the sequence sorted and only
/// unbinds `k`.
proof fn lemma_remove_preserves<X>(pre: Seq<(String, X)>, i: int, k: Seq<char>)
    requires
        0 <= i < pre.len(),
        pre[i].0@ == k,
        sorted_keys(pre),
    ensures
        forall|k2: Seq<char>| k2 != k ==> get_from(pre.remove(i), k2) == get_from(pre, k2),
        get_from(pre.remove(i), k) is None,
        sorted_keys(pre.remove(i)),
{
    let post = pre.remove(i);
    assert(forall|j: int| 0 <= j < i ==> post[j] == pre[j]);
    assert(forall|j: int| i <= j < post.len() ==> post[j] == pre[j + 1]);
    assert forall|k2: Seq<char>| k2 != k implies get_from(post, k2) == get_from(pre, k2) by {
        lemma_get_remove_other(pre, i, k2);
    }
    assert forall|j: int| 0 <= j < post.len() implies post[j].0@ != k by {
        lemma_lex_irrefl(k);
        if j < i {
            assert(lex_lt(pre[j].0@, pre[i].0@));
        } else {
            assert(lex_lt(pre[i].0@, pre[j + 1].0@));
        }
    }
    lemma_get_from_exists(post, k);
}

/// Inserting at the boundary position keeps the sequence sorted and only
/// binds the new key.
proof fn lemma_insert_preserves<X>(pre: Seq<(String, X)>, i: int, e: (String, X))
    requires
        0 <= i <= pre.len(),
        sorted_keys(pre),
        forall|j: int| 0 <= j < i ==> lex_lt(pre[j].0@, e.0@),
        i == pre.len() || lex_lt(e.0@, pre[i].0@),
    ensures
        get_from(pre.insert(i, e), e.0@) == Some(e.1),
        forall|k2: Seq<char>| k2 != e.0@ ==> get_from(pre.insert(i, e), k2) == get_from(pre, k2),
        sorted_keys(pre.insert(i, e)),
{
    let post = pre.insert(i, e);
    assert(forall|j: int| 0 <= j < i ==> post[j] == pre[j]);
    assert(post[i] == e);
    assert(forall|j: int| i < j < post.len() ==> post[j] == pre[j - 1]);
    assert forall|i2: int, j2: int| 0 <= i2 < j2 < post.len() implies lex_lt(
        post[i2].0@,
        post[j2].0@,
    ) by {
        if j2 == i && i2 < i {
        } else if i2 == i && j2 > i {
            if i < pre.len() && j2 - 1 > i {
                lemma_lex_trans(e.0@, pre[i].0@, pre[j2 - 1].0@);
            }
        } else if i2 < i && j2 > i {
            assert(lex_lt(post[i2].0@, e.0@));
            if i < pre.len() {
                if j2 - 1 == i {
                    lemma_lex_trans(post[i2].0@, e.0@, pre[i].0@);
                } else {
                    lemma_lex_trans(e.0@, pre[i].0@, pre[j2 - 1].0@);
                    lemma_lex_trans(post[i2].0@, e.0@, pre[j2 - 1].0@);
                }
            }
        }
    }
    assert forall|j: int| 0 <= j < i implies post[j].0@ != e.0@ by {
        lemma_lex_irrefl(e.0@);
        assert(lex_lt(pre[j].0@, e.0@));
    }
    lemma_get_from_prefix(post, i);
    assert forall|k2: Seq<char>| k2 != e.0@ implies get_from(post, k2) == get_from(pre, k2) by {
        lemma_get_insert_other(pre, i, e, k2);
    }
}

} // verus!
