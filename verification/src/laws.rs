//! Laws of the packaging pipeline that relate several operations.

use vstd::prelude::*;

use crate::order::{lemma_lex_asym, lemma_lex_irrefl, lex_lt};
use crate::smap::{get_from, lemma_get_from_exists, lemma_get_member, sorted_keys};
use crate::sset::StringSet;

verus! {

/// In a sorted table, no key recurs after position zero.
proof fn lemma_first_key_absent_in_tail<X>(a: Seq<(String, X)>)
    requires
        sorted_keys(a),
        a.len() > 0,
    ensures
        get_from(a.skip(1), a[0].0@) is None,
{
    lemma_get_from_exists(a.skip(1), a[0].0@);
    if get_from(a.skip(1), a[0].0@) is Some {
        let i = choose|i: int| 0 <= i < a.skip(1).len() && a.skip(1)[i].0@ == a[0].0@;
        assert(a.skip(1)[i] == a[i + 1]);
        assert(lex_lt(a[0].0@, a[i + 1].0@));
        lemma_lex_irrefl(a[0].0@);
    }
}

/// Law: a well-formed resource table's enumeration order is determined by
/// its name set alone.  Two sorted tables holding the same names enumerate
/// them identically, no matter in which order the names were inserted or
/// what the entries hold.
pub proof fn law_order_canonical<X, Y>(a: Seq<(String, X)>, b: Seq<(String, Y)>)
    requires
        sorted_keys(a),
        sorted_keys(b),
        forall|k: Seq<char>| get_from(a, k) is Some <==> get_from(b, k) is Some,
    ensures
        a.len() == b.len(),
        forall|i: int| 0 <= i < a.len() ==> (#[trigger] a[i]).0@ == b[i].0@,
    decreases a.len(),
{
    if a.len() == 0 {
        if b.len() > 0 {
            lemma_get_member(b, 0);
            assert(get_from(a, b[0].0@) is Some);
        }
    } else if b.len() == 0 {
        lemma_get_member(a, 0);
        assert(get_from(b, a[0].0@) is Some);
    } else {
        lemma_get_member(a, 0);
        lemma_get_member(b, 0);
        if a[0].0@ != b[0].0@ {
            assert(get_from(b, a[0].0@) is Some);
            lemma_get_from_exists(b, a[0].0@);
            let ib = choose|i: int| 0 <= i < b.len() && b[i].0@ == a[0].0@;
            assert(ib != 0);
            assert(lex_lt(b[0].0@, b[ib].0@));
            assert(get_from(a, b[0].0@) is Some);
            lemma_get_from_exists(a, b[0].0@);
            let ia = choose|i: int| 0 <= i < a.len() && a[i].0@ == b[0].0@;
            assert(ia != 0);
            assert(lex_lt(a[0].0@, a[ia].0@));
            lemma_lex_asym(a[0].0@, b[0].0@);
        }
        let ta = a.skip(1);
        let tb = b.skip(1);
        assert forall|i: int, j: int| 0 <= i < j < ta.len() implies lex_lt(
            ta[i].0@,
            ta[j].0@,
        ) by {
            assert(ta[i] == a[i + 1]);
            assert(ta[j] == a[j + 1]);
        }
        assert forall|i: int, j: int| 0 <= i < j < tb.len() implies lex_lt(
            tb[i].0@,
            tb[j].0@,
        ) by {
            assert(tb[i] == b[i + 1]);
            assert(tb[j] == b[j + 1]);
        }
        assert forall|k: Seq<char>| get_from(ta, k) is Some <==> get_from(tb, k) is Some by {
            if k == a[0].0@ {
                lemma_first_key_absent_in_tail(a);
                lemma_first_key_absent_in_tail(b);
            } else {
                assert(get_from(ta, k) == get_from(a, k));
                assert(get_from(tb, k) == get_from(b, k));
            }
        }
        law_order_canonical(ta, tb);
        assert forall|i: int| 0 <= i < a.len() implies (#[trigger] a[i]).0@ == b[i].0@ by {
            if i > 0 {
                assert(ta[i - 1] == a[i]);
                assert(tb[i - 1] == b[i]);
                assert(ta[i - 1].0@ == tb[i - 1].0@);
            }
        }
    }
}

/// Law: a dependency name contributed by any number of extension modules
/// occupies exactly one position in a merged link set: it is present, and
/// at no two distinct positions.
pub proof fn law_linking_dedup(s: StringSet, k: Seq<char>)
    requires
        s.wf(),
        s.spec_contains(k),
    ensures
        exists|i: int| 0 <= i < s.view_names().len() && s.view_names()[i] == k,
        forall|i: int, j: int|
            0 <= i < s.view_names().len() && 0 <= j < s.view_names().len()
                && #[trigger] s.view_names()[i] == k && #[trigger] s.view_names()[j] == k ==> i
                == j,
{
    s.lemma_contains_position(k);
    assert forall|i: int, j: int|
        0 <= i < s.view_names().len() && 0 <= j < s.view_names().len()
            && #[trigger] s.view_names()[i] == k && #[trigger] s.view_names()[j] == k implies i
        == j by {
        if i < j {
            s.lemma_member_unique(i, j);
        }
        if j < i {
            s.lemma_member_unique(j, i);
        }
    }
}

} // verus!
