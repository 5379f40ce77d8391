use vstd::prelude::*;
use vstd::utf8::{encode_utf8, encode_utf8_decode_utf8};
use crate::json::{
    bytes_lt, canonical_digest, canonical_text, insert_entry, key_lt, member_texts, sort_entries,
    Json,
};

verus! {

broadcast use {
    vstd::seq_lib::group_to_multiset_ensures,
    vstd::seq_lib::lemma_multiset_commutative,
    vstd::multiset::group_multiset_axioms,
};

/// No two entries share a key.
pub open spec fn distinct_keys<V>(s: Seq<(Seq<char>, V)>) -> bool {
    forall|i: int, j: int| 0 <= i < j < s.len() ==> s[i].0 != s[j].0
}

/// Entries are in non-decreasing key order.
pub open spec fn sorted_by_key(s: Seq<(Seq<char>, Seq<char>)>) -> bool {
    forall|i: int, j: int| 0 <= i < j < s.len() ==> !key_lt(s[j].0, s[i].0)
}

proof fn lemma_bytes_lt_irreflexive(a: Seq<u8>)
    ensures
        !bytes_lt(a, a),
    decreases a.len(),
{
    if a.len() > 0 {
        lemma_bytes_lt_irreflexive(a.drop_first());
    }
}

proof fn lemma_bytes_lt_transitive(a: Seq<u8>, b: Seq<u8>, c: Seq<u8>)
    requires
        bytes_lt(a, b),
        bytes_lt(b, c),
    ensures
        bytes_lt(a, c),
    decreases a.len(),
{
    if a.len() > 0 && b.len() > 0 && c.len() > 0 && a[0] == b[0] && b[0] == c[0] {
        lemma_bytes_lt_transitive(a.drop_first(), b.drop_first(), c.drop_first());
    }
}

proof fn lemma_bytes_lt_total(a: Seq<u8>, b: Seq<u8>)
    requires
        a != b,
    ensures
        bytes_lt(a, b) || bytes_lt(b, a),
    decreases a.len(),
{
    if a.len() > 0 && b.len() > 0 && a[0] == b[0] {
        if a.drop_first() == b.drop_first() {
            assert(a =~= seq![a[0]] + a.drop_first());
            assert(b =~= seq![b[0]] + b.drop_first());
        }
        lemma_bytes_lt_total(a.drop_first(), b.drop_first());
    } else if a.len() == 0 && b.len() == 0 {
        assert(a =~= b);
    }
}

/// Distinct keys are ordered one way or the other.
proof fn lemma_key_lt_total(a: Seq<char>, b: Seq<char>)
    requires
        a != b,
    ensures
        key_lt(a, b) || key_lt(b, a),
{
    encode_utf8_decode_utf8(a);
    encode_utf8_decode_utf8(b);
    lemma_bytes_lt_total(encode_utf8(a), encode_utf8(b));
}

proof fn lemma_insert_multiset(t: Seq<(Seq<char>, Seq<char>)>, e: (Seq<char>, Seq<char>))
    ensures
        insert_entry(t, e).to_multiset() =~= t.to_multiset().insert(e),
    decreases t.len(),
{
    if t.len() == 0 {
        assert(seq![e] =~= Seq::<(Seq<char>, Seq<char>)>::empty().push(e));
    } else if key_lt(e.0, t[0].0) {
        assert(seq![e] =~= Seq::<(Seq<char>, Seq<char>)>::empty().push(e));
    } else {
        let rest = t.drop_first();
        lemma_insert_multiset(rest, e);
        assert(seq![t[0]] =~= Seq::<(Seq<char>, Seq<char>)>::empty().push(t[0]));
        assert(t =~= seq![t[0]] + rest);
    }
}

proof fn lemma_sort_multiset(es: Seq<(Seq<char>, Seq<char>)>)
    ensures
        sort_entries(es).to_multiset() =~= es.to_multiset(),
    decreases es.len(),
{
    if es.len() > 0 {
        lemma_sort_multiset(es.drop_last());
        lemma_insert_multiset(sort_entries(es.drop_last()), es.last());
        assert(es =~= es.drop_last().push(es.last()));
    }
}

proof fn lemma_insert_sorted(t: Seq<(Seq<char>, Seq<char>)>, e: (Seq<char>, Seq<char>))
    requires
        sorted_by_key(t),
    ensures
        sorted_by_key(insert_entry(t, e)),
    decreases t.len(),
{
    if t.len() == 0 {
    } else if key_lt(e.0, t[0].0) {
        let r = seq![e] + t;
        assert forall|i: int, j: int| 0 <= i < j < r.len() implies !key_lt(r[j].0, r[i].0) by {
            if i == 0 {
                if key_lt(r[j].0, e.0) {
                    if j > 1 {
                        assert(!key_lt(t[j - 1].0, t[0].0));
                    }
                    lemma_bytes_lt_transitive(
                        encode_utf8(r[j].0),
                        encode_utf8(e.0),
                        encode_utf8(t[0].0),
                    );
                    lemma_bytes_lt_irreflexive(encode_utf8(t[0].0));
                }
            } else {
                assert(r[i] == t[i - 1] && r[j] == t[j - 1]);
            }
        }
    } else {
        let rest = t.drop_first();
        lemma_insert_sorted(rest, e);
        lemma_insert_multiset(rest, e);
        let inner = insert_entry(rest, e);
        let r = seq![t[0]] + inner;
        assert forall|i: int, j: int| 0 <= i < j < r.len() implies !key_lt(r[j].0, r[i].0) by {
            if i == 0 {
                let x = inner[j - 1];
                assert(inner.contains(x));
                assert(inner.to_multiset().count(x) > 0);
                if x != e {
                    assert(rest.to_multiset().count(x) > 0);
                    assert(rest.contains(x));
                    let k = choose|k: int| 0 <= k < rest.len() && rest[k] == x;
                    assert(t[k + 1] == x);
                }
            } else {
                assert(r[i] == inner[i - 1] && r[j] == inner[j - 1]);
            }
        }
    }
}

proof fn lemma_sort_sorted(es: Seq<(Seq<char>, Seq<char>)>)
    ensures
        sorted_by_key(sort_entries(es)),
    decreases es.len(),
{
    if es.len() > 0 {
        lemma_sort_sorted(es.drop_last());
        lemma_insert_sorted(sort_entries(es.drop_last()), es.last());
    }
}

/// Two key-sorted sequences with distinct keys and the same entries are equal.
proof fn lemma_sorted_unique(s: Seq<(Seq<char>, Seq<char>)>, t: Seq<(Seq<char>, Seq<char>)>)
    requires
        sorted_by_key(s),
        sorted_by_key(t),
        distinct_keys(s),
        distinct_keys(t),
        s.to_multiset() == t.to_multiset(),
    ensures
        s == t,
    decreases s.len(),
{
    assert(s.len() == s.to_multiset().len());
    assert(t.len() == t.to_multiset().len());
    if s.len() == 0 {
        assert(s =~= t);
    } else {
        let s0 = s[0];
        let t0 = t[0];
        assert(s.contains(s0));
        assert(s.to_multiset().count(s0) > 0);
        assert(t.contains(s0));
        let j = choose|j: int| 0 <= j < t.len() && t[j] == s0;
        assert(t.contains(t0));
        assert(t.to_multiset().count(t0) > 0);
        assert(s.contains(t0));
        let i = choose|i: int| 0 <= i < s.len() && s[i] == t0;
        if s0.0 != t0.0 {
            lemma_key_lt_total(s0.0, t0.0);
            if i > 0 {
                assert(!key_lt(s[i].0, s[0].0));
            }
            if j > 0 {
                assert(!key_lt(t[j].0, t[0].0));
            }
            assert(false);
        }
        if j != 0 {
            assert(t[0].0 != t[j].0);
            assert(false);
        }
        assert(s0 == t0);
        let s1 = s.drop_first();
        let t1 = t.drop_first();
        assert(s.remove(0) =~= s1);
        assert(t.remove(0) =~= t1);
        assert(s1.to_multiset() =~= t1.to_multiset());
        lemma_sorted_unique(s1, t1);
        assert(s =~= seq![s0] + s1);
        assert(t =~= seq![t0] + t1);
    }
}

/// Applying a function to every element keeps equal multisets equal.
proof fn lemma_map_multiset<A, B>(s1: Seq<A>, s2: Seq<A>, f: spec_fn(A) -> B)
    requires
        s1.to_multiset() == s2.to_multiset(),
    ensures
        s1.map_values(f).to_multiset() == s2.map_values(f).to_multiset(),
    decreases s1.len(),
{
    assert(s1.len() == s1.to_multiset().len());
    assert(s2.len() == s2.to_multiset().len());
    if s1.len() == 0 {
        assert(s1.map_values(f) =~= s2.map_values(f));
    } else {
        let x = s1.last();
        let r1 = s1.drop_last();
        assert(s1 =~= r1.push(x));
        assert(s1.contains(x));
        assert(s1.to_multiset().count(x) > 0);
        assert(s2.contains(x));
        let j = choose|j: int| 0 <= j < s2.len() && s2[j] == x;
        let r2 = s2.remove(j);
        assert(r1.to_multiset() =~= r2.to_multiset());
        lemma_map_multiset(r1, r2, f);
        assert(s1.map_values(f) =~= r1.map_values(f).push(f(x)));
        assert(s2.map_values(f).remove(j) =~= r2.map_values(f));
        assert(s2.map_values(f)[j] == f(x));
        assert(s2.map_values(f).to_multiset() =~= r2.map_values(f).to_multiset().insert(f(x)));
    }
}

proof fn lemma_member_texts_map(ms: Seq<(Seq<char>, Json)>)
    ensures
        member_texts(ms) == ms.map_values(|m: (Seq<char>, Json)| (m.0, canonical_text(m.1))),
    decreases ms.len(),
{
    if ms.len() > 0 {
        lemma_member_texts_map(ms.drop_last());
        assert(member_texts(ms) =~= ms.map_values(
            |m: (Seq<char>, Json)| (m.0, canonical_text(m.1)),
        ));
    } else {
        assert(member_texts(ms) =~= ms.map_values(
            |m: (Seq<char>, Json)| (m.0, canonical_text(m.1)),
        ));
    }
}

/// The canonical text, and so the digest, of an object with distinct keys does
/// not depend on the order in which its members are listed.
pub proof fn lemma_canonical_text_ignores_member_order(
    ms1: Seq<(Seq<char>, Json)>,
    ms2: Seq<(Seq<char>, Json)>,
)
    requires
        ms1.to_multiset() == ms2.to_multiset(),
        distinct_keys(ms1),
        distinct_keys(ms2),
    ensures
        canonical_text(Json::Object(ms1)) == canonical_text(Json::Object(ms2)),
        canonical_digest(Json::Object(ms1)) == canonical_digest(Json::Object(ms2)),
{
    let f = |m: (Seq<char>, Json)| (m.0, canonical_text(m.1));
    lemma_member_texts_map(ms1);
    lemma_member_texts_map(ms2);
    let e1 = member_texts(ms1);
    let e2 = member_texts(ms2);
    lemma_map_multiset(ms1, ms2, f);
    assert(distinct_keys(e1)) by {
        assert forall|i: int, j: int| 0 <= i < j < e1.len() implies e1[i].0 != e1[j].0 by {
            assert(e1[i].0 == ms1[i].0 && e1[j].0 == ms1[j].0);
        }
    }
    assert(distinct_keys(e2)) by {
        assert forall|i: int, j: int| 0 <= i < j < e2.len() implies e2[i].0 != e2[j].0 by {
            assert(e2[i].0 == ms2[i].0 && e2[j].0 == ms2[j].0);
        }
    }
    let s1 = sort_entries(e1);
    let s2 = sort_entries(e2);
    lemma_sort_multiset(e1);
    lemma_sort_multiset(e2);
    lemma_sort_sorted(e1);
    lemma_sort_sorted(e2);
    lemma_sorted_distinct(e1);
    lemma_sorted_distinct(e2);
    lemma_sorted_unique(s1, s2);
}

/// Sorting keeps keys distinct.
proof fn lemma_sorted_distinct(es: Seq<(Seq<char>, Seq<char>)>)
    requires
        distinct_keys(es),
    ensures
        distinct_keys(sort_entries(es)),
{
    let s = sort_entries(es);
    lemma_sort_multiset(es);
    assert forall|i: int, j: int| 0 <= i < j < s.len() implies s[i].0 != s[j].0 by {
        if s[i].0 == s[j].0 {
            // both entries come from `es`, where keys are distinct
            let x = s[i];
            let y = s[j];
            assert(s.contains(x));
            assert(s.to_multiset().count(x) > 0);
            assert(es.contains(x));
            let a = choose|a: int| 0 <= a < es.len() && es[a] == x;
            assert(s.contains(y));
            assert(s.to_multiset().count(y) > 0);
            assert(es.contains(y));
            let b = choose|b: int| 0 <= b < es.len() && es[b] == y;
            if a == b {
                // the same entry would then occur twice in `s` but once in `es`
                lemma_count_at_most_one(es, x);
                lemma_two_occurrences(s, i, j);
                assert(false);
            }
        }
    }
}

/// In a sequence with distinct keys every entry occurs at most once.
proof fn lemma_count_at_most_one(es: Seq<(Seq<char>, Seq<char>)>, x: (Seq<char>, Seq<char>))
    requires
        distinct_keys(es),
    ensures
        es.to_multiset().count(x) <= 1,
    decreases es.len(),
{
    if es.len() > 0 {
        let r = es.drop_last();
        assert(es =~= r.push(es.last()));
        lemma_count_at_most_one(r, x);
        if es.last() == x && r.to_multiset().count(x) > 0 {
            assert(r.contains(x));
            let k = choose|k: int| 0 <= k < r.len() && r[k] == x;
            assert(es[k].0 == es[es.len() - 1].0);
        }
    }
}

/// An entry found at two positions is counted at least twice.
proof fn lemma_two_occurrences(s: Seq<(Seq<char>, Seq<char>)>, i: int, j: int)
    requires
        0 <= i < j < s.len(),
        s[i] == s[j],
    ensures
        s.to_multiset().count(s[i]) >= 2,
{
    let x = s[i];
    let r = s.remove(j);
    assert(r[i] == x);
    assert(r.contains(x));
    assert(r.to_multiset().count(x) > 0);
    assert(r.to_multiset() == s.to_multiset().remove(x));
}

/// Byte strings are ordered lexicographically: `a` comes before `b` exactly
/// when, after a common prefix, `a` ends while `b` goes on, or `a` has the
/// smaller byte at the first position where they differ.
pub proof fn lemma_bytes_lt_lexicographic(a: Seq<u8>, b: Seq<u8>)
    ensures
        bytes_lt(a, b) <==> exists|i: int|
            0 <= i <= a.len() && i <= b.len() && #[trigger] a.take(i) == b.take(i) && ((i == a.len()
                && i < b.len()) || (i < a.len() && i < b.len() && a[i] < b[i])),
    decreases a.len(),
{
    if a.len() == 0 || b.len() == 0 {
        if b.len() > 0 {
            assert(a.take(0) =~= b.take(0));
        }
        if exists|i: int|
            0 <= i <= a.len() && i <= b.len() && #[trigger] a.take(i) == b.take(i) && ((i == a.len()
                && i < b.len()) || (i < a.len() && i < b.len() && a[i] < b[i])) {
        }
    } else if a[0] != b[0] {
        assert(a.take(0) =~= b.take(0));
        if exists|i: int|
            0 <= i <= a.len() && i <= b.len() && #[trigger] a.take(i) == b.take(i) && ((i == a.len()
                && i < b.len()) || (i < a.len() && i < b.len() && a[i] < b[i])) {
            let i = choose|i: int|
                0 <= i <= a.len() && i <= b.len() && #[trigger] a.take(i) == b.take(i) && ((i
                    == a.len() && i < b.len()) || (i < a.len() && i < b.len() && a[i] < b[i]));
            if i > 0 {
                assert(a.take(i)[0] == b.take(i)[0]);
            }
        }
    } else {
        let a1 = a.drop_first();
        let b1 = b.drop_first();
        lemma_bytes_lt_lexicographic(a1, b1);
        if bytes_lt(a, b) {
            let i = choose|i: int|
                0 <= i <= a1.len() && i <= b1.len() && #[trigger] a1.take(i) == b1.take(i) && ((i
                    == a1.len() && i < b1.len()) || (i < a1.len() && i < b1.len() && a1[i] < b1[i]));
            assert(a.take(i + 1) =~= seq![a[0]] + a1.take(i));
            assert(b.take(i + 1) =~= seq![b[0]] + b1.take(i));
        }
        if exists|i: int|
            0 <= i <= a.len() && i <= b.len() && #[trigger] a.take(i) == b.take(i) && ((i == a.len()
                && i < b.len()) || (i < a.len() && i < b.len() && a[i] < b[i])) {
            let i = choose|i: int|
                0 <= i <= a.len() && i <= b.len() && #[trigger] a.take(i) == b.take(i) && ((i
                    == a.len() && i < b.len()) || (i < a.len() && i < b.len() && a[i] < b[i]));
            assert(i >= 1);
            assert(a1.take(i - 1) =~= a.take(i).drop_first());
            assert(b1.take(i - 1) =~= b.take(i).drop_first());
            assert(a1.take(i - 1) == b1.take(i - 1));
        }
    }
}

/// Sorting object entries yields the same entries, in key order.
pub proof fn lemma_sort_entries_sorted_permutation(es: Seq<(Seq<char>, Seq<char>)>)
    ensures
        sort_entries(es).to_multiset() == es.to_multiset(),
        forall|i: int, j: int|
            0 <= i < j < sort_entries(es).len() ==> !key_lt(sort_entries(es)[j].0, sort_entries(es)[i].0),
{
    lemma_sort_multiset(es);
    lemma_sort_sorted(es);
}

} // verus!
