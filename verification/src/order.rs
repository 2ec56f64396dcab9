//! Lexicographic ordering of rendered `name=value` strings, and the sorted
//! insertion that the attribute formatter builds its output with.

use vstd::prelude::*;
use vstd::string::StrSliceExecFns;

verus! {

/// Lexicographic order on character sequences, by code point: the order Rust
/// gives byte-wise to the UTF-8 of two strings.
pub open spec fn lex_le(a: Seq<char>, b: Seq<char>) -> bool
    decreases a.len(),
{
    if a.len() == 0 {
        true
    } else if b.len() == 0 {
        false
    } else if (a[0] as u32) < (b[0] as u32) {
        true
    } else if a[0] == b[0] {
        lex_le(a.drop_first(), b.drop_first())
    } else {
        false
    }
}

/// The view of every element of a sequence of strings.
pub open spec fn texts_of(s: Seq<String>) -> Seq<Seq<char>> {
    s.map_values(|t: String| t@)
}

fn lex_le_from(a: &str, b: &str, i: usize) -> (r: bool)
    requires
        i <= a@.len(),
        i <= b@.len(),
    ensures
        r == lex_le(a@.skip(i as int), b@.skip(i as int)),
    decreases a@.len() - i,
{
    let a_len = a.unicode_len();
    let b_len = b.unicode_len();
    if i == a_len {
        assert(a@.skip(i as int).len() == 0);
        true
    } else if i == b_len {
        assert(a@.skip(i as int).len() > 0);
        assert(b@.skip(i as int).len() == 0);
        false
    } else {
        let ca = a.get_char(i);
        let cb = b.get_char(i);
        assert(a@.skip(i as int)[0] == a@[i as int]);
        assert(b@.skip(i as int)[0] == b@[i as int]);
        if (ca as u32) < (cb as u32) {
            true
        } else if ca == cb {
            let r = lex_le_from(a, b, i + 1);
            assert(a@.skip(i as int).drop_first() =~= a@.skip(i + 1 as int));
            assert(b@.skip(i as int).drop_first() =~= b@.skip(i + 1 as int));
            r
        } else {
            false
        }
    }
}

/// Compares two strings in the lexicographic order of [`lex_le`].
pub fn str_lex_le(a: &str, b: &str) -> (r: bool)
    ensures
        r == lex_le(a@, b@),
{
    let r = lex_le_from(a, b, 0);
    assert(a@.skip(0) =~= a@);
    assert(b@.skip(0) =~= b@);
    r
}

/// [`lex_le`] is total: of any two character sequences, one precedes or
/// equals the other.
pub proof fn lemma_lex_le_total(a: Seq<char>, b: Seq<char>)
    ensures
        lex_le(a, b) || lex_le(b, a),
    decreases a.len(),
{
    if a.len() == 0 || b.len() == 0 {
    } else if a[0] == b[0] {
        lemma_lex_le_total(a.drop_first(), b.drop_first());
    } else {
        vstd::utf8::char_u32_cast(a[0], a[0] as u32);
        vstd::utf8::char_u32_cast(b[0], b[0] as u32);
        assert((a[0] as u32) != (b[0] as u32));
    }
}

/// [`lex_le`] is antisymmetric: sequences that precede or equal each other
/// are equal.
pub proof fn lemma_lex_le_antisymmetric(a: Seq<char>, b: Seq<char>)
    requires
        lex_le(a, b),
        lex_le(b, a),
    ensures
        a == b,
    decreases a.len(),
{
    if a.len() == 0 {
        assert(b.len() == 0);
        assert(a =~= b);
    } else {
        assert(b.len() > 0);
        assert(a[0] == b[0]);
        lemma_lex_le_antisymmetric(a.drop_first(), b.drop_first());
        assert(a =~= seq![a[0]] + a.drop_first());
        assert(b =~= seq![b[0]] + b.drop_first());
    }
}

/// [`lex_le`] is transitive.
pub proof fn lemma_lex_le_transitive(a: Seq<char>, b: Seq<char>, c: Seq<char>)
    requires
        lex_le(a, b),
        lex_le(b, c),
    ensures
        lex_le(a, c),
    decreases a.len(),
{
    if a.len() == 0 || b.len() == 0 || c.len() == 0 {
    } else if a[0] == b[0] && b[0] == c[0] {
        lemma_lex_le_transitive(a.drop_first(), b.drop_first(), c.drop_first());
    }
}

/// A sequence of character sequences in nondecreasing lexicographic order.
pub open spec fn lex_sorted(s: Seq<Seq<char>>) -> bool {
    forall|i: int, j: int| 0 <= i < j < s.len() ==> lex_le(#[trigger] s[i], #[trigger] s[j])
}

/// Inserts `x` into `s` in front of the first element that `x` precedes or
/// equals.
pub open spec fn lex_insert(s: Seq<Seq<char>>, x: Seq<char>) -> Seq<Seq<char>>
    decreases s.len(),
{
    if s.len() == 0 {
        seq![x]
    } else if lex_le(x, s[0]) {
        seq![x] + s
    } else {
        seq![s[0]] + lex_insert(s.drop_first(), x)
    }
}

/// Sorts a sequence of character sequences lexicographically, by repeated
/// sorted insertion.
pub open spec fn lex_sort(s: Seq<Seq<char>>) -> Seq<Seq<char>>
    decreases s.len(),
{
    if s.len() == 0 {
        Seq::empty()
    } else {
        lex_insert(lex_sort(s.drop_last()), s.last())
    }
}

proof fn lemma_lex_insert_at(s: Seq<Seq<char>>, x: Seq<char>, j: int)
    requires
        0 <= j <= s.len(),
        forall|k: int| 0 <= k < j ==> !lex_le(x, s[k]),
        j < s.len() ==> lex_le(x, s[j]),
    ensures
        lex_insert(s, x) == s.take(j) + seq![x] + s.skip(j),
    decreases j,
{
    if j == 0 {
        if s.len() == 0 {
            assert(lex_insert(s, x) =~= s.take(0) + seq![x] + s.skip(0));
        } else {
            assert(lex_le(x, s[0]));
            assert(seq![x] + s =~= s.take(0) + seq![x] + s.skip(0));
        }
    } else {
        assert(!lex_le(x, s[0]));
        let t = s.drop_first();
        assert(forall|k: int| 0 <= k < j - 1 ==> t[k] == s[k + 1] && !lex_le(x, t[k]));
        assert(j - 1 < t.len() ==> lex_le(x, t[j - 1]));
        lemma_lex_insert_at(t, x, j - 1);
        assert(seq![s[0]] + (t.take(j - 1) + seq![x] + t.skip(j - 1)) =~= s.take(j) + seq![x]
            + s.skip(j));
    }
}

/// [`lex_le`] is reflexive.
pub proof fn lemma_lex_le_reflexive(a: Seq<char>)
    ensures
        lex_le(a, a),
{
    lemma_lex_le_total(a, a);
}

proof fn lemma_lex_insert_multiset(s: Seq<Seq<char>>, x: Seq<char>)
    ensures
        lex_insert(s, x).to_multiset() == s.to_multiset().insert(x),
    decreases s.len(),
{
    broadcast use vstd::seq_lib::group_to_multiset_ensures;

    if s.len() == 0 {
        assert(lex_insert(s, x) =~= Seq::empty().push(x));
        assert(lex_insert(s, x).to_multiset() =~= s.to_multiset().insert(x));
    } else if lex_le(x, s[0]) {
        assert(lex_insert(s, x) =~= (seq![x] + s));
        vstd::seq_lib::lemma_multiset_commutative(seq![x], s);
        assert(seq![x] =~= Seq::empty().push(x));
        assert((seq![x] + s).to_multiset() =~= s.to_multiset().insert(x));
    } else {
        let t = s.drop_first();
        lemma_lex_insert_multiset(t, x);
        assert(s =~= seq![s[0]] + t);
        vstd::seq_lib::lemma_multiset_commutative(seq![s[0]], t);
        vstd::seq_lib::lemma_multiset_commutative(seq![s[0]], lex_insert(t, x));
        assert(seq![s[0]] =~= Seq::empty().push(s[0]));
        assert((seq![s[0]] + lex_insert(t, x)).to_multiset() =~= s.to_multiset().insert(x));
    }
}

proof fn lemma_lex_insert_sorted(s: Seq<Seq<char>>, x: Seq<char>)
    requires
        lex_sorted(s),
    ensures
        lex_sorted(lex_insert(s, x)),
    decreases s.len(),
{
    broadcast use vstd::seq_lib::group_to_multiset_ensures;

    if s.len() == 0 {
    } else if lex_le(x, s[0]) {
        let r = seq![x] + s;
        assert forall|i: int, j: int| 0 <= i < j < r.len() implies lex_le(r[i], r[j]) by {
            if i == 0 {
                if j > 1 {
                    lemma_lex_le_transitive(x, s[0], s[j - 1]);
                }
            }
        }
    } else {
        lemma_lex_le_total(x, s[0]);
        assert(lex_le(s[0], x));
        let t = s.drop_first();
        lemma_lex_insert_sorted(t, x);
        lemma_lex_insert_multiset(t, x);
        let r = seq![s[0]] + lex_insert(t, x);
        assert forall|i: int, j: int| 0 <= i < j < r.len() implies lex_le(r[i], r[j]) by {
            if i == 0 {
                let e = r[j];
                assert(lex_insert(t, x).to_multiset().count(e) > 0);
                if e == x {
                    assert(lex_le(s[0], e));
                } else {
                    assert(t.to_multiset().count(e) > 0);
                    assert(t.contains(e));
                    let k = choose|k: int| 0 <= k < t.len() && t[k] == e;
                    assert(lex_le(s[0], s[k + 1]));
                }
            }
        }
    }
}

/// What the sort guarantees: its output is in nondecreasing lexicographic
/// order and holds exactly the input's strings, with multiplicity.
pub proof fn lemma_lex_sort_ensures(s: Seq<Seq<char>>)
    ensures
        lex_sorted(lex_sort(s)),
        lex_sort(s).to_multiset() == s.to_multiset(),
    decreases s.len(),
{
    broadcast use vstd::seq_lib::group_to_multiset_ensures;

    if s.len() == 0 {
        assert(lex_sort(s).to_multiset() =~= s.to_multiset());
    } else {
        let t = s.drop_last();
        lemma_lex_sort_ensures(t);
        lemma_lex_insert_sorted(lex_sort(t), s.last());
        lemma_lex_insert_multiset(lex_sort(t), s.last());
        assert(s =~= t.push(s.last()));
        assert(lex_sort(s).to_multiset() =~= s.to_multiset());
    }
}

/// Two sorted sequences with the same strings, with multiplicity, are the
/// same sequence.
pub proof fn lemma_lex_sorted_unique(a: Seq<Seq<char>>, b: Seq<Seq<char>>)
    requires
        lex_sorted(a),
        lex_sorted(b),
        a.to_multiset() == b.to_multiset(),
    ensures
        a == b,
    decreases a.len(),
{
    broadcast use vstd::seq_lib::group_to_multiset_ensures;

    vstd::seq_lib::to_multiset_len(a);
    vstd::seq_lib::to_multiset_len(b);
    if a.len() == 0 {
        assert(b.to_multiset().len() == 0);
        assert(a =~= b);
    } else {
        assert(b.len() > 0);
        assert(a.contains(a[0]));
        assert(b.to_multiset().count(a[0]) > 0);
        assert(b.contains(a[0]));
        let i = choose|i: int| 0 <= i < b.len() && b[i] == a[0];
        assert(a[0] == b[0]) by {
            if i > 0 {
                assert(lex_le(b[0], b[i]));
            } else {
                lemma_lex_le_reflexive(b[0]);
            }
            assert(lex_le(b[0], a[0]));
            assert(a.contains(b[0]) || a[0] == b[0]) by {
                assert(a.to_multiset().count(b[0]) > 0);
            }
            if a[0] != b[0] {
                let j = choose|j: int| 0 <= j < a.len() && a[j] == b[0];
                if j > 0 {
                    assert(lex_le(a[0], a[j]));
                } else {
                    lemma_lex_le_reflexive(a[0]);
                }
                assert(lex_le(a[0], b[0]));
                lemma_lex_le_antisymmetric(a[0], b[0]);
            }
        }
        let ar = a.drop_first();
        let br = b.drop_first();
        assert(ar.to_multiset() == br.to_multiset()) by {
            assert(a.remove(0) =~= ar);
            assert(b.remove(0) =~= br);
            assert(a.remove(0).to_multiset() =~= a.to_multiset().remove(a[0]));
            assert(b.remove(0).to_multiset() =~= b.to_multiset().remove(b[0]));
        }
        assert(lex_sorted(ar)) by {
            assert(forall|i: int, j: int|
                0 <= i < j < ar.len() ==> ar[i] == a[i + 1] && ar[j] == a[j + 1]);
        }
        assert(lex_sorted(br)) by {
            assert(forall|i: int, j: int|
                0 <= i < j < br.len() ==> br[i] == b[i + 1] && br[j] == b[j + 1]);
        }
        lemma_lex_sorted_unique(ar, br);
        assert(a =~= seq![a[0]] + ar);
        assert(b =~= seq![b[0]] + br);
    }
}

/// Every string of the sorted output is a string of the input, and the
/// lengths agree.
pub proof fn lemma_lex_sort_membership(s: Seq<Seq<char>>)
    ensures
        lex_sort(s).len() == s.len(),
        forall|k: int| 0 <= k < lex_sort(s).len() ==> s.contains(#[trigger] lex_sort(s)[k]),
{
    broadcast use vstd::seq_lib::group_to_multiset_ensures;

    lemma_lex_sort_ensures(s);
    vstd::seq_lib::to_multiset_len(s);
    vstd::seq_lib::to_multiset_len(lex_sort(s));
    assert forall|k: int| 0 <= k < lex_sort(s).len() implies s.contains(
        #[trigger] lex_sort(s)[k],
    ) by {
        assert(lex_sort(s).contains(lex_sort(s)[k]));
        assert(s.to_multiset().count(lex_sort(s)[k]) > 0);
    }
}

/// The sorted order depends only on which strings appear, with multiplicity,
/// not on the order they arrive in: sorting any permutation gives the same
/// sequence.
pub proof fn lemma_lex_sort_permutation(a: Seq<Seq<char>>, b: Seq<Seq<char>>)
    requires
        a.to_multiset() == b.to_multiset(),
    ensures
        lex_sort(a) == lex_sort(b),
{
    lemma_lex_sort_ensures(a);
    lemma_lex_sort_ensures(b);
    lemma_lex_sorted_unique(lex_sort(a), lex_sort(b));
}

fn find_insert_pos(v: &Vec<String>, x: &str, i: usize) -> (j: usize)
    requires
        i <= v@.len(),
        forall|k: int| 0 <= k < i ==> !lex_le(x@, #[trigger] v@[k]@),
    ensures
        i <= j <= v@.len(),
        forall|k: int| 0 <= k < j ==> !lex_le(x@, #[trigger] v@[k]@),
        j < v@.len() ==> lex_le(x@, v@[j as int]@),
    decreases v@.len() - i,
{
    if i == v.len() {
        i
    } else if str_lex_le(x, v[i].as_str()) {
        i
    } else {
        find_insert_pos(v, x, i + 1)
    }
}

/// Inserts `x` into `v` in front of the first element that `x` precedes or
/// equals, as [`lex_insert`] does; on a sorted vector that is its
/// lexicographic position.
pub fn insert_sorted(v: &mut Vec<String>, x: String)
    ensures
        texts_of(final(v)@) == lex_insert(texts_of(old(v)@), x@),
{
    let j = find_insert_pos(v, x.as_str(), 0);
    proof {
        lemma_lex_insert_at(texts_of(v@), x@, j as int);
    }
    let ghost before = v@;
    v.insert(j, x);
    proof {
        assert(texts_of(v@) =~= texts_of(before).take(j as int) + seq![x@] + texts_of(
            before,
        ).skip(j as int));
    }
}

} // verus!
