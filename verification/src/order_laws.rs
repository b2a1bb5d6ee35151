use vstd::prelude::*;
use crate::order::{insert_pos, seq_lt, sorted_insert, stable_sort};

verus! {

broadcast use {vstd::seq_lib::group_seq_properties, vstd::seq_lib::group_to_multiset_ensures};

/// No sequence comes before itself.
pub proof fn lemma_seq_lt_irreflexive(a: Seq<char>)
    ensures
        !seq_lt(a, a),
    decreases a.len(),
{
    if a.len() > 0 {
        lemma_seq_lt_irreflexive(a.drop_first());
    }
}

/// Of two sequences, at most one comes before the other.
pub proof fn lemma_seq_lt_asymmetric(a: Seq<char>, b: Seq<char>)
    ensures
        !(seq_lt(a, b) && seq_lt(b, a)),
    decreases a.len(),
{
    if a.len() > 0 && b.len() > 0 && a[0] == b[0] {
        lemma_seq_lt_asymmetric(a.drop_first(), b.drop_first());
    }
}

/// The order is transitive.
pub proof fn lemma_seq_lt_transitive(a: Seq<char>, b: Seq<char>, c: Seq<char>)
    requires
        seq_lt(a, b),
        seq_lt(b, c),
    ensures
        seq_lt(a, c),
    decreases a.len(),
{
    if a.len() > 0 && b.len() > 0 && c.len() > 0 && a[0] == b[0] && b[0] == c[0] {
        lemma_seq_lt_transitive(a.drop_first(), b.drop_first(), c.drop_first());
    }
}

/// Of two different sequences, one comes before the other.
pub proof fn lemma_seq_lt_total(a: Seq<char>, b: Seq<char>)
    requires
        a != b,
    ensures
        seq_lt(a, b) || seq_lt(b, a),
    decreases a.len(),
{
    if a.len() > 0 && b.len() > 0 && a[0] == b[0] {
        if a.drop_first() == b.drop_first() {
            assert(a =~= seq![a[0]] + a.drop_first());
            assert(b =~= seq![b[0]] + b.drop_first());
        }
        lemma_seq_lt_total(a.drop_first(), b.drop_first());
    } else if a.len() == 0 && b.len() == 0 {
        assert(a =~= b);
    }
}

/// Keyed items are in order when no key comes before an earlier one.
pub open spec fn keys_sorted<T>(s: Seq<(Seq<char>, T)>) -> bool {
    forall|i: int, j: int| 0 <= i < j < s.len() ==> !seq_lt(#[trigger] s[j].0, #[trigger] s[i].0)
}

/// The items before the place of `k` have keys that do not come after `k`;
/// the item at that place, if any, has a key that comes after `k`.
proof fn lemma_insert_pos_split<T>(s: Seq<(Seq<char>, T)>, k: Seq<char>)
    ensures
        0 <= insert_pos(s, k) <= s.len(),
        forall|i: int| 0 <= i < insert_pos(s, k) ==> !seq_lt(k, #[trigger] s[i].0),
        insert_pos(s, k) < s.len() ==> seq_lt(k, s[insert_pos(s, k)].0),
    decreases s.len(),
{
    if s.len() > 0 && !seq_lt(k, s[0].0) {
        lemma_insert_pos_split(s.drop_first(), k);
        assert forall|i: int| 0 <= i < insert_pos(s, k) implies !seq_lt(k, #[trigger] s[i].0) by {
            if i > 0 {
                assert(s[i] == s.drop_first()[i - 1]);
            }
        }
    }
}

/// In a sorted sequence, every item from the place of `k` on has a key that
/// comes after `k`.
proof fn lemma_after_insert_pos<T>(s: Seq<(Seq<char>, T)>, k: Seq<char>)
    requires
        keys_sorted(s),
    ensures
        forall|j: int| insert_pos(s, k) <= j < s.len() ==> seq_lt(k, #[trigger] s[j].0),
{
    lemma_insert_pos_split(s, k);
    let p = insert_pos(s, k);
    assert forall|j: int| p <= j < s.len() implies seq_lt(k, #[trigger] s[j].0) by {
        if j > p {
            assert(!seq_lt(s[j].0, s[p].0));
            if s[p].0 != s[j].0 {
                lemma_seq_lt_total(s[p].0, s[j].0);
                lemma_seq_lt_transitive(k, s[p].0, s[j].0);
            }
        }
    }
}

proof fn lemma_sorted_insert_sorted<T>(s: Seq<(Seq<char>, T)>, x: (Seq<char>, T))
    requires
        keys_sorted(s),
    ensures
        keys_sorted(sorted_insert(s, x)),
{
    let p = insert_pos(s, x.0);
    lemma_insert_pos_split(s, x.0);
    lemma_after_insert_pos(s, x.0);
    let r = sorted_insert(s, x);
    assert forall|i: int, j: int| 0 <= i < j < r.len() implies !seq_lt(#[trigger] r[j].0, #[trigger] r[i].0) by {
        if j < p {
            assert(r[i] == s[i] && r[j] == s[j]);
        } else if j == p {
            assert(r[j] == x && r[i] == s[i]);
        } else if i < p {
            assert(r[i] == s[i] && r[j] == s[j - 1]);
        } else if i == p {
            assert(r[i] == x && r[j] == s[j - 1]);
            lemma_seq_lt_asymmetric(x.0, s[j - 1].0);
        } else {
            assert(r[i] == s[i - 1] && r[j] == s[j - 1]);
        }
    }
}

/// The sort puts the items in order of their keys.
pub proof fn lemma_stable_sort_sorted<T>(s: Seq<(Seq<char>, T)>)
    ensures
        keys_sorted(stable_sort(s)),
    decreases s.len(),
{
    if s.len() > 0 {
        lemma_stable_sort_sorted(s.drop_last());
        lemma_sorted_insert_sorted(stable_sort(s.drop_last()), s.last());
    }
}

/// The sort keeps every item, as often as it occurs: it only reorders.
pub proof fn lemma_stable_sort_permutes<T>(s: Seq<(Seq<char>, T)>)
    ensures
        stable_sort(s).to_multiset() == s.to_multiset(),
    decreases s.len(),
{
    broadcast use vstd::seq_lib::to_multiset_insert;

    if s.len() > 0 {
        lemma_stable_sort_permutes(s.drop_last());
        let ss = stable_sort(s.drop_last());
        lemma_insert_pos_split(ss, s.last().0);
        assert(s.drop_last().push(s.last()) =~= s);
        assert(sorted_insert(ss, s.last()).to_multiset() == ss.to_multiset().insert(s.last()));
    }
}

/// What holds of every keyed item holds of every item after sorting.
pub proof fn lemma_stable_sort_keeps_property<T>(s: Seq<(Seq<char>, T)>, p: spec_fn((Seq<char>, T)) -> bool)
    requires
        forall|i: int| 0 <= i < s.len() ==> p(#[trigger] s[i]),
    ensures
        forall|i: int| 0 <= i < stable_sort(s).len() ==> p(#[trigger] stable_sort(s)[i]),
    decreases s.len(),
{
    if s.len() > 0 {
        let rest = s.drop_last();
        assert forall|i: int| 0 <= i < rest.len() implies p(#[trigger] rest[i]) by {
            assert(rest[i] == s[i]);
        }
        lemma_stable_sort_keeps_property(rest, p);
        let ss = stable_sort(rest);
        lemma_insert_pos_split(ss, s.last().0);
        let pos = insert_pos(ss, s.last().0);
        let r = stable_sort(s);
        assert(r == ss.insert(pos, s.last()));
        assert forall|i: int| 0 <= i < r.len() implies p(#[trigger] r[i]) by {
            if i < pos {
                assert(r[i] == ss[i]);
            } else if i == pos {
                assert(r[i] == s.last());
            } else {
                assert(r[i] == ss[i - 1]);
            }
        }
    }
}

/// Whether a keyed item has the key `k`.
pub open spec fn key_is<T>(k: Seq<char>) -> spec_fn((Seq<char>, T)) -> bool {
    |x: (Seq<char>, T)| x.0 == k
}

/// The items whose key is `k`.
pub open spec fn with_key<T>(s: Seq<(Seq<char>, T)>, k: Seq<char>) -> Seq<(Seq<char>, T)> {
    s.filter(key_is(k))
}

proof fn lemma_no_key_after<T>(s: Seq<(Seq<char>, T)>, k: Seq<char>)
    requires
        forall|j: int| 0 <= j < s.len() ==> seq_lt(k, #[trigger] s[j].0),
    ensures
        with_key(s, k) == Seq::<(Seq<char>, T)>::empty(),
    decreases s.len(),
{
    reveal(Seq::filter);
    if s.len() > 0 {
        lemma_no_key_after(s.drop_last(), k);
        lemma_seq_lt_irreflexive(k);
        assert(seq_lt(k, s.last().0));
    }
}

/// Items with equal keys keep the order in which they came: for every key, the
/// items with that key appear in the sorted sequence as they did in `s`.
pub proof fn lemma_stable_sort_stable<T>(s: Seq<(Seq<char>, T)>, k: Seq<char>)
    ensures
        with_key(stable_sort(s), k) == with_key(s, k),
    decreases s.len(),
{
    if s.len() > 0 {
        let rest = s.drop_last();
        let x = s.last();
        let ss = stable_sort(rest);
        lemma_stable_sort_stable(rest, k);
        lemma_stable_sort_sorted(rest);
        lemma_insert_pos_split(ss, x.0);
        lemma_after_insert_pos(ss, x.0);
        let p = insert_pos(ss, x.0);
        let pred = key_is::<T>(k);
        let front = ss.take(p);
        let back = ss.skip(p);
        assert(ss =~= front + back);
        assert(sorted_insert(ss, x) =~= front + seq![x] + back);
        assert(s =~= rest.push(x));
        Seq::filter_distributes_over_add(front + seq![x], back, pred);
        Seq::filter_distributes_over_add(front, seq![x], pred);
        Seq::filter_distributes_over_add(front, back, pred);
        rest.lemma_filter_push(x, pred);
        front.lemma_filter_push(x, pred);
        assert(front.push(x) =~= front + seq![x]);
        if x.0 == k {
            assert forall|j: int| 0 <= j < back.len() implies seq_lt(k, #[trigger] back[j].0) by {
                assert(back[j] == ss[p + j]);
            }
            lemma_no_key_after(back, k);
            assert(with_key(front, k) + with_key(back, k) =~= with_key(front, k));
            assert(with_key(front + seq![x], k) + with_key(back, k) =~= with_key(front + seq![x], k));
        } else {
            assert(with_key(front + seq![x], k) == with_key(front, k));
        }
    }
}


/// The keys of `s` strictly increase.
pub open spec fn keys_strictly_sorted<T>(s: Seq<(Seq<char>, T)>) -> bool {
    forall|i: int, j: int| 0 <= i < j < s.len() ==> seq_lt(#[trigger] s[i].0, #[trigger] s[j].0)
}

/// No two items of `s` share a key.
pub open spec fn keys_distinct<T>(s: Seq<(Seq<char>, T)>) -> bool {
    forall|i: int, j: int| 0 <= i < j < s.len() ==> #[trigger] s[i].0 != #[trigger] s[j].0
}

/// When no two items share a key, the sort puts the keys in strictly
/// ascending order.
#[verifier::rlimit(40)]
pub proof fn lemma_stable_sort_strict<T>(s: Seq<(Seq<char>, T)>)
    requires
        keys_distinct(s),
    ensures
        keys_strictly_sorted(stable_sort(s)),
    decreases s.len(),
{
    if s.len() > 0 {
        let rest = s.drop_last();
        let x = s.last();
        assert forall|i: int, j: int| 0 <= i < j < rest.len() implies #[trigger] rest[i].0 != #[trigger] rest[j].0 by {
            assert(rest[i] == s[i] && rest[j] == s[j]);
        }
        lemma_stable_sort_strict(rest);
        let ss = stable_sort(rest);
        let other = |y: (Seq<char>, T)| y.0 != x.0;
        assert forall|i: int| 0 <= i < rest.len() implies other(#[trigger] rest[i]) by {
            assert(rest[i] == s[i]);
            assert(s[i].0 != s[s.len() - 1].0);
        }
        lemma_stable_sort_keeps_property(rest, other);
        lemma_stable_sort_sorted(rest);
        lemma_insert_pos_split(ss, x.0);
        lemma_after_insert_pos(ss, x.0);
        let p = insert_pos(ss, x.0);
        let r = stable_sort(s);
        assert(r == ss.insert(p, x));
        assert forall|i: int, j: int| 0 <= i < j < r.len() implies seq_lt(#[trigger] r[i].0, #[trigger] r[j].0) by {
            if j < p {
                assert(r[i] == ss[i] && r[j] == ss[j]);
            } else if j == p {
                assert(r[j] == x && r[i] == ss[i]);
                assert(other(ss[i]));
                lemma_seq_lt_total(ss[i].0, x.0);
            } else if i < p {
                assert(r[i] == ss[i] && r[j] == ss[j - 1]);
            } else if i == p {
                assert(r[i] == x && r[j] == ss[j - 1]);
            } else {
                assert(r[i] == ss[i - 1] && r[j] == ss[j - 1]);
            }
        }
    }
}

/// Two sorted sequences with the same items are the same when the keys of
/// one of them strictly increase.
proof fn lemma_sorted_unique<T>(a: Seq<(Seq<char>, T)>, b: Seq<(Seq<char>, T)>)
    requires
        keys_strictly_sorted(a),
        keys_sorted(b),
        a.to_multiset() == b.to_multiset(),
    ensures
        a == b,
    decreases a.len(),
{
    broadcast use vstd::multiset::group_multiset_axioms;

    vstd::seq_lib::to_multiset_len(a);
    vstd::seq_lib::to_multiset_len(b);
    assert(a.len() == b.len());
    if a.len() == 0 {
        assert(a =~= b);
    } else {
        let n = a.len() as int;
        let x = a.last();
        let y = b.last();
        assert(a.contains(x)) by {
            assert(a[n - 1] == x);
        }
        assert(b.contains(y)) by {
            assert(b[n - 1] == y);
        }
        assert(b.to_multiset().count(x) > 0);
        assert(a.to_multiset().count(y) > 0);
        let j = choose|j: int| 0 <= j < b.len() && b[j] == x;
        let i = choose|i: int| 0 <= i < a.len() && a[i] == y;
        if x != y {
            assert(j != n - 1);
            assert(i != n - 1);
            assert(!seq_lt(b[n - 1].0, b[j].0));
            assert(seq_lt(a[i].0, a[n - 1].0));
            assert(false);
        }
        let a1 = a.drop_last();
        let b1 = b.drop_last();
        assert(a1.push(x) =~= a);
        assert(b1.push(x) =~= b);
        assert(a1.to_multiset().insert(x) == b1.to_multiset().insert(x));
        assert(a1.to_multiset() =~= b1.to_multiset()) by {
            assert forall|v| #[trigger] a1.to_multiset().count(v) == b1.to_multiset().count(v) by {
                assert(a1.to_multiset().insert(x).count(v) == b1.to_multiset().insert(x).count(v));
            }
        }
        assert forall|i: int, j: int| 0 <= i < j < a1.len() implies seq_lt(#[trigger] a1[i].0, #[trigger] a1[j].0) by {
            assert(a1[i] == a[i] && a1[j] == a[j]);
        }
        assert forall|i: int, j: int| 0 <= i < j < b1.len() implies !seq_lt(#[trigger] b1[j].0, #[trigger] b1[i].0) by {
            assert(b1[i] == b[i] && b1[j] == b[j]);
        }
        lemma_sorted_unique(a1, b1);
        assert(a =~= b);
    }
}

/// When no two items share a key, the sort gives one result for every order
/// of the same items: the order of the input no longer matters.
pub proof fn lemma_stable_sort_determined<T>(s1: Seq<(Seq<char>, T)>, s2: Seq<(Seq<char>, T)>)
    requires
        s1.to_multiset() == s2.to_multiset(),
        keys_distinct(s1),
    ensures
        stable_sort(s1) == stable_sort(s2),
{
    lemma_stable_sort_strict(s1);
    lemma_stable_sort_sorted(s2);
    lemma_stable_sort_permutes(s1);
    lemma_stable_sort_permutes(s2);
    lemma_sorted_unique(stable_sort(s1), stable_sort(s2));
}

/// Applying `f` to every item of two sequences with the same items gives two
/// sequences with the same items.
pub proof fn lemma_map_keeps_permutation<A, B>(s1: Seq<A>, s2: Seq<A>, f: spec_fn(A) -> B)
    requires
        s1.to_multiset() == s2.to_multiset(),
    ensures
        s1.map_values(f).to_multiset() == s2.map_values(f).to_multiset(),
    decreases s1.len(),
{
    broadcast use vstd::multiset::group_multiset_axioms;

    vstd::seq_lib::to_multiset_len(s1);
    vstd::seq_lib::to_multiset_len(s2);
    assert(s1.len() == s2.len());
    if s1.len() == 0 {
        assert(s1.map_values(f) =~= s2.map_values(f));
    } else {
        let x = s1.last();
        assert(s1.contains(x)) by {
            assert(s1[s1.len() - 1] == x);
        }
        assert(s2.to_multiset().count(x) > 0);
        let j = choose|j: int| 0 <= j < s2.len() && s2[j] == x;
        let r1 = s1.drop_last();
        let r2 = s2.remove(j);
        assert(r1.push(x) =~= s1);
        assert(r2.to_multiset() == s2.to_multiset().remove(x));
        assert(r1.to_multiset() =~= s1.to_multiset().remove(x));
        lemma_map_keeps_permutation(r1, r2, f);
        assert(s1.map_values(f) =~= r1.map_values(f).push(f(x)));
        assert(s2.map_values(f) =~= r2.map_values(f).insert(j, f(x)));
        assert(r2.map_values(f).insert(j, f(x)).to_multiset() == r2.map_values(f).to_multiset().insert(f(x)));
    }
}

} // verus!
