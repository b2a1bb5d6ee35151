use vstd::prelude::*;

verus! {

broadcast use {vstd::seq_lib::group_seq_properties, vstd::seq_lib::group_to_multiset_ensures};

/// `a` comes strictly before `b` in the order of `str`: character by character,
/// a proper prefix first.
pub open spec fn seq_lt(a: Seq<char>, b: Seq<char>) -> bool
    decreases a.len(),
{
    if a.len() == 0 {
        b.len() > 0
    } else if b.len() == 0 {
        false
    } else if a[0] < b[0] {
        true
    } else if a[0] == b[0] {
        seq_lt(a.drop_first(), b.drop_first())
    } else {
        false
    }
}

/// The characters of `s`, in order.
pub fn chars_of(s: &str) -> (res: Vec<char>)
    ensures
        res@ == s@,
{
    let n = s.unicode_len();
    let mut res: Vec<char> = Vec::new();
    let mut i: usize = 0;
    while i < n
        invariant
            n == s@.len(),
            i <= n,
            res@ == s@.take(i as int),
        decreases n - i,
    {
        res.push(s.get_char(i));
        assert(res@ =~= s@.take(i + 1));
        i = i + 1;
    }
    assert(s@.take(n as int) =~= s@);
    res
}

/// Whether `a` comes strictly before `b`.
pub fn chars_lt(a: &Vec<char>, b: &Vec<char>) -> (res: bool)
    ensures
        res == seq_lt(a@, b@),
{
    let mut i: usize = 0;
    while i < a.len() && i < b.len()
        invariant
            i <= a@.len(),
            i <= b@.len(),
            seq_lt(a@, b@) == seq_lt(a@.skip(i as int), b@.skip(i as int)),
        decreases a@.len() - i,
    {
        if a[i] < b[i] {
            return true;
        }
        if a[i] != b[i] {
            return false;
        }
        assert(a@.skip(i as int).drop_first() =~= a@.skip(i + 1));
        assert(b@.skip(i as int).drop_first() =~= b@.skip(i + 1));
        i = i + 1;
    }
    i < b.len()
}

/// Where `k` goes among the keyed items `s`: before the first item whose key
/// comes strictly after `k`, so after every item with an equal key.
pub open spec fn insert_pos<T>(s: Seq<(Seq<char>, T)>, k: Seq<char>) -> int
    decreases s.len(),
{
    if s.len() == 0 {
        0
    } else if seq_lt(k, s[0].0) {
        0
    } else {
        1 + insert_pos(s.drop_first(), k)
    }
}

/// `s` with `x` put in its place by key.
pub open spec fn sorted_insert<T>(s: Seq<(Seq<char>, T)>, x: (Seq<char>, T)) -> Seq<(Seq<char>, T)> {
    s.insert(insert_pos(s, x.0), x)
}

/// The stable sort of keyed items: each item in turn is put after the items
/// already placed whose keys do not come after its own.
pub open spec fn stable_sort<T>(s: Seq<(Seq<char>, T)>) -> Seq<(Seq<char>, T)>
    decreases s.len(),
{
    if s.len() == 0 {
        s
    } else {
        sorted_insert(stable_sort(s.drop_last()), s.last())
    }
}

/// Sorting keeps the number of items.
pub proof fn lemma_stable_sort_len<T>(s: Seq<(Seq<char>, T)>)
    ensures
        stable_sort(s).len() == s.len(),
    decreases s.len(),
{
    if s.len() > 0 {
        lemma_stable_sort_len(s.drop_last());
        lemma_insert_pos_bounds(stable_sort(s.drop_last()), s.last().0);
    }
}

proof fn lemma_insert_pos_bounds<T>(s: Seq<(Seq<char>, T)>, k: Seq<char>)
    ensures
        0 <= insert_pos(s, k) <= s.len(),
    decreases s.len(),
{
    if s.len() > 0 {
        lemma_insert_pos_bounds(s.drop_first(), k);
    }
}

/// Keyed items with their keys taken as character sequences.
pub open spec fn key_views<T>(s: Seq<(Vec<char>, T)>) -> Seq<(Seq<char>, T)> {
    s.map_values(|p: (Vec<char>, T)| (p.0@, p.1))
}

/// The items of keyed items, in order.
pub open spec fn items_of<T>(s: Seq<(Seq<char>, T)>) -> Seq<T> {
    s.map_values(|p: (Seq<char>, T)| p.1)
}

/// Sorts `items` by their keys in the order of `str`, keeping items with equal
/// keys in the order they came, and gives back the items without their keys.
pub fn sort_by_keys<T>(items: Vec<(Vec<char>, T)>) -> (res: Vec<T>)
    ensures
        res@ == items_of(stable_sort(key_views(items@))),
{
    let ghost orig = key_views(items@);
    let mut rest = items;
    let mut sorted: Vec<(Vec<char>, T)> = Vec::new();
    let n = rest.len();
    let mut done: usize = 0;
    while done < n
        invariant
            n == orig.len(),
            done <= n,
            key_views(rest@) == orig.skip(done as int),
            rest@.len() == n - done,
            key_views(sorted@) == stable_sort(orig.take(done as int)),
        decreases n - done,
    {
        assert(key_views(rest@)[0] == orig[done as int]);
        let item = rest.remove(0);
        assert(key_views(rest@) =~= orig.skip(done + 1));
        let ghost sv = key_views(sorted@);
        let mut j: usize = 0;
        while j < sorted.len() && !chars_lt(&item.0, &sorted[j].0)
            invariant
                j <= sorted@.len(),
                sv == key_views(sorted@),
                insert_pos(sv, item.0@) == j + insert_pos(sv.skip(j as int), item.0@),
            decreases sorted@.len() - j,
        {
            assert(sv.skip(j as int).drop_first() =~= sv.skip(j + 1));
            j = j + 1;
        }
        sorted.insert(j, item);
        assert(orig.take(done + 1).drop_last() =~= orig.take(done as int));
        assert(key_views(sorted@) =~= sorted_insert(sv, orig[done as int]));
        done = done + 1;
    }
    assert(orig.take(n as int) =~= orig);
    assert(sorted@.len() == n) by {
        lemma_stable_sort_len(orig);
    }
    let ghost fin = key_views(sorted@);
    let mut res: Vec<T> = Vec::new();
    let mut i: usize = 0;
    while sorted.len() > 0
        invariant
            i + sorted@.len() == fin.len(),
            fin.len() == n,
            key_views(sorted@) == fin.skip(i as int),
            res@ == items_of(fin.take(i as int)),
        decreases sorted@.len(),
    {
        assert(key_views(sorted@)[0] == fin[i as int]);
        let item = sorted.remove(0);
        res.push(item.1);
        assert(key_views(sorted@) =~= fin.skip(i + 1));
        assert(res@ =~= items_of(fin.take(i + 1)));
        i = i + 1;
    }
    assert(fin.take(i as int) =~= fin);
    res
}

} // verus!
