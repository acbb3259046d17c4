//! Ordering file lists: sorting by path text, and merging lists in order of
//! first appearance without repeats.
use crate::paths::views;
use indexmap::IndexSet;
use vstd::prelude::*;

verus! {

/// `a` comes no later than `b`: lexicographic order of their characters by
/// code point, which is the byte order of their UTF-8 text.
pub open spec fn path_le(a: Seq<char>, b: Seq<char>) -> bool
    decreases a.len(),
{
    if a.len() == 0 {
        true
    } else if b.len() == 0 {
        false
    } else if a[0] != b[0] {
        (a[0] as u32) < (b[0] as u32)
    } else {
        path_le(a.drop_first(), b.drop_first())
    }
}

/// The paths are in ascending order.
pub open spec fn is_path_sorted(s: Seq<Seq<char>>) -> bool {
    forall|i: int, j: int| 0 <= i < j < s.len() ==> path_le(#[trigger] s[i], #[trigger] s[j])
}

/// `s` is `t` in ascending order.
pub open spec fn is_sorted_of(s: Seq<Seq<char>>, t: Seq<Seq<char>>) -> bool {
    is_path_sorted(s) && s.to_multiset() == t.to_multiset()
}

/// Relies on `slice::sort_unstable` on `String`s: ascending order, which for
/// strings compares the UTF-8 bytes, hence the characters by code point; the
/// elements stay the same.
#[verifier::external_body]
pub(crate) fn sort_paths(v: &mut Vec<String>)
    ensures
        is_sorted_of(views(final(v)@), views(old(v)@)),
{
    v.sort_unstable()
}

#[verifier::external_type_specification]
#[verifier::external_body]
#[verifier::reject_recursive_types(T)]
#[verifier::reject_recursive_types(S)]
pub struct ExIndexSet<T, S>(IndexSet<T, S>);

/// The paths an insertion-ordered set holds, in insertion order.
pub uninterp spec fn index_set_items(s: IndexSet<String>) -> Seq<Seq<char>>;

/// Relies on `IndexSet::new`: the set starts empty.
#[verifier::external_body]
pub(crate) fn new_path_set() -> (r: IndexSet<String>)
    ensures
        index_set_items(r) == Seq::<Seq<char>>::empty(),
{
    IndexSet::new()
}

/// Relies on `IndexSet::insert`: a path not yet held goes to the end; one
/// already held leaves the set and its order unchanged.
#[verifier::external_body]
pub(crate) fn insert_path(set: &mut IndexSet<String>, path: String) -> (added: bool)
    ensures
        added == !index_set_items(*old(set)).contains(path@),
        index_set_items(*final(set)) == (if added {
            index_set_items(*old(set)).push(path@)
        } else {
            index_set_items(*old(set))
        }),
{
    set.insert(path)
}

/// Relies on `IndexSet`'s `into_iter`: the paths come out in insertion order.
#[verifier::external_body]
pub(crate) fn path_set_into_vec(set: IndexSet<String>) -> (r: Vec<String>)
    ensures
        views(r@) == index_set_items(set),
{
    set.into_iter().collect()
}

/// `acc` with `x` added at the end unless it already holds it.
pub open spec fn insert_unique(acc: Seq<Seq<char>>, x: Seq<char>) -> Seq<Seq<char>> {
    if acc.contains(x) {
        acc
    } else {
        acc.push(x)
    }
}

/// `acc` with the first `n` paths of `add` inserted in order.
pub open spec fn merge_in(acc: Seq<Seq<char>>, add: Seq<Seq<char>>, n: int) -> Seq<Seq<char>>
    decreases n,
{
    if n <= 0 {
        acc
    } else {
        insert_unique(merge_in(acc, add, n - 1), add[n - 1])
    }
}

/// The first `n` groups merged in order: each path once, at its first
/// appearance.
pub open spec fn merge_groups(groups: Seq<Seq<Seq<char>>>, n: int) -> Seq<Seq<char>>
    decreases n,
{
    if n <= 0 {
        Seq::empty()
    } else {
        let g = groups[n - 1];
        merge_in(merge_groups(groups, n - 1), g, g.len() as int)
    }
}

/// All groups merged in order.
pub open spec fn merged(groups: Seq<Seq<Seq<char>>>) -> Seq<Seq<char>> {
    merge_groups(groups, groups.len() as int)
}


/// Merging keeps what was there in place, adds no repeats, and holds
/// exactly the paths of both.
pub proof fn lemma_merge_in(acc: Seq<Seq<char>>, add: Seq<Seq<char>>, n: int)
    requires
        0 <= n <= add.len(),
    ensures
        acc.len() <= merge_in(acc, add, n).len(),
        forall|i: int| 0 <= i < acc.len() ==> merge_in(acc, add, n)[i] == acc[i],
        acc.no_duplicates() ==> merge_in(acc, add, n).no_duplicates(),
        forall|x: Seq<char>|
            #[trigger] merge_in(acc, add, n).contains(x) <==> (acc.contains(x) || exists|k: int|
                0 <= k < n && add[k] == x),
    decreases n,
{
    if n > 0 {
        lemma_merge_in(acc, add, n - 1);
        let prev = merge_in(acc, add, n - 1);
        let x = add[n - 1];
        if !prev.contains(x) {
            assert forall|y: Seq<char>| #[trigger]
                prev.push(x).contains(y) <==> (prev.contains(y) || y == x) by {
                if prev.push(x).contains(y) {
                    let j = choose|j: int| 0 <= j < prev.push(x).len() && prev.push(x)[j] == y;
                    if j < prev.len() {
                        assert(prev.contains(y));
                    }
                }
                if prev.contains(y) {
                    let j = choose|j: int| 0 <= j < prev.len() && prev[j] == y;
                    assert(prev.push(x)[j] == y);
                }
                if y == x {
                    assert(prev.push(x)[prev.len() as int] == y);
                }
            }
        }
        assert forall|y: Seq<char>| #[trigger]
            merge_in(acc, add, n).contains(y) <==> (acc.contains(y) || exists|k: int|
                0 <= k < n && add[k] == y) by {
            if y == x {
                assert(add[n - 1] == y);
            }
            if exists|k: int| 0 <= k < n && add[k] == y {
                let k = choose|k: int| 0 <= k < n && add[k] == y;
                if k < n - 1 {
                    assert(exists|k: int| 0 <= k < n - 1 && add[k] == y);
                }
            }
            if exists|k: int| 0 <= k < n - 1 && add[k] == y {
                let k = choose|k: int| 0 <= k < n - 1 && add[k] == y;
                assert(0 <= k < n && add[k] == y);
            }
        }
    }
}

/// Merged groups hold no repeats, and hold exactly the paths of the groups.
pub proof fn lemma_merge_groups(groups: Seq<Seq<Seq<char>>>, n: int)
    requires
        0 <= n <= groups.len(),
    ensures
        merge_groups(groups, n).no_duplicates(),
        forall|x: Seq<char>|
            #[trigger] merge_groups(groups, n).contains(x) <==> exists|k: int|
                0 <= k < n && groups[k].contains(x),
    decreases n,
{
    if n > 0 {
        lemma_merge_groups(groups, n - 1);
        let g = groups[n - 1];
        lemma_merge_in(merge_groups(groups, n - 1), g, g.len() as int);
        assert forall|x: Seq<char>| #[trigger]
            merge_groups(groups, n).contains(x) <==> exists|k: int|
                0 <= k < n && groups[k].contains(x) by {
            if exists|k: int| 0 <= k < g.len() && g[k] == x {
                assert(groups[n - 1].contains(x));
            }
            if g.contains(x) {
                let k = choose|k: int| 0 <= k < g.len() && g[k] == x;
                assert(0 <= k < g.len() && g[k] == x);
            }
            if exists|k: int| 0 <= k < n && groups[k].contains(x) {
                let k = choose|k: int| 0 <= k < n && groups[k].contains(x);
                if k < n - 1 {
                    assert(exists|k: int| 0 <= k < n - 1 && groups[k].contains(x));
                }
            }
            if exists|k: int| 0 <= k < n - 1 && groups[k].contains(x) {
                let k = choose|k: int| 0 <= k < n - 1 && groups[k].contains(x);
                assert(0 <= k < n && groups[k].contains(x));
            }
        }
    } else {
        assert(merge_groups(groups, 0) =~= Seq::<Seq<char>>::empty());
    }
}

/// Inserting paths one by one into nothing gives back a list that has no
/// repeats.
pub proof fn lemma_merge_in_distinct(a: Seq<Seq<char>>, n: int)
    requires
        a.no_duplicates(),
        0 <= n <= a.len(),
    ensures
        merge_in(Seq::empty(), a, n) == a.take(n),
    decreases n,
{
    if n > 0 {
        lemma_merge_in_distinct(a, n - 1);
        if a.take(n - 1).contains(a[n - 1]) {
            let j = choose|j: int| 0 <= j < n - 1 && #[trigger] a.take(n - 1)[j] == a[n - 1];
            assert(a[j] == a[n - 1]);
        }
        assert(a.take(n - 1).push(a[n - 1]) =~= a.take(n));
    } else {
        assert(a.take(0) =~= Seq::<Seq<char>>::empty());
    }
}

/// Inserting paths that are all held already changes nothing.
pub proof fn lemma_merge_in_held(acc: Seq<Seq<char>>, add: Seq<Seq<char>>, n: int)
    requires
        0 <= n <= add.len(),
        forall|k: int| 0 <= k < n ==> acc.contains(#[trigger] add[k]),
    ensures
        merge_in(acc, add, n) == acc,
    decreases n,
{
    if n > 0 {
        lemma_merge_in_held(acc, add, n - 1);
    }
}

/// When a second pattern only matches files that the first one matched,
/// merging the two gives each file once, at its place in the first: the
/// first list unchanged.
pub proof fn lemma_subset_pattern_merge(a: Seq<Seq<char>>, b: Seq<Seq<char>>)
    requires
        a.no_duplicates(),
        forall|x: Seq<char>| b.contains(x) ==> a.contains(x),
    ensures
        merged(seq![a, b]) == a,
        merged(seq![a, b]).no_duplicates(),
{
    let groups = seq![a, b];
    assert(merge_groups(groups, 0) =~= Seq::<Seq<char>>::empty());
    lemma_merge_in_distinct(a, a.len() as int);
    assert(a.take(a.len() as int) =~= a);
    assert(merge_groups(groups, 1) == a);
    assert forall|k: int| 0 <= k < b.len() implies a.contains(#[trigger] b[k]) by {
        assert(b.contains(b[k]));
    }
    lemma_merge_in_held(a, b, b.len() as int);
}


/// Merging the first `n` groups looks at those groups only.
pub proof fn lemma_merge_groups_prefix(g1: Seq<Seq<Seq<char>>>, g2: Seq<Seq<Seq<char>>>, n: int)
    requires
        0 <= n <= g1.len(),
        n <= g2.len(),
        forall|j: int| 0 <= j < n ==> g1[j] == g2[j],
    ensures
        merge_groups(g1, n) == merge_groups(g2, n),
    decreases n,
{
    if n > 0 {
        lemma_merge_groups_prefix(g1, g2, n - 1);
    }
}

} // verus!
