//! Moving the preferred README file to the front of a file list.
use crate::paths::{is_direct_child, is_direct_child_of, is_readme, is_readme_path, views};
use vstd::prelude::*;

verus! {

/// `p` is a README and, when `direct_only` holds, sits directly in `base`.
pub open spec fn qualifies(base: Seq<char>, p: Seq<char>, direct_only: bool) -> bool {
    is_readme_path(p) && (!direct_only || is_direct_child_of(base, p))
}

/// The first position among the first `n` files that qualifies.
pub open spec fn first_qualifying(
    base: Seq<char>,
    files: Seq<Seq<char>>,
    n: int,
    direct_only: bool,
) -> Option<int>
    decreases n,
{
    if n <= 0 {
        None
    } else {
        match first_qualifying(base, files, n - 1, direct_only) {
            Some(i) => Some(i),
            None => if qualifies(base, files[n - 1], direct_only) {
                Some(n - 1)
            } else {
                None
            },
        }
    }
}

/// The README to promote: the first one directly inside `base`, else the
/// first one anywhere in the list.
pub open spec fn preferred_readme(base: Seq<char>, files: Seq<Seq<char>>) -> Option<int> {
    match first_qualifying(base, files, files.len() as int, true) {
        Some(i) => Some(i),
        None => first_qualifying(base, files, files.len() as int, false),
    }
}

/// `files` after promotion: with more than one file and a preferred README,
/// that file first and the others in their order; otherwise unchanged.
pub open spec fn promoted(base: Seq<char>, files: Seq<Seq<char>>) -> Seq<Seq<char>> {
    if files.len() <= 1 {
        files
    } else {
        match preferred_readme(base, files) {
            Some(i) => seq![files[i]] + files.remove(i),
            None => files,
        }
    }
}

/// A found position lies in range and qualifies; none before it does.
pub proof fn lemma_first_qualifying(
    base: Seq<char>,
    files: Seq<Seq<char>>,
    n: int,
    direct_only: bool,
)
    requires
        0 <= n <= files.len(),
    ensures
        match first_qualifying(base, files, n, direct_only) {
            Some(i) => 0 <= i < n && qualifies(base, files[i], direct_only) && forall|k: int|
                0 <= k < i ==> !qualifies(base, files[k], direct_only),
            None => forall|k: int| 0 <= k < n ==> !qualifies(base, files[k], direct_only),
        },
    decreases n,
{
    if n > 0 {
        lemma_first_qualifying(base, files, n - 1, direct_only);
    }
}

/// The position of the README to promote, if any.
pub fn find_preferred_readme(base: &str, files: &Vec<String>) -> (r: Option<usize>)
    ensures
        match r {
            Some(i) => preferred_readme(base@, views(files@)) == Some(i as int),
            None => preferred_readme(base@, views(files@)) is None,
        },
        r is Some ==> r.unwrap() < files.len(),
{
    let ghost fs = views(files@);
    let mut fallback: Option<usize> = None;
    let mut idx: usize = 0;
    while idx < files.len()
        invariant
            fs == views(files@),
            idx <= files.len(),
            first_qualifying(base@, fs, idx as int, true) is None,
            match fallback {
                Some(i) => first_qualifying(base@, fs, idx as int, false) == Some(i as int),
                None => first_qualifying(base@, fs, idx as int, false) is None,
            },
            fallback is Some ==> fallback.unwrap() < idx,
        decreases files.len() - idx,
    {
        let path = files[idx].as_str();
        assert(fs[idx as int] == path@);
        if is_readme(path) {
            if is_direct_child(base, path) {
                proof {
                    lemma_first_qualifying(base@, fs, fs.len() as int, true);
                    lemma_first_qualifying(base@, fs, idx as int, true);
                    lemma_first_qualifying(base@, fs, idx as int + 1, true);
                }
                assert(first_qualifying(base@, fs, idx as int + 1, true) == Some(idx as int));
                assert(first_qualifying(base@, fs, fs.len() as int, true) == Some(idx as int));
                return Some(idx);
            }
            if fallback.is_none() {
                fallback = Some(idx);
            }
        }
        idx += 1;
    }
    fallback
}

/// Moves the preferred README of `files` to the front, keeping the order of
/// the others; lists of one file or none stay as they are.
pub fn promote_readme(base: &str, files: &mut Vec<String>)
    ensures
        views(final(files)@) == promoted(base@, views(old(files)@)),
{
    if files.len() <= 1 {
        return;
    }
    let found = find_preferred_readme(base, files);
    match found {
        Some(idx) => {
            if idx != 0 {
                let ghost before = files@;
                let readme = files.remove(idx);
                files.insert(0, readme);
                assert(views(files@) =~= seq![views(before)[idx as int]] + views(before).remove(
                    idx as int,
                ));
            } else {
                assert(views(files@) =~= seq![views(files@)[0]] + views(files@).remove(0));
            }
        },
        None => {},
    }
}


/// Promotion reorders the files and nothing more.
pub proof fn lemma_promoted(base: Seq<char>, files: Seq<Seq<char>>)
    ensures
        promoted(base, files).len() == files.len(),
        promoted(base, files).to_multiset() == files.to_multiset(),
        forall|x: Seq<char>| #[trigger] promoted(base, files).contains(x) <==> files.contains(x),
        files.no_duplicates() ==> promoted(base, files).no_duplicates(),
{
    broadcast use vstd::seq_lib::group_to_multiset_ensures;

    if files.len() > 1 {
        match preferred_readme(base, files) {
            Some(i) => {
                lemma_preferred_in_range(base, files);
                let rest = files.remove(i);
                let p = seq![files[i]] + rest;
                assert(p =~= rest.insert(0, files[i]));
                rest.to_multiset_ensures();
                assert(p.to_multiset() =~= rest.to_multiset().insert(files[i]));
                assert(p.to_multiset() =~= files.to_multiset());
                if files.no_duplicates() {
                    assert forall|a: int, b: int| 0 <= a < b < p.len() implies p[a] != p[b] by {
                        if a == 0 {
                            if b - 1 < i {
                                assert(p[b] == files[b - 1]);
                            } else {
                                assert(p[b] == files[b]);
                            }
                        } else {
                            let fa = if a - 1 < i { a - 1 } else { a };
                            let fb = if b - 1 < i { b - 1 } else { b };
                            assert(p[a] == files[fa]);
                            assert(p[b] == files[fb]);
                        }
                    }
                }
            },
            None => {},
        }
    }
    assert forall|x: Seq<char>| #[trigger] promoted(base, files).contains(x) <==> files.contains(x) by {
        assert(promoted(base, files).to_multiset().count(x) == files.to_multiset().count(x));
    }
}

/// A preferred README lies within the list.
pub proof fn lemma_preferred_in_range(base: Seq<char>, files: Seq<Seq<char>>)
    ensures
        preferred_readme(base, files) matches Some(i) ==> 0 <= i < files.len(),
{
    lemma_first_qualifying(base, files, files.len() as int, true);
    lemma_first_qualifying(base, files, files.len() as int, false);
}


/// Among two or more files, a README anywhere in the list ends up first;
/// with no README the order is left as it was.
pub proof fn lemma_readme_first(base: Seq<char>, files: Seq<Seq<char>>)
    ensures
        files.len() > 1 && (exists|i: int| 0 <= i < files.len() && is_readme_path(#[trigger] files[i]))
            ==> is_readme_path(promoted(base, files)[0]),
        (forall|i: int| 0 <= i < files.len() ==> !is_readme_path(#[trigger] files[i])) ==> promoted(
            base,
            files,
        ) == files,
{
    lemma_first_qualifying(base, files, files.len() as int, true);
    lemma_first_qualifying(base, files, files.len() as int, false);
    if files.len() > 1 && (exists|i: int| 0 <= i < files.len() && is_readme_path(#[trigger] files[i])) {
        let i = choose|i: int| 0 <= i < files.len() && is_readme_path(#[trigger] files[i]);
        assert(qualifies(base, files[i], false));
    }
    if forall|i: int| 0 <= i < files.len() ==> !is_readme_path(#[trigger] files[i]) {
        if files.len() > 1 {
            match preferred_readme(base, files) {
                Some(i) => {
                    assert(!is_readme_path(files[i]));
                },
                None => {},
            }
        }
    }
}

} // verus!
