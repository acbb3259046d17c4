//! The two collectors: every file below a path, and the files that a
//! preset's patterns select.
use crate::error::GatherError;
use crate::globs::{
    all_parse,
    build_globset,
    excluded_by,
    first_unparsable,
    matcher_fails,
    glob_set_patterns,
    matches_exclude,
};
use crate::ordered::{
    index_set_items,
    insert_path,
    is_sorted_of,
    lemma_merge_groups,
    lemma_merge_groups_prefix,
    merge_groups,
    merge_in,
    merged,
    new_path_set,
    path_set_into_vec,
    sort_paths,
};
use crate::paths::{in_ignored_dir, is_ignored_name, is_readme_path, is_in_ignored_dir, join_path, joined, views};
use crate::readme::{lemma_promoted, lemma_readme_first, promote_readme, promoted};
use globset::GlobSet;
use vstd::prelude::*;

verus! {

broadcast use vstd::seq_lib::group_to_multiset_ensures;

/// A named bundle of glob patterns. The patterns that select files are taken in order;
/// the base, when given, is resolved against the repository root.
#[derive(Debug, Clone)]
pub struct Preset {
    pub includes: Vec<String>,
    pub exclude: Vec<String>,
    pub base: Option<String>,
}

/// One entry met by a directory walk.
#[derive(Debug, Clone)]
pub struct WalkEntry {
    pub path: String,
    pub is_file: bool,
    pub is_dir: bool,
}

/// What the filesystem holds at a path target.
#[derive(Debug, Clone)]
pub enum Listing {
    /// Nothing exists there.
    Missing,
    /// A single file.
    File,
    /// A directory, with the entries found by walking it.
    Directory(Vec<WalkEntry>),
}

/// The directory the preset's patterns are anchored at.
pub open spec fn base_of(preset: Preset, repo_root: Seq<char>) -> Seq<char> {
    match preset.base {
        Some(b) => joined(repo_root, b@),
        None => repo_root,
    }
}

/// The files among the first `n` walked entries below `root`, outside
/// ignored directories, in the order met.
pub open spec fn dir_files(root: Seq<char>, es: Seq<WalkEntry>, n: int) -> Seq<Seq<char>>
    decreases n,
{
    if n <= 0 {
        Seq::empty()
    } else {
        let prev = dir_files(root, es, n - 1);
        let e = es[n - 1];
        if e.is_file && !in_ignored_dir(root, e.path@) {
            prev.push(e.path@)
        } else {
            prev
        }
    }
}

/// An entry that a preset's pattern keeps: no directory, outside ignored
/// directories, and matched by no exclude pattern.
pub open spec fn keeps_entry(base: Seq<char>, excl: Seq<Seq<char>>, e: WalkEntry) -> bool {
    !e.is_dir && !in_ignored_dir(base, e.path@) && !excluded_by(excl, base, e.path@)
}

/// The kept paths among the first `n` entries, in the order met.
pub open spec fn pattern_files(
    base: Seq<char>,
    excl: Seq<Seq<char>>,
    es: Seq<WalkEntry>,
    n: int,
) -> Seq<Seq<char>>
    decreases n,
{
    if n <= 0 {
        Seq::empty()
    } else {
        let prev = pattern_files(base, excl, es, n - 1);
        if keeps_entry(base, excl, es[n - 1]) {
            prev.push(es[n - 1].path@)
        } else {
            prev
        }
    }
}

/// The kept paths of one walk.
pub open spec fn walk_files(base: Seq<char>, excl: Seq<Seq<char>>, es: Seq<WalkEntry>) -> Seq<Seq<char>> {
    pattern_files(base, excl, es, es.len() as int)
}

/// A pattern's walk could be made and kept at least one file.
pub open spec fn pattern_ok(base: Seq<char>, excl: Seq<Seq<char>>, walk: Option<Vec<WalkEntry>>) -> bool {
    match walk {
        Some(es) => walk_files(base, excl, es@).len() > 0,
        None => false,
    }
}

/// The exclude patterns a matcher was compiled from; none without a matcher.
pub open spec fn matcher_patterns(set: Option<GlobSet>) -> Seq<Seq<char>> {
    match set {
        Some(s) => glob_set_patterns(s),
        None => Seq::empty(),
    }
}

/// A path kept from a directory walk is not in an ignored directory.
pub proof fn lemma_dir_files_clean(root: Seq<char>, es: Seq<WalkEntry>, n: int)
    requires
        0 <= n <= es.len(),
    ensures
        forall|x: Seq<char>| #[trigger] dir_files(root, es, n).contains(x) ==> !in_ignored_dir(root, x),
    decreases n,
{
    if n > 0 {
        lemma_dir_files_clean(root, es, n - 1);
        let prev = dir_files(root, es, n - 1);
        assert forall|x: Seq<char>| #[trigger] dir_files(root, es, n).contains(x) implies !in_ignored_dir(
            root,
            x,
        ) by {
            let cur = dir_files(root, es, n);
            let j = choose|j: int| 0 <= j < cur.len() && cur[j] == x;
            if j < prev.len() {
                assert(prev[j] == x);
                assert(prev.contains(x));
            }
        }
    }
}

/// A path kept for a pattern is in no ignored directory and matches no
/// exclude pattern.
pub proof fn lemma_pattern_files_clean(
    base: Seq<char>,
    excl: Seq<Seq<char>>,
    es: Seq<WalkEntry>,
    n: int,
)
    requires
        0 <= n <= es.len(),
    ensures
        forall|x: Seq<char>| #[trigger]
            pattern_files(base, excl, es, n).contains(x) ==> !in_ignored_dir(base, x)
                && !excluded_by(excl, base, x),
    decreases n,
{
    if n > 0 {
        lemma_pattern_files_clean(base, excl, es, n - 1);
        let prev = pattern_files(base, excl, es, n - 1);
        assert forall|x: Seq<char>| #[trigger]
            pattern_files(base, excl, es, n).contains(x) implies !in_ignored_dir(base, x)
                && !excluded_by(excl, base, x) by {
            let cur = pattern_files(base, excl, es, n);
            let j = choose|j: int| 0 <= j < cur.len() && cur[j] == x;
            if j < prev.len() {
                assert(prev[j] == x);
                assert(prev.contains(x));
            }
        }
    }
}

/// The base directory of a preset: its own base resolved against the
/// repository root, or the root itself.
pub fn resolve_base(preset: &Preset, repo_root: &str) -> (r: String)
    ensures
        r@ == base_of(*preset, repo_root@),
{
    match &preset.base {
        Some(base) => join_path(repo_root, base.as_str()),
        None => repo_root.to_owned(),
    }
}

/// Every file below `path` (or `path` itself when it is a file), sorted by
/// path text, with the preferred README moved to the front.
pub fn collect_from_path(path: &str, listing: &Listing) -> (r: Result<Vec<String>, GatherError>)
    ensures
        listing is Missing ==> (r matches Err(GatherError::TargetNotFound { path: p }) && p@ == path@),
        listing is File ==> (r matches Ok(v) && views(v@) == seq![path@]),
        listing matches Listing::Directory(es) ==> (r matches Ok(v) && exists|s: Seq<Seq<char>>|
            is_sorted_of(s, dir_files(path@, es@, es@.len() as int)) && views(v@) == promoted(
                path@,
                s,
            )),
        listing matches Listing::Directory(es) ==> (r matches Ok(v) && forall|i: int|
            0 <= i < v@.len() ==> !in_ignored_dir(path@, #[trigger] v@[i]@)),
        listing matches Listing::Directory(es) ==> (r matches Ok(v) && (v@.len() > 1 && (exists|i: int|
            0 <= i < v@.len() && is_readme_path(#[trigger] v@[i]@)) ==> is_readme_path(v@[0]@))),
{
    match listing {
        Listing::Missing => Err(GatherError::TargetNotFound { path: path.to_owned() }),
        Listing::File => {
            let v = vec![path.to_owned()];
            assert(views(v@) =~= seq![path@]);
            Ok(v)
        },
        Listing::Directory(entries) => {
            let mut files: Vec<String> = Vec::new();
            let mut i: usize = 0;
            while i < entries.len()
                invariant
                    i <= entries.len(),
                    views(files@) == dir_files(path@, entries@, i as int),
                decreases entries.len() - i,
            {
                let e = &entries[i];
                if e.is_file && !is_in_ignored_dir(path, e.path.as_str()) {
                    files.push(e.path.clone());
                    assert(views(files@) =~= dir_files(path@, entries@, i as int + 1));
                }
                i += 1;
            }
            let ghost kept = views(files@);
            sort_paths(&mut files);
            let ghost sorted = views(files@);
            promote_readme(path, &mut files);
            proof {
                lemma_dir_files_clean(path@, entries@, entries@.len() as int);
                lemma_promoted(path@, sorted);
                lemma_readme_first(path@, sorted);
                if files@.len() > 1 && (exists|i: int|
                    0 <= i < files@.len() && is_readme_path(#[trigger] files@[i]@)) {
                    let i = choose|i: int| 0 <= i < files@.len() && is_readme_path(#[trigger] files@[i]@);
                    assert(views(files@)[i] == files@[i]@);
                    assert(views(files@).contains(files@[i]@));
                    let j = choose|j: int| 0 <= j < sorted.len() && sorted[j] == files@[i]@;
                    assert(is_readme_path(sorted[j]));
                    assert(views(files@)[0] == files@[0]@);
                }
                assert forall|i: int| 0 <= i < files@.len() implies !in_ignored_dir(
                    path@,
                    #[trigger] files@[i]@,
                ) by {
                    assert(views(files@)[i] == files@[i]@);
                    assert(views(files@).contains(files@[i]@));
                    assert(sorted.contains(files@[i]@));
                    assert(sorted.to_multiset().count(files@[i]@) > 0);
                    assert(kept.contains(files@[i]@));
                }
            }
            Ok(files)
        },
    }
}

/// The files one pattern's walk keeps, sorted by path text: no directories,
/// nothing in an ignored directory, nothing the exclude matcher removes.
pub fn collect_pattern_matches(base: &str, exclude: &Option<GlobSet>, entries: &Vec<WalkEntry>) -> (r:
    Vec<String>)
    ensures
        is_sorted_of(views(r@), walk_files(base@, matcher_patterns(*exclude), entries@)),
{
    let ghost excl = matcher_patterns(*exclude);
    let mut matches: Vec<String> = Vec::new();
    let mut i: usize = 0;
    while i < entries.len()
        invariant
            i <= entries.len(),
            excl == matcher_patterns(*exclude),
            views(matches@) == pattern_files(base@, excl, entries@, i as int),
        decreases entries.len() - i,
    {
        let e = &entries[i];
        if !e.is_dir && !is_in_ignored_dir(base, e.path.as_str()) && !matches_exclude(
            exclude,
            base,
            e.path.as_str(),
        ) {
            matches.push(e.path.clone());
            assert(views(matches@) =~= pattern_files(base@, excl, entries@, i as int + 1));
        }
        i += 1;
    }
    sort_paths(&mut matches);
    matches
}


/// The kept files of pattern `k`, given its walk.
pub open spec fn kept_of(base: Seq<char>, excl: Seq<Seq<char>>, walks: Seq<Option<Vec<WalkEntry>>>, k: int) -> Seq<Seq<char>> {
    walk_files(base, excl, walks[k]->0@)
}

/// `groups` holds, for each pattern, its kept files in sorted order.
pub open spec fn sorted_groups(
    base: Seq<char>,
    excl: Seq<Seq<char>>,
    walks: Seq<Option<Vec<WalkEntry>>>,
    groups: Seq<Seq<Seq<char>>>,
) -> bool {
    groups.len() == walks.len() && forall|k: int|
        0 <= k < groups.len() ==> is_sorted_of(#[trigger] groups[k], kept_of(base, excl, walks, k))
}

/// Pattern `k` is the first that fails, and `r` is the failure owed to it:
/// no walk means the pattern did not compile, an empty one that it matched
/// nothing.
pub open spec fn fails_at(
    name: Seq<char>,
    preset: Preset,
    base: Seq<char>,
    walks: Seq<Option<Vec<WalkEntry>>>,
    k: int,
    r: Result<Vec<String>, GatherError>,
) -> bool {
    let excl = views(preset.exclude@);
    &&& 0 <= k < walks.len()
    &&& forall|j: int| 0 <= j < k ==> pattern_ok(base, excl, #[trigger] walks[j])
    &&& !pattern_ok(base, excl, walks[k])
    &&& match r {
        Err(GatherError::ExcludeSetFailed { .. }) => matcher_fails(excl),
        Err(GatherError::InvalidGlobPattern { preset: p, pattern: q }) => walks[k] is None && p@
            == name && q@ == preset.includes@[k]@,
        Err(GatherError::PatternMatchedNothing { preset: p, pattern: q }) => walks[k] is Some && p@
            == name && q@ == preset.includes@[k]@,
        _ => false,
    }
}

/// The files that preset `name` selects below `repo_root`, given for each of
/// its patterns, in order, the entries that walking it found (`None` where
/// the pattern could not be compiled for the walk).
///
/// Each pattern keeps its non-directory entries outside ignored directories
/// that no exclude pattern matches, sorted by path text; the lists are merged
/// in pattern order, each file once at its first place, and the preferred
/// README is moved to the front. A pattern that keeps nothing is an error.
pub fn collect_from_preset(
    name: &str,
    preset: &Preset,
    repo_root: &str,
    walks: &Vec<Option<Vec<WalkEntry>>>,
) -> (r: Result<Vec<String>, GatherError>)
    requires
        walks.len() == preset.includes.len(),
    ensures
        !all_parse(views(preset.exclude@)) ==> (r matches Err(
            GatherError::InvalidGlobPattern { preset: p, pattern: q },
        ) && p@ == name@ && exists|i: int|
            first_unparsable(views(preset.exclude@), i) && q@ == preset.exclude@[i]@),
        r matches Err(GatherError::ExcludeSetFailed { preset: p }) ==> p@ == name@ && matcher_fails(
            views(preset.exclude@),
        ),
        forall|k: int|
            #![trigger walks@[k]]
            all_parse(views(preset.exclude@)) && 0 <= k < walks.len() && (forall|j: int|
                0 <= j < k ==> pattern_ok(
                    base_of(*preset, repo_root@),
                    views(preset.exclude@),
                    #[trigger] walks@[j],
                )) && !pattern_ok(base_of(*preset, repo_root@), views(preset.exclude@), walks@[k])
                ==> fails_at(name@, *preset, base_of(*preset, repo_root@), walks@, k, r),
        all_parse(views(preset.exclude@)) && (forall|k: int|
            0 <= k < walks.len() ==> pattern_ok(
                base_of(*preset, repo_root@),
                views(preset.exclude@),
                #[trigger] walks@[k],
            )) ==> (r is Ok || matcher_fails(views(preset.exclude@))),
        r matches Ok(files) ==> (forall|k: int|
            0 <= k < walks.len() ==> pattern_ok(
                base_of(*preset, repo_root@),
                views(preset.exclude@),
                #[trigger] walks@[k],
            )) && exists|groups: Seq<Seq<Seq<char>>>|
            sorted_groups(base_of(*preset, repo_root@), views(preset.exclude@), walks@, groups)
                && views(files@) == promoted(base_of(*preset, repo_root@), merged(groups)),
        r matches Ok(files) ==> views(files@).no_duplicates() && forall|i: int|
            0 <= i < files@.len() ==> !in_ignored_dir(
                base_of(*preset, repo_root@),
                #[trigger] files@[i]@,
            ),
{
    let ghost excl = views(preset.exclude@);
    let base = resolve_base(preset, repo_root);
    let exclude = match build_globset(name, &preset.exclude) {
        Ok(set) => set,
        Err(e) => {
            return Err(e);
        },
    };
    assert(matcher_patterns(exclude) =~= excl);
    let mut ordered = new_path_set();
    let ghost mut groups: Seq<Seq<Seq<char>>> = Seq::empty();
    let mut k: usize = 0;
    while k < preset.includes.len()
        invariant
            walks.len() == preset.includes.len(),
            excl == views(preset.exclude@),
            all_parse(excl),
            matcher_patterns(exclude) == excl,
            base@ == base_of(*preset, repo_root@),
            k <= walks.len(),
            groups.len() == k,
            forall|j: int| 0 <= j < k ==> pattern_ok(base@, excl, #[trigger] walks@[j]),
            forall|j: int|
                0 <= j < k ==> is_sorted_of(#[trigger] groups[j], kept_of(base@, excl, walks@, j)),
            index_set_items(ordered) == merge_groups(groups, k as int),
        decreases walks.len() - k,
    {
        match &walks[k] {
            None => {
                let r = Err(
                    GatherError::InvalidGlobPattern {
                        preset: name.to_owned(),
                        pattern: preset.includes[k].clone(),
                    },
                );
                assert(fails_at(name@, *preset, base@, walks@, k as int, r));
                return r;
            },
            Some(entries) => {
                let matches = collect_pattern_matches(base.as_str(), &exclude, entries);
                assert(kept_of(base@, excl, walks@, k as int) == walk_files(base@, excl, entries@));
                if matches.len() == 0 {
                    assert(views(matches@).to_multiset().len() == 0);
                    assert(walk_files(base@, excl, entries@).len() == 0);
                    let r = Err(
                        GatherError::PatternMatchedNothing {
                            preset: name.to_owned(),
                            pattern: preset.includes[k].clone(),
                        },
                    );
                    assert(fails_at(name@, *preset, base@, walks@, k as int, r));
                    return r;
                }
                assert(views(matches@).len() == matches@.len());
                assert(views(matches@).to_multiset().len() == views(matches@).len());
                assert(walk_files(base@, excl, entries@).to_multiset().len() == walk_files(
                    base@,
                    excl,
                    entries@,
                ).len());
                assert(walk_files(base@, excl, entries@).len() > 0);
                let ghost g = views(matches@);
                let ghost before = merge_groups(groups, k as int);
                let mut i: usize = 0;
                while i < matches.len()
                    invariant
                        g == views(matches@),
                        i <= matches.len(),
                        index_set_items(ordered) == merge_in(before, g, i as int),
                    decreases matches.len() - i,
                {
                    insert_path(&mut ordered, matches[i].clone());
                    i += 1;
                }
                proof {
                    let old_groups = groups;
                    groups = groups.push(g);
                    lemma_merge_groups_prefix(groups, old_groups, k as int);
                    assert(groups[k as int] == g);
                }
            },
        }
        k += 1;
    }
    let mut files = path_set_into_vec(ordered);
    let ghost all = views(files@);
    promote_readme(base.as_str(), &mut files);
    proof {
        assert(sorted_groups(base@, excl, walks@, groups));
        lemma_merge_groups(groups, groups.len() as int);
        lemma_promoted(base@, all);
        assert forall|i: int| 0 <= i < files@.len() implies !in_ignored_dir(
            base@,
            #[trigger] files@[i]@,
        ) by {
            let x = files@[i]@;
            assert(views(files@)[i] == x);
            assert(views(files@).contains(x));
            assert(all.contains(x));
            let j = choose|j: int| 0 <= j < groups.len() && groups[j].contains(x);
            let es = walks@[j]->0@;
            assert(groups[j].to_multiset().count(x) > 0);
            assert(walk_files(base@, excl, es).contains(x));
            lemma_pattern_files_clean(base@, excl, es, es.len() as int);
        }
    }
    Ok(files)
}


/// The names of the directories that traversals skip, in a fixed order.
pub open spec fn ignored_names() -> Seq<Seq<char>> {
    seq![
        seq!['.', 'g', 'i', 't'],
        seq!['t', 'a', 'r', 'g', 'e', 't'],
        seq!['n', 'o', 'd', 'e', '_', 'm', 'o', 'd', 'u', 'l', 'e', 's'],
    ]
}

/// The negated glob that keeps a walk out of every directory named `name`.
pub open spec fn negated_dir_glob(name: Seq<char>) -> Seq<char> {
    seq!['!', '*', '*', '/'] + name + seq!['/']
}

/// `!**/<name>/` for `name`.
fn negated_glob_for(name: &str) -> (r: String)
    ensures
        r@ == negated_dir_glob(name@),
{
    let head = "!**/";
    let tail = "/";
    proof {
        reveal_strlit("!**/");
        reveal_strlit("/");
        assert(head@ =~= seq!['!', '*', '*', '/']);
        assert(tail@ =~= seq!['/']);
    }
    let mut out = head.to_owned();
    out.append(name);
    out.append(tail);
    out
}

/// One negated glob per ignored directory name, so that a glob-driven walk
/// never enters those directories.
pub fn ignored_dir_globs() -> (r: Vec<String>)
    ensures
        r@.len() == 3,
        forall|i: int| 0 <= i < 3 ==> (#[trigger] r@[i])@ == negated_dir_glob(ignored_names()[i]),
        forall|i: int| 0 <= i < 3 ==> is_ignored_name(#[trigger] ignored_names()[i]),
{
    let git = ".git";
    let target = "target";
    let modules = "node_modules";
    proof {
        reveal_strlit(".git");
        reveal_strlit("target");
        reveal_strlit("node_modules");
        assert(git@ =~= ignored_names()[0]);
        assert(target@ =~= ignored_names()[1]);
        assert(modules@ =~= ignored_names()[2]);
    }
    let mut globs: Vec<String> = Vec::new();
    globs.push(negated_glob_for(git));
    globs.push(negated_glob_for(target));
    globs.push(negated_glob_for(modules));
    globs
}

/// The patterns of one walk: the selecting pattern first, then the negated
/// globs of the ignored directories.
pub fn build_preset_patterns(pattern: &str, ignored: &Vec<String>) -> (r: Vec<String>)
    ensures
        views(r@) == seq![pattern@] + views(ignored@),
{
    let mut patterns: Vec<String> = Vec::new();
    patterns.push(pattern.to_owned());
    let mut i: usize = 0;
    while i < ignored.len()
        invariant
            i <= ignored.len(),
            views(patterns@) == seq![pattern@] + views(ignored@).take(i as int),
        decreases ignored.len() - i,
    {
        let ghost prev = patterns@;
        patterns.push(ignored[i].clone());
        assert(views(patterns@) =~= views(prev).push(ignored@[i as int]@));
        assert(views(ignored@).take(i as int + 1) =~= views(ignored@).take(i as int).push(
            ignored@[i as int]@,
        ));
        assert(views(patterns@) =~= seq![pattern@] + views(ignored@).take(i as int + 1));
        i += 1;
    }
    assert(views(ignored@).take(ignored.len() as int) =~= views(ignored@));
    patterns
}

} // verus!
