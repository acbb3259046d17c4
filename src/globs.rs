//! Exclude patterns: compiling them into one matcher and testing paths
//! against it.
use crate::error::GatherError;
use crate::paths::{relative_path, relative_to, views};
use globset::{Glob, GlobSet};
use vstd::prelude::*;

verus! {

#[verifier::external_type_specification]
#[verifier::external_body]
pub struct ExGlob(Glob);

#[verifier::external_type_specification]
#[verifier::external_body]
pub struct ExGlobSet(GlobSet);

#[verifier::external_type_specification]
#[verifier::external_body]
pub struct ExGlobError(globset::Error);

/// The pattern text compiles as a glob with the default options.
pub uninterp spec fn glob_parses(pattern: Seq<char>) -> bool;

/// The pattern text a compiled glob was built from.
pub uninterp spec fn glob_text(g: Glob) -> Seq<char>;

/// The pattern texts of the globs a set was built from, in order.
pub uninterp spec fn glob_set_patterns(s: GlobSet) -> Seq<Seq<char>>;

/// The glob `pattern`, compiled with the default options, matches `path`.
pub uninterp spec fn glob_matches(pattern: Seq<char>, path: Seq<char>) -> bool;

/// Relies on `globset::Glob::new`: it succeeds exactly on the patterns it can
/// parse, and the glob keeps the text it was given.
#[verifier::external_body]
fn new_glob(pattern: &str) -> (r: Result<Glob, globset::Error>)
    ensures
        r is Ok == glob_parses(pattern@),
        r matches Ok(g) ==> glob_text(g) == pattern@,
{
    Glob::new(pattern)
}

/// The compiled globs with these pattern texts build into one set.
pub uninterp spec fn glob_set_builds(patterns: Seq<Seq<char>>) -> bool;

/// Relies on `globset::GlobSet::new`: whether it succeeds depends on the
/// globs' pattern texts alone, and a built set holds the given globs.
#[verifier::external_body]
fn new_glob_set(globs: &Vec<Glob>) -> (r: Result<GlobSet, globset::Error>)
    ensures
        r is Ok == glob_set_builds(globs@.map_values(|g: Glob| glob_text(g))),
        r matches Ok(s) ==> glob_set_patterns(s) == globs@.map_values(|g: Glob| glob_text(g)),
{
    GlobSet::new(globs.iter())
}

/// Relies on `globset::GlobSet::is_match`: true when any glob of the set
/// matches the path.
#[verifier::external_body]
fn glob_set_is_match(set: &GlobSet, path: &str) -> (r: bool)
    ensures
        r == (exists|i: int| 0 <= i < glob_set_patterns(*set).len() && glob_matches(#[trigger] glob_set_patterns(*set)[i], path@)),
{
    set.is_match(path)
}

/// Some pattern of `patterns` matches `path`.
pub open spec fn any_glob_matches(patterns: Seq<Seq<char>>, path: Seq<char>) -> bool {
    exists|i: int| 0 <= i < patterns.len() && glob_matches(#[trigger] patterns[i], path)
}

/// Every exclude pattern compiles, but together they do not build into one
/// matcher.
pub open spec fn matcher_fails(patterns: Seq<Seq<char>>) -> bool {
    patterns.len() > 0 && all_parse(patterns) && !glob_set_builds(patterns)
}

/// Every pattern compiles.
pub open spec fn all_parse(patterns: Seq<Seq<char>>) -> bool {
    forall|i: int| 0 <= i < patterns.len() ==> glob_parses(#[trigger] patterns[i])
}

/// `i` is the first pattern that does not compile.
pub open spec fn first_unparsable(patterns: Seq<Seq<char>>, i: int) -> bool {
    0 <= i < patterns.len() && !glob_parses(patterns[i]) && forall|k: int|
        0 <= k < i ==> glob_parses(#[trigger] patterns[k])
}

/// The text a path is matched as: its part below `base`, or the whole path
/// when it does not lie below `base`.
pub open spec fn exclude_candidate(base: Seq<char>, path: Seq<char>) -> Seq<char> {
    match relative_to(path, base) {
        Some(rel) => rel,
        None => path,
    }
}

/// Some pattern of `patterns` matches `path` as seen from `base`.
pub open spec fn excluded_by(patterns: Seq<Seq<char>>, base: Seq<char>, path: Seq<char>) -> bool {
    any_glob_matches(patterns, exclude_candidate(base, path))
}

/// What a compiled exclude matcher removes: nothing when there is none.
pub open spec fn matcher_excludes(set: Option<GlobSet>, base: Seq<char>, path: Seq<char>) -> bool {
    match set {
        Some(s) => excluded_by(glob_set_patterns(s), base, path),
        None => false,
    }
}

/// Compiles the exclude patterns of preset `preset_name` into one matcher;
/// no patterns give no matcher, which excludes nothing.
pub fn build_globset(preset_name: &str, patterns: &Vec<String>) -> (r: Result<
    Option<GlobSet>,
    GatherError,
>)
    ensures
        patterns.len() == 0 ==> r == Ok::<Option<GlobSet>, GatherError>(None),
        r matches Ok(None) ==> patterns.len() == 0,
        r matches Ok(Some(s)) ==> patterns.len() > 0 && glob_set_patterns(s) == views(patterns@),
        !all_parse(views(patterns@)) ==> r is Err,
        all_parse(views(patterns@)) && !matcher_fails(views(patterns@)) ==> r is Ok,
        r matches Err(e) ==> match e {
            GatherError::InvalidGlobPattern { preset, pattern } => preset@ == preset_name@
                && exists|i: int|
                first_unparsable(views(patterns@), i) && pattern@ == patterns@[i]@,
            GatherError::ExcludeSetFailed { preset } => preset@ == preset_name@ && matcher_fails(
                views(patterns@),
            ),
            _ => false,
        },
{
    let ghost pats = views(patterns@);
    if patterns.len() == 0 {
        return Ok(None);
    }
    let mut globs: Vec<Glob> = Vec::new();
    let mut i: usize = 0;
    while i < patterns.len()
        invariant
            pats == views(patterns@),
            i <= patterns.len(),
            globs.len() == i,
            forall|k: int| 0 <= k < i ==> glob_parses(#[trigger] pats[k]),
            forall|k: int| 0 <= k < i ==> glob_text(#[trigger] globs@[k]) == pats[k],
        decreases patterns.len() - i,
    {
        let pattern = patterns[i].as_str();
        match new_glob(pattern) {
            Ok(g) => {
                globs.push(g);
            },
            Err(_) => {
                assert(first_unparsable(pats, i as int));
                return Err(
                    GatherError::InvalidGlobPattern {
                        preset: preset_name.to_owned(),
                        pattern: pattern.to_owned(),
                    },
                );
            },
        }
        i += 1;
    }
    assert(globs@.map_values(|g: Glob| glob_text(g)) =~= pats);
    match new_glob_set(&globs) {
        Ok(set) => {
            assert(glob_set_patterns(set) =~= pats);
            Ok(Some(set))
        },
        Err(_) => Err(GatherError::ExcludeSetFailed { preset: preset_name.to_owned() }),
    }
}

/// Whether the matcher removes `path`, matched by its part below `base`.
pub fn matches_exclude(set: &Option<GlobSet>, base: &str, path: &str) -> (r: bool)
    ensures
        r == matcher_excludes(*set, base@, path@),
{
    match set {
        Some(s) => {
            let candidate = match relative_path(path, base) {
                Some(rel) => rel,
                None => path.to_owned(),
            };
            glob_set_is_match(s, candidate.as_str())
        },
        None => false,
    }
}

} // verus!
