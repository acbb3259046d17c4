use gather_files::{
    build_globset, build_preset_patterns, collect_from_path, collect_from_preset, display_path,
    ignored_dir_globs, is_readme, matches_exclude, relative_path, render_files, resolve_base,
    GatherError, Listing, Preset, WalkEntry,
};

const ROOT: &str = "/work/repo";

fn file(path: &str) -> WalkEntry {
    WalkEntry { path: path.to_string(), is_file: true, is_dir: false }
}

fn dir(path: &str) -> WalkEntry {
    WalkEntry { path: path.to_string(), is_file: false, is_dir: true }
}

fn strings(items: &[&str]) -> Vec<String> {
    items.iter().map(|s| s.to_string()).collect()
}

fn preset(includes: &[&str], exclude: &[&str], base: Option<&str>) -> Preset {
    Preset { includes: strings(includes), exclude: strings(exclude), base: base.map(|b| b.to_string()) }
}

fn names(files: &[String]) -> Vec<String> {
    files.iter().map(|p| p.rsplit('/').next().unwrap().to_string()).collect()
}

fn relative(files: &[String], base: &str) -> Vec<String> {
    files.iter().map(|p| relative_path(p, base).unwrap()).collect()
}

#[test]
fn promotes_readme_in_directory() {
    let listing = Listing::Directory(vec![
        dir(ROOT),
        file("/work/repo/b.txt"),
        file("/work/repo/a.txt"),
        file("/work/repo/README.md"),
    ]);
    let files = collect_from_path(ROOT, &listing).unwrap();
    assert_eq!(names(&files), vec!["README.md", "a.txt", "b.txt"]);
}

#[test]
fn collects_files_from_preset() {
    let p = preset(&["src/**/*.rs"], &["src/lib.rs"], Some("."));
    let base = resolve_base(&p, ROOT);
    let walk = vec![file(&format!("{base}/src/lib.rs")), file(&format!("{base}/src/main.rs"))];
    let files = collect_from_preset("rust", &p, ROOT, &vec![Some(walk)]).unwrap();
    assert_eq!(relative(&files, &base), vec!["src/main.rs"]);
}

#[test]
fn render_includes_headers() {
    let file = format!("{ROOT}/README.md");
    let output = render_files(&vec![file], &vec!["Hello world\n\n".to_string()], ROOT);
    assert!(output.0.contains("# README.md"));
    assert!(output.0.contains("Hello world"));
    assert_eq!(output.1, output.0.chars().count());
}

#[test]
fn preset_skips_ignored_directories() {
    let p = preset(&["**/*"], &[], Some("."));
    let base = resolve_base(&p, ROOT);
    let walk = vec![
        dir(&base),
        file(&format!("{base}/README.md")),
        dir(&format!("{base}/src")),
        file(&format!("{base}/src/main.rs")),
        dir(&format!("{base}/target")),
        file(&format!("{base}/target/ignored.rs")),
        dir(&format!("{base}/node_modules")),
        dir(&format!("{base}/node_modules/pkg")),
        file(&format!("{base}/node_modules/pkg/index.js")),
    ];
    let files = collect_from_preset("everything", &p, ROOT, &vec![Some(walk)]).unwrap();
    let paths = relative(&files, &base);

    assert!(paths.contains(&"README.md".to_string()));
    assert!(paths.contains(&"src/main.rs".to_string()));
    assert!(!paths.iter().any(|path| path.starts_with("target/")));
    assert!(!paths.iter().any(|path| path.starts_with("node_modules/")));
}

#[test]
fn path_collector_without_readme_sorts_by_path_text() {
    let listing = Listing::Directory(vec![
        file("/work/repo/src/z.rs"),
        file("/work/repo/b.txt"),
        file("/work/repo/a-b/x.txt"),
        file("/work/repo/a.txt"),
    ]);
    let files = collect_from_path(ROOT, &listing).unwrap();
    assert_eq!(
        files,
        strings(&["/work/repo/a-b/x.txt", "/work/repo/a.txt", "/work/repo/b.txt", "/work/repo/src/z.rs"])
    );
}

#[test]
fn path_collector_prefers_readme_directly_in_root() {
    let listing = Listing::Directory(vec![
        file("/work/repo/a.txt"),
        file("/work/repo/docs/readme.txt"),
        file("/work/repo/ReadMe"),
    ]);
    let files = collect_from_path(ROOT, &listing).unwrap();
    assert_eq!(files, strings(&["/work/repo/ReadMe", "/work/repo/a.txt", "/work/repo/docs/readme.txt"]));
}

#[test]
fn path_collector_falls_back_to_first_nested_readme() {
    let listing = Listing::Directory(vec![
        file("/work/repo/z/README.md"),
        file("/work/repo/a.txt"),
        file("/work/repo/b/Readme.txt"),
    ]);
    let files = collect_from_path(ROOT, &listing).unwrap();
    assert_eq!(files, strings(&["/work/repo/b/Readme.txt", "/work/repo/a.txt", "/work/repo/z/README.md"]));
}

#[test]
fn path_collector_skips_ignored_directories() {
    let listing = Listing::Directory(vec![
        file("/work/repo/.git/config"),
        file("/work/repo/target/debug/app"),
        file("/work/repo/src/target.rs"),
        dir("/work/repo/src"),
    ]);
    let files = collect_from_path(ROOT, &listing).unwrap();
    assert_eq!(files, strings(&["/work/repo/src/target.rs"]));
}

#[test]
fn path_collector_single_file_and_missing_path() {
    let files = collect_from_path("/work/repo/notes.md", &Listing::File).unwrap();
    assert_eq!(files, strings(&["/work/repo/notes.md"]));
    let err = collect_from_path("/work/repo/nope", &Listing::Missing).unwrap_err();
    assert_eq!(err, GatherError::TargetNotFound { path: "/work/repo/nope".to_string() });
}

#[test]
fn empty_directory_is_no_error() {
    let files = collect_from_path(ROOT, &Listing::Directory(vec![dir(ROOT)])).unwrap();
    assert!(files.is_empty());
}

#[test]
fn merged_patterns_keep_first_position_once() {
    let p = preset(&["src/**", "src/*.rs", "README.md"], &[], None);
    let walks = vec![
        Some(vec![file("/work/repo/src/b.rs"), file("/work/repo/src/a.rs"), file("/work/repo/src/c.txt")]),
        Some(vec![file("/work/repo/src/b.rs"), file("/work/repo/src/a.rs")]),
        Some(vec![file("/work/repo/README.md")]),
    ];
    let files = collect_from_preset("src", &p, ROOT, &walks).unwrap();
    assert_eq!(
        files,
        strings(&["/work/repo/README.md", "/work/repo/src/a.rs", "/work/repo/src/b.rs", "/work/repo/src/c.txt"])
    );
}

#[test]
fn pattern_emptied_by_exclude_is_an_error() {
    let p = preset(&["src/*.rs", "docs/*.md"], &["docs/**"], None);
    let walks = vec![
        Some(vec![file("/work/repo/src/a.rs")]),
        Some(vec![file("/work/repo/docs/guide.md")]),
    ];
    let err = collect_from_preset("mixed", &p, ROOT, &walks).unwrap_err();
    assert_eq!(
        err,
        GatherError::PatternMatchedNothing { preset: "mixed".to_string(), pattern: "docs/*.md".to_string() }
    );
}

#[test]
fn pattern_without_walk_is_invalid() {
    let p = preset(&["src/*.rs", "[oops"], &[], None);
    let walks = vec![Some(vec![file("/work/repo/src/a.rs")]), None];
    let err = collect_from_preset("broken", &p, ROOT, &walks).unwrap_err();
    assert_eq!(
        err,
        GatherError::InvalidGlobPattern { preset: "broken".to_string(), pattern: "[oops".to_string() }
    );
}

#[test]
fn invalid_exclude_pattern_is_reported_first() {
    let p = preset(&["src/*.rs"], &["ok/**", "a[", "b["], None);
    let err = collect_from_preset("bad", &p, ROOT, &vec![None]).unwrap_err();
    assert_eq!(err, GatherError::InvalidGlobPattern { preset: "bad".to_string(), pattern: "a[".to_string() });
}

#[test]
fn preset_base_resolution() {
    assert_eq!(resolve_base(&preset(&["*"], &[], Some("docs")), ROOT), "/work/repo/docs");
    assert_eq!(resolve_base(&preset(&["*"], &[], Some("/abs/dir")), ROOT), "/abs/dir");
    assert_eq!(resolve_base(&preset(&["*"], &[], None), ROOT), ROOT);
}

#[test]
fn exclude_matcher_matches_relative_paths() {
    let none = build_globset("p", &vec![]).unwrap();
    assert!(none.is_none());
    assert!(!matches_exclude(&none, ROOT, "/work/repo/src/lib.rs"));
    let set = build_globset("p", &strings(&["src/lib.rs", "*.md"])).unwrap();
    assert!(matches_exclude(&set, ROOT, "/work/repo/src/lib.rs"));
    assert!(matches_exclude(&set, ROOT, "/work/repo/README.md"));
    assert!(!matches_exclude(&set, ROOT, "/work/repo/src/main.rs"));
}

#[test]
fn walk_patterns_add_ignored_directories() {
    let ignored = ignored_dir_globs();
    assert_eq!(ignored, strings(&["!**/.git/", "!**/target/", "!**/node_modules/"]));
    let patterns = build_preset_patterns("src/**/*.rs", &ignored);
    assert_eq!(patterns, strings(&["src/**/*.rs", "!**/.git/", "!**/target/", "!**/node_modules/"]));
}

#[test]
fn render_adds_missing_newline_only() {
    let files = strings(&["/work/repo/a.txt", "/work/repo/b.txt"]);
    let contents = strings(&["alpha\n", "beta"]);
    let (text, count) = render_files(&files, &contents, ROOT);
    assert_eq!(text, "-------\n# a.txt\n\nalpha\n\n-------\n# b.txt\n\nbeta\n\n");
    assert_eq!(count, 47);
    assert_eq!(count, text.chars().count());
}

#[test]
fn render_counts_characters_not_bytes() {
    let files = strings(&["/work/repo/ü.txt"]);
    let contents = strings(&["héllo wörld ✓"]);
    let (text, count) = render_files(&files, &contents, ROOT);
    assert_eq!(text, "-------\n# ü.txt\n\nhéllo wörld ✓\n\n");
    assert_eq!(count, text.chars().count());
    assert!(count < text.len());
}

#[test]
fn render_of_nothing_is_empty() {
    let (text, count) = render_files(&vec![], &vec![], ROOT);
    assert_eq!(text, "");
    assert_eq!(count, 0);
}

#[test]
fn display_names() {
    assert_eq!(display_path("/work/repo/src/a.rs", ROOT), "src/a.rs");
    assert_eq!(display_path("/work/repo", ROOT), "/work/repo");
    assert_eq!(display_path("/elsewhere/a.rs", ROOT), "/elsewhere/a.rs");
    assert_eq!(display_path("/work/repository/a.rs", ROOT), "/work/repository/a.rs");
}

#[test]
fn readme_names() {
    assert!(is_readme("/x/README.md"));
    assert!(is_readme("/x/readme"));
    assert!(is_readme("ReadMe.txt"));
    assert!(!is_readme("/readme/notes.txt"));
    assert!(!is_readme("/x/read.md"));
}

#[test]
fn paths_below_a_dot_base_display_without_the_dot() {
    assert_eq!(display_path("/work/repo/./src/main.rs", ROOT), "src/main.rs");
    assert_eq!(display_path("/work/repo/./src/main.rs", "/work/repo/."), "src/main.rs");
    assert_eq!(display_path("/work/repo//a.rs", ROOT), "a.rs");
    assert_eq!(relative_path("/work/repo/src/", ROOT), Some("src".to_string()));
    assert_eq!(relative_path("/work/repo/.", ROOT), Some(String::new()));
}

#[test]
fn dot_base_preset_renders_relative_names() {
    let p = preset(&["src/**/*.rs"], &["src/lib.rs"], Some("."));
    let base = resolve_base(&p, ROOT);
    let walk = vec![file(&format!("{base}/src/lib.rs")), file(&format!("{base}/src/main.rs"))];
    let files = collect_from_preset("rust", &p, ROOT, &vec![Some(walk)]).unwrap();
    let (text, _) = render_files(&files, &vec!["fn main() {}\n".to_string()], ROOT);
    assert_eq!(text, "-------\n# src/main.rs\n\nfn main() {}\n\n");
}

#[test]
fn readme_names_ignore_trailing_separators() {
    assert!(is_readme("x/README/"));
    assert!(is_readme("x/README/."));
    assert!(!is_readme("."));
    assert!(!is_readme("/"));
}

#[test]
fn direct_children_through_dot_components() {
    assert!(gather_files::is_direct_child(ROOT, "/work/repo/./a"));
    assert!(gather_files::is_direct_child(ROOT, "/work/repo/a/"));
    assert!(!gather_files::is_direct_child(ROOT, "/work/repo/a/b"));
    assert!(!gather_files::is_direct_child(ROOT, "/work/repo"));
}

#[test]
fn roots_with_dot_components_compare_by_component() {
    assert_eq!(display_path("/a/b/c", "/a/./b"), "c");
    assert_eq!(display_path("/a//b/c", "/a/b/"), "c");
    assert_eq!(display_path("/a/bc/d", "/a/b"), "/a/bc/d");
    assert!(gather_files::is_direct_child("/a/./b", "/a/b/c"));
    assert!(!gather_files::is_direct_child("/a/./b", "/a/b/c/d"));
    assert_eq!(relative_path("/a/b/c/./d/", "/a/b"), Some("c/./d".to_string()));
    assert_eq!(relative_path("a/b", "./a"), None);
    assert_eq!(relative_path("./a/b", "./a"), Some("b".to_string()));
}

#[test]
fn exclude_and_ignore_use_paths_below_a_dot_base() {
    let set = build_globset("p", &strings(&["src/lib.rs"])).unwrap();
    assert!(matches_exclude(&set, "/work/./repo", "/work/repo/src/lib.rs"));
    let listing = Listing::Directory(vec![
        file("/work/repo/target/x.rs"),
        file("/work/repo/src/a.rs"),
    ]);
    let files = collect_from_path("/work/./repo", &listing).unwrap();
    assert_eq!(files, strings(&["/work/repo/src/a.rs"]));
}
