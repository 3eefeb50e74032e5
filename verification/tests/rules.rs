//! Unit tests for the glob matcher, pattern parsing, and the rule engine's
//! guarantees on concrete values: emitted paths are never ignored, pruning
//! is irrevocable, a directory's own ignore file spares the directory,
//! verdicts depend only on the rule list, inert patterns change nothing, and
//! merging is associative.

use xvc_walker::build_ignore_patterns;
use xvc_walker::build_pattern_list;
use xvc_walker::glob_match;
use xvc_walker::walk_tree;
use xvc_walker::FsEntry;
use xvc_walker::IgnoreRules;
use xvc_walker::MatchResult;
use xvc_walker::PathKind;
use xvc_walker::Pattern;
use xvc_walker::PatternEffect;
use xvc_walker::Source;
use xvc_walker::WalkOptions;

fn make_tree(files: &[&str], ignores: &[(&str, &str)]) -> Vec<FsEntry> {
    let mut paths: Vec<(String, bool, String)> = Vec::new();
    let mut push_dirs = |p: &str, paths: &mut Vec<(String, bool, String)>| {
        let mut q = p.to_string();
        while let Some(k) = q.rfind('/') {
            q.truncate(k);
            paths.push((q.clone(), true, String::new()));
        }
    };
    for f in files {
        paths.push((f.to_string(), false, f.to_string()));
        push_dirs(f, &mut paths);
    }
    for (p, content) in ignores {
        paths.push((p.to_string(), false, content.to_string()));
        push_dirs(p, &mut paths);
    }
    paths.sort();
    paths.dedup();
    paths
        .into_iter()
        .map(|(path, is_dir, content)| FsEntry { path, is_dir, content })
        .collect()
}

#[test]
fn test_glob_literal_and_star() {
    assert!(glob_match("**/*.js", "a.js"));
    assert!(glob_match("**/*.js", "a/b/c.js"));
    assert!(!glob_match("**/*.js", "a.txt"));
    assert!(glob_match("a/*", "a/b"));
    assert!(!glob_match("a/*", "a/b/c"));
    assert!(!glob_match("a*b", "a[b]"));
    assert!(glob_match("a*b", "a?b"));
}

#[test]
fn test_glob_question_mark() {
    assert!(glob_match("**/a?.txt", "ab.txt"));
    assert!(!glob_match("**/a?.txt", "a.txt"));
    assert!(!glob_match("**/a?.txt", "abc.txt"));
    assert!(!glob_match("a?c", "a/c"));
}

#[test]
fn test_glob_globstar() {
    assert!(glob_match("a/**/z.txt", "a/z.txt"));
    assert!(glob_match("a/**/z.txt", "a/b/c/z.txt"));
    assert!(!glob_match("a/**/z.txt", "x/z.txt"));
    assert!(!glob_match("a/**/z.txt", "a/bz.txt"));
    assert!(glob_match("output/**/", "output/logs/"));
    assert!(glob_match("output/**/", "output/"));
    assert!(!glob_match("output/**/", "output"));
}

#[test]
fn test_glob_character_class() {
    assert!(glob_match("**/data[0-9].csv", "data1.csv"));
    assert!(!glob_match("**/data[0-9].csv", "dataA.csv"));
    assert!(glob_match("**/x[!a-c]y", "xdy"));
    assert!(!glob_match("**/x[!a-c]y", "xby"));
    assert!(glob_match("**/f[ab]g", "fag"));
    // an unclosed class is a literal `[`
    assert!(glob_match("**/a[b", "a[b"));
}

#[test]
fn test_glob_trailing_slash_significant() {
    assert!(glob_match("**/dir/", "dir/"));
    assert!(!glob_match("**/dir/", "dir"));
}

#[test]
fn test_pattern_new_fields() {
    let p = Pattern::new(Source::Global, "!b.js");
    assert_eq!(p.glob, "**/b.js");
    assert_eq!(p.original, "!b.js");
    assert_eq!(p.effect, PatternEffect::Whitelist);
    assert_eq!(p.path_kind, PathKind::Any);

    let p = Pattern::new(Source::Global, "dir/");
    assert_eq!(p.glob, "**/dir/");
    assert_eq!(p.effect, PatternEffect::Ignore);
    assert_eq!(p.path_kind, PathKind::Directory);

    let p = Pattern::new(Source::Global, "/a.js");
    assert_eq!(p.glob, "a.js");

    let p = Pattern::new(
        Source::File { path: "dir1/.gitignore".to_string(), line: 1 },
        "*.log",
    );
    assert_eq!(p.glob, "dir1/**/*.log");

    let p = Pattern::new(Source::Global, "output/**");
    assert_eq!(p.glob, "output/**/");
    assert_eq!(p.path_kind, PathKind::Directory);

    let p = Pattern::new(Source::Global, "\\!important.txt");
    assert_eq!(p.glob, "**/!important.txt");
    assert_eq!(p.effect, PatternEffect::Ignore);

    let p = Pattern::new(Source::Global, "foo  ");
    assert_eq!(p.glob, "**/foo");

    let p = Pattern::new(Source::Global, "foo\\ ");
    assert_eq!(p.glob, "**/foo ");
}

#[test]
fn test_source_dir_path() {
    let s = Source::Global;
    assert_eq!(s.dir_path(), Some(String::new()));
    let s = Source::File { path: "dir1/.gitignore".to_string(), line: 3 };
    assert_eq!(s.dir_path(), Some("dir1".to_string()));
    let s = Source::File { path: ".gitignore".to_string(), line: 1 };
    assert_eq!(s.dir_path(), Some(String::new()));
    let s = Source::CommandLine { current_dir: "work".to_string() };
    assert_eq!(s.dir_path(), Some("work".to_string()));
}

#[test]
fn test_check_verdicts() {
    let rules = IgnoreRules::from_global_patterns("/r", Some(".gitignore"), "*.js\n!b.js");
    assert_eq!(rules.check("/r/a.js", false), MatchResult::Ignore);
    assert_eq!(rules.check("/r/b.js", false), MatchResult::Whitelist);
    assert_eq!(rules.check("/r/c.txt", false), MatchResult::NoMatch);
}

#[test]
fn test_trailing_globstar_names_contents_not_directory() {
    // an ignore `dir/**` matches everything inside `dir` but never `dir`
    // itself, so the walker still descends; a whitelist of the same shape
    // does re-include the directory it names
    let rules = IgnoreRules::from_global_patterns("/r", Some(".gitignore"), "output/**");
    assert_eq!(rules.check("/r/output", true), MatchResult::NoMatch);
    assert_eq!(rules.check("/r/output/logs", true), MatchResult::Ignore);
    let rules = IgnoreRules::from_global_patterns(
        "/r",
        Some(".gitignore"),
        "output/**\n!output/data/**",
    );
    assert_eq!(rules.check("/r/output", true), MatchResult::NoMatch);
    assert_eq!(rules.check("/r/output/data", true), MatchResult::Whitelist);
    assert_eq!(rules.check("/r/output/logs", true), MatchResult::Ignore);
}

#[test]
fn test_escaped_trailing_space_is_literal_space() {
    // `foo\ ` denotes the literal `foo ` — backslash consumed, space kept —
    // so it ignores a file named `foo ` and spares one named `foo`
    let rules = IgnoreRules::from_global_patterns("/r", Some(".gitignore"), "foo\\ ");
    assert_eq!(rules.check("/r/foo ", false), MatchResult::Ignore);
    assert_eq!(rules.check("/r/foo", false), MatchResult::NoMatch);
}

#[test]
fn test_check_root_trailing_slash() {
    let rules = IgnoreRules::from_global_patterns("/r", Some(".gitignore"), "*.js\n!b.js");
    // the root itself, queried with and without a trailing slash
    assert_eq!(rules.check("/r", true), rules.check("/r/", true));
    assert_eq!(rules.check("/r", true), MatchResult::NoMatch);
    // a directory, queried with and without a trailing slash
    let rules = IgnoreRules::from_global_patterns("/r", Some(".gitignore"), "dir/");
    assert_eq!(rules.check("/r/dir", true), rules.check("/r/dir/", true));
    assert_eq!(rules.check("/r/dir", true), MatchResult::Ignore);
}

#[test]
fn test_empty_ignore_file() {
    let tree = make_tree(&["a.txt", "b.txt"], &[(".gitignore", "")]);
    let mut rules = build_ignore_patterns("", "/r", ".gitignore", &tree);
    let options = WalkOptions {
        ignore_filename: Some(".gitignore".to_string()),
        ignore_dot_git: true,
    };
    let mut emitted = walk_tree(&mut rules, &tree, &options);
    emitted.sort();
    assert_eq!(emitted, vec!["/r/.gitignore", "/r/a.txt", "/r/b.txt"]);
}

#[test]
fn test_only_wildcard_pattern() {
    let tree = make_tree(&["a.txt", "sub/b.txt"], &[(".gitignore", "*")]);
    let mut rules = build_ignore_patterns("", "/r", ".gitignore", &tree);
    let options = WalkOptions {
        ignore_filename: Some(".gitignore".to_string()),
        ignore_dot_git: true,
    };
    let emitted = walk_tree(&mut rules, &tree, &options);
    assert!(emitted.is_empty());
}

#[test]
fn test_emitted_paths_never_ignored() {
    // every emitted path lies under the root and the rules do not say Ignore
    let tree = make_tree(
        &["a.js", "b.txt", "dir/c.js", "dir/d.txt"],
        &[(".gitignore", "*.js")],
    );
    let mut rules = build_ignore_patterns("", "/r", ".gitignore", &tree);
    let options = WalkOptions {
        ignore_filename: Some(".gitignore".to_string()),
        ignore_dot_git: true,
    };
    let emitted = walk_tree(&mut rules, &tree, &options);
    assert!(!emitted.is_empty());
    for p in &emitted {
        assert!(p.starts_with("/r/"));
        assert_ne!(rules.check(p.as_str(), false), MatchResult::Ignore);
    }
}

#[test]
fn test_pruned_directory_has_no_descendants_emitted() {
    let tree = make_tree(
        &["keep.txt", "junk/a.txt", "junk/deep/b.txt"],
        &[(".gitignore", "junk/")],
    );
    let mut rules = build_ignore_patterns("", "/r", ".gitignore", &tree);
    assert_eq!(rules.check("/r/junk", true), MatchResult::Ignore);
    let options = WalkOptions {
        ignore_filename: Some(".gitignore".to_string()),
        ignore_dot_git: true,
    };
    let emitted = walk_tree(&mut rules, &tree, &options);
    for p in &emitted {
        assert!(!p.starts_with("/r/junk/"));
    }
    assert!(emitted.contains(&"/r/keep.txt".to_string()));
}

#[test]
fn test_own_ignore_file_spares_directory() {
    // dir1/.gitignore says `/**`, which matches dir1 itself — but a pattern
    // from D's own ignore file never causes D to be ignored.
    let tree = make_tree(&["dir1/a.txt"], &[("dir1/.gitignore", "/**")]);
    let mut rules = build_ignore_patterns("", "/r", ".gitignore", &tree);
    assert_ne!(rules.check("/r/dir1", true), MatchResult::Ignore);
    let options = WalkOptions {
        ignore_filename: Some(".gitignore".to_string()),
        ignore_dot_git: true,
    };
    let mut emitted = walk_tree(&mut rules, &tree, &options);
    emitted.sort();
    assert_eq!(emitted, vec!["/r/dir1/.gitignore", "/r/dir1/a.txt"]);
}

#[test]
fn test_check_depends_only_on_rule_list() {
    // two rule sets assembled differently but holding the same ordered list
    // decide every query alike
    let a = IgnoreRules::from_global_patterns("/r", Some(".gitignore"), "*.js\n!b.js");
    let mut b = IgnoreRules::from_global_patterns("/r", None, "*.js");
    b.add_patterns(build_pattern_list(vec!["!b.js".to_string()], Source::Global));
    for path in ["/r/a.js", "/r/b.js", "/r/c.txt"] {
        assert_eq!(a.check(path, false), b.check(path, false));
    }
}

#[test]
fn test_inert_pattern_changes_nothing() {
    let mut rules = IgnoreRules::from_global_patterns("/r", None, "*.js\n!b.js");
    let before: Vec<MatchResult> = ["/r/a.js", "/r/b.js", "/r/c.txt"]
        .iter()
        .map(|p| rules.check(*p, false))
        .collect();
    rules.add_patterns(build_pattern_list(
        vec!["zzz_matches_nothing".to_string()],
        Source::Global,
    ));
    let after: Vec<MatchResult> = ["/r/a.js", "/r/b.js", "/r/c.txt"]
        .iter()
        .map(|p| rules.check(*p, false))
        .collect();
    assert_eq!(before, after);
}

#[test]
fn test_merge_is_associative() {
    let globs = |r: &IgnoreRules| -> Vec<String> {
        r.patterns.iter().map(|p| p.glob.clone()).collect()
    };
    let make = |s: &str| IgnoreRules::from_global_patterns("/r", None, s);

    // (a ∪ b) ∪ c
    let mut left = make("*.a");
    let mut b = make("*.b");
    left.merge_with(&mut b);
    let mut c = make("*.c");
    left.merge_with(&mut c);

    // a ∪ (b ∪ c)
    let mut right = make("*.a");
    let mut bc = make("*.b");
    let mut c2 = make("*.c");
    bc.merge_with(&mut c2);
    right.merge_with(&mut bc);

    assert_eq!(globs(&left), globs(&right));
    assert_eq!(globs(&left), vec!["**/*.a", "**/*.b", "**/*.c"]);
}

#[test]
fn test_merge_drains_other() {
    let mut a = IgnoreRules::from_global_patterns("/r", None, "*.a");
    let mut b = IgnoreRules::from_global_patterns("/r", None, "*.b");
    a.merge_with(&mut b);
    assert_eq!(a.patterns.len(), 2);
    assert!(b.patterns.is_empty());
}

#[test]
fn test_walk_twice_same_result() {
    let tree = make_tree(
        &["a.js", "b.txt", "dir/c.js", "dir/d.txt"],
        &[(".gitignore", "*.js"), ("dir/.gitignore", "!c.js")],
    );
    let options = WalkOptions {
        ignore_filename: Some(".gitignore".to_string()),
        ignore_dot_git: true,
    };
    let mut rules1 = build_ignore_patterns("", "/r", ".gitignore", &tree);
    let mut first = walk_tree(&mut rules1, &tree, &options);
    let mut rules2 = build_ignore_patterns("", "/r", ".gitignore", &tree);
    let mut second = walk_tree(&mut rules2, &tree, &options);
    first.sort();
    second.sort();
    assert_eq!(first, second);
}

#[test]
fn test_directory_list_ignores_no_rules() {
    let tree = make_tree(
        &["a.js", "dir/c.js", "dir/sub/d.txt"],
        &[(".gitignore", "*.js")],
    );
    let children = xvc_walker::directory_list(&tree, "");
    let names: Vec<&str> = children.iter().map(|e| e.path.as_str()).collect();
    assert_eq!(names, vec![".gitignore", "a.js", "dir"]);
    let children = xvc_walker::directory_list(&tree, "dir");
    let names: Vec<&str> = children.iter().map(|e| e.path.as_str()).collect();
    assert_eq!(names, vec!["dir/c.js", "dir/sub"]);
}

#[test]
fn test_update_ignore_rules_loads_nested_file() {
    let tree = make_tree(&["dir/a.log"], &[("dir/.gitignore", "*.log")]);
    let mut rules = IgnoreRules::from_global_patterns("/r", Some(".gitignore"), "");
    assert_eq!(rules.patterns.len(), 0);
    xvc_walker::update_ignore_rules("dir", &mut rules, &tree);
    assert_eq!(rules.patterns.len(), 1);
    assert_eq!(rules.patterns[0].glob, "dir/**/*.log");
    assert_eq!(rules.check("/r/dir/a.log", false), MatchResult::Ignore);
}

#[test]
fn test_content_to_patterns_skips_comments_and_blanks() {
    let pats = xvc_walker::content_to_patterns(
        "/r",
        Some("/r/.gitignore"),
        "# comment\n\n*.js\n   \n!b.js\n",
    );
    assert_eq!(pats.len(), 2);
    assert_eq!(pats[0].glob, "**/*.js");
    assert_eq!(pats[1].glob, "**/b.js");
    assert_eq!(pats[1].effect, PatternEffect::Whitelist);
    match &pats[0].source {
        Source::File { path, line } => {
            assert_eq!(path.as_str(), ".gitignore");
            assert_eq!(*line, 3);
        },
        _ => panic!("expected a file source"),
    }
}

#[test]
fn test_pattern_has_wildcard() {
    assert!(xvc_walker::pattern_has_wildcard("*.js"));
    assert!(xvc_walker::pattern_has_wildcard("a?c"));
    assert!(xvc_walker::pattern_has_wildcard("x[0-9]"));
    assert!(!xvc_walker::pattern_has_wildcard("plain/name.txt"));
}

#[test]
fn test_bare_filename_whitelist_loses_across_levels() {
    // the ignore comes from the root's ignore file, the whitelist from a
    // deeper one; a bare filename whitelist (no `/`, no wildcard) cannot
    // resurrect what an ancestor ignored, even though it was inserted later
    let mut rules = IgnoreRules::empty("/r", Some(".gitignore"));
    rules.add_patterns(xvc_walker::content_to_patterns(
        "/r",
        Some("/r/.gitignore"),
        "*.log",
    ));
    rules.add_patterns(xvc_walker::content_to_patterns(
        "/r",
        Some("/r/sub/.gitignore"),
        "!a.log",
    ));
    assert_eq!(rules.check("/r/sub/a.log", false), MatchResult::Ignore);
}

#[test]
fn test_anchored_whitelist_wins_across_levels() {
    // the same layout, but the whitelist carries a `/`: the later inserted
    // pattern wins
    let mut rules = IgnoreRules::empty("/r", Some(".gitignore"));
    rules.add_patterns(xvc_walker::content_to_patterns(
        "/r",
        Some("/r/.gitignore"),
        "*.log",
    ));
    rules.add_patterns(xvc_walker::content_to_patterns(
        "/r",
        Some("/r/sub/.gitignore"),
        "!/a.log",
    ));
    assert_eq!(rules.check("/r/sub/a.log", false), MatchResult::Whitelist);
}

#[test]
fn test_command_line_pattern_anchors_to_recorded_dir() {
    let p = Pattern::new(
        Source::CommandLine { current_dir: "work".to_string() },
        "*.tmp",
    );
    assert_eq!(p.glob, "work/**/*.tmp");
    let p = Pattern::new(
        Source::CommandLine { current_dir: "work/".to_string() },
        "/cache",
    );
    assert_eq!(p.glob, "work/cache");
}

#[test]
fn test_walk_file_targets_filters() {
    let rules = IgnoreRules::from_global_patterns("/r", None, "*.log\n!keep.log");
    let targets: Vec<String> = vec!["a.log", "b.txt", "keep.log", "dir/c.log"]
        .into_iter()
        .map(|s: &str| s.to_string())
        .collect();
    let emitted = xvc_walker::walk_file_targets(&rules, &targets);
    assert_eq!(emitted, vec!["/r/b.txt", "/r/keep.log"]);
}

#[test]
fn test_walk_options_constructors() {
    let g = WalkOptions::gitignore();
    assert_eq!(g.ignore_filename.as_deref(), Some(".gitignore"));
    assert!(g.ignore_dot_git);
    let x = WalkOptions::xvcignore();
    assert_eq!(x.ignore_filename.as_deref(), Some(".xvcignore"));
    assert!(x.ignore_dot_git);
}
