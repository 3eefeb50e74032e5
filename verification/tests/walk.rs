//! End-to-end walks over in-memory directory snapshots: each test builds a
//! tree with ignore files, runs the rule builder and the walker, and compares
//! the surviving paths (with their ancestor directories) against the expected
//! set.

use xvc_walker::build_ignore_patterns;
use xvc_walker::walk_tree;
use xvc_walker::FsEntry;
use xvc_walker::WalkOptions;

fn make_tree(files: &[&str], ignores: &[(&str, &str)]) -> Vec<FsEntry> {
    let mut paths: Vec<(String, bool, String)> = Vec::new();
    let mut push_dirs = |p: &str, paths: &mut Vec<(String, bool, String)>| {
        let mut q = p.to_string();
        while let Some(k) = q.rfind('/') {
            q.truncate(k);
            paths.push((q.clone(), true, String::new()));
        }
    };
    for f in files {
        paths.push((f.to_string(), false, f.to_string()));
        push_dirs(f, &mut paths);
    }
    for (p, content) in ignores {
        paths.push((p.to_string(), false, content.to_string()));
        push_dirs(p, &mut paths);
    }
    paths.sort();
    paths.dedup();
    paths
        .into_iter()
        .map(|(path, is_dir, content)| FsEntry { path, is_dir, content })
        .collect()
}

fn run_walk(files: &[&str], ignores: &[(&str, &str)]) -> Vec<String> {
    let tree = make_tree(files, ignores);
    let mut rules = build_ignore_patterns("", "/r", ".gitignore", &tree);
    let options = WalkOptions {
        ignore_filename: Some(".gitignore".to_string()),
        ignore_dot_git: true,
    };
    let emitted = walk_tree(&mut rules, &tree, &options);
    let mut all: Vec<String> = Vec::new();
    for abs in emitted {
        assert!(abs.starts_with("/r/"));
        let rel = abs["/r/".len()..].to_string();
        let mut q = rel.clone();
        all.push(rel);
        while let Some(k) = q.rfind('/') {
            q.truncate(k);
            all.push(q.clone());
        }
    }
    all.sort();
    all.dedup();
    all
}

#[test]
fn test_simple_ignore() {
    let result = run_walk(&["a.js", "b.txt"], &[(".gitignore", "*.js")]);
    let expected: Vec<String> = vec![".gitignore", "b.txt"].into_iter().map(|s: &str| s.to_string()).collect();
    assert_eq!(result, expected);
}

#[test]
fn test_negation() {
    let result = run_walk(&["a.js", "b.js", "c.txt"], &[(".gitignore", "*.js\n!b.js")]);
    let expected: Vec<String> = vec![".gitignore", "b.js", "c.txt"].into_iter().map(|s: &str| s.to_string()).collect();
    assert_eq!(result, expected);
}

#[test]
fn test_directory_ignore() {
    let result = run_walk(&["dir/a.js", "dir/b.txt", "c.txt"], &[(".gitignore", "dir/")]);
    let expected: Vec<String> = vec![".gitignore", "c.txt"].into_iter().map(|s: &str| s.to_string()).collect();
    assert_eq!(result, expected);
}

#[test]
fn test_whitelisting_in_ignored_dir_is_not_traversed() {
    let result = run_walk(&["dir/a.js", "dir/b.txt"], &[(".gitignore", "dir/\n!dir/b.txt")]);
    let expected: Vec<String> = vec![".gitignore"].into_iter().map(|s: &str| s.to_string()).collect();
    assert_eq!(result, expected);
}

#[test]
fn test_nested_ignore_files() {
    let result = run_walk(&["a.txt", "dir1/b.txt", "dir1/c.js", "dir2/d.txt", "dir2/e.js"], &[(".gitignore", "*.js"), ("dir1/.gitignore", "!c.js\nb.txt")]);
    let expected: Vec<String> = vec![".gitignore", "a.txt", "dir1", "dir1/.gitignore", "dir2", "dir2/d.txt"].into_iter().map(|s: &str| s.to_string()).collect();
    assert_eq!(result, expected);
}

#[test]
fn test_globstar() {
    let result = run_walk(&["a/b/c.js", "a/d.js"], &[(".gitignore", "a/**/*.js")]);
    let expected: Vec<String> = vec![".gitignore"].into_iter().map(|s: &str| s.to_string()).collect();
    assert_eq!(result, expected);
}

#[test]
fn test_root_relative_ignore() {
    let result = run_walk(&["a.js", "dir/a.js"], &[(".gitignore", "/a.js")]);
    let expected: Vec<String> = vec![".gitignore", "dir", "dir/a.js"].into_iter().map(|s: &str| s.to_string()).collect();
    assert_eq!(result, expected);
}

#[test]
fn test_ignore_specific_filename_anywhere() {
    let result = run_walk(&["config.json", "src/config.json", "app/main.js"], &[(".gitignore", "config.json")]);
    let expected: Vec<String> = vec![".gitignore", "app", "app/main.js"].into_iter().map(|s: &str| s.to_string()).collect();
    assert_eq!(result, expected);
}

#[test]
fn test_character_class_in_pattern() {
    let result = run_walk(&["data1.csv", "data2.csv", "dataA.csv", "other.txt"], &[(".gitignore", "data[0-9].csv")]);
    let expected: Vec<String> = vec![".gitignore", "dataA.csv", "other.txt"].into_iter().map(|s: &str| s.to_string()).collect();
    assert_eq!(result, expected);
}

#[test]
fn test_whitelisting_subdirectory_in_ignored_directory() {
    let result = run_walk(&["output/logs/a.log", "output/data/b.dat", "config.txt"], &[(".gitignore", "output/\n!output/data/")]);
    let expected: Vec<String> = vec![".gitignore", "config.txt"].into_iter().map(|s: &str| s.to_string()).collect();
    assert_eq!(result, expected);
}

#[test]
fn test_whitelisting_subdirectory_in_ignored_directory_2() {
    let result = run_walk(&["output/logs/a.log", "output/data/b.dat", "config.txt"], &[(".gitignore", "output/**\n!output/data/**")]);
    let expected: Vec<String> = vec![".gitignore", "config.txt", "output", "output/data", "output/data/b.dat"].into_iter().map(|s: &str| s.to_string()).collect();
    assert_eq!(result, expected);
}

#[test]
fn test_escaped_negation_pattern() {
    let result = run_walk(&["!important.txt", "normal.txt"], &[(".gitignore", "\\!important.txt")]);
    let expected: Vec<String> = vec![".gitignore", "normal.txt"].into_iter().map(|s: &str| s.to_string()).collect();
    assert_eq!(result, expected);
}

#[test]
fn test_complex_nested_and_overriding_rules() {
    let result = run_walk(&["logs/a.log", "logs/b.log", "src/main.rs", "src/lib.rs", "src/tests/test1.rs", "src/tests/data/test.dat", "docs/index.md"], &[(".gitignore", "logs/\n*.rs\n!/src/lib.rs"), ("src/.gitignore", "!*.rs\n/tests/"), ("src/tests/.gitignore", "*.dat")]);
    let expected: Vec<String> = vec![".gitignore", "docs", "docs/index.md", "src", "src/.gitignore", "src/lib.rs", "src/main.rs"].into_iter().map(|s: &str| s.to_string()).collect();
    assert_eq!(result, expected);
}

#[test]
fn test_include_directories_in_result() {
    let result = run_walk(&["dir/a.txt", "b.txt"], &[(".gitignore", "b.txt")]);
    let expected: Vec<String> = vec![".gitignore", "dir", "dir/a.txt"].into_iter().map(|s: &str| s.to_string()).collect();
    assert_eq!(result, expected);
}

#[test]
fn test_whitelisting_files_in_directory() {
    let result = run_walk(&["a.log", "b.txt", "important/d.log", "important/e.txt", "trace.c"], &[(".gitignore", "*.log\n!important/*.log\ntrace.*")]);
    let expected: Vec<String> = vec![".gitignore", "b.txt", "important", "important/d.log", "important/e.txt"].into_iter().map(|s: &str| s.to_string()).collect();
    assert_eq!(result, expected);
}

#[test]
fn test_complex_whitelisting() {
    let result = run_walk(&["test1/a.txt", "test1/b.bin", "test1/c/c.txt", "test2/a.txt", "test2/b.bin", "test2/c/c.txt"], &[(".gitignore", "*\n!*/\n!*.txt\n/test1/**")]);
    let expected: Vec<String> = vec!["test1", "test1/a.txt", "test2", "test2/a.txt", "test2/c", "test2/c/c.txt"].into_iter().map(|s: &str| s.to_string()).collect();
    assert_eq!(result, expected);
}

#[test]
fn test_ignore_all_then_whitelist_dir() {
    let result = run_walk(&["ignore.txt", "libfoo/__init__.py", "libfoo/bar/baz.py"], &[(".gitignore", "*\n!/libfoo/**")]);
    let expected: Vec<String> = vec![].into_iter().map(|s: &str| s.to_string()).collect();
    assert_eq!(result, expected);
}

#[test]
fn test_very_complex_nested_gitignore_rules() {
    let result = run_walk(&["package.json", "main.log", "app/server.js", "app/server.log", "app/client/main.js", "app/client/style.css", "app/client/bundle.js", "app/db/data.sql", "app/db/schema.log"], &[(".gitignore", "*.log\n/node_modules/"), ("app/.gitignore", "!/app/server.log\n!/app/db/"), ("app/client/.gitignore", "*\n!bundle.js")]);
    let expected: Vec<String> = vec![".gitignore", "app", "app/.gitignore", "app/client", "app/client/bundle.js", "app/db", "app/db/data.sql", "app/server.js", "package.json"].into_iter().map(|s: &str| s.to_string()).collect();
    assert_eq!(result, expected);
}

#[test]
fn some_test() {
    let result = run_walk(&["ignore.txt", ".git/a.txt"], &[(".gitignore", ".git")]);
    let expected: Vec<String> = vec![".gitignore", "ignore.txt"].into_iter().map(|s: &str| s.to_string()).collect();
    assert_eq!(result, expected);
}

#[test]
fn test_double_star_in_middle() {
    let result = run_walk(&["a/b/c/z.txt", "a/z.txt", "x/y.txt"], &[(".gitignore", "a/**/z.txt")]);
    let expected: Vec<String> = vec![".gitignore", "x", "x/y.txt"].into_iter().map(|s: &str| s.to_string()).collect();
    assert_eq!(result, expected);
}

#[test]
fn test_trailing_spaces_in_pattern() {
    let result = run_walk(&["foo", "bar"], &[(".gitignore", "foo  ")]);
    let expected: Vec<String> = vec![".gitignore", "bar"].into_iter().map(|s: &str| s.to_string()).collect();
    assert_eq!(result, expected);
}

#[test]
fn test_trailing_escaped_spaces_in_pattern() {
    let result = run_walk(&["foo", "bar"], &[(".gitignore", "foo\\ ")]);
    let expected: Vec<String> = vec![".gitignore", "bar", "foo"].into_iter().map(|s: &str| s.to_string()).collect();
    assert_eq!(result, expected);
}

#[test]
fn test_reinclude_file_in_ignored_dir_tree() {
    let result = run_walk(&["build/app/app.js", "build/lib/lib.js", "build/test.txt"], &[(".gitignore", "/build/*\n!/build/app\n/build/app/*\n!/build/app/app.js")]);
    let expected: Vec<String> = vec![".gitignore", "build", "build/app", "build/app/app.js"].into_iter().map(|s: &str| s.to_string()).collect();
    assert_eq!(result, expected);
}

#[test]
fn test_question_mark_wildcard() {
    let result = run_walk(&["a.txt", "ab.txt", "abc.txt", "b.txt"], &[(".gitignore", "a?.txt")]);
    let expected: Vec<String> = vec![".gitignore", "a.txt", "abc.txt", "b.txt"].into_iter().map(|s: &str| s.to_string()).collect();
    assert_eq!(result, expected);
}

#[test]
fn test_complex_nested_whitelisting() {
    let result = run_walk(&["a/b/c.js", "a/b/c.txt", "a/d.js", "a/d.txt", "e.js", "e.txt"], &[(".gitignore", "*.js\n!/a/b/c.js"), ("a/.gitignore", "*.txt\n!d.txt")]);
    let expected: Vec<String> = vec![".gitignore", "a", "a/.gitignore", "a/b", "a/b/c.js", "a/d.txt", "e.txt"].into_iter().map(|s: &str| s.to_string()).collect();
    assert_eq!(result, expected);
}

#[test]
fn test_dir_names_with_glob_chars() {
    let result = run_walk(&["a[b]/c.txt", "a?b/d.txt", "a*b/e.txt"], &[(".gitignore", "a*b/*")]);
    let expected: Vec<String> = vec![".gitignore", "a[b]", "a[b]/c.txt"].into_iter().map(|s: &str| s.to_string()).collect();
    assert_eq!(result, expected);
}

#[test]
fn test_unignoring_gitignore_itself() {
    let result = run_walk(&["a.txt", "b.txt"], &[(".gitignore", "*\n!.gitignore")]);
    let expected: Vec<String> = vec![".gitignore"].into_iter().map(|s: &str| s.to_string()).collect();
    assert_eq!(result, expected);
}
