//! Traversal of a directory snapshot under a set of ignore rules.
//!
//! The walker works on an in-memory snapshot of the tree: a list of entries,
//! each a path relative to the ignore root together with its kind and, for
//! files, its text content. Visiting a directory first loads the ignore file
//! found there (appending its patterns to the shared rule set), then tests
//! every immediate child: ignored children are skipped — an ignored
//! directory is pruned outright, none of its descendants is ever examined —
//! remaining files are emitted, and remaining directories are descended
//! into. Reading the snapshot from a live filesystem is the caller's
//! concern.

use vstd::prelude::*;
use vstd::string::StrSliceExecFns;
use vstd::string::StringExecFns;

use crate::ignore_rules::check_model;
use crate::ignore_rules::content_to_patterns;
use crate::ignore_rules::global_patterns_model;
use crate::ignore_rules::lines_patterns;
use crate::ignore_rules::rel_raw;
use crate::ignore_rules::spec_lines;
use crate::ignore_rules::str_eq;
use crate::ignore_rules::under_root;
use crate::ignore_rules::IgnoreRules;
use crate::pattern::last_slash;
use crate::pattern::parent_of;
use crate::pattern::parent_path;
use crate::pattern::MatchResult;
use crate::pattern::PatternModel;

verus! {

/// Options to configure directory walking.
#[derive(Debug)]
pub struct WalkOptions {
    /// The ignore filename (`.gitignore`, `.xvcignore`, …) or `None` to
    /// disable ignore-file ingestion entirely.
    pub ignore_filename: Option<String>,
    /// Whether to skip `.git` directories outright.
    pub ignore_dot_git: bool,
}

impl WalkOptions {
    /// A walker configuration for Git repositories, reading `.gitignore`
    /// files and skipping `.git`.
    pub fn gitignore() -> (r: Self)
        ensures
            r.ignore_filename is Some,
            r.ignore_filename.unwrap()@ == ".gitignore"@,
            r.ignore_dot_git,
    {
        WalkOptions { ignore_filename: Some(String::from_str(".gitignore")), ignore_dot_git: true }
    }

    /// A walker configuration for Xvc repositories, reading `.xvcignore`
    /// files and skipping `.git`.
    pub fn xvcignore() -> (r: Self)
        ensures
            r.ignore_filename is Some,
            r.ignore_filename.unwrap()@ == ".xvcignore"@,
            r.ignore_dot_git,
    {
        WalkOptions { ignore_filename: Some(String::from_str(".xvcignore")), ignore_dot_git: true }
    }
}

/// One entry of an in-memory directory snapshot.
#[derive(Debug)]
pub struct FsEntry {
    /// The entry's path relative to the ignore root, `/`-separated, with no
    /// leading or trailing `/`.
    pub path: String,
    /// Whether the entry is a directory.
    pub is_dir: bool,
    /// The file's text content; meaningful for ignore files, empty or
    /// arbitrary elsewhere. Unused for directories.
    pub content: String,
}

impl Clone for FsEntry {
    /// A clone carries the same entry.
    fn clone(&self) -> (r: Self)
        ensures
            r == *self,
    {
        FsEntry { path: self.path.clone(), is_dir: self.is_dir, content: self.content.clone() }
    }
}

/// Mathematical image of an [`FsEntry`].
#[verifier::ext_equal]
pub struct EntryModel {
    /// The entry's path relative to the ignore root.
    pub path: Seq<char>,
    /// Whether the entry is a directory.
    pub is_dir: bool,
    /// The file's text content.
    pub content: Seq<char>,
}

impl View for FsEntry {
    type V = EntryModel;

    open spec fn view(&self) -> EntryModel {
        EntryModel { path: self.path@, is_dir: self.is_dir, content: self.content@ }
    }
}

/// The view of a whole snapshot.
pub open spec fn tree_model(tree: Seq<FsEntry>) -> Seq<EntryModel> {
    tree.map_values(|e: FsEntry| e@)
}

/// A snapshot is well formed when every entry path is nonempty and carries
/// no leading or trailing `/`.
pub open spec fn wf_tree(t: Seq<EntryModel>) -> bool {
    forall|i: int|
        0 <= i < t.len() ==> (#[trigger] t[i].path).len() > 0 && t[i].path[0] != '/'
            && t[i].path[t[i].path.len() - 1] != '/'
}

/// The length of the longest entry path in the snapshot.
pub open spec fn max_path_len(t: Seq<EntryModel>) -> nat
    decreases t.len(),
{
    if t.len() == 0 {
        0
    } else {
        let m = max_path_len(t.drop_last());
        if t.last().path.len() > m {
            t.last().path.len()
        } else {
            m
        }
    }
}

/// Every entry path is at most [`max_path_len`] long.
pub proof fn lemma_max_path_len(t: Seq<EntryModel>, i: int)
    requires
        0 <= i < t.len(),
    ensures
        t[i].path.len() <= max_path_len(t),
    decreases t.len(),
{
    if i == t.len() - 1 {
    } else {
        lemma_max_path_len(t.drop_last(), i);
    }
}

/// Whether `p` names an immediate child of directory `d`.
pub open spec fn is_child_of(p: Seq<char>, d: Seq<char>) -> bool {
    parent_path(p) == Some(d)
}

/// The final path component of `p`.
pub open spec fn base_name(p: Seq<char>) -> Seq<char> {
    if last_slash(p) < 0 {
        p
    } else {
        p.skip(last_slash(p) + 1)
    }
}

/// `d/name`, or `name` alone directly under the root.
pub open spec fn join_path(d: Seq<char>, name: Seq<char>) -> Seq<char> {
    if d.len() == 0 {
        name
    } else {
        d + seq!['/'] + name
    }
}

/// The absolute form of a relative path: `root/rel`.
pub open spec fn abs_of(root: Seq<char>, rel: Seq<char>) -> Seq<char> {
    root + seq!['/'] + rel
}

/// The first file entry with the given relative path, searching from `idx`.
pub open spec fn find_file_from(t: Seq<EntryModel>, path: Seq<char>, idx: int) -> Option<int>
    decreases t.len() - idx,
{
    if idx < 0 || idx >= t.len() {
        None
    } else if t[idx].path == path && !t[idx].is_dir {
        Some(idx)
    } else {
        find_file_from(t, path, idx + 1)
    }
}

/// The rule list after the ignore file of directory `dir` (if the snapshot
/// holds one) is appended to `rules`.
pub open spec fn load_dir_rules(
    t: Seq<EntryModel>,
    fname: Option<Seq<char>>,
    rules: Seq<PatternModel>,
    dir: Seq<char>,
) -> Seq<PatternModel> {
    match fname {
        Some(f) => {
            let igrel = join_path(dir, f);
            match find_file_from(t, igrel, 0) {
                Some(i) => rules + lines_patterns(spec_lines(t[i].content), 1, Some(igrel)),
                None => rules,
            }
        },
        None => rules,
    }
}

/// What walking directory `dir` does: the emitted absolute file paths and
/// the rule list as it stands afterwards. The directory's own ignore file is
/// loaded first; then every immediate child is tested against the rules as
/// they stand when it is reached.
pub open spec fn walk_dir_model(
    t: Seq<EntryModel>,
    root: Seq<char>,
    fname: Option<Seq<char>>,
    dot_git: bool,
    rules: Seq<PatternModel>,
    dir: Seq<char>,
    bound: nat,
) -> (Seq<Seq<char>>, Seq<PatternModel>)
    decreases bound - dir.len(), t.len() + 1, 1int,
{
    if dir.len() > bound {
        (Seq::empty(), rules)
    } else {
        let rules1 = load_dir_rules(t, fname, rules, dir);
        walk_children_model(t, root, fname, dot_git, rules1, dir, 0, bound)
    }
}

/// One step of the walk over `dir`'s children, starting at entry `idx`:
/// skipped children leave no trace, an emitted file contributes its absolute
/// path, and a descended directory contributes its whole sub-walk, whose
/// grown rule list the remaining children are tested against.
pub open spec fn walk_children_model(
    t: Seq<EntryModel>,
    root: Seq<char>,
    fname: Option<Seq<char>>,
    dot_git: bool,
    rules: Seq<PatternModel>,
    dir: Seq<char>,
    idx: int,
    bound: nat,
) -> (Seq<Seq<char>>, Seq<PatternModel>)
    decreases bound - dir.len(), t.len() - idx, 0int,
{
    if idx < 0 || idx >= t.len() || dir.len() > bound {
        (Seq::empty(), rules)
    } else {
        let e = t[idx];
        if is_child_of(e.path, dir) && !(dot_git && base_name(e.path) == seq!['.', 'g', 'i', 't'])
        {
            if check_model(rules, e.path, e.is_dir) == MatchResult::Ignore {
                walk_children_model(t, root, fname, dot_git, rules, dir, idx + 1, bound)
            } else if e.is_dir {
                if dir.len() < e.path.len() <= bound {
                    let sub = walk_dir_model(t, root, fname, dot_git, rules, e.path, bound);
                    let rest = walk_children_model(
                        t,
                        root,
                        fname,
                        dot_git,
                        sub.1,
                        dir,
                        idx + 1,
                        bound,
                    );
                    (sub.0 + rest.0, rest.1)
                } else {
                    walk_children_model(t, root, fname, dot_git, rules, dir, idx + 1, bound)
                }
            } else {
                let rest = walk_children_model(t, root, fname, dot_git, rules, dir, idx + 1, bound);
                (seq![abs_of(root, e.path)] + rest.0, rest.1)
            }
        } else {
            walk_children_model(t, root, fname, dot_git, rules, dir, idx + 1, bound)
        }
    }
}

/// Finds the first file entry with the given relative path.
fn find_file(tree: &Vec<FsEntry>, path: &str) -> (r: Option<usize>)
    ensures
        match r {
            Some(i) => find_file_from(tree_model(tree@), path@, 0) == Some(i as int) && i
                < tree@.len(),
            None => find_file_from(tree_model(tree@), path@, 0) is None,
        },
{
    let n = tree.len();
    let mut i: usize = 0;
    while i < n
        invariant
            0 <= i <= n,
            n == tree@.len(),
            find_file_from(tree_model(tree@), path@, 0) == find_file_from(
                tree_model(tree@),
                path@,
                i as int,
            ),
        decreases n - i,
    {
        proof {
            assert(tree_model(tree@)[i as int] == tree@[i as int]@);
        }
        if !tree[i].is_dir && str_eq(tree[i].path.as_str(), path) {
            return Some(i);
        }
        i = i + 1;
    }
    None
}

/// `d/name`, or `name` alone directly under the root.
fn join(d: &str, name: &str) -> (r: String)
    ensures
        r@ == join_path(d@, name@),
{
    if d.unicode_len() == 0 {
        name.to_owned()
    } else {
        let mut s = d.to_owned();
        s.append("/");
        s.append(name);
        proof {
            reveal_strlit("/");
            assert(("/")@ =~= seq!['/']);
        }
        s
    }
}

/// The final path component of `p`.
fn base_name_of(p: &str) -> (r: &str)
    ensures
        r@ == base_name(p@),
{
    let plen = p.unicode_len();
    let mut i = plen;
    proof {
        assert(p@.subrange(0, plen as int) =~= p@);
    }
    while i > 0 && p.get_char(i - 1) != '/'
        invariant
            0 <= i <= plen,
            plen == p@.len(),
            last_slash(p@) == last_slash(p@.subrange(0, i as int)),
            forall|j: int| i <= j < plen ==> p@[j] != '/',
        decreases i,
    {
        proof {
            assert(p@.subrange(0, i as int)[i - 1] == p@[i - 1]);
            assert(p@.subrange(0, i as int).drop_last() =~= p@.subrange(0, i - 1));
        }
        i = i - 1;
    }
    proof {
        if i == 0 {
            assert(p@.subrange(0, 0) =~= Seq::<char>::empty());
            assert(last_slash(p@) < 0);
            assert(p@.skip(0) =~= p@);
        } else {
            assert(p@.subrange(0, i as int)[i - 1] == p@[i - 1]);
            assert(last_slash(p@.subrange(0, i as int)) == i - 1);
        }
    }
    p.substring_char(i, plen)
}

/// Loads the ignore file named `fname` of directory `dir` (relative to the
/// rules' root, empty for the root itself) from the snapshot into the rules,
/// if the snapshot holds one there.
fn load_ignore_file(fname: &str, dir: &str, ignore_rules: &mut IgnoreRules, tree: &Vec<FsEntry>)
    requires
        wf_tree(tree_model(tree@)),
    ensures
        final(ignore_rules)@.root == old(ignore_rules)@.root,
        final(ignore_rules)@.ignore_filename == old(ignore_rules)@.ignore_filename,
        final(ignore_rules)@.patterns == load_dir_rules(
            tree_model(tree@),
            Some(fname@),
            old(ignore_rules)@.patterns,
            dir@,
        ),
{
    let igrel = join(dir, fname);
    match find_file(tree, igrel.as_str()) {
        Some(i) => {
            let abs = {
                let mut s = ignore_rules.root.clone();
                s.append("/");
                s.append(igrel.as_str());
                s
            };
            proof {
                reveal_strlit("/");
                assert(("/")@ =~= seq!['/']);
                assert(abs@ == abs_of(ignore_rules@.root, igrel@));
                assert(abs@.subrange(0, ignore_rules@.root.len() as int) =~= ignore_rules@.root);
                assert(under_root(ignore_rules@.root, abs@));
                assert(rel_raw(ignore_rules@.root, abs@) =~= igrel@);
                assert(tree_model(tree@)[i as int] == tree@[i as int]@);
            }
            let root = ignore_rules.root.clone();
            let patterns = content_to_patterns(
                root.as_str(),
                Some(abs.as_str()),
                tree[i].content.as_str(),
            );
            ignore_rules.add_patterns(patterns);
        },
        None => (),
    }
}

/// Loads the ignore file of directory `dir` (relative to the rules' root,
/// empty for the root itself) from the snapshot into the rules, going by the
/// ignore filename the rules were created with; without one, nothing is
/// loaded.
pub fn update_ignore_rules(dir: &str, ignore_rules: &mut IgnoreRules, tree: &Vec<FsEntry>)
    requires
        wf_tree(tree_model(tree@)),
    ensures
        final(ignore_rules)@.root == old(ignore_rules)@.root,
        final(ignore_rules)@.ignore_filename == old(ignore_rules)@.ignore_filename,
        final(ignore_rules)@.patterns == load_dir_rules(
            tree_model(tree@),
            old(ignore_rules)@.ignore_filename,
            old(ignore_rules)@.patterns,
            dir@,
        ),
{
    let fname: Option<String> = match &ignore_rules.ignore_filename {
        Some(f) => Some(f.clone()),
        None => None,
    };
    match fname {
        Some(f) => load_ignore_file(f.as_str(), dir, ignore_rules, tree),
        None => (),
    }
}

/// Walks directory `dir` of the snapshot: loads its ignore file, then tests
/// every immediate child, emitting non-ignored files and descending into
/// non-ignored directories. Returns the absolute paths of the emitted files.
fn walk_dir(
    rules: &mut IgnoreRules,
    tree: &Vec<FsEntry>,
    options: &WalkOptions,
    dir: &str,
    Ghost(bound): Ghost<nat>,
) -> (emitted: Vec<String>)
    requires
        wf_tree(tree_model(tree@)),
        forall|i: int|
            0 <= i < tree_model(tree@).len() ==> (#[trigger] tree_model(
                tree@,
            )[i].path).len() <= bound,
        dir@.len() <= bound,
    ensures
        final(rules)@.root == old(rules)@.root,
        final(rules)@.ignore_filename == old(rules)@.ignore_filename,
        ({
            let m = walk_dir_model(
                tree_model(tree@),
                old(rules)@.root,
                options.ignore_filename.deep_view(),
                options.ignore_dot_git,
                old(rules)@.patterns,
                dir@,
                bound,
            );
            final(rules)@.patterns == m.1 && emitted@.map_values(|s: String| s@) == m.0
        }),
    decreases bound - dir@.len(),
{
    let ghost t = tree_model(tree@);
    let ghost root0 = rules@.root;
    let ghost fnames: Option<Seq<char>> = options.ignore_filename.deep_view();
    let ghost g = options.ignore_dot_git;

    match &options.ignore_filename {
        Some(f) => load_ignore_file(f.as_str(), dir, rules, tree),
        None => (),
    }
    let ghost rules1 = rules@.patterns;
    proof {
        assert(rules1 == load_dir_rules(t, fnames, old(rules)@.patterns, dir@));
    }

    let mut emitted: Vec<String> = Vec::new();
    let n = tree.len();
    let mut idx: usize = 0;
    let ghost full = walk_children_model(t, root0, fnames, g, rules1, dir@, 0, bound);
    proof {
        assert(emitted@.map_values(|s: String| s@) =~= Seq::<Seq<char>>::empty());
        assert(Seq::<Seq<char>>::empty() + full.0 =~= full.0);
    }
    while idx < n
        invariant
            wf_tree(t),
            t == tree_model(tree@),
            forall|i: int| 0 <= i < t.len() ==> (#[trigger] t[i].path).len() <= bound,
            dir@.len() <= bound,
            0 <= idx <= n,
            n == tree@.len(),
            rules@.root == root0,
            rules@.ignore_filename == old(rules)@.ignore_filename,
            fnames == options.ignore_filename.deep_view(),
            g == options.ignore_dot_git,
            ({
                let rem = walk_children_model(
                    t,
                    root0,
                    fnames,
                    g,
                    rules@.patterns,
                    dir@,
                    idx as int,
                    bound,
                );
                full.0 == emitted@.map_values(|s: String| s@) + rem.0 && full.1 == rem.1
            }),
        decreases n - idx,
    {
        proof {
            assert(t[idx as int] == tree@[idx as int]@);
        }
        let e = &tree[idx];
        let child = match parent_of(e.path.as_str()) {
            Some(d) => str_eq(d.as_str(), dir),
            None => false,
        };
        let ghost acc = emitted@.map_values(|s: String| s@);
        if child {
            let name = base_name_of(e.path.as_str());
            let dot_git = options.ignore_dot_git && str_eq(name, ".git");
            proof {
                reveal_strlit(".git");
                assert((".git")@ =~= seq!['.', 'g', 'i', 't']);
            }
            if !dot_git {
                let abs = {
                    let mut s = rules.root.clone();
                    s.append("/");
                    s.append(e.path.as_str());
                    s
                };
                proof {
                    reveal_strlit("/");
                    assert(("/")@ =~= seq!['/']);
                    assert(abs@ == abs_of(root0, e.path@));
                    assert(abs@.subrange(0, root0.len() as int) =~= root0);
                    assert(under_root(rules@.root, abs@));
                    assert(rel_raw(root0, abs@) =~= e.path@);
                    assert(crate::ignore_rules::strip_trailing_slashes(e.path@) == e.path@);
                }
                let verdict = rules.check(abs.as_str(), e.is_dir);
                if matches!(verdict, MatchResult::Ignore) {
                    // pruned: neither emitted nor descended
                } else if e.is_dir {
                    proof {
                        lemma_parent_shorter(e.path@, dir@);
                    }
                    let mut sub = walk_dir(rules, tree, options, e.path.as_str(), Ghost(bound));
                    let ghost subv = sub@.map_values(|s: String| s@);
                    emitted.append(&mut sub);
                    proof {
                        assert(emitted@.map_values(|s: String| s@) =~= acc + subv);
                    }
                } else {
                    emitted.push(abs);
                    proof {
                        assert(emitted@.map_values(|s: String| s@) =~= acc + seq![
                            abs_of(root0, e.path@),
                        ]);
                    }
                }
            }
        }
        proof {
            let rem_now = walk_children_model(
                t,
                root0,
                fnames,
                g,
                rules@.patterns,
                dir@,
                idx as int + 1,
                bound,
            );
            assert(full.0 =~= emitted@.map_values(|s: String| s@) + rem_now.0);
        }
        idx = idx + 1;
    }
    proof {
        assert(full.0 =~= emitted@.map_values(|s: String| s@));
    }
    emitted
}

/// Walks the whole snapshot under the rules' root: the parallel traversal's
/// outcome, computed serially. Returns the absolute paths of every emitted
/// file; the rules have grown by every ignore file of a visited directory.
pub fn walk_tree(rules: &mut IgnoreRules, tree: &Vec<FsEntry>, options: &WalkOptions) -> (emitted:
    Vec<String>)
    requires
        wf_tree(tree_model(tree@)),
    ensures
        final(rules)@.root == old(rules)@.root,
        final(rules)@.ignore_filename == old(rules)@.ignore_filename,
        ({
            let m = walk_dir_model(
                tree_model(tree@),
                old(rules)@.root,
                options.ignore_filename.deep_view(),
                options.ignore_dot_git,
                old(rules)@.patterns,
                Seq::<char>::empty(),
                max_path_len(tree_model(tree@)),
            );
            final(rules)@.patterns == m.1 && emitted@.map_values(|s: String| s@) == m.0
        }),
{
    let ghost bound = max_path_len(tree_model(tree@));
    proof {
        assert forall|i: int| 0 <= i < tree_model(tree@).len() implies (#[trigger] tree_model(
            tree@,
        )[i].path).len() <= bound by {
            lemma_max_path_len(tree_model(tree@), i);
        }
        reveal_strlit("");
        assert(("")@ =~= Seq::<char>::empty());
    }
    walk_dir(rules, tree, options, "", Ghost(bound))
}

/// The rule list that collecting ignore files below `dir` yields: `dir`'s
/// own ignore file is loaded first, then every non-ignored child directory
/// is descended into; an ignored directory is pruned, its ignore files
/// untouched.
pub open spec fn build_dir_model(
    t: Seq<EntryModel>,
    fname: Seq<char>,
    rules: Seq<PatternModel>,
    dir: Seq<char>,
    bound: nat,
) -> Seq<PatternModel>
    decreases bound - dir.len(), t.len() + 1, 1int,
{
    if dir.len() > bound {
        rules
    } else {
        let rules1 = load_dir_rules(t, Some(fname), rules, dir);
        build_children_model(t, fname, rules1, dir, 0, bound)
    }
}

/// One step of ignore-file collection over `dir`'s children, starting at
/// entry `idx`.
pub open spec fn build_children_model(
    t: Seq<EntryModel>,
    fname: Seq<char>,
    rules: Seq<PatternModel>,
    dir: Seq<char>,
    idx: int,
    bound: nat,
) -> Seq<PatternModel>
    decreases bound - dir.len(), t.len() - idx, 0int,
{
    if idx < 0 || idx >= t.len() || dir.len() > bound {
        rules
    } else {
        let e = t[idx];
        if is_child_of(e.path, dir) && e.is_dir && check_model(rules, e.path, true)
            != MatchResult::Ignore && dir.len() < e.path.len() <= bound {
            let sub = build_dir_model(t, fname, rules, e.path, bound);
            build_children_model(t, fname, sub, dir, idx + 1, bound)
        } else {
            build_children_model(t, fname, rules, dir, idx + 1, bound)
        }
    }
}

/// Collects the ignore files below `dir` into the rules; see
/// [`build_dir_model`].
fn build_dir(
    rules: &mut IgnoreRules,
    tree: &Vec<FsEntry>,
    fname: &str,
    dir: &str,
    Ghost(bound): Ghost<nat>,
)
    requires
        wf_tree(tree_model(tree@)),
        forall|i: int|
            0 <= i < tree_model(tree@).len() ==> (#[trigger] tree_model(
                tree@,
            )[i].path).len() <= bound,
        dir@.len() <= bound,
    ensures
        final(rules)@.root == old(rules)@.root,
        final(rules)@.ignore_filename == old(rules)@.ignore_filename,
        final(rules)@.patterns == build_dir_model(
            tree_model(tree@),
            fname@,
            old(rules)@.patterns,
            dir@,
            bound,
        ),
    decreases bound - dir@.len(),
{
    let ghost t = tree_model(tree@);
    let ghost root0 = rules@.root;

    load_ignore_file(fname, dir, rules, tree);
    let ghost rules1 = rules@.patterns;

    let n = tree.len();
    let mut idx: usize = 0;
    let ghost full = build_children_model(t, fname@, rules1, dir@, 0, bound);
    while idx < n
        invariant
            wf_tree(t),
            t == tree_model(tree@),
            forall|i: int| 0 <= i < t.len() ==> (#[trigger] t[i].path).len() <= bound,
            dir@.len() <= bound,
            0 <= idx <= n,
            n == tree@.len(),
            rules@.root == root0,
            rules@.ignore_filename == old(rules)@.ignore_filename,
            full == build_children_model(t, fname@, rules@.patterns, dir@, idx as int, bound),
        decreases n - idx,
    {
        proof {
            assert(t[idx as int] == tree@[idx as int]@);
        }
        let e = &tree[idx];
        let child = match parent_of(e.path.as_str()) {
            Some(d) => str_eq(d.as_str(), dir),
            None => false,
        };
        if child && e.is_dir {
            let abs = {
                let mut s = rules.root.clone();
                s.append("/");
                s.append(e.path.as_str());
                s
            };
            proof {
                reveal_strlit("/");
                assert(("/")@ =~= seq!['/']);
                assert(abs@ == abs_of(root0, e.path@));
                assert(abs@.subrange(0, root0.len() as int) =~= root0);
                assert(under_root(rules@.root, abs@));
                assert(rel_raw(root0, abs@) =~= e.path@);
                assert(crate::ignore_rules::strip_trailing_slashes(e.path@) == e.path@);
            }
            let verdict = rules.check(abs.as_str(), true);
            if !matches!(verdict, MatchResult::Ignore) {
                proof {
                    lemma_parent_shorter(e.path@, dir@);
                }
                build_dir(rules, tree, fname, e.path.as_str(), Ghost(bound));
            }
        }
        idx = idx + 1;
    }
}

/// Builds the full rule set for a snapshot: the global patterns first, then
/// the ignore files named `ignore_filename` of every directory that the
/// rules, as they stand when the directory is reached, do not ignore.
pub fn build_ignore_patterns(
    given: &str,
    ignore_root: &str,
    ignore_filename: &str,
    tree: &Vec<FsEntry>,
) -> (r: IgnoreRules)
    requires
        wf_tree(tree_model(tree@)),
    ensures
        r@.root == ignore_root@,
        r@.ignore_filename == Some(ignore_filename@),
        r@.patterns == build_dir_model(
            tree_model(tree@),
            ignore_filename@,
            global_patterns_model(given@),
            Seq::<char>::empty(),
            max_path_len(tree_model(tree@)),
        ),
{
    let mut rules = IgnoreRules::from_global_patterns(ignore_root, Some(ignore_filename), given);
    let ghost bound = max_path_len(tree_model(tree@));
    proof {
        assert forall|i: int| 0 <= i < tree_model(tree@).len() implies (#[trigger] tree_model(
            tree@,
        )[i].path).len() <= bound by {
            lemma_max_path_len(tree_model(tree@), i);
        }
        reveal_strlit("");
        assert(("")@ =~= Seq::<char>::empty());
    }
    build_dir(&mut rules, tree, ignore_filename, "", Ghost(bound));
    rules
}

/// The children of directory `dir` among the snapshot entries from `idx` on,
/// in snapshot order.
pub open spec fn children_from(t: Seq<EntryModel>, dir: Seq<char>, idx: int) -> Seq<EntryModel>
    decreases t.len() - idx,
{
    if idx < 0 || idx >= t.len() {
        Seq::empty()
    } else {
        let rest = children_from(t, dir, idx + 1);
        if is_child_of(t[idx].path, dir) {
            seq![t[idx]] + rest
        } else {
            rest
        }
    }
}

/// Lists the immediate children of directory `dir` (relative to the root,
/// empty for the root itself), regardless of any ignore rules.
pub fn directory_list(tree: &Vec<FsEntry>, dir: &str) -> (r: Vec<FsEntry>)
    ensures
        r@.map_values(|e: FsEntry| e@) == children_from(tree_model(tree@), dir@, 0),
{
    let ghost t = tree_model(tree@);
    let mut r: Vec<FsEntry> = Vec::new();
    let n = tree.len();
    let mut idx: usize = 0;
    proof {
        assert(r@.map_values(|e: FsEntry| e@) + children_from(t, dir@, 0) =~= children_from(
            t,
            dir@,
            0,
        ));
    }
    while idx < n
        invariant
            0 <= idx <= n,
            n == tree@.len(),
            t == tree_model(tree@),
            r@.map_values(|e: FsEntry| e@) + children_from(t, dir@, idx as int) == children_from(
                t,
                dir@,
                0,
            ),
        decreases n - idx,
    {
        proof {
            assert(t[idx as int] == tree@[idx as int]@);
        }
        let ghost acc = r@.map_values(|e: FsEntry| e@);
        let e = &tree[idx];
        let child = match parent_of(e.path.as_str()) {
            Some(d) => str_eq(d.as_str(), dir),
            None => false,
        };
        if child {
            r.push(e.clone());
            proof {
                assert(r@.map_values(|e: FsEntry| e@) =~= acc + seq![t[idx as int]]);
            }
        }
        idx = idx + 1;
    }
    r
}

/// The absolute forms of the targets from `idx` on that the rules do not
/// ignore, in order.
pub open spec fn surviving_targets(
    rules: Seq<PatternModel>,
    root: Seq<char>,
    targets: Seq<Seq<char>>,
    idx: int,
) -> Seq<Seq<char>>
    decreases targets.len() - idx,
{
    if idx < 0 || idx >= targets.len() {
        Seq::empty()
    } else {
        let rest = surviving_targets(rules, root, targets, idx + 1);
        if check_model(rules, targets[idx], false) != MatchResult::Ignore {
            seq![abs_of(root, targets[idx])] + rest
        } else {
            rest
        }
    }
}

/// The targeted file-list variant of the walk: each target is a file path
/// relative to the rules' root (nonempty, no leading or trailing `/`); the
/// non-ignored ones come back as absolute paths, in the order given. No
/// directory is descended and no ignore file is loaded.
pub fn walk_file_targets(rules: &IgnoreRules, targets: &Vec<String>) -> (emitted: Vec<String>)
    requires
        forall|i: int|
            0 <= i < targets@.len() ==> (#[trigger] targets@[i]@).len() > 0 && targets@[i]@[0]
                != '/' && targets@[i]@[targets@[i]@.len() - 1] != '/',
    ensures
        emitted@.map_values(|s: String| s@) == surviving_targets(
            rules@.patterns,
            rules@.root,
            targets@.map_values(|s: String| s@),
            0,
        ),
        forall|k: int|
            0 <= k < emitted@.len() ==> exists|i: int|
                0 <= i < targets@.len() && #[trigger] emitted@[k]@ == abs_of(
                    rules@.root,
                    targets@[i]@,
                ) && check_model(rules@.patterns, targets@[i]@, false) != MatchResult::Ignore,
{
    let ghost ts = targets@.map_values(|s: String| s@);
    let mut emitted: Vec<String> = Vec::new();
    let n = targets.len();
    let mut idx: usize = 0;
    proof {
        assert(emitted@.map_values(|s: String| s@) + surviving_targets(
            rules@.patterns,
            rules@.root,
            ts,
            0,
        ) =~= surviving_targets(rules@.patterns, rules@.root, ts, 0));
    }
    while idx < n
        invariant
            0 <= idx <= n,
            n == targets@.len(),
            ts == targets@.map_values(|s: String| s@),
            forall|i: int|
                0 <= i < targets@.len() ==> (#[trigger] targets@[i]@).len() > 0 && targets@[i]@[0]
                    != '/' && targets@[i]@[targets@[i]@.len() - 1] != '/',
            emitted@.map_values(|s: String| s@) + surviving_targets(
                rules@.patterns,
                rules@.root,
                ts,
                idx as int,
            ) == surviving_targets(rules@.patterns, rules@.root, ts, 0),
            forall|k: int|
                0 <= k < emitted@.len() ==> exists|i: int|
                    0 <= i < targets@.len() && #[trigger] emitted@[k]@ == abs_of(
                        rules@.root,
                        targets@[i]@,
                    ) && check_model(rules@.patterns, targets@[i]@, false) != MatchResult::Ignore,
        decreases n - idx,
    {
        proof {
            assert(ts[idx as int] == targets@[idx as int]@);
        }
        let ghost acc = emitted@.map_values(|s: String| s@);
        let target = &targets[idx];
        let abs = {
            let mut s = rules.root.clone();
            s.append("/");
            s.append(target.as_str());
            s
        };
        proof {
            reveal_strlit("/");
            assert(("/")@ =~= seq!['/']);
            assert(abs@ == abs_of(rules@.root, target@));
            assert(abs@.subrange(0, rules@.root.len() as int) =~= rules@.root);
            assert(under_root(rules@.root, abs@));
            assert(rel_raw(rules@.root, abs@) =~= target@);
            assert(crate::ignore_rules::strip_trailing_slashes(target@) == target@);
        }
        let verdict = rules.check(abs.as_str(), false);
        if !matches!(verdict, MatchResult::Ignore) {
            emitted.push(abs);
            proof {
                assert(emitted@.map_values(|s: String| s@) =~= acc + seq![
                    abs_of(rules@.root, target@),
                ]);
            }
        }
        idx = idx + 1;
    }
    emitted
}

/// The parent of a child path is strictly shorter.
pub proof fn lemma_parent_shorter(p: Seq<char>, d: Seq<char>)
    requires
        is_child_of(p, d),
    ensures
        d.len() < p.len(),
{
    lemma_last_slash_bounds(p);
}

/// `last_slash` is either `-1` or a valid index of a `/`.
pub(crate) proof fn lemma_last_slash_bounds(p: Seq<char>)
    ensures
        last_slash(p) < p.len(),
        last_slash(p) >= 0 ==> p[last_slash(p)] == '/',
        last_slash(p) >= -1,
    decreases p.len(),
{
    if p.len() > 0 && p[p.len() - 1] != '/' {
        lemma_last_slash_bounds(p.drop_last());
        if last_slash(p.drop_last()) >= 0 {
            assert(p.drop_last()[last_slash(p.drop_last())] == p[last_slash(p)]);
        }
    }
}

} // verus!
