//! An ordered, append-only collection of ignore patterns scoped to one root
//! directory, with match arbitration for a queried path.
//!
//! A query walks the rule list in reverse insertion order, keeping the most
//! recent matching ignore pattern and the most recent matching whitelist
//! pattern. When both exist, a whitelist whose source directory lies strictly
//! inside the ignore's source directory and whose text is a bare filename
//! (no `/`, no wildcard) loses — a bare filename whitelist deep in a subtree
//! cannot resurrect the subtree an ancestor ignored. Otherwise the later
//! inserted pattern wins.

use vstd::prelude::*;
use vstd::string::StrSliceExecFns;
use vstd::string::StringExecFns;

use crate::glob::glob_match;
use crate::glob::glob_matches;
use crate::pattern::has_char;
use crate::pattern::parent_path;
use crate::pattern::parse_pattern;
use crate::pattern::parent_of;
use crate::pattern::source_dir;
use crate::pattern::MatchResult;
use crate::pattern::Pattern;
use crate::pattern::PatternEffect;
use crate::pattern::PathKind;
use crate::pattern::PatternModel;
use crate::pattern::Source;
use crate::pattern::SourceModel;

verus! {

/// Whether `s` holds one of the glob wildcard characters `*`, `?`, `[`.
pub open spec fn has_wildcard(s: Seq<char>) -> bool {
    has_char(s, '*') || has_char(s, '?') || has_char(s, '[')
}

/// Whether the string `p` holds one of the glob wildcard characters.
pub fn pattern_has_wildcard(p: &str) -> (r: bool)
    ensures
        r == has_wildcard(p@),
{
    let a = crate::pattern::contains_char(p, '*');
    let b = crate::pattern::contains_char(p, '?');
    let c = crate::pattern::contains_char(p, '[');
    a || b || c
}

/// Whether two strings hold the same characters.
pub fn str_eq(a: &str, b: &str) -> (r: bool)
    ensures
        r == (a@ == b@),
{
    let alen = a.unicode_len();
    let blen = b.unicode_len();
    if alen != blen {
        return false;
    }
    let mut i: usize = 0;
    while i < alen
        invariant
            0 <= i <= alen,
            alen == a@.len(),
            alen == b@.len(),
            forall|j: int| 0 <= j < i ==> a@[j] == b@[j],
        decreases alen - i,
    {
        if a.get_char(i) != b.get_char(i) {
            return false;
        }
        i = i + 1;
    }
    proof {
        assert(a@ =~= b@);
    }
    true
}

/// Whether `path` lies under `root`: it is `root` itself, or extends it at a
/// `/` boundary.
pub open spec fn under_root(root: Seq<char>, path: Seq<char>) -> bool {
    ||| path == root
    ||| (path.len() > root.len() && path.subrange(0, root.len() as int) == root && path[root.len() as int]
        == '/')
}

/// `s` with every trailing `/` removed.
pub open spec fn strip_trailing_slashes(s: Seq<char>) -> Seq<char>
    decreases s.len(),
{
    if s.len() > 0 && s[s.len() - 1] == '/' {
        strip_trailing_slashes(s.drop_last())
    } else {
        s
    }
}

/// The path relative to `root`: everything after `root` and its `/`, or the
/// empty path for the root itself.
pub open spec fn rel_raw(root: Seq<char>, path: Seq<char>) -> Seq<char> {
    if path.len() <= root.len() {
        Seq::empty()
    } else {
        path.skip(root.len() as int + 1)
    }
}

/// The queried path relative to `root`, with trailing slashes removed; the
/// root itself becomes the empty path.
pub open spec fn rel_path(root: Seq<char>, path: Seq<char>) -> Seq<char> {
    strip_trailing_slashes(rel_raw(root, path))
}

/// The probe string used for a directory query: the relative path with `/`
/// appended, or `/` alone for the root itself.
pub open spec fn dir_probe(rel: Seq<char>) -> Seq<char> {
    if rel.len() == 0 {
        seq!['/']
    } else {
        rel + seq!['/']
    }
}

/// Whether a pattern must be skipped because it originates in an ignore file
/// whose own directory is the queried path.
pub open spec fn self_file_skip(p: PatternModel, rel: Seq<char>) -> bool {
    match p.source {
        SourceModel::File { path, .. } => match parent_path(path) {
            Some(d) => d == rel,
            None => false,
        },
        _ => false,
    }
}

/// Whether the glob ends in `/*`.
pub open spec fn ends_slash_star(g: Seq<char>) -> bool {
    g.len() >= 2 && g[g.len() - 2] == '/' && g[g.len() - 1] == '*'
}

/// Whether the glob ends in a `**/` run (a trailing globstar component,
/// given the `/` that directory-only compilation appends).
pub open spec fn ends_globstar(g: Seq<char>) -> bool {
    g.len() >= 3 && g[g.len() - 3] == '*' && g[g.len() - 2] == '*' && g[g.len() - 1] == '/'
}

/// The raw match test of one pattern against the queried path. A directory
/// is probed both with and without its trailing `/`; a glob ending in `/*`
/// never matches the very directory it enumerates; and an ignore glob ending
/// in a `**` component names the directory's contents, never the directory
/// itself — so `dir/**` does not prune `dir`, while a whitelist of the same
/// shape may still re-include the directory it names.
pub open spec fn pattern_matches_path(p: PatternModel, rel: Seq<char>, is_dir: bool) -> bool {
    if is_dir {
        if ends_slash_star(p.glob) && p.glob.subrange(0, p.glob.len() - 2) == rel {
            false
        } else if p.effect == PatternEffect::Ignore && ends_globstar(p.glob) && p.glob.subrange(
            0,
            p.glob.len() - 3,
        ) == dir_probe(rel) {
            false
        } else {
            glob_matches(p.glob, dir_probe(rel)) || glob_matches(p.glob, rel)
        }
    } else {
        glob_matches(p.glob, rel)
    }
}

/// Whether one pattern matches the queried path and may fill a slot: it is
/// not skipped as the query's own ignore file, its glob matches, and a
/// directory-only pattern only ever applies to a directory.
pub open spec fn pattern_applies(p: PatternModel, rel: Seq<char>, is_dir: bool) -> bool {
    &&& !self_file_skip(p, rel)
    &&& pattern_matches_path(p, rel, is_dir)
    &&& (p.path_kind == PathKind::Directory ==> is_dir)
}

/// The reverse scan over `rules[..i]`, filling the ignore and whitelist
/// slots with the most recently inserted applicable pattern of each effect
/// and stopping once both are filled.
pub open spec fn scan_slots(
    rules: Seq<PatternModel>,
    rel: Seq<char>,
    is_dir: bool,
    i: int,
    im: Option<int>,
    wm: Option<int>,
) -> (Option<int>, Option<int>)
    decreases i,
{
    if i <= 0 || (im is Some && wm is Some) {
        (im, wm)
    } else {
        let j = i - 1;
        if 0 <= j < rules.len() && pattern_applies(rules[j], rel, is_dir) {
            if rules[j].effect == PatternEffect::Ignore && im is None {
                scan_slots(rules, rel, is_dir, j, Some(j), wm)
            } else if rules[j].effect == PatternEffect::Whitelist && wm is None {
                scan_slots(rules, rel, is_dir, j, im, Some(j))
            } else {
                scan_slots(rules, rel, is_dir, j, im, wm)
            }
        } else {
            scan_slots(rules, rel, is_dir, j, im, wm)
        }
    }
}

/// Whether directory `w` lies strictly inside directory `i`, comparing whole
/// path components.
pub open spec fn dir_strictly_inside(w: Seq<char>, i: Seq<char>) -> bool {
    if i.len() == 0 {
        w.len() > 0
    } else {
        w.len() > i.len() && w.subrange(0, i.len() as int) == i && w[i.len() as int] == '/'
    }
}

/// Resolves the two filled slots into a verdict. A bare-filename whitelist
/// from strictly inside the ignore's source directory loses; otherwise the
/// later inserted pattern wins.
pub open spec fn arbitrate(rules: Seq<PatternModel>, im: Option<int>, wm: Option<int>) -> MatchResult {
    match (im, wm) {
        (None, None) => MatchResult::NoMatch,
        (Some(_), None) => MatchResult::Ignore,
        (None, Some(_)) => MatchResult::Whitelist,
        (Some(i), Some(w)) => {
            let subtree_guard = match (source_dir(rules[i].source), source_dir(rules[w].source)) {
                (Some(id), Some(wd)) => dir_strictly_inside(wd, id) && !has_char(
                    rules[w].original,
                    '/',
                ) && !has_wildcard(rules[w].original),
                _ => false,
            };
            if subtree_guard {
                MatchResult::Ignore
            } else if w > i {
                MatchResult::Whitelist
            } else {
                MatchResult::Ignore
            }
        },
    }
}

/// The verdict of the whole rule list on the relative path `rel`.
pub open spec fn check_model(rules: Seq<PatternModel>, rel: Seq<char>, is_dir: bool) -> MatchResult {
    let slots = scan_slots(rules, rel, is_dir, rules.len() as int, None, None);
    arbitrate(rules, slots.0, slots.1)
}

/// Mathematical image of an [`IgnoreRules`].
#[verifier::ext_equal]
pub struct RulesModel {
    /// The root directory the rules are scoped to.
    pub root: Seq<char>,
    /// The ignore filename looked for during traversal, if any.
    pub ignore_filename: Option<Seq<char>>,
    /// The ordered rule list.
    pub patterns: Seq<PatternModel>,
}

/// A set of rules that decides whether a path is ignored.
#[derive(Debug)]
pub struct IgnoreRules {
    /// The root directory for which these ignore rules apply.
    pub root: String,
    /// The name of the ignore file (e.g. `.gitignore`), if any.
    pub ignore_filename: Option<String>,
    /// The ordered, append-only list of patterns.
    pub patterns: Vec<Pattern>,
}

impl View for IgnoreRules {
    type V = RulesModel;

    open spec fn view(&self) -> RulesModel {
        RulesModel {
            root: self.root@,
            ignore_filename: match &self.ignore_filename {
                Some(f) => Some(f@),
                None => None,
            },
            patterns: self.patterns@.map_values(|p: Pattern| p@),
        }
    }
}

/// Converts an exec slot index to its model form.
pub open spec fn slot_index(o: Option<usize>) -> Option<int> {
    match o {
        Some(k) => Some(k as int),
        None => None,
    }
}

/// Whether one pattern applies to the query; see [`pattern_applies`].
fn applies(p: &Pattern, rel: &str, probe: &str, is_dir: bool) -> (b: bool)
    requires
        is_dir ==> probe@ == dir_probe(rel@),
    ensures
        b == pattern_applies(p@, rel@, is_dir),
{
    let skip = match &p.source {
        Source::File { path, .. } => match parent_of(path.as_str()) {
            Some(d) => str_eq(d.as_str(), rel),
            None => false,
        },
        _ => false,
    };
    if skip {
        return false;
    }
    let glen = p.glob.as_str().unicode_len();
    let matched = if is_dir {
        let slash_star = glen >= 2 && p.glob.as_str().get_char(glen - 2) == '/'
            && p.glob.as_str().get_char(glen - 1) == '*';
        let globstar_tail = glen >= 3 && p.glob.as_str().get_char(glen - 3) == '*'
            && p.glob.as_str().get_char(glen - 2) == '*' && p.glob.as_str().get_char(glen - 1)
            == '/';
        if slash_star && str_eq(p.glob.as_str().substring_char(0, glen - 2), rel) {
            false
        } else if matches!(p.effect, PatternEffect::Ignore) && globstar_tail && str_eq(
            p.glob.as_str().substring_char(0, glen - 3),
            probe,
        ) {
            false
        } else {
            glob_match(p.glob.as_str(), probe) || glob_match(p.glob.as_str(), rel)
        }
    } else {
        glob_match(p.glob.as_str(), rel)
    };
    if !matched {
        return false;
    }
    if matches!(p.path_kind, PathKind::Directory) && !is_dir {
        return false;
    }
    true
}

/// Whether directory `w` lies strictly inside directory `i`; see
/// [`dir_strictly_inside`].
fn dir_inside(w: &str, i: &str) -> (r: bool)
    ensures
        r == dir_strictly_inside(w@, i@),
{
    let ilen = i.unicode_len();
    let wlen = w.unicode_len();
    if ilen == 0 {
        wlen > 0
    } else {
        wlen > ilen && str_eq(w.substring_char(0, ilen), i) && w.get_char(ilen) == '/'
    }
}

impl IgnoreRules {
    /// Creates an empty set of ignore rules for a given root directory.
    pub fn empty(dir: &str, ignore_filename: Option<&str>) -> (r: Self)
        ensures
            r@.root == dir@,
            r@.ignore_filename == match ignore_filename {
                Some(f) => Some(f@),
                None => None::<Seq<char>>,
            },
            r@.patterns == Seq::<PatternModel>::empty(),
    {
        let r = IgnoreRules {
            root: dir.to_owned(),
            ignore_filename: match ignore_filename {
                Some(f) => Some(f.to_owned()),
                None => None,
            },
            patterns: Vec::new(),
        };
        proof {
            assert(r@.patterns =~= Seq::<PatternModel>::empty());
        }
        r
    }

    /// Creates ignore rules holding the given patterns.
    pub fn from_patterns(ignore_root: &str, ignore_filename: Option<&str>, patterns: Vec<
        Pattern,
    >) -> (r: Self)
        ensures
            r@.root == ignore_root@,
            r@.ignore_filename == match ignore_filename {
                Some(f) => Some(f@),
                None => None::<Seq<char>>,
            },
            r@.patterns == patterns@.map_values(|p: Pattern| p@),
    {
        IgnoreRules {
            root: ignore_root.to_owned(),
            ignore_filename: match ignore_filename {
                Some(f) => Some(f.to_owned()),
                None => None,
            },
            patterns,
        }
    }

    /// The verdict of these rules on `path`, which must lie under the root;
    /// `is_dir` says whether `path` names a directory.
    pub fn check(&self, path: &str, is_dir: bool) -> (r: MatchResult)
        requires
            under_root(self@.root, path@),
        ensures
            r == check_model(self@.patterns, rel_path(self@.root, path@), is_dir),
    {
        let rootlen = self.root.as_str().unicode_len();
        let pathlen = path.unicode_len();
        let rel_raw: &str = if pathlen <= rootlen {
            ""
        } else {
            path.substring_char(rootlen + 1, pathlen)
        };
        proof {
            reveal_strlit("");
            if pathlen <= rootlen {
                assert(rel_raw@ =~= Seq::<char>::empty());
            }
        }
        proof {
            if pathlen > rootlen {
                assert(path@.skip(rootlen as int + 1) =~= path@.subrange(
                    rootlen as int + 1,
                    pathlen as int,
                ));
            }
        }
        // strip trailing slashes
        let rawlen = rel_raw.unicode_len();
        let mut end = rawlen;
        proof {
            assert(rel_raw@.subrange(0, rawlen as int) =~= rel_raw@);
        }
        while end > 0 && rel_raw.get_char(end - 1) == '/'
            invariant
                0 <= end <= rawlen,
                rawlen == rel_raw@.len(),
                strip_trailing_slashes(rel_raw@) == strip_trailing_slashes(
                    rel_raw@.subrange(0, end as int),
                ),
            decreases end,
        {
            proof {
                assert(rel_raw@.subrange(0, end as int)[end - 1] == rel_raw@[end - 1]);
                assert(rel_raw@.subrange(0, end as int).drop_last() =~= rel_raw@.subrange(
                    0,
                    end - 1,
                ));
            }
            end = end - 1;
        }
        proof {
            if end == 0 {
                assert(rel_raw@.subrange(0, 0) =~= Seq::<char>::empty());
            } else {
                assert(rel_raw@.subrange(0, end as int)[end - 1] == rel_raw@[end - 1]);
            }
        }
        let rel: &str = rel_raw.substring_char(0, end);
        proof {
            assert(rel@ == rel_path(self@.root, path@));
        }

        let probe: String = if end == 0 {
            String::from_str("/")
        } else {
            let mut s = rel.to_owned();
            s.append("/");
            s
        };
        proof {
            reveal_strlit("/");
            assert(("/")@ =~= seq!['/']);
            assert(probe@ == dir_probe(rel@));
        }

        let ghost rules: Seq<PatternModel> = self@.patterns;
        let n = self.patterns.len();
        let mut i = n;
        let mut im: Option<usize> = None;
        let mut wm: Option<usize> = None;
        while i > 0 && !(im.is_some() && wm.is_some())
            invariant
                0 <= i <= n,
                n == self.patterns@.len(),
                rules == self@.patterns,
                rules.len() == n,
                match im {
                    Some(k) => k < n,
                    None => true,
                },
                match wm {
                    Some(k) => k < n,
                    None => true,
                },
                scan_slots(rules, rel_path(self@.root, path@), is_dir, n as int, None, None)
                    == scan_slots(
                    rules,
                    rel_path(self@.root, path@),
                    is_dir,
                    i as int,
                    slot_index(im),
                    slot_index(wm),
                ),
                rel@ == rel_path(self@.root, path@),
                is_dir ==> probe@ == dir_probe(rel@),
            decreases i,
        {
            let j = i - 1;
            let pat = &self.patterns[j];
            proof {
                assert(pat@ == rules[j as int]);
            }
            let a = applies(pat, rel, probe.as_str(), is_dir);
            if a {
                if matches!(pat.effect, PatternEffect::Ignore) && im.is_none() {
                    im = Some(j);
                } else if matches!(pat.effect, PatternEffect::Whitelist) && wm.is_none() {
                    wm = Some(j);
                }
            }
            i = j;
        }
        proof {
            assert(scan_slots(rules, rel_path(self@.root, path@), is_dir, i as int, slot_index(im), slot_index(wm))
                == (slot_index(im), slot_index(wm)));
        }

        match (im, wm) {
            (None, None) => MatchResult::NoMatch,
            (Some(_), None) => MatchResult::Ignore,
            (None, Some(_)) => MatchResult::Whitelist,
            (Some(iix), Some(wix)) => {
                let im_dir = self.patterns[iix].source.dir_path();
                let wm_dir = self.patterns[wix].source.dir_path();
                let subtree_guard = match (im_dir, wm_dir) {
                    (Some(id), Some(wd)) => dir_inside(wd.as_str(), id.as_str()) && !crate::pattern::contains_char(
                        self.patterns[wix].original.as_str(),
                        '/',
                    ) && !pattern_has_wildcard(self.patterns[wix].original.as_str()),
                    _ => false,
                };
                if subtree_guard {
                    MatchResult::Ignore
                } else if wix > iix {
                    MatchResult::Whitelist
                } else {
                    MatchResult::Ignore
                }
            },
        }
    }

    /// Appends every pattern of `other` to `self`, leaving `other` empty.
    /// Both rule sets must share the same root.
    pub fn merge_with(&mut self, other: &mut IgnoreRules)
        requires
            old(self)@.root == old(other)@.root,
        ensures
            final(self)@.root == old(self)@.root,
            final(self)@.ignore_filename == old(self)@.ignore_filename,
            final(self)@.patterns == old(self)@.patterns + old(other)@.patterns,
            final(other)@.root == old(other)@.root,
            final(other)@.ignore_filename == old(other)@.ignore_filename,
            final(other)@.patterns == Seq::<PatternModel>::empty(),
    {
        let ghost start: Seq<PatternModel> = self@.patterns;
        let ghost incoming: Seq<PatternModel> = other@.patterns;
        while other.patterns.len() > 0
            invariant
                self@.root == old(self)@.root,
                self@.ignore_filename == old(self)@.ignore_filename,
                other@.root == old(other)@.root,
                other@.ignore_filename == old(other)@.ignore_filename,
                self@.patterns + other@.patterns == start + incoming,
            decreases other.patterns.len(),
        {
            let p = other.patterns.remove(0);
            self.patterns.push(p);
            proof {
                assert(self@.patterns + other@.patterns =~= start + incoming);
            }
        }
        proof {
            assert(other@.patterns =~= Seq::<PatternModel>::empty());
            assert(self@.patterns =~= start + incoming);
        }
    }

    /// Creates ignore rules from a string of global patterns, one raw line
    /// each; no line is filtered out.
    pub fn from_global_patterns(ignore_root: &str, ignore_filename: Option<&str>, given: &str) -> (r:
        Self)
        ensures
            r@.root == ignore_root@,
            r@.ignore_filename == match ignore_filename {
                Some(f) => Some(f@),
                None => None::<Seq<char>>,
            },
            r@.patterns == global_patterns_model(given@),
    {
        let lines = split_lines(given);
        let mut given_patterns: Vec<Pattern> = Vec::new();
        let n = lines.len();
        let mut i: usize = 0;
        while i < n
            invariant
                0 <= i <= n,
                n == lines@.len(),
                lines@.map_values(|l: String| l@) == spec_lines(given@),
                given_patterns@.len() == i,
                forall|j: int|
                    0 <= j < i ==> given_patterns@[j]@ == parse_pattern(
                        SourceModel::Global,
                        spec_lines(given@)[j],
                    ),
            decreases n - i,
        {
            proof {
                assert(lines@.map_values(|l: String| l@)[i as int] == lines@[i as int]@);
            }
            let pattern = Pattern::new(Source::Global, lines[i].as_str());
            given_patterns.push(pattern);
            i = i + 1;
        }
        let r = IgnoreRules::from_patterns(ignore_root, ignore_filename, given_patterns);
        proof {
            assert(r@.patterns =~= global_patterns_model(given@));
        }
        r
    }

    /// Appends a list of freshly parsed patterns to the rules.
    pub fn add_patterns(&mut self, patterns: Vec<Pattern>)
        ensures
            final(self)@.root == old(self)@.root,
            final(self)@.ignore_filename == old(self)@.ignore_filename,
            final(self)@.patterns == old(self)@.patterns + patterns@.map_values(
                |p: Pattern| p@,
            ),
    {
        let root = self.root.clone();
        let mut other = IgnoreRules::from_patterns(root.as_str(), None, patterns);
        self.merge_with(&mut other);
    }
}

} // verus!

verus! {

/// The index of the first `\n` in `s`, or `-1` when there is none.
pub open spec fn first_newline(s: Seq<char>) -> int
    decreases s.len(),
{
    if s.len() == 0 {
        -1
    } else if s[0] == '\n' {
        0
    } else {
        let r = first_newline(s.skip(1));
        if r < 0 {
            -1
        } else {
            r + 1
        }
    }
}

/// `l` without one trailing carriage return, for a line whose `\n`
/// terminator was split off: only the `\r` of a `\r\n` ending is removed.
pub open spec fn strip_cr(l: Seq<char>) -> Seq<char> {
    if l.len() > 0 && l[l.len() - 1] == '\r' {
        l.drop_last()
    } else {
        l
    }
}

/// `s` split at `\n` into lines, each without its `\n` or `\r\n` ending; a
/// final newline opens no further line, and a final segment without one
/// keeps any trailing carriage return.
pub open spec fn spec_lines(s: Seq<char>) -> Seq<Seq<char>>
    decreases s.len(),
{
    if s.len() == 0 {
        Seq::empty()
    } else {
        let k = first_newline(s);
        if !(0 <= k < s.len()) {
            seq![s]
        } else {
            seq![strip_cr(s.subrange(0, k))] + spec_lines(s.skip(k + 1))
        }
    }
}

/// The patterns a global configuration string yields: one per raw line.
pub open spec fn global_patterns_model(given: Seq<char>) -> Seq<PatternModel> {
    spec_lines(given).map_values(|l: Seq<char>| parse_pattern(SourceModel::Global, l))
}

/// Whether every character of `l` is trimmable whitespace.
pub open spec fn all_ws(l: Seq<char>) -> bool {
    forall|i: int| 0 <= i < l.len() ==> crate::pattern::is_trim_ws(l[i])
}

/// Whether an ignore-file line carries no pattern: it is blank or a comment.
pub open spec fn skip_line(l: Seq<char>) -> bool {
    all_ws(l) || (l.len() > 0 && l[0] == '#')
}

/// The line as handed to pattern parsing: trailing whitespace trimmed unless
/// the line ends in an escaped space.
pub open spec fn prepared_line(l: Seq<char>) -> Seq<char> {
    if crate::pattern::ends_escaped_space(l) {
        l
    } else {
        crate::pattern::trim_end_ws(l)
    }
}

/// The source that line number `lineno` of an ignore file (or of the global
/// configuration) carries.
pub open spec fn line_source(src: Option<Seq<char>>, lineno: nat) -> SourceModel {
    match src {
        Some(p) => SourceModel::File { path: p, line: lineno },
        None => SourceModel::Global,
    }
}

/// The patterns that the given lines of an ignore file yield, starting at
/// line number `lineno`: comments and blank lines are dropped, the rest are
/// parsed.
pub open spec fn lines_patterns(lines: Seq<Seq<char>>, lineno: nat, src: Option<Seq<char>>) -> Seq<
    PatternModel,
>
    decreases lines.len(),
{
    if lines.len() == 0 {
        Seq::empty()
    } else {
        let rest = lines_patterns(lines.skip(1), lineno + 1, src);
        if skip_line(lines[0]) {
            rest
        } else {
            seq![parse_pattern(line_source(src, lineno), prepared_line(lines[0]))] + rest
        }
    }
}

/// The patterns that the whole content of an ignore file yields. `src` is
/// the file's path; patterns record it relative to `root`.
pub open spec fn content_patterns_model(
    root: Seq<char>,
    src: Option<Seq<char>>,
    content: Seq<char>,
) -> Seq<PatternModel> {
    let rel_src = match src {
        Some(p) => Some(rel_raw(root, p)),
        None => None::<Seq<char>>,
    };
    lines_patterns(spec_lines(content), 1, rel_src)
}

/// Finds the first `\n` of `s`.
fn find_newline(s: &str) -> (r: Option<usize>)
    ensures
        match r {
            Some(k) => first_newline(s@) == k as int && (k as int) < s@.len(),
            None => first_newline(s@) == -1,
        },
    decreases s@.len(),
{
    let len = s.unicode_len();
    if len == 0 {
        return None;
    }
    if s.get_char(0) == '\n' {
        return Some(0);
    }
    let tail = s.substring_char(1, len);
    proof {
        assert(tail@ =~= s@.skip(1));
    }
    match find_newline(tail) {
        None => None,
        Some(k) => Some(k + 1),
    }
}

/// Splits `s` into its lines, as [`spec_lines`] describes them.
pub fn split_lines(s: &str) -> (v: Vec<String>)
    ensures
        v@.map_values(|l: String| l@) == spec_lines(s@),
{
    let mut v: Vec<String> = Vec::new();
    let mut rest: &str = s;
    while rest.unicode_len() > 0
        invariant
            v@.map_values(|l: String| l@) + spec_lines(rest@) == spec_lines(s@),
        decreases rest@.len(),
    {
        let rlen = rest.unicode_len();
        let ghost prev = v@.map_values(|l: String| l@);
        match find_newline(rest) {
            None => {
                v.push(rest.to_owned());
                proof {
                    assert(v@.map_values(|l: String| l@) =~= prev + seq![rest@]);
                }
                rest = rest.substring_char(rlen, rlen);
                proof {
                    assert(rest@ =~= Seq::<char>::empty());
                }
            },
            Some(k) => {
                let line: &str = if k > 0 && rest.get_char(k - 1) == '\r' {
                    proof {
                        assert(rest@.subrange(0, k as int).drop_last() =~= rest@.subrange(
                            0,
                            k - 1,
                        ));
                        assert(rest@.subrange(0, k as int)[k - 1] == rest@[k - 1]);
                    }
                    rest.substring_char(0, k - 1)
                } else {
                    rest.substring_char(0, k)
                };
                proof {
                    if k > 0 {
                        assert(rest@.subrange(0, k as int)[k - 1] == rest@[k - 1]);
                    }
                    assert(line@ == strip_cr(rest@.subrange(0, k as int)));
                }
                v.push(line.to_owned());
                proof {
                    assert(v@.map_values(|l: String| l@) =~= prev + seq![
                        strip_cr(rest@.subrange(0, k as int)),
                    ]);
                }
                let ghost old_rest = rest@;
                rest = rest.substring_char(k + 1, rlen);
                proof {
                    assert(rest@ =~= old_rest.skip(k + 1));
                }
            },
        }
    }
    proof {
        assert(v@.map_values(|l: String| l@) =~= spec_lines(s@));
    }
    v
}

/// Whether the line is blank: every character is trimmable whitespace.
fn is_blank(s: &str) -> (r: bool)
    ensures
        r == all_ws(s@),
{
    let len = s.unicode_len();
    let mut i: usize = 0;
    while i < len
        invariant
            0 <= i <= len,
            len == s@.len(),
            forall|j: int| 0 <= j < i ==> crate::pattern::is_trim_ws(s@[j]),
        decreases len - i,
    {
        let c = s.get_char(i);
        if !crate::pattern::is_ws_char(c) {
            return false;
        }
        i = i + 1;
    }
    true
}

/// Converts the content of one ignore file (or of the global configuration,
/// when `source` is absent) into patterns: blank lines and `#` comments are
/// dropped, every other line is trimmed and parsed. A file source must lie
/// under `ignore_root`; patterns record it relative to that root.
pub fn content_to_patterns(ignore_root: &str, source: Option<&str>, content: &str) -> (r: Vec<
    Pattern,
>)
    requires
        match source {
            Some(p) => under_root(ignore_root@, p@),
            None => true,
        },
    ensures
        r@.map_values(|p: Pattern| p@) == content_patterns_model(
            ignore_root@,
            match source {
                Some(p) => Some(p@),
                None => None::<Seq<char>>,
            },
            content@,
        ),
{
    let rootlen = ignore_root.unicode_len();
    let rel_src: Option<String> = match source {
        Some(p) => {
            let plen = p.unicode_len();
            if plen <= rootlen {
                proof {
                    reveal_strlit("");
                }
                Some(String::from_str(""))
            } else {
                let sub = p.substring_char(rootlen + 1, plen);
                proof {
                    assert(sub@ =~= p@.skip(rootlen as int + 1));
                }
                Some(sub.to_owned())
            }
        },
        None => None,
    };
    let ghost src_model: Option<Seq<char>> = match &rel_src {
        Some(rp) => Some(rp@),
        None => None,
    };
    proof {
        if source is Some {
            assert(src_model == Some(rel_raw(ignore_root@, source.unwrap()@)));
            assert(rel_src is Some && rel_src.unwrap()@ == src_model.unwrap());
        }
    }
    let lines = split_lines(content);
    let ghost lseq: Seq<Seq<char>> = spec_lines(content@);
    let mut r: Vec<Pattern> = Vec::new();
    let n = lines.len();
    let mut i: usize = 0;
    proof {
        assert(lseq.skip(0) =~= lseq);
        assert(r@.map_values(|p: Pattern| p@) + lines_patterns(lseq, 1, src_model)
            =~= lines_patterns(lseq, 1, src_model));
    }
    while i < n
        invariant
            0 <= i <= n,
            n == lines@.len(),
            lines@.map_values(|l: String| l@) == lseq,
            lseq == spec_lines(content@),
            match &rel_src {
                Some(rp) => src_model == Some(rp@),
                None => src_model is None,
            },
            r@.map_values(|p: Pattern| p@) + lines_patterns(
                lseq.skip(i as int),
                i as nat + 1,
                src_model,
            ) == lines_patterns(lseq, 1, src_model),
        decreases n - i,
    {
        let ghost prev = r@.map_values(|p: Pattern| p@);
        let line: &str = lines[i].as_str();
        proof {
            assert(lines@.map_values(|l: String| l@)[i as int] == lines@[i as int]@);
            assert(lseq.skip(i as int)[0] == lseq[i as int]);
            assert(lseq.skip(i as int).skip(1) =~= lseq.skip(i as int + 1));
        }
        let llen = line.unicode_len();
        let blank = is_blank(line);
        let comment = llen > 0 && line.get_char(0) == '#';
        if !(blank || comment) {
            let escaped = llen >= 2 && line.get_char(llen - 2) == '\\' && line.get_char(llen - 1)
                == ' ';
            let prep: &str = if escaped {
                line
            } else {
                let end = crate::pattern::trim_end_index(line);
                line.substring_char(0, end)
            };
            proof {
                assert(prep@ == prepared_line(lseq[i as int]));
            }
            let src: Source = match &rel_src {
                Some(rp) => Source::File { path: rp.clone(), line: i + 1 },
                None => Source::Global,
            };
            proof {
                assert(src@ == line_source(src_model, i as nat + 1));
            }
            let pattern = Pattern::new(src, prep);
            r.push(pattern);
            proof {
                assert(r@.map_values(|p: Pattern| p@) =~= prev + seq![
                    parse_pattern(line_source(src_model, i as nat + 1), prepared_line(lseq[i as int])),
                ]);
            }
        }
        i = i + 1;
    }
    proof {
        assert(lseq.skip(n as int) =~= Seq::<Seq<char>>::empty());
    }
    r
}

} // verus!
