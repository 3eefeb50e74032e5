//! Parsing of a single ignore line into a [`Pattern`].
//!
//! A line is transformed in stages: a leading `!` turns the pattern into a
//! whitelist (and `\!` escapes a literal `!`); trailing whitespace is trimmed
//! unless the line ends in an escaped space `\ `; a trailing `/` restricts
//! the pattern to directories; a leading `/` or an internal `/` anchors the
//! pattern to its source's directory; the residue is composed with the
//! source's directory into one glob that is matched relative to the ignore
//! root, with `**/` spliced in for unanchored patterns.

use vstd::prelude::*;
use vstd::string::StrSliceExecFns;
use vstd::string::StringExecFns;

verus! {

/// The result of matching a path against a set of ignore patterns.
#[derive(Debug, Clone, Copy, PartialEq, Eq, Structural)]
pub enum MatchResult {
    /// The path did not match any pattern.
    NoMatch,
    /// The path matched an ignore pattern.
    Ignore,
    /// The path matched a whitelist (negation) pattern.
    Whitelist,
}

/// Describes how a pattern's path is interpreted.
#[derive(Debug)]
pub enum PatternRelativity {
    /// The pattern can match anywhere under the ignore root.
    Anywhere,
    /// The pattern is anchored to a specific directory.
    RelativeTo {
        /// The directory to which the pattern is anchored.
        directory: String,
    },
}

/// The kind of filesystem entry a pattern can match.
#[derive(Debug, Clone, Copy, PartialEq, Eq, Structural)]
pub enum PathKind {
    /// The pattern can match a file or a directory.
    Any,
    /// The pattern matches directories only.
    Directory,
}

/// The effect of a pattern when it matches a path.
#[derive(Debug, Clone, Copy, PartialEq, Eq, Structural)]
pub enum PatternEffect {
    /// The matched path is ignored.
    Ignore,
    /// The matched path is re-included (negated ignore).
    Whitelist,
}

/// The origin of a pattern.
#[derive(Debug)]
pub enum Source {
    /// The pattern comes from a global configuration string.
    Global,
    /// The pattern was read from an ignore file under the root.
    File {
        /// The ignore file's path, relative to the ignore root.
        path: String,
        /// The 1-based line number of the pattern within that file.
        line: usize,
    },
    /// The pattern was supplied on the command line.
    CommandLine {
        /// The working directory recorded at invocation.
        current_dir: String,
    },
}

/// Mathematical image of a [`Source`].
#[verifier::ext_equal]
pub enum SourceModel {
    /// See [`Source::Global`].
    Global,
    /// See [`Source::File`].
    File {
        /// The ignore file's path, relative to the ignore root.
        path: Seq<char>,
        /// The 1-based line number within that file.
        line: nat,
    },
    /// See [`Source::CommandLine`].
    CommandLine {
        /// The recorded working directory.
        current_dir: Seq<char>,
    },
}

impl View for Source {
    type V = SourceModel;

    open spec fn view(&self) -> SourceModel {
        match self {
            Source::Global => SourceModel::Global,
            Source::File { path, line } => SourceModel::File {
                path: path@,
                line: *line as nat,
            },
            Source::CommandLine { current_dir } => SourceModel::CommandLine {
                current_dir: current_dir@,
            },
        }
    }
}

/// Mathematical image of a [`PatternRelativity`].
#[verifier::ext_equal]
pub enum RelativityModel {
    /// See [`PatternRelativity::Anywhere`].
    Anywhere,
    /// See [`PatternRelativity::RelativeTo`].
    RelativeTo {
        /// The directory to which the pattern is anchored.
        directory: Seq<char>,
    },
}

impl Clone for Source {
    /// A clone carries the same origin.
    fn clone(&self) -> (r: Self)
        ensures
            r == *self,
    {
        match self {
            Source::Global => Source::Global,
            Source::File { path, line } => Source::File { path: path.clone(), line: *line },
            Source::CommandLine { current_dir } => Source::CommandLine {
                current_dir: current_dir.clone(),
            },
        }
    }
}

impl Clone for PatternRelativity {
    /// A clone carries the same relativity.
    fn clone(&self) -> (r: Self)
        ensures
            r == *self,
    {
        match self {
            PatternRelativity::Anywhere => PatternRelativity::Anywhere,
            PatternRelativity::RelativeTo { directory } => PatternRelativity::RelativeTo {
                directory: directory.clone(),
            },
        }
    }
}

impl View for PatternRelativity {
    type V = RelativityModel;

    open spec fn view(&self) -> RelativityModel {
        match self {
            PatternRelativity::Anywhere => RelativityModel::Anywhere,
            PatternRelativity::RelativeTo { directory } => RelativityModel::RelativeTo {
                directory: directory@,
            },
        }
    }
}

/// The index of the last `/` in `p`, or `-1` when there is none.
pub open spec fn last_slash(p: Seq<char>) -> int
    decreases p.len(),
{
    if p.len() == 0 {
        -1
    } else if p[p.len() - 1] == '/' {
        p.len() - 1
    } else {
        last_slash(p.drop_last())
    }
}

/// The parent directory of a relative path: everything before the last `/`,
/// the empty path when there is no `/`, and nothing for the empty path.
pub open spec fn parent_path(p: Seq<char>) -> Option<Seq<char>> {
    if p.len() == 0 {
        None
    } else if last_slash(p) < 0 {
        Some(Seq::empty())
    } else {
        Some(p.subrange(0, last_slash(p)))
    }
}

/// The directory a [`SourceModel`] lives in: the ignore root itself for a
/// global pattern, the source file's parent directory for a file pattern,
/// and the recorded working directory for a command-line pattern.
pub open spec fn source_dir(s: SourceModel) -> Option<Seq<char>> {
    match s {
        SourceModel::Global => Some(Seq::empty()),
        SourceModel::File { path, .. } => parent_path(path),
        SourceModel::CommandLine { current_dir } => Some(current_dir),
    }
}

/// Whether `s` contains the character `c`.
pub open spec fn has_char(s: Seq<char>, c: char) -> bool {
    exists|i: int| 0 <= i < s.len() && s[i] == c
}

/// The whitespace characters trimmed from a pattern line's end: the
/// characters with Unicode's White_Space property, as Rust's trim functions
/// treat them.
pub open spec fn is_trim_ws(c: char) -> bool {
    ||| c == ' ' || c == '\t' || c == '\n' || c == '\r'
    ||| c == '\u{0B}' || c == '\u{0C}' || c == '\u{85}' || c == '\u{A0}' || c == '\u{1680}'
    ||| ((c as u32) >= 0x2000 && (c as u32) <= 0x200A)
    ||| c == '\u{2028}' || c == '\u{2029}' || c == '\u{202F}' || c == '\u{205F}' || c == '\u{3000}'
}

/// Whether `c` is trimmable whitespace; see [`is_trim_ws`].
pub(crate) fn is_ws_char(c: char) -> (r: bool)
    ensures
        r == is_trim_ws(c),
{
    c == ' ' || c == '\t' || c == '\n' || c == '\r' || c == '\u{0B}' || c == '\u{0C}' || c
        == '\u{85}' || c == '\u{A0}' || c == '\u{1680}' || ((c as u32) >= 0x2000 && (c as u32)
        <= 0x200A) || c == '\u{2028}' || c == '\u{2029}' || c == '\u{202F}' || c == '\u{205F}'
        || c == '\u{3000}'
}

/// `s` with every trailing whitespace character removed.
pub open spec fn trim_end_ws(s: Seq<char>) -> Seq<char>
    decreases s.len(),
{
    if s.len() > 0 && is_trim_ws(s[s.len() - 1]) {
        trim_end_ws(s.drop_last())
    } else {
        s
    }
}

/// Whether the line ends in an escaped space `\ `, which protects the one
/// trailing space from trimming.
pub open spec fn ends_escaped_space(s: Seq<char>) -> bool {
    s.len() >= 2 && s[s.len() - 2] == '\\' && s[s.len() - 1] == ' '
}

/// Whether the raw line starts a whitelist pattern.
pub open spec fn begins_excl(o: Seq<char>) -> bool {
    o.len() > 0 && o[0] == '!'
}

/// The line after the leading `!` (or the backslash of `\!`) is stripped.
pub open spec fn line_after_excl(o: Seq<char>) -> Seq<char> {
    if (o.len() >= 2 && o[0] == '\\' && o[1] == '!') || begins_excl(o) {
        o.skip(1)
    } else {
        o
    }
}

/// The line after trailing-whitespace trimming. A line ending in an escaped
/// space `\ ` instead keeps the space and loses the backslash: the pattern
/// denotes the literal text with one trailing space.
pub open spec fn line_trimmed(o: Seq<char>) -> Seq<char> {
    let l = line_after_excl(o);
    if ends_escaped_space(l) {
        l.subrange(0, l.len() - 2).push(' ')
    } else {
        trim_end_ws(l)
    }
}

/// Whether the trimmed line ends in `/`, restricting it to directories.
pub open spec fn spec_end_slash(o: Seq<char>) -> bool {
    let l = line_trimmed(o);
    l.len() > 0 && l[l.len() - 1] == '/'
}

/// The line after a trailing `/` is stripped.
pub open spec fn line_no_end_slash(o: Seq<char>) -> Seq<char> {
    let l = line_trimmed(o);
    if l.len() > 0 && l[l.len() - 1] == '/' {
        l.drop_last()
    } else {
        l
    }
}

/// Whether the line starts with `/`, anchoring it to its source directory.
pub open spec fn spec_begin_slash(o: Seq<char>) -> bool {
    let l = line_no_end_slash(o);
    l.len() > 0 && l[0] == '/'
}

/// The fully stripped pattern residue that enters glob composition.
pub open spec fn line_final(o: Seq<char>) -> Seq<char> {
    let l = line_no_end_slash(o);
    if l.len() > 0 && l[0] == '/' {
        l.skip(1)
    } else {
        l
    }
}

/// Whether the pattern is anchored: it begins with `/` or its residue still
/// contains a `/`.
pub open spec fn spec_anchored(o: Seq<char>) -> bool {
    spec_begin_slash(o) || has_char(line_final(o), '/')
}

/// The effect the raw line asks for.
pub open spec fn spec_effect(o: Seq<char>) -> PatternEffect {
    if begins_excl(o) {
        PatternEffect::Whitelist
    } else {
        PatternEffect::Ignore
    }
}

/// The kind of entry the pattern may match: directories only when the line
/// ends in `/` or the residue ends in `**`.
pub open spec fn spec_path_kind(o: Seq<char>) -> PathKind {
    let l = line_final(o);
    if l.len() >= 2 && l[l.len() - 1] == '*' && l[l.len() - 2] == '*' {
        PathKind::Directory
    } else if spec_end_slash(o) {
        PathKind::Directory
    } else {
        PathKind::Any
    }
}

/// The source's directory as used in glob composition: [`source_dir`] with
/// a missing parent read as the root and one trailing `/` removed.
pub open spec fn spec_current_dir(s: SourceModel) -> Seq<char> {
    let base = match source_dir(s) {
        Some(d) => d,
        None => Seq::empty(),
    };
    if base.len() > 0 && base[base.len() - 1] == '/' {
        base.drop_last()
    } else {
        base
    }
}

/// The pattern's relativity: anchored patterns record their source directory.
pub open spec fn spec_relativity(s: SourceModel, o: Seq<char>) -> RelativityModel {
    if spec_anchored(o) {
        RelativityModel::RelativeTo { directory: spec_current_dir(s) }
    } else {
        RelativityModel::Anywhere
    }
}

/// The compiled glob: the residue, prefixed with the source directory when
/// anchored, or spliced after `**/` when it may match anywhere, with `/`
/// appended for directory-only patterns.
pub open spec fn spec_glob(s: SourceModel, o: Seq<char>) -> Seq<char> {
    let cd = spec_current_dir(s);
    let l = line_final(o);
    let body = if spec_anchored(o) {
        if cd.len() == 0 {
            l
        } else {
            cd + seq!['/'] + l
        }
    } else {
        if cd.len() == 0 {
            seq!['*', '*', '/'] + l
        } else {
            cd + seq!['/', '*', '*', '/'] + l
        }
    };
    if spec_path_kind(o) == PathKind::Directory {
        body + seq!['/']
    } else {
        body
    }
}

/// Mathematical image of a [`Pattern`].
#[verifier::ext_equal]
pub struct PatternModel {
    /// The compiled glob.
    pub glob: Seq<char>,
    /// The raw line as written.
    pub original: Seq<char>,
    /// Where the pattern came from.
    pub source: SourceModel,
    /// Ignore or whitelist.
    pub effect: PatternEffect,
    /// Anchored or free-floating.
    pub relativity: RelativityModel,
    /// Whether the pattern is restricted to directories.
    pub path_kind: PathKind,
}

/// The [`PatternModel`] that parsing one raw line from `s` must produce.
pub open spec fn parse_pattern(s: SourceModel, o: Seq<char>) -> PatternModel {
    PatternModel {
        glob: spec_glob(s, o),
        original: o,
        source: s,
        effect: spec_effect(o),
        relativity: spec_relativity(s, o),
        path_kind: spec_path_kind(o),
    }
}

/// A single parsed ignore pattern.
#[derive(Debug)]
pub struct Pattern {
    /// The compiled glob string, relative to the ignore root.
    pub glob: String,
    /// The original, unmodified pattern line.
    pub original: String,
    /// The source of the pattern.
    pub source: Source,
    /// The effect of the pattern (ignore or whitelist).
    pub effect: PatternEffect,
    /// The relativity of the pattern's path.
    pub relativity: PatternRelativity,
    /// The kind of path this pattern applies to.
    pub path_kind: PathKind,
}

impl Clone for Pattern {
    /// A clone carries the same compiled pattern.
    fn clone(&self) -> (r: Self)
        ensures
            r == *self,
    {
        Pattern {
            glob: self.glob.clone(),
            original: self.original.clone(),
            source: self.source.clone(),
            effect: self.effect,
            relativity: self.relativity.clone(),
            path_kind: self.path_kind,
        }
    }
}

impl View for Pattern {
    type V = PatternModel;

    open spec fn view(&self) -> PatternModel {
        PatternModel {
            glob: self.glob@,
            original: self.original@,
            source: self.source@,
            effect: self.effect,
            relativity: self.relativity@,
            path_kind: self.path_kind,
        }
    }
}

/// The parent directory of a relative path string, as [`parent_path`] gives
/// it.
pub fn parent_of(path: &str) -> (r: Option<String>)
    ensures
        match r {
            Some(d) => parent_path(path@) == Some(d@),
            None => parent_path(path@) is None,
        },
{
    let plen = path.unicode_len();
    if plen == 0 {
        return None;
    }
    let mut i = plen;
    proof {
        assert(path@.subrange(0, plen as int) =~= path@);
    }
    while i > 0
        invariant
            0 <= i <= plen,
            plen == path@.len(),
            last_slash(path@) == last_slash(path@.subrange(0, i as int)),
        decreases i,
    {
        proof {
            assert(path@.subrange(0, i as int).drop_last() =~= path@.subrange(0, i - 1));
        }
        if path.get_char(i - 1) == '/' {
            proof {
                assert(path@.subrange(0, i as int)[i - 1] == path@[i - 1]);
            }
            return Some(path.substring_char(0, i - 1).to_owned());
        }
        i = i - 1;
    }
    proof {
        assert(path@.subrange(0, 0) =~= Seq::<char>::empty());
    }
    Some(String::new())
}

impl Source {
    /// Returns the directory path of the source: the root (empty path) for a
    /// global pattern, the source file's parent for a file pattern, and the
    /// recorded working directory for a command-line pattern.
    pub fn dir_path(&self) -> (r: Option<String>)
        ensures
            match r {
                Some(d) => source_dir(self@) == Some(d@),
                None => source_dir(self@) is None,
            },
    {
        match self {
            Source::File { path, .. } => parent_of(path.as_str()),
            Source::Global => Some(String::new()),
            Source::CommandLine { current_dir } => Some(current_dir.clone()),
        }
    }
}

/// Whether `s` contains the character `c`.
pub fn contains_char(s: &str, c: char) -> (r: bool)
    ensures
        r == has_char(s@, c),
{
    let slen = s.unicode_len();
    let mut i: usize = 0;
    while i < slen
        invariant
            0 <= i <= slen,
            slen == s@.len(),
            forall|j: int| 0 <= j < i ==> s@[j] != c,
        decreases slen - i,
    {
        if s.get_char(i) == c {
            return true;
        }
        i = i + 1;
    }
    false
}

/// Trims trailing whitespace: returns the end index of `trim_end_ws(s@)`.
pub(crate) fn trim_end_index(s: &str) -> (end: usize)
    ensures
        end <= s@.len(),
        trim_end_ws(s@) == s@.subrange(0, end as int),
{
    let slen = s.unicode_len();
    let mut end = slen;
    proof {
        assert(s@.subrange(0, slen as int) =~= s@);
    }
    while end > 0
        invariant
            0 <= end <= slen,
            slen == s@.len(),
            trim_end_ws(s@) == trim_end_ws(s@.subrange(0, end as int)),
        decreases end,
    {
        let c = s.get_char(end - 1);
        if !is_ws_char(c) {
            proof {
                assert(s@.subrange(0, end as int)[end - 1] == s@[end - 1]);
            }
            return end;
        }
        proof {
            assert(s@.subrange(0, end as int)[end - 1] == s@[end - 1]);
            assert(s@.subrange(0, end as int).drop_last() =~= s@.subrange(0, end - 1));
        }
        end = end - 1;
    }
    proof {
        assert(s@.subrange(0, 0) =~= Seq::<char>::empty());
    }
    0
}

/// The source's directory with one trailing `/` removed, ready for glob
/// composition.
fn source_current_dir(source: &Source) -> (r: String)
    ensures
        r@ == spec_current_dir(source@),
{
    let base: String = match source {
        Source::Global => String::new(),
        Source::File { path, .. } => match parent_of(path.as_str()) {
            Some(d) => d,
            None => String::new(),
        },
        Source::CommandLine { current_dir } => current_dir.clone(),
    };
    let blen = base.as_str().unicode_len();
    if blen > 0 && base.as_str().get_char(blen - 1) == '/' {
        proof {
            assert(base@.drop_last() =~= base@.subrange(0, blen - 1));
        }
        base.as_str().substring_char(0, blen - 1).to_owned()
    } else {
        base
    }
}

impl Pattern {
    /// Parses one raw ignore line from `source` into a compiled pattern.
    #[verifier::rlimit(60)]
    pub fn new(source: Source, original: &str) -> (p: Pattern)
        ensures
            p@ == parse_pattern(source@, original@),
    {
        let olen = original.unicode_len();
        let begin_exclamation = olen > 0 && original.get_char(0) == '!';
        let begin_escaped = olen >= 2 && original.get_char(0) == '\\' && original.get_char(1)
            == '!';
        let l1: &str = if begin_escaped || begin_exclamation {
            original.substring_char(1, olen)
        } else {
            original
        };
        proof {
            assert(l1@ == line_after_excl(original@));
        }
        let l1len = l1.unicode_len();
        let escaped_space = l1len >= 2 && l1.get_char(l1len - 2) == '\\' && l1.get_char(l1len - 1)
            == ' ';
        let l2_owned: String = if escaped_space {
            let mut s = l1.substring_char(0, l1len - 2).to_owned();
            s.append(" ");
            s
        } else {
            let end = trim_end_index(l1);
            l1.substring_char(0, end).to_owned()
        };
        let l2: &str = l2_owned.as_str();
        proof {
            reveal_strlit(" ");
            assert((" ")@ =~= seq![' ']);
            assert(l2@ =~= line_trimmed(original@));
        }
        let l2len = l2.unicode_len();
        let end_slash = l2len > 0 && l2.get_char(l2len - 1) == '/';
        let l3: &str = if end_slash {
            proof {
                assert(l2@.drop_last() =~= l2@.subrange(0, l2len - 1));
            }
            l2.substring_char(0, l2len - 1)
        } else {
            l2
        };
        proof {
            assert(l3@ == line_no_end_slash(original@));
            assert(end_slash == spec_end_slash(original@));
        }
        let l3len = l3.unicode_len();
        let begin_slash = l3len > 0 && l3.get_char(0) == '/';
        let line: &str = if begin_slash {
            l3.substring_char(1, l3len)
        } else {
            l3
        };
        proof {
            assert(line@ == line_final(original@));
            assert(begin_slash == spec_begin_slash(original@));
        }
        let llen = line.unicode_len();
        let contains_slash = contains_char(line, '/');
        let anchored = begin_slash || contains_slash;
        proof {
            assert(anchored == spec_anchored(original@));
        }

        let effect = if begin_exclamation {
            PatternEffect::Whitelist
        } else {
            PatternEffect::Ignore
        };
        let ends_globstar = llen >= 2 && line.get_char(llen - 1) == '*' && line.get_char(llen - 2)
            == '*';
        let path_kind = if ends_globstar || end_slash {
            PathKind::Directory
        } else {
            PathKind::Any
        };
        proof {
            assert(effect == spec_effect(original@));
            assert(path_kind == spec_path_kind(original@));
        }

        let current_dir = source_current_dir(&source);
        let cdlen = current_dir.as_str().unicode_len();
        let relativity = if anchored {
            PatternRelativity::RelativeTo { directory: current_dir.clone() }
        } else {
            PatternRelativity::Anywhere
        };

        let mut glob = String::new();
        if anchored {
            if cdlen == 0 {
                glob.append(line);
            } else {
                glob.append(current_dir.as_str());
                glob.append("/");
                glob.append(line);
            }
        } else {
            if cdlen == 0 {
                glob.append("**/");
                glob.append(line);
            } else {
                glob.append(current_dir.as_str());
                glob.append("/**/");
                glob.append(line);
            }
        }
        if matches!(path_kind, PathKind::Directory) {
            glob.append("/");
        }
        proof {
            reveal_strlit("/");
            reveal_strlit("**/");
            reveal_strlit("/**/");
            assert(("/")@ =~= seq!['/']);
            assert(("**/")@ =~= seq!['*', '*', '/']);
            assert(("/**/")@ =~= seq!['/', '*', '*', '/']);
            assert(glob@ =~= spec_glob(source@, original@));
        }

        let p = Pattern {
            glob,
            original: original.to_owned(),
            source,
            effect,
            relativity,
            path_kind,
        };
        proof {
            assert(p@ =~= parse_pattern(p.source@, original@));
        }
        p
    }
}

/// Parses every string in `patterns` with the same `source`.
pub fn build_pattern_list(patterns: Vec<String>, source: Source) -> (r: Vec<Pattern>)
    ensures
        r@.len() == patterns@.len(),
        forall|i: int|
            0 <= i < patterns@.len() ==> r@[i]@ == parse_pattern(source@, patterns@[i]@),
{
    let mut r: Vec<Pattern> = Vec::new();
    let n = patterns.len();
    let mut i: usize = 0;
    while i < n
        invariant
            0 <= i <= n,
            n == patterns@.len(),
            r@.len() == i,
            forall|j: int| 0 <= j < i ==> r@[j]@ == parse_pattern(source@, patterns@[j]@),
        decreases n - i,
    {
        let p = Pattern::new(source.clone(), patterns[i].as_str());
        r.push(p);
        i = i + 1;
    }
    r
}

} // verus!
