//! Matching of one compiled glob string against one path string.
//!
//! Supported syntax, over `/`-separated paths:
//! - `?` matches any single character except `/`;
//! - `*` matches any run of characters that does not cross `/`;
//! - `**` as a path component matches any number of whole components,
//!   including none;
//! - `[...]` is a character class, negated by a leading `!` or `^`, with
//!   `a-z` ranges; an unclosed `[` is a literal;
//! - every other character, `/` included, matches itself literally.
//!
//! A trailing `/` in the glob is significant: it matches only when the probe
//! also ends in `/`.

use vstd::prelude::*;
use vstd::string::StrSliceExecFns;

verus! {

/// Whether the character-class body `cs` (the text between `[` and `]`,
/// with any negation marker already removed) admits the character `c`.
/// A triple `a-z` is a range; any other character stands for itself.
pub open spec fn class_admits(cs: Seq<char>, c: char) -> bool
    decreases cs.len(),
{
    if cs.len() >= 3 && cs[1] == '-' {
        ((cs[0] as u32) <= (c as u32) && (c as u32) <= (cs[2] as u32)) || class_admits(
            cs.skip(3),
            c,
        )
    } else if cs.len() >= 1 {
        cs[0] == c || class_admits(cs.skip(1), c)
    } else {
        false
    }
}

/// The index of the first `]` in `g` at or after `i`, or `-1` when there is
/// none. Used to delimit a character class.
pub open spec fn class_close(g: Seq<char>, i: int) -> int
    decreases g.len() - i,
{
    if i < 0 || i >= g.len() {
        -1
    } else if g[i] == ']' {
        i
    } else {
        class_close(g, i + 1)
    }
}

/// Whether glob `g` matches path `p` in full.
pub open spec fn glob_matches(g: Seq<char>, p: Seq<char>) -> bool
    decreases g.len() + p.len(), 1int,
{
    if g.len() == 0 {
        p.len() == 0
    } else if g[0] == '*' {
        if g.len() >= 2 && g[1] == '*' {
            // A globstar matches zero whole components (with or without the
            // `/` that closes the component), or swallows one component of
            // the path and tries again.
            ||| glob_matches(g.skip(2), p)
            ||| (g.len() >= 3 && g[2] == '/' && glob_matches(g.skip(3), p))
            ||| globstar_skip(g, p)
        } else {
            ||| glob_matches(g.skip(1), p)
            ||| (p.len() > 0 && p[0] != '/' && glob_matches(g, p.skip(1)))
        }
    } else if g[0] == '?' {
        p.len() > 0 && p[0] != '/' && glob_matches(g.skip(1), p.skip(1))
    } else if g[0] == '[' {
        let neg = g.len() >= 2 && (g[1] == '!' || g[1] == '^');
        let start: int = if neg {
            2int
        } else {
            1int
        };
        let close = class_close(g, start);
        if !(start <= close < g.len()) {
            p.len() > 0 && p[0] == '[' && glob_matches(g.skip(1), p.skip(1))
        } else {
            p.len() > 0 && p[0] != '/' && class_admits(g.subrange(start, close), p[0]) != neg
                && glob_matches(g.skip(close + 1), p.skip(1))
        }
    } else {
        p.len() > 0 && p[0] == g[0] && glob_matches(g.skip(1), p.skip(1))
    }
}

/// The component-swallowing arm of a globstar: drop characters of `p` up to
/// and including the next `/`, then resume the globstar `g`.
pub open spec fn globstar_skip(g: Seq<char>, p: Seq<char>) -> bool
    decreases g.len() + p.len(), 0int,
{
    if p.len() == 0 {
        false
    } else if p[0] == '/' {
        glob_matches(g, p.skip(1))
    } else {
        globstar_skip(g, p.skip(1))
    }
}

/// Finds the closing `]` of a character class that starts at `start`.
fn find_close(g: &str, start: usize) -> (r: Option<usize>)
    requires
        start <= g@.len(),
    ensures
        match r {
            Some(j) => class_close(g@, start as int) == j as int && start <= j < g@.len()
                && g@[j as int] == ']',
            None => class_close(g@, start as int) == -1,
        },
{
    let glen = g.unicode_len();
    let mut j = start;
    while j < glen
        invariant
            start <= j <= glen,
            glen == g@.len(),
            class_close(g@, start as int) == class_close(g@, j as int),
        decreases glen - j,
    {
        if g.get_char(j) == ']' {
            return Some(j);
        }
        j = j + 1;
    }
    None
}

/// Evaluates the character class held in `g[lo..hi]` on the character `c`.
fn class_match(g: &str, lo: usize, hi: usize, c: char) -> (r: bool)
    requires
        lo <= hi <= g@.len(),
    ensures
        r == class_admits(g@.subrange(lo as int, hi as int), c),
    decreases hi - lo,
{
    proof {
        assert(g@.subrange(lo as int, hi as int).len() == hi - lo);
    }
    if hi - lo >= 3 && g.get_char(lo + 1) == '-' {
        proof {
            assert(g@.subrange(lo as int, hi as int)[1] == g@[lo + 1]);
            assert(g@.subrange(lo as int, hi as int)[0] == g@[lo as int]);
            assert(g@.subrange(lo as int, hi as int)[2] == g@[lo + 2]);
            assert(g@.subrange(lo as int, hi as int).skip(3) =~= g@.subrange(lo + 3, hi as int));
        }
        if (g.get_char(lo) as u32) <= (c as u32) && (c as u32) <= (g.get_char(lo + 2) as u32) {
            true
        } else {
            class_match(g, lo + 3, hi, c)
        }
    } else if hi - lo >= 1 {
        proof {
            assert(g@.subrange(lo as int, hi as int)[0] == g@[lo as int]);
            assert(g@.subrange(lo as int, hi as int).skip(1) =~= g@.subrange(lo + 1, hi as int));
        }
        if g.get_char(lo) == c {
            true
        } else {
            class_match(g, lo + 1, hi, c)
        }
    } else {
        false
    }
}

/// Whether the glob string `glob` matches the path string `path` in full.
pub fn glob_match(glob: &str, path: &str) -> (r: bool)
    ensures
        r == glob_matches(glob@, path@),
    decreases glob@.len() + path@.len(), 1int,
{
    let glen = glob.unicode_len();
    let plen = path.unicode_len();
    if glen == 0 {
        return plen == 0;
    }
    let c0 = glob.get_char(0);
    if c0 == '*' {
        if glen >= 2 && glob.get_char(1) == '*' {
            if glob_match(glob.substring_char(2, glen), path) {
                return true;
            }
            if glen >= 3 && glob.get_char(2) == '/' {
                if glob_match(glob.substring_char(3, glen), path) {
                    return true;
                }
            }
            globstar_skip_match(glob, path)
        } else {
            if glob_match(glob.substring_char(1, glen), path) {
                return true;
            }
            if plen > 0 && path.get_char(0) != '/' {
                glob_match(glob, path.substring_char(1, plen))
            } else {
                false
            }
        }
    } else if c0 == '?' {
        if plen > 0 && path.get_char(0) != '/' {
            glob_match(glob.substring_char(1, glen), path.substring_char(1, plen))
        } else {
            false
        }
    } else if c0 == '[' {
        let neg = glen >= 2 && (glob.get_char(1) == '!' || glob.get_char(1) == '^');
        let start: usize = if neg {
            2
        } else {
            1
        };
        match find_close(glob, start) {
            None => {
                if plen > 0 && path.get_char(0) == '[' {
                    glob_match(glob.substring_char(1, glen), path.substring_char(1, plen))
                } else {
                    false
                }
            },
            Some(close) => {
                if plen == 0 {
                    return false;
                }
                let p0 = path.get_char(0);
                if p0 == '/' {
                    return false;
                }
                if class_match(glob, start, close, p0) != neg {
                    glob_match(glob.substring_char(close + 1, glen), path.substring_char(1, plen))
                } else {
                    false
                }
            },
        }
    } else {
        if plen > 0 && path.get_char(0) == c0 {
            glob_match(glob.substring_char(1, glen), path.substring_char(1, plen))
        } else {
            false
        }
    }
}

/// The component-swallowing arm of a globstar, on strings.
fn globstar_skip_match(glob: &str, path: &str) -> (r: bool)
    ensures
        r == globstar_skip(glob@, path@),
    decreases glob@.len() + path@.len(), 0int,
{
    let plen = path.unicode_len();
    if plen == 0 {
        false
    } else if path.get_char(0) == '/' {
        glob_match(glob, path.substring_char(1, plen))
    } else {
        globstar_skip_match(glob, path.substring_char(1, plen))
    }
}

} // verus!
