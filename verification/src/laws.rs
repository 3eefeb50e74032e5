//! Laws the rule engine and the walker obey, stated over their models and
//! proved once and for all.

use vstd::prelude::*;

use crate::ignore_rules::arbitrate;
use crate::ignore_rules::check_model;
use crate::ignore_rules::pattern_applies;
use crate::ignore_rules::scan_slots;
use crate::pattern::parent_path;
use crate::pattern::MatchResult;
use crate::pattern::PatternModel;
use crate::pattern::SourceModel;
use crate::walker::abs_of;
use crate::walker::load_dir_rules;
use crate::walker::is_child_of;
use crate::walker::walk_children_model;
use crate::walker::walk_dir_model;
use crate::walker::EntryModel;

verus! {

/// Whether a slot is either empty or an index into the first `n` rules.
pub open spec fn slot_in(o: Option<int>, n: int) -> bool {
    match o {
        Some(k) => 0 <= k < n,
        None => true,
    }
}

/// The scan visits only `rules[..i]`: two rule lists that agree there give
/// the same slots.
proof fn lemma_scan_eq_prefix(
    a: Seq<PatternModel>,
    b: Seq<PatternModel>,
    rel: Seq<char>,
    is_dir: bool,
    i: int,
    im: Option<int>,
    wm: Option<int>,
)
    requires
        i <= a.len(),
        i <= b.len(),
        forall|j: int| 0 <= j < i ==> a[j] == b[j],
    ensures
        scan_slots(a, rel, is_dir, i, im, wm) == scan_slots(b, rel, is_dir, i, im, wm),
    decreases i,
{
    if i <= 0 || (im is Some && wm is Some) {
    } else {
        let j = i - 1;
        assert(a[j] == b[j]);
        if pattern_applies(a[j], rel, is_dir) {
            if a[j].effect == crate::pattern::PatternEffect::Ignore && im is None {
                lemma_scan_eq_prefix(a, b, rel, is_dir, j, Some(j), wm);
            } else if a[j].effect == crate::pattern::PatternEffect::Whitelist && wm is None {
                lemma_scan_eq_prefix(a, b, rel, is_dir, j, im, Some(j));
            } else {
                lemma_scan_eq_prefix(a, b, rel, is_dir, j, im, wm);
            }
        } else {
            lemma_scan_eq_prefix(a, b, rel, is_dir, j, im, wm);
        }
    }
}

/// The scan only ever fills a slot with an index below its starting point.
proof fn lemma_scan_bounds(
    rules: Seq<PatternModel>,
    rel: Seq<char>,
    is_dir: bool,
    i: int,
    im: Option<int>,
    wm: Option<int>,
    n: int,
)
    requires
        i <= n,
        slot_in(im, n),
        slot_in(wm, n),
    ensures
        slot_in(scan_slots(rules, rel, is_dir, i, im, wm).0, n),
        slot_in(scan_slots(rules, rel, is_dir, i, im, wm).1, n),
    decreases i,
{
    if i <= 0 || (im is Some && wm is Some) {
    } else {
        let j = i - 1;
        if 0 <= j < rules.len() && pattern_applies(rules[j], rel, is_dir) {
            if rules[j].effect == crate::pattern::PatternEffect::Ignore && im is None {
                lemma_scan_bounds(rules, rel, is_dir, j, Some(j), wm, n);
            } else if rules[j].effect == crate::pattern::PatternEffect::Whitelist && wm is None {
                lemma_scan_bounds(rules, rel, is_dir, j, im, Some(j), n);
            } else {
                lemma_scan_bounds(rules, rel, is_dir, j, im, wm, n);
            }
        } else {
            lemma_scan_bounds(rules, rel, is_dir, j, im, wm, n);
        }
    }
}

/// A rule list extended with a pattern that does not apply to a path gives
/// that path the same verdict as before: the scan passes over the new
/// pattern, and the earlier patterns keep their insertion order.
pub proof fn lemma_inert_pattern_append(
    rules: Seq<PatternModel>,
    q: PatternModel,
    rel: Seq<char>,
    is_dir: bool,
)
    requires
        !pattern_applies(q, rel, is_dir),
    ensures
        check_model(rules.push(q), rel, is_dir) == check_model(rules, rel, is_dir),
{
    let a = rules.push(q);
    let n = rules.len() as int;
    assert(a.len() == n + 1);
    assert(a[n] == q);
    assert(forall|j: int| 0 <= j < n ==> a[j] == rules[j]);
    assert(scan_slots(a, rel, is_dir, n + 1, None, None) == scan_slots(a, rel, is_dir, n, None, None));
    lemma_scan_eq_prefix(a, rules, rel, is_dir, n, None, None);
    lemma_scan_bounds(rules, rel, is_dir, n, None, None, n);
    let slots = scan_slots(rules, rel, is_dir, n, None, None);
    match (slots.0, slots.1) {
        (Some(i), Some(w)) => {
            assert(a[i] == rules[i]);
            assert(a[w] == rules[w]);
            assert(arbitrate(a, slots.0, slots.1) == arbitrate(rules, slots.0, slots.1));
        },
        _ => {
            assert(arbitrate(a, slots.0, slots.1) == arbitrate(rules, slots.0, slots.1));
        },
    }
}

/// A pattern read from the ignore file living in directory `rel` never
/// changes the verdict on `rel` itself: the scan skips a pattern whose
/// source file's own directory is the queried path.
pub proof fn lemma_own_ignore_file_spares_directory(
    rules: Seq<PatternModel>,
    q: PatternModel,
    rel: Seq<char>,
    is_dir: bool,
)
    requires
        match q.source {
            SourceModel::File { path, .. } => parent_path(path) == Some(rel),
            _ => false,
        },
    ensures
        check_model(rules.push(q), rel, is_dir) == check_model(rules, rel, is_dir),
{
    assert(crate::ignore_rules::self_file_skip(q, rel));
    lemma_inert_pattern_append(rules, q, rel, is_dir);
}

/// The verdict is a function of the ordered rule list alone: however a rule
/// list was assembled, two equal lists decide every query alike. Arbitration
/// is deterministic given the full insertion order.
pub proof fn lemma_check_deterministic(
    a: Seq<PatternModel>,
    b: Seq<PatternModel>,
    rel: Seq<char>,
    is_dir: bool,
)
    requires
        a =~= b,
    ensures
        check_model(a, rel, is_dir) == check_model(b, rel, is_dir),
{
}

/// Merging `a ∪ b` and then `c` into one rule list yields exactly the rule
/// list of merging `a` and then `b ∪ c`: rule-list merging, which
/// concatenates in insertion order, is associative.
pub proof fn lemma_merge_associative(
    a: Seq<PatternModel>,
    b: Seq<PatternModel>,
    c: Seq<PatternModel>,
)
    ensures
        (a + b) + c == a + (b + c),
{
    assert((a + b) + c =~= a + (b + c));
}

/// Whether `p` equals `d` or lies somewhere below it, following parent
/// links.
pub open spec fn is_descendant(p: Seq<char>, d: Seq<char>) -> bool
    decreases p.len(),
{
    if p == d {
        true
    } else {
        match parent_path(p) {
            Some(pp) => if pp.len() < p.len() {
                is_descendant(pp, d)
            } else {
                false
            },
            None => false,
        }
    }
}

/// A descendant is never shorter than its ancestor.
proof fn lemma_descendant_len(p: Seq<char>, d: Seq<char>)
    requires
        is_descendant(p, d),
    ensures
        p.len() >= d.len(),
    decreases p.len(),
{
    if p == d {
    } else {
        match parent_path(p) {
            Some(pp) => {
                lemma_descendant_len(pp, d);
            },
            None => {},
        }
    }
}

/// Two paths that descend from each other are the same path.
proof fn lemma_descendant_antisym(a: Seq<char>, b: Seq<char>)
    requires
        is_descendant(a, b),
        is_descendant(b, a),
    ensures
        a == b,
{
    lemma_descendant_len(a, b);
    lemma_descendant_len(b, a);
    if a != b {
        match parent_path(a) {
            Some(pp) => {
                if pp.len() < a.len() {
                    lemma_descendant_len(pp, b);
                }
            },
            None => {},
        }
    }
}

/// A strict descendant's parent still descends from the ancestor.
proof fn lemma_descendant_parent_step(p: Seq<char>, a: Seq<char>)
    requires
        is_descendant(p, a),
        p != a,
    ensures
        parent_path(p) is Some,
        is_descendant(parent_path(p).unwrap(), a),
{
}

/// Two ancestors of one path lie on one chain: one descends from the other.
proof fn lemma_ancestors_comparable(p: Seq<char>, a: Seq<char>, b: Seq<char>)
    requires
        is_descendant(p, a),
        is_descendant(p, b),
    ensures
        is_descendant(a, b) || is_descendant(b, a),
    decreases p.len(),
{
    if p == a {
    } else if p == b {
    } else {
        match parent_path(p) {
            Some(pp) => {
                if pp.len() < p.len() {
                    lemma_ancestors_comparable(pp, a, b);
                }
            },
            None => {},
        }
    }
}

/// A path strictly between a directory and one of the directory's immediate
/// children does not exist.
proof fn lemma_no_path_between_child(p: Seq<char>, d: Seq<char>, a: Seq<char>)
    requires
        is_child_of(p, d),
        is_descendant(p, a),
        a != p,
        is_descendant(a, d),
    ensures
        a == d,
{
    lemma_descendant_parent_step(p, a);
    assert(is_descendant(d, a));
    lemma_descendant_antisym(a, d);
}

/// An immediate child is a descendant.
pub proof fn lemma_child_is_descendant(c: Seq<char>, d: Seq<char>)
    requires
        is_child_of(c, d),
    ensures
        is_descendant(c, d),
        c.len() > d.len(),
{
    crate::walker::lemma_parent_shorter(c, d);
    assert(is_descendant(d, d));
}

/// Being a descendant is transitive.
pub proof fn lemma_descendant_trans(x: Seq<char>, c: Seq<char>, d: Seq<char>)
    requires
        is_descendant(x, c),
        is_descendant(c, d),
    ensures
        is_descendant(x, d),
    decreases x.len(),
{
    if x == c {
    } else if x == d {
    } else {
        match parent_path(x) {
            Some(pp) => {
                if pp.len() < x.len() {
                    lemma_descendant_trans(pp, c, d);
                }
            },
            None => {},
        }
    }
}

/// Every directory strictly between `dir` and the path `p` — the
/// directories the walker had to descend through to reach `p` — was found
/// not ignored when the walker tested it, under some rule list between
/// `rules0` and `rules_f` (both inclusive bounds in insertion order).
pub open spec fn ancestors_approved(
    rules0: Seq<PatternModel>,
    rules_f: Seq<PatternModel>,
    dir: Seq<char>,
    p: Seq<char>,
) -> bool {
    forall|a: Seq<char>|
        #![trigger is_descendant(p, a), is_descendant(a, dir)]
        (is_descendant(p, a) && a != p && is_descendant(a, dir) && a != dir) ==> exists|
            rs: Seq<PatternModel>,
        |
            rules0.is_prefix_of(rs) && #[trigger] rs.is_prefix_of(rules_f) && check_model(
                rs,
                a,
                true,
            ) != MatchResult::Ignore
}

/// What justifies one emitted path `e` of a walk that started at `dir` with
/// rule list `rules0` and ended with `rules_f`: `e` is the absolute form of a
/// file entry strictly below `dir`; at the moment the walker tested it —
/// some rule list between `rules0` and `rules_f`, both inclusive bounds in
/// insertion order — the verdict was not `Ignore`; and every directory on
/// the way down to it was likewise found not ignored when tested. So once a
/// directory is ignored, no descendant of it is ever emitted.
pub open spec fn emission_justified(
    t: Seq<EntryModel>,
    root: Seq<char>,
    rules0: Seq<PatternModel>,
    rules_f: Seq<PatternModel>,
    dir: Seq<char>,
    e: Seq<char>,
) -> bool {
    exists|i: int, rs: Seq<PatternModel>|
        {
            &&& 0 <= i < t.len()
            &&& !t[i].is_dir
            &&& e == abs_of(root, #[trigger] t[i].path)
            &&& is_descendant(t[i].path, dir)
            &&& t[i].path.len() > dir.len()
            &&& rules0.is_prefix_of(rs)
            &&& #[trigger] rs.is_prefix_of(rules_f)
            &&& check_model(rs, t[i].path, false) != MatchResult::Ignore
            &&& ancestors_approved(rules0, rules_f, dir, t[i].path)
        }
}

/// Prefix order on rule lists is transitive.
proof fn lemma_prefix_trans(a: Seq<PatternModel>, b: Seq<PatternModel>, c: Seq<PatternModel>)
    requires
        a.is_prefix_of(b),
        b.is_prefix_of(c),
    ensures
        a.is_prefix_of(c),
{
    assert(c.subrange(0, a.len() as int) =~= a) by {
        assert(forall|i: int|
            0 <= i < a.len() ==> c.subrange(0, b.len() as int)[i] == c.subrange(
                0,
                a.len() as int,
            )[i]);
    }
}

/// A rule list is a prefix of itself.
proof fn lemma_prefix_refl(a: Seq<PatternModel>)
    ensures
        a.is_prefix_of(a),
{
    assert(a.subrange(0, a.len() as int) =~= a);
}

/// Loading a directory's ignore file only appends.
proof fn lemma_load_grows(
    t: Seq<EntryModel>,
    fname: Option<Seq<char>>,
    rules: Seq<PatternModel>,
    dir: Seq<char>,
)
    ensures
        rules.is_prefix_of(load_dir_rules(t, fname, rules, dir)),
{
    let l = load_dir_rules(t, fname, rules, dir);
    assert(l.subrange(0, rules.len() as int) =~= rules);
}

/// A whole directory walk only appends to the rule list.
pub proof fn lemma_walk_dir_grows(
    t: Seq<EntryModel>,
    root: Seq<char>,
    fname: Option<Seq<char>>,
    dot_git: bool,
    rules: Seq<PatternModel>,
    dir: Seq<char>,
    bound: nat,
)
    ensures
        rules.is_prefix_of(walk_dir_model(t, root, fname, dot_git, rules, dir, bound).1),
    decreases bound - dir.len(), t.len() + 1, 1int,
{
    if dir.len() > bound {
        lemma_prefix_refl(rules);
    } else {
        let rules1 = load_dir_rules(t, fname, rules, dir);
        lemma_load_grows(t, fname, rules, dir);
        lemma_walk_children_grows(t, root, fname, dot_git, rules1, dir, 0, bound);
        lemma_prefix_trans(
            rules,
            rules1,
            walk_children_model(t, root, fname, dot_git, rules1, dir, 0, bound).1,
        );
    }
}

/// Walking the children from `idx` on only appends to the rule list.
pub proof fn lemma_walk_children_grows(
    t: Seq<EntryModel>,
    root: Seq<char>,
    fname: Option<Seq<char>>,
    dot_git: bool,
    rules: Seq<PatternModel>,
    dir: Seq<char>,
    idx: int,
    bound: nat,
)
    ensures
        rules.is_prefix_of(walk_children_model(t, root, fname, dot_git, rules, dir, idx, bound).1),
    decreases bound - dir.len(), t.len() - idx, 0int,
{
    if idx < 0 || idx >= t.len() || dir.len() > bound {
        lemma_prefix_refl(rules);
    } else {
        let e = t[idx];
        if is_child_of(e.path, dir) && !(dot_git && crate::walker::base_name(e.path) == seq![
            '.',
            'g',
            'i',
            't',
        ]) {
            if check_model(rules, e.path, e.is_dir) == MatchResult::Ignore {
                lemma_walk_children_grows(t, root, fname, dot_git, rules, dir, idx + 1, bound);
            } else if e.is_dir {
                if dir.len() < e.path.len() <= bound {
                    let sub = walk_dir_model(t, root, fname, dot_git, rules, e.path, bound);
                    lemma_walk_dir_grows(t, root, fname, dot_git, rules, e.path, bound);
                    lemma_walk_children_grows(t, root, fname, dot_git, sub.1, dir, idx + 1, bound);
                    lemma_prefix_trans(
                        rules,
                        sub.1,
                        walk_children_model(t, root, fname, dot_git, sub.1, dir, idx + 1, bound).1,
                    );
                } else {
                    lemma_walk_children_grows(t, root, fname, dot_git, rules, dir, idx + 1, bound);
                }
            } else {
                lemma_walk_children_grows(t, root, fname, dot_git, rules, dir, idx + 1, bound);
            }
        } else {
            lemma_walk_children_grows(t, root, fname, dot_git, rules, dir, idx + 1, bound);
        }
    }
}

/// Ancestor approval survives widening the rule-list interval on both ends.
proof fn lemma_ancestors_widen(
    lo0: Seq<PatternModel>,
    lo1: Seq<PatternModel>,
    hi0: Seq<PatternModel>,
    hi1: Seq<PatternModel>,
    dir: Seq<char>,
    p: Seq<char>,
)
    requires
        ancestors_approved(lo1, hi0, dir, p),
        lo0.is_prefix_of(lo1),
        hi0.is_prefix_of(hi1),
    ensures
        ancestors_approved(lo0, hi1, dir, p),
{
    assert forall|a: Seq<char>|
        (is_descendant(p, a) && a != p && is_descendant(a, dir) && a != dir) implies exists|
        rs: Seq<PatternModel>,
    |
        lo0.is_prefix_of(rs) && #[trigger] rs.is_prefix_of(hi1) && check_model(rs, a, true)
            != MatchResult::Ignore by {
        let rs = choose|rs: Seq<PatternModel>|
            lo1.is_prefix_of(rs) && #[trigger] rs.is_prefix_of(hi0) && check_model(rs, a, true)
                != MatchResult::Ignore;
        lemma_prefix_trans(lo0, lo1, rs);
        lemma_prefix_trans(rs, hi0, hi1);
        assert(lo0.is_prefix_of(rs) && rs.is_prefix_of(hi1) && check_model(rs, a, true)
            != MatchResult::Ignore);
    }
}

/// Every path a directory walk emits is justified: it is a file entry of
/// the snapshot, strictly below the walked directory — hence below the root
/// — the rules as they stood when the walker tested it did not say
/// `Ignore`, and every directory on the way down was likewise approved.
pub proof fn lemma_walk_dir_emissions_justified(
    t: Seq<EntryModel>,
    root: Seq<char>,
    fname: Option<Seq<char>>,
    dot_git: bool,
    rules: Seq<PatternModel>,
    dir: Seq<char>,
    bound: nat,
)
    ensures
        ({
            let m = walk_dir_model(t, root, fname, dot_git, rules, dir, bound);
            forall|k: int|
                0 <= k < m.0.len() ==> emission_justified(t, root, rules, m.1, dir, #[trigger] m.0[k])
        }),
    decreases bound - dir.len(), t.len() + 1, 1int,
{
    if dir.len() > bound {
    } else {
        let rules1 = load_dir_rules(t, fname, rules, dir);
        lemma_load_grows(t, fname, rules, dir);
        lemma_walk_children_emissions_justified(t, root, fname, dot_git, rules1, dir, 0, bound);
        let m = walk_children_model(t, root, fname, dot_git, rules1, dir, 0, bound);
        assert forall|k: int| 0 <= k < m.0.len() implies emission_justified(
            t,
            root,
            rules,
            m.1,
            dir,
            #[trigger] m.0[k],
        ) by {
            let (i, rs) = choose|i: int, rs: Seq<PatternModel>|
                {
                    &&& 0 <= i < t.len()
                    &&& !t[i].is_dir
                    &&& m.0[k] == abs_of(root, #[trigger] t[i].path)
                    &&& is_descendant(t[i].path, dir)
                    &&& t[i].path.len() > dir.len()
                    &&& rules1.is_prefix_of(rs)
                    &&& #[trigger] rs.is_prefix_of(m.1)
                    &&& check_model(rs, t[i].path, false) != MatchResult::Ignore
                    &&& ancestors_approved(rules1, m.1, dir, t[i].path)
                };
            lemma_prefix_trans(rules, rules1, rs);
            lemma_prefix_refl(m.1);
            lemma_ancestors_widen(rules, rules1, m.1, m.1, dir, t[i].path);
            assert(rules.is_prefix_of(rs));
        }
    }
}

/// Every path emitted while walking the children from `idx` on is justified.
pub proof fn lemma_walk_children_emissions_justified(
    t: Seq<EntryModel>,
    root: Seq<char>,
    fname: Option<Seq<char>>,
    dot_git: bool,
    rules: Seq<PatternModel>,
    dir: Seq<char>,
    idx: int,
    bound: nat,
)
    ensures
        ({
            let m = walk_children_model(t, root, fname, dot_git, rules, dir, idx, bound);
            forall|k: int|
                0 <= k < m.0.len() ==> emission_justified(t, root, rules, m.1, dir, #[trigger] m.0[k])
        }),
    decreases bound - dir.len(), t.len() - idx, 1int,
{
    if idx < 0 || idx >= t.len() || dir.len() > bound {
    } else {
        let e = t[idx];
        let m = walk_children_model(t, root, fname, dot_git, rules, dir, idx, bound);
        if is_child_of(e.path, dir) && !(dot_git && crate::walker::base_name(e.path) == seq![
            '.',
            'g',
            'i',
            't',
        ]) {
            if check_model(rules, e.path, e.is_dir) == MatchResult::Ignore {
                lemma_walk_children_emissions_justified(
                    t,
                    root,
                    fname,
                    dot_git,
                    rules,
                    dir,
                    idx + 1,
                    bound,
                );
            } else if e.is_dir {
                if dir.len() < e.path.len() <= bound {
                    lemma_walk_subtree_case(t, root, fname, dot_git, rules, dir, idx, bound);
                } else {
                    lemma_walk_children_emissions_justified(
                        t,
                        root,
                        fname,
                        dot_git,
                        rules,
                        dir,
                        idx + 1,
                        bound,
                    );
                }
            } else {
                lemma_walk_children_emissions_justified(
                    t,
                    root,
                    fname,
                    dot_git,
                    rules,
                    dir,
                    idx + 1,
                    bound,
                );
                let rest = walk_children_model(t, root, fname, dot_git, rules, dir, idx + 1, bound);
                lemma_walk_children_grows(t, root, fname, dot_git, rules, dir, idx + 1, bound);
                lemma_prefix_refl(rules);
                lemma_child_is_descendant(e.path, dir);
                assert forall|k: int| 0 <= k < m.0.len() implies emission_justified(
                    t,
                    root,
                    rules,
                    m.1,
                    dir,
                    #[trigger] m.0[k],
                ) by {
                    if k == 0 {
                        assert(m.0[0] == abs_of(root, t[idx].path));
                        assert forall|a: Seq<char>|
                            (is_descendant(t[idx].path, a) && a != t[idx].path && is_descendant(
                                a,
                                dir,
                            ) && a != dir) implies exists|rs: Seq<PatternModel>|
                            rules.is_prefix_of(rs) && #[trigger] rs.is_prefix_of(m.1)
                                && check_model(rs, a, true) != MatchResult::Ignore by {
                            lemma_no_path_between_child(t[idx].path, dir, a);
                        }
                        assert(ancestors_approved(rules, m.1, dir, t[idx].path));
                        assert(emission_justified(t, root, rules, m.1, dir, m.0[k])) by {
                            assert({
                                &&& 0 <= idx < t.len()
                                &&& !t[idx].is_dir
                                &&& m.0[0] == abs_of(root, t[idx].path)
                                &&& is_descendant(t[idx].path, dir)
                                &&& t[idx].path.len() > dir.len()
                                &&& rules.is_prefix_of(rules)
                                &&& rules.is_prefix_of(m.1)
                                &&& check_model(rules, t[idx].path, false) != MatchResult::Ignore
                                &&& ancestors_approved(rules, m.1, dir, t[idx].path)
                            });
                        }
                    } else {
                        assert(m.0[k] == rest.0[k - 1]);
                        assert(emission_justified(t, root, rules, rest.1, dir, rest.0[k - 1]));
                    }
                }
            }
        } else {
            lemma_walk_children_emissions_justified(
                t,
                root,
                fname,
                dot_git,
                rules,
                dir,
                idx + 1,
                bound,
            );
        }
    }
}

/// The descended-directory case of the children walk: emissions of the
/// subtree and of the remaining children are both justified.
proof fn lemma_walk_subtree_case(
    t: Seq<EntryModel>,
    root: Seq<char>,
    fname: Option<Seq<char>>,
    dot_git: bool,
    rules: Seq<PatternModel>,
    dir: Seq<char>,
    idx: int,
    bound: nat,
)
    requires
        0 <= idx < t.len(),
        dir.len() <= bound,
        ({
            let e = t[idx];
            is_child_of(e.path, dir) && !(dot_git && crate::walker::base_name(e.path) == seq![
                '.',
                'g',
                'i',
                't',
            ]) && check_model(rules, e.path, e.is_dir) != MatchResult::Ignore && e.is_dir
                && dir.len() < e.path.len() <= bound
        }),
    ensures
        ({
            let m = walk_children_model(t, root, fname, dot_git, rules, dir, idx, bound);
            forall|k: int|
                0 <= k < m.0.len() ==> emission_justified(t, root, rules, m.1, dir, #[trigger] m.0[k])
        }),
    decreases bound - dir.len(), t.len() - idx, 0int,
{
    let e = t[idx];
    let m = walk_children_model(t, root, fname, dot_git, rules, dir, idx, bound);
    let sub = walk_dir_model(t, root, fname, dot_git, rules, e.path, bound);
    let rest = walk_children_model(t, root, fname, dot_git, sub.1, dir, idx + 1, bound);
    lemma_walk_dir_emissions_justified(t, root, fname, dot_git, rules, e.path, bound);
    lemma_walk_children_emissions_justified(t, root, fname, dot_git, sub.1, dir, idx + 1, bound);
    lemma_walk_dir_grows(t, root, fname, dot_git, rules, e.path, bound);
    lemma_walk_children_grows(t, root, fname, dot_git, sub.1, dir, idx + 1, bound);
    lemma_child_is_descendant(e.path, dir);
    assert(m.0 == sub.0 + rest.0);
    assert(m.1 == rest.1);
    assert forall|k: int| 0 <= k < m.0.len() implies emission_justified(
        t,
        root,
        rules,
        m.1,
        dir,
        #[trigger] m.0[k],
    ) by {
        if k < sub.0.len() {
            assert(m.0[k] == sub.0[k]);
            assert(emission_justified(t, root, rules, sub.1, e.path, sub.0[k]));
            let (i, rs) = choose|i: int, rs: Seq<PatternModel>|
                {
                    &&& 0 <= i < t.len()
                    &&& !t[i].is_dir
                    &&& sub.0[k] == abs_of(root, #[trigger] t[i].path)
                    &&& is_descendant(t[i].path, e.path)
                    &&& t[i].path.len() > e.path.len()
                    &&& rules.is_prefix_of(rs)
                    &&& #[trigger] rs.is_prefix_of(sub.1)
                    &&& check_model(rs, t[i].path, false) != MatchResult::Ignore
                    &&& ancestors_approved(rules, sub.1, e.path, t[i].path)
                };
            lemma_descendant_trans(t[i].path, e.path, dir);
            lemma_prefix_trans(rs, sub.1, rest.1);
            lemma_prefix_trans(rules, sub.1, rest.1);
            // every directory between `dir` and the emitted entry was
            // approved: the descended child here, the deeper ones by the
            // subtree's own walk
            assert forall|a: Seq<char>|
                (is_descendant(t[i].path, a) && a != t[i].path && is_descendant(a, dir) && a
                    != dir) implies exists|rs2: Seq<PatternModel>|
                rules.is_prefix_of(rs2) && #[trigger] rs2.is_prefix_of(rest.1) && check_model(
                    rs2,
                    a,
                    true,
                ) != MatchResult::Ignore by {
                lemma_ancestors_comparable(t[i].path, a, e.path);
                if a == e.path {
                    lemma_prefix_refl(rules);
                    assert(rules.is_prefix_of(rules) && rules.is_prefix_of(rest.1) && check_model(
                        rules,
                        a,
                        true,
                    ) != MatchResult::Ignore);
                } else if is_descendant(a, e.path) {
                    let rs2 = choose|rs2: Seq<PatternModel>|
                        rules.is_prefix_of(rs2) && #[trigger] rs2.is_prefix_of(sub.1)
                            && check_model(rs2, a, true) != MatchResult::Ignore;
                    lemma_prefix_trans(rs2, sub.1, rest.1);
                    assert(rules.is_prefix_of(rs2) && rs2.is_prefix_of(rest.1) && check_model(
                        rs2,
                        a,
                        true,
                    ) != MatchResult::Ignore);
                } else {
                    lemma_descendant_parent_step(e.path, a);
                    lemma_descendant_antisym(a, dir);
                }
            }
            assert(ancestors_approved(rules, rest.1, dir, t[i].path));
            assert(emission_justified(t, root, rules, m.1, dir, m.0[k])) by {
                assert({
                    &&& is_descendant(t[i].path, dir)
                    &&& t[i].path.len() > dir.len()
                    &&& rules.is_prefix_of(rs)
                    &&& rs.is_prefix_of(m.1)
                    &&& ancestors_approved(rules, m.1, dir, t[i].path)
                });
            }
        } else {
            assert(m.0[k] == rest.0[k - sub.0.len()]);
            assert(emission_justified(t, root, sub.1, rest.1, dir, rest.0[k - sub.0.len()]));
            let (i, rs) = choose|i: int, rs: Seq<PatternModel>|
                {
                    &&& 0 <= i < t.len()
                    &&& !t[i].is_dir
                    &&& rest.0[k - sub.0.len()] == abs_of(root, #[trigger] t[i].path)
                    &&& is_descendant(t[i].path, dir)
                    &&& t[i].path.len() > dir.len()
                    &&& sub.1.is_prefix_of(rs)
                    &&& #[trigger] rs.is_prefix_of(rest.1)
                    &&& check_model(rs, t[i].path, false) != MatchResult::Ignore
                    &&& ancestors_approved(sub.1, rest.1, dir, t[i].path)
                };
            lemma_prefix_trans(rules, sub.1, rs);
            lemma_prefix_refl(rest.1);
            lemma_ancestors_widen(rules, sub.1, rest.1, rest.1, dir, t[i].path);
            assert(emission_justified(t, root, rules, m.1, dir, m.0[k]));
        }
    }
}

/// Every directory on the chain from `d` up to, but not including, `dir` —
/// `d` itself among them — was found not ignored when the ignore-file
/// collection tested it, under some rule list between `rules0` and
/// `rules_f`.
pub open spec fn dirs_approved(
    rules0: Seq<PatternModel>,
    rules_f: Seq<PatternModel>,
    dir: Seq<char>,
    d: Seq<char>,
) -> bool {
    forall|a: Seq<char>|
        #![trigger is_descendant(d, a), is_descendant(a, dir)]
        (is_descendant(d, a) && is_descendant(a, dir) && a != dir) ==> exists|
            rs: Seq<PatternModel>,
        |
            rules0.is_prefix_of(rs) && #[trigger] rs.is_prefix_of(rules_f) && check_model(
                rs,
                a,
                true,
            ) != MatchResult::Ignore
}

/// Directory approval survives widening the rule-list interval on both ends.
proof fn lemma_dirs_approved_widen(
    lo0: Seq<PatternModel>,
    lo1: Seq<PatternModel>,
    hi0: Seq<PatternModel>,
    hi1: Seq<PatternModel>,
    dir: Seq<char>,
    d: Seq<char>,
)
    requires
        dirs_approved(lo1, hi0, dir, d),
        lo0.is_prefix_of(lo1),
        hi0.is_prefix_of(hi1),
    ensures
        dirs_approved(lo0, hi1, dir, d),
{
    assert forall|a: Seq<char>|
        (is_descendant(d, a) && is_descendant(a, dir) && a != dir) implies exists|
        rs: Seq<PatternModel>,
    |
        lo0.is_prefix_of(rs) && #[trigger] rs.is_prefix_of(hi1) && check_model(rs, a, true)
            != MatchResult::Ignore by {
        let rs = choose|rs: Seq<PatternModel>|
            lo1.is_prefix_of(rs) && #[trigger] rs.is_prefix_of(hi0) && check_model(rs, a, true)
                != MatchResult::Ignore;
        lemma_prefix_trans(lo0, lo1, rs);
        lemma_prefix_trans(rs, hi0, hi1);
        assert(lo0.is_prefix_of(rs) && rs.is_prefix_of(hi1) && check_model(rs, a, true)
            != MatchResult::Ignore);
    }
}

/// What justifies one pattern `q` the ignore-file collection appended while
/// scanning below `dir`: `q` was read from the ignore file of a directory
/// `d` at or below `dir`, and every directory the collection descended
/// through to reach that file — `d` included, `dir` excluded — was found not
/// ignored when tested. So a pruned directory contributes no pattern: no
/// ignore file under it is ever read.
pub open spec fn loaded_pattern_justified(
    t: Seq<EntryModel>,
    fname: Seq<char>,
    rules0: Seq<PatternModel>,
    rules_f: Seq<PatternModel>,
    dir: Seq<char>,
    q: PatternModel,
) -> bool {
    exists|d: Seq<char>|
        {
            &&& match q.source {
                SourceModel::File { path, .. } => path == crate::walker::join_path(d, fname),
                _ => false,
            }
            &&& #[trigger] is_descendant(d, dir)
            &&& dirs_approved(rules0, rules_f, dir, d)
        }
}

/// Every pattern of a [`crate::ignore_rules::lines_patterns`] block carries
/// the file source it was read from.
proof fn lemma_lines_patterns_source(lines: Seq<Seq<char>>, lineno: nat, src: Seq<char>)
    ensures
        forall|j: int|
            0 <= j < crate::ignore_rules::lines_patterns(lines, lineno, Some(src)).len()
                ==> match (#[trigger] crate::ignore_rules::lines_patterns(
                lines,
                lineno,
                Some(src),
            )[j]).source {
                SourceModel::File { path, .. } => path == src,
                _ => false,
            },
    decreases lines.len(),
{
    if lines.len() == 0 {
    } else {
        lemma_lines_patterns_source(lines.skip(1), lineno + 1, src);
    }
}

/// Collecting ignore files only appends to the rule list.
pub proof fn lemma_build_dir_grows(
    t: Seq<EntryModel>,
    fname: Seq<char>,
    rules: Seq<PatternModel>,
    dir: Seq<char>,
    bound: nat,
)
    ensures
        rules.is_prefix_of(crate::walker::build_dir_model(t, fname, rules, dir, bound)),
    decreases bound - dir.len(), t.len() + 1, 1int,
{
    if dir.len() > bound {
        lemma_prefix_refl(rules);
    } else {
        let rules1 = load_dir_rules(t, Some(fname), rules, dir);
        lemma_load_grows(t, Some(fname), rules, dir);
        lemma_build_children_grows(t, fname, rules1, dir, 0, bound);
        lemma_prefix_trans(
            rules,
            rules1,
            crate::walker::build_children_model(t, fname, rules1, dir, 0, bound),
        );
    }
}

/// Collecting ignore files over the children from `idx` on only appends.
pub proof fn lemma_build_children_grows(
    t: Seq<EntryModel>,
    fname: Seq<char>,
    rules: Seq<PatternModel>,
    dir: Seq<char>,
    idx: int,
    bound: nat,
)
    ensures
        rules.is_prefix_of(crate::walker::build_children_model(t, fname, rules, dir, idx, bound)),
    decreases bound - dir.len(), t.len() - idx, 0int,
{
    if idx < 0 || idx >= t.len() || dir.len() > bound {
        lemma_prefix_refl(rules);
    } else {
        let e = t[idx];
        if is_child_of(e.path, dir) && e.is_dir && check_model(rules, e.path, true)
            != MatchResult::Ignore && dir.len() < e.path.len() <= bound {
            let sub = crate::walker::build_dir_model(t, fname, rules, e.path, bound);
            lemma_build_dir_grows(t, fname, rules, e.path, bound);
            lemma_build_children_grows(t, fname, sub, dir, idx + 1, bound);
            lemma_prefix_trans(
                rules,
                sub,
                crate::walker::build_children_model(t, fname, sub, dir, idx + 1, bound),
            );
        } else {
            lemma_build_children_grows(t, fname, rules, dir, idx + 1, bound);
        }
    }
}

/// Every pattern that collecting the ignore files below `dir` appends is
/// justified: it was read from a directory the collection actually reached,
/// every step of the descent approved when tested.
pub proof fn lemma_build_dir_loads_justified(
    t: Seq<EntryModel>,
    fname: Seq<char>,
    rules: Seq<PatternModel>,
    dir: Seq<char>,
    bound: nat,
)
    ensures
        ({
            let r = crate::walker::build_dir_model(t, fname, rules, dir, bound);
            forall|j: int|
                rules.len() <= j < r.len() ==> loaded_pattern_justified(
                    t,
                    fname,
                    rules,
                    r,
                    dir,
                    #[trigger] r[j],
                )
        }),
    decreases bound - dir.len(), t.len() + 1, 1int,
{
    if dir.len() > bound {
    } else {
        let rules1 = load_dir_rules(t, Some(fname), rules, dir);
        let r = crate::walker::build_children_model(t, fname, rules1, dir, 0, bound);
        lemma_load_grows(t, Some(fname), rules, dir);
        lemma_build_children_grows(t, fname, rules1, dir, 0, bound);
        lemma_build_children_loads_justified(t, fname, rules1, dir, 0, bound);
        let igrel = crate::walker::join_path(dir, fname);
        assert forall|j: int| rules.len() <= j < r.len() implies loaded_pattern_justified(
            t,
            fname,
            rules,
            r,
            dir,
            #[trigger] r[j],
        ) by {
            if j < rules1.len() {
                // a pattern of dir's own ignore file
                match crate::walker::find_file_from(t, igrel, 0) {
                    Some(fi) => {
                        lemma_lines_patterns_source(
                            crate::ignore_rules::spec_lines(t[fi].content),
                            1,
                            igrel,
                        );
                        assert(rules1[j] == crate::ignore_rules::lines_patterns(
                            crate::ignore_rules::spec_lines(t[fi].content),
                            1,
                            Some(igrel),
                        )[j - rules.len()]);
                        assert(r[j] == rules1[j]);
                        assert(is_descendant(dir, dir));
                        assert forall|a: Seq<char>|
                            (is_descendant(dir, a) && is_descendant(a, dir) && a
                                != dir) implies exists|rs: Seq<PatternModel>|
                            rules.is_prefix_of(rs) && #[trigger] rs.is_prefix_of(r)
                                && check_model(rs, a, true) != MatchResult::Ignore by {
                            lemma_descendant_antisym(a, dir);
                        }
                        assert(dirs_approved(rules, r, dir, dir));
                        assert(loaded_pattern_justified(t, fname, rules, r, dir, r[j])) by {
                            assert({
                                &&& match r[j].source {
                                    SourceModel::File { path, .. } => path
                                        == crate::walker::join_path(dir, fname),
                                    _ => false,
                                }
                                &&& is_descendant(dir, dir)
                                &&& dirs_approved(rules, r, dir, dir)
                            });
                        }
                    },
                    None => {
                        assert(false);
                    },
                }
            } else {
                assert(loaded_pattern_justified(t, fname, rules1, r, dir, r[j]));
                let d = choose|d: Seq<char>|
                    {
                        &&& match r[j].source {
                            SourceModel::File { path, .. } => path == crate::walker::join_path(
                                d,
                                fname,
                            ),
                            _ => false,
                        }
                        &&& #[trigger] is_descendant(d, dir)
                        &&& dirs_approved(rules1, r, dir, d)
                    };
                lemma_prefix_refl(r);
                lemma_dirs_approved_widen(rules, rules1, r, r, dir, d);
            }
        }
    }
}

/// Every pattern appended while collecting over the children from `idx` on
/// is justified.
pub proof fn lemma_build_children_loads_justified(
    t: Seq<EntryModel>,
    fname: Seq<char>,
    rules: Seq<PatternModel>,
    dir: Seq<char>,
    idx: int,
    bound: nat,
)
    ensures
        ({
            let r = crate::walker::build_children_model(t, fname, rules, dir, idx, bound);
            forall|j: int|
                rules.len() <= j < r.len() ==> loaded_pattern_justified(
                    t,
                    fname,
                    rules,
                    r,
                    dir,
                    #[trigger] r[j],
                )
        }),
    decreases bound - dir.len(), t.len() - idx, 1int,
{
    if idx < 0 || idx >= t.len() || dir.len() > bound {
    } else {
        let e = t[idx];
        if is_child_of(e.path, dir) && e.is_dir && check_model(rules, e.path, true)
            != MatchResult::Ignore && dir.len() < e.path.len() <= bound {
            lemma_build_subtree_loads_case(t, fname, rules, dir, idx, bound);
        } else {
            lemma_build_children_loads_justified(t, fname, rules, dir, idx + 1, bound);
            assert(crate::walker::build_children_model(t, fname, rules, dir, idx, bound)
                == crate::walker::build_children_model(t, fname, rules, dir, idx + 1, bound));
        }
    }
}

/// The descended-directory case of the collection: patterns of the subtree
/// and of the remaining children are both justified.
proof fn lemma_build_subtree_loads_case(
    t: Seq<EntryModel>,
    fname: Seq<char>,
    rules: Seq<PatternModel>,
    dir: Seq<char>,
    idx: int,
    bound: nat,
)
    requires
        0 <= idx < t.len(),
        dir.len() <= bound,
        ({
            let e = t[idx];
            is_child_of(e.path, dir) && e.is_dir && check_model(rules, e.path, true)
                != MatchResult::Ignore && dir.len() < e.path.len() <= bound
        }),
    ensures
        ({
            let r = crate::walker::build_children_model(t, fname, rules, dir, idx, bound);
            forall|j: int|
                rules.len() <= j < r.len() ==> loaded_pattern_justified(
                    t,
                    fname,
                    rules,
                    r,
                    dir,
                    #[trigger] r[j],
                )
        }),
    decreases bound - dir.len(), t.len() - idx, 0int,
{
    let e = t[idx];
    let r = crate::walker::build_children_model(t, fname, rules, dir, idx, bound);
    let sub = crate::walker::build_dir_model(t, fname, rules, e.path, bound);
    lemma_build_dir_loads_justified(t, fname, rules, e.path, bound);
    lemma_build_children_loads_justified(t, fname, sub, dir, idx + 1, bound);
    lemma_build_dir_grows(t, fname, rules, e.path, bound);
    lemma_build_children_grows(t, fname, sub, dir, idx + 1, bound);
    lemma_child_is_descendant(e.path, dir);
    assert(r == crate::walker::build_children_model(t, fname, sub, dir, idx + 1, bound));
    assert forall|j: int| rules.len() <= j < r.len() implies loaded_pattern_justified(
        t,
        fname,
        rules,
        r,
        dir,
        #[trigger] r[j],
    ) by {
        if j < sub.len() {
            assert(r[j] == sub[j]);
            assert(loaded_pattern_justified(t, fname, rules, sub, e.path, sub[j]));
            let d = choose|d: Seq<char>|
                {
                    &&& match sub[j].source {
                        SourceModel::File { path, .. } => path == crate::walker::join_path(
                            d,
                            fname,
                        ),
                        _ => false,
                    }
                    &&& #[trigger] is_descendant(d, e.path)
                    &&& dirs_approved(rules, sub, e.path, d)
                };
            lemma_descendant_trans(d, e.path, dir);
            lemma_prefix_trans(rules, sub, r);
            // every directory on the chain down to `d` was approved: the
            // descended child here, the deeper ones by the subtree itself
            assert forall|a: Seq<char>|
                (is_descendant(d, a) && is_descendant(a, dir) && a != dir) implies exists|
                rs2: Seq<PatternModel>,
            |
                rules.is_prefix_of(rs2) && #[trigger] rs2.is_prefix_of(r) && check_model(
                    rs2,
                    a,
                    true,
                ) != MatchResult::Ignore by {
                lemma_ancestors_comparable(d, a, e.path);
                if a == e.path {
                    lemma_prefix_refl(rules);
                    assert(rules.is_prefix_of(rules) && rules.is_prefix_of(r) && check_model(
                        rules,
                        a,
                        true,
                    ) != MatchResult::Ignore);
                } else if is_descendant(a, e.path) {
                    let rs2 = choose|rs2: Seq<PatternModel>|
                        rules.is_prefix_of(rs2) && #[trigger] rs2.is_prefix_of(sub)
                            && check_model(rs2, a, true) != MatchResult::Ignore;
                    lemma_prefix_trans(rs2, sub, r);
                    assert(rules.is_prefix_of(rs2) && rs2.is_prefix_of(r) && check_model(
                        rs2,
                        a,
                        true,
                    ) != MatchResult::Ignore);
                } else {
                    lemma_descendant_parent_step(e.path, a);
                    lemma_descendant_antisym(a, dir);
                }
            }
            assert(dirs_approved(rules, r, dir, d));
            assert(loaded_pattern_justified(t, fname, rules, r, dir, r[j])) by {
                assert({
                    &&& match r[j].source {
                        SourceModel::File { path, .. } => path == crate::walker::join_path(
                            d,
                            fname,
                        ),
                        _ => false,
                    }
                    &&& is_descendant(d, dir)
                    &&& dirs_approved(rules, r, dir, d)
                });
            }
        } else {
            assert(loaded_pattern_justified(t, fname, sub, r, dir, r[j]));
            let d = choose|d: Seq<char>|
                {
                    &&& match r[j].source {
                        SourceModel::File { path, .. } => path == crate::walker::join_path(
                            d,
                            fname,
                        ),
                        _ => false,
                    }
                    &&& #[trigger] is_descendant(d, dir)
                    &&& dirs_approved(sub, r, dir, d)
                };
            lemma_prefix_refl(r);
            lemma_dirs_approved_widen(rules, sub, r, r, dir, d);
            assert(loaded_pattern_justified(t, fname, rules, r, dir, r[j]));
        }
    }
}

/// A child the rules ignore is pruned on the spot: the walk goes on exactly
/// as if the child were absent, so nothing below an ignored directory is
/// ever examined or emitted.
pub proof fn lemma_ignored_child_pruned(
    t: Seq<EntryModel>,
    root: Seq<char>,
    fname: Option<Seq<char>>,
    dot_git: bool,
    rules: Seq<PatternModel>,
    dir: Seq<char>,
    idx: int,
    bound: nat,
)
    requires
        0 <= idx < t.len(),
        dir.len() <= bound,
        is_child_of(t[idx].path, dir),
        check_model(rules, t[idx].path, t[idx].is_dir) == MatchResult::Ignore,
    ensures
        walk_children_model(t, root, fname, dot_git, rules, dir, idx, bound) == walk_children_model(
            t,
            root,
            fname,
            dot_git,
            rules,
            dir,
            idx + 1,
            bound,
        ),
{
}

} // verus!
