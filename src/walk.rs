//! A model of a whole walk: a directory tree, the steps that the walk takes on
//! it when every entry is handled as `plan_entry` decides, and what that says of
//! the files that end up in the dump.

use vstd::prelude::*;
use crate::exclude::{ExcludePattern, excluded_by};
use crate::collect::{EntryKind, StepView, planned_step, child_rel_path, join_path, exclusion_notice};

verus! {

/// An entry of a directory tree; `children` is the listing of a directory, in
/// the order in which it is enumerated.
pub struct FsTree {
    pub name: Seq<char>,
    pub exact: bool,
    pub kind: EntryKind,
    pub children: Seq<FsTree>,
}

/// The steps taken, in order, on the entries `nodes` of the directory shown as
/// `dir` with relative path `rel`, descending into each walked directory before
/// going on with its siblings.
pub open spec fn walk_steps(
    dir: Seq<char>,
    rel: Seq<char>,
    nodes: Seq<FsTree>,
    rules: Seq<ExcludePattern>,
) -> Seq<StepView>
    decreases nodes,
{
    if nodes.len() == 0 {
        seq![]
    } else {
        walk_steps(dir, rel, nodes.subrange(0, nodes.len() - 1), rules) + node_steps(
            dir,
            rel,
            nodes[nodes.len() - 1],
            rules,
        )
    }
}

/// The steps taken on the single entry `t`: its own step, followed, for a
/// walked directory, by the steps taken on its children.
pub open spec fn node_steps(
    dir: Seq<char>,
    rel: Seq<char>,
    t: FsTree,
    rules: Seq<ExcludePattern>,
) -> Seq<StepView>
    decreases t,
{
    let s = planned_step(dir, rel, t.name, t.exact, t.kind, rules);
    match s {
        StepView::Descend { path, rel_path } => seq![s] + walk_steps(
            path,
            rel_path,
            t.children,
            rules,
        ),
        _ => seq![s],
    }
}

/// Some step reads the file with relative path `p`, which puts a `# p` header
/// in the dump.
pub open spec fn reads(steps: Seq<StepView>, p: Seq<char>) -> bool {
    exists|k: int| 0 <= k < steps.len() && steps[k] == (StepView::ReadFile { rel_path: p })
}

/// `p` is the relative path of a regular file among `nodes` or beneath them
/// that no rule excludes, with no excluded directory on the way to it.
pub open spec fn kept_file(
    rel: Seq<char>,
    nodes: Seq<FsTree>,
    rules: Seq<ExcludePattern>,
    p: Seq<char>,
) -> bool
    decreases nodes,
{
    nodes.len() > 0 && (kept_file(rel, nodes.subrange(0, nodes.len() - 1), rules, p) || kept_in(
        rel,
        nodes[nodes.len() - 1],
        rules,
        p,
    ))
}

/// `p` is the relative path of `t` itself, a kept regular file, or of a kept
/// file beneath `t`, a kept directory.
pub open spec fn kept_in(rel: Seq<char>, t: FsTree, rules: Seq<ExcludePattern>, p: Seq<char>) -> bool
    decreases t,
{
    !(t.exact && excluded_by(t.name, rules)) && match t.kind {
        EntryKind::File => p == child_rel_path(rel, t.name),
        EntryKind::Dir => kept_file(child_rel_path(rel, t.name), t.children, rules, p),
        EntryKind::Other => false,
    }
}

proof fn lemma_reads_concat(a: Seq<StepView>, b: Seq<StepView>, p: Seq<char>)
    ensures
        reads(a + b, p) <==> (reads(a, p) || reads(b, p)),
{
    let ab = a + b;
    if reads(ab, p) {
        let k = choose|k: int| 0 <= k < ab.len() && ab[k] == (StepView::ReadFile { rel_path: p });
        if k < a.len() {
            assert(a[k] == ab[k]);
        } else {
            assert(b[k - a.len()] == ab[k]);
        }
    }
    if reads(a, p) {
        let k = choose|k: int| 0 <= k < a.len() && a[k] == (StepView::ReadFile { rel_path: p });
        assert(ab[k] == a[k]);
    }
    if reads(b, p) {
        let k = choose|k: int| 0 <= k < b.len() && b[k] == (StepView::ReadFile { rel_path: p });
        assert(ab[k + a.len()] == b[k]);
    }
}

/// The files that a walk reads are exactly the kept files: a `# p` header is
/// written for `p` if and only if `p` is the path, relative to the root, of a
/// regular file that no rule excludes and that lies under no excluded
/// directory.
pub proof fn lemma_walk_reads_kept_files(
    dir: Seq<char>,
    rel: Seq<char>,
    nodes: Seq<FsTree>,
    rules: Seq<ExcludePattern>,
    p: Seq<char>,
)
    ensures
        reads(walk_steps(dir, rel, nodes, rules), p) <==> kept_file(rel, nodes, rules, p),
    decreases nodes,
{
    if nodes.len() == 0 {
    } else {
        let n = nodes.len() - 1;
        let init = nodes.subrange(0, n);
        let last = nodes[n];
        lemma_reads_concat(walk_steps(dir, rel, init, rules), node_steps(dir, rel, last, rules), p);
        lemma_walk_reads_kept_files(dir, rel, init, rules, p);
        lemma_node_reads_kept(dir, rel, last, rules, p);
    }
}

proof fn lemma_node_reads_kept(
    dir: Seq<char>,
    rel: Seq<char>,
    t: FsTree,
    rules: Seq<ExcludePattern>,
    p: Seq<char>,
)
    ensures
        reads(node_steps(dir, rel, t, rules), p) <==> kept_in(rel, t, rules, p),
    decreases t,
{
    let s = planned_step(dir, rel, t.name, t.exact, t.kind, rules);
    let own = seq![s];
    if reads(own, p) {
        let k = choose|k: int| 0 <= k < own.len() && own[k] == (StepView::ReadFile { rel_path: p });
        assert(k == 0);
    }
    if s == (StepView::ReadFile { rel_path: p }) {
        assert(own[0] == s);
    }
    match s {
        StepView::Descend { path, rel_path } => {
            lemma_reads_concat(own, walk_steps(path, rel_path, t.children, rules), p);
            lemma_walk_reads_kept_files(path, rel_path, t.children, rules, p);
        },
        _ => {},
    }
}

/// An excluded entry yields one step, its notice, whatever lies beneath it:
/// nothing under an excluded directory is listed, read or reported.
pub proof fn lemma_excluded_subtree_untouched(
    dir: Seq<char>,
    rel: Seq<char>,
    t: FsTree,
    rules: Seq<ExcludePattern>,
)
    requires
        t.exact,
        excluded_by(t.name, rules),
    ensures
        node_steps(dir, rel, t, rules) == seq![
            StepView::Excluded { notice: exclusion_notice(join_path(dir, t.name)) },
        ],
{
}

/// `s` holds no `/`.
pub open spec fn no_separator(s: Seq<char>) -> bool {
    forall|k: int| 0 <= k < s.len() ==> s[k] != '/'
}

/// A valid listing: every name is non-empty and holds no `/`, siblings have
/// distinct names, and every directory's own listing is valid.
pub open spec fn well_formed(nodes: Seq<FsTree>) -> bool
    decreases nodes,
{
    nodes.len() > 0 ==> {
        let n = nodes.len() - 1;
        &&& well_formed(nodes.subrange(0, n))
        &&& node_well_formed(nodes[n])
        &&& forall|i: int| 0 <= i < n ==> nodes[i].name != nodes[n].name
    }
}

/// A valid entry: a non-empty name without `/`, and a valid listing below it.
pub open spec fn node_well_formed(t: FsTree) -> bool
    decreases t,
{
    t.name.len() > 0 && no_separator(t.name) && well_formed(t.children)
}

proof fn lemma_well_formed_entries(nodes: Seq<FsTree>)
    requires
        well_formed(nodes),
    ensures
        forall|i: int| 0 <= i < nodes.len() ==> #[trigger] node_well_formed(nodes[i]),
    decreases nodes,
{
    if nodes.len() > 0 {
        let init = nodes.subrange(0, nodes.len() - 1);
        lemma_well_formed_entries(init);
        assert forall|i: int| 0 <= i < nodes.len() implies #[trigger] node_well_formed(nodes[i]) by {
            if i < init.len() {
                assert(init[i] == nodes[i]);
            }
        }
    }
}

/// No file is read twice.
pub open spec fn reads_once(steps: Seq<StepView>) -> bool {
    forall|k1: int, k2: int|
        0 <= k1 < steps.len() && 0 <= k2 < steps.len() && steps[k1] is ReadFile && #[trigger] steps[k1]
            == #[trigger] steps[k2] ==> k1 == k2
}

/// `p` is `c` or a path beneath `c`.
pub open spec fn at_or_under(c: Seq<char>, p: Seq<char>) -> bool {
    p == c || (c.len() < p.len() && p.subrange(0, c.len() as int) == c && p[c.len() as int] == '/')
}

proof fn lemma_reads_once_concat(a: Seq<StepView>, b: Seq<StepView>)
    requires
        reads_once(a),
        reads_once(b),
        forall|p: Seq<char>| !(#[trigger] reads(a, p) && reads(b, p)),
    ensures
        reads_once(a + b),
{
    let ab = a + b;
    assert forall|k1: int, k2: int|
        0 <= k1 < ab.len() && 0 <= k2 < ab.len() && ab[k1] is ReadFile && #[trigger] ab[k1]
            == #[trigger] ab[k2] implies k1 == k2 by {
        let p = ab[k1]->ReadFile_rel_path;
        if k1 < a.len() && k2 >= a.len() {
            assert(a[k1] == ab[k1]);
            assert(b[k2 - a.len()] == ab[k2]);
            assert(reads(a, p) && reads(b, p));
        } else if k2 < a.len() && k1 >= a.len() {
            assert(a[k2] == ab[k2]);
            assert(b[k1 - a.len()] == ab[k1]);
            assert(reads(a, p) && reads(b, p));
        } else if k1 < a.len() {
            assert(a[k1] == ab[k1] && a[k2] == ab[k2]);
        } else {
            assert(b[k1 - a.len()] == ab[k1] && b[k2 - a.len()] == ab[k2]);
        }
    }
}

/// A path read on the entries `nodes` lies at or under one of them.
proof fn lemma_reads_located(
    dir: Seq<char>,
    rel: Seq<char>,
    nodes: Seq<FsTree>,
    rules: Seq<ExcludePattern>,
    p: Seq<char>,
)
    requires
        well_formed(nodes),
        reads(walk_steps(dir, rel, nodes, rules), p),
    ensures
        exists|i: int|
            0 <= i < nodes.len() && #[trigger] at_or_under(child_rel_path(rel, nodes[i].name), p),
    decreases nodes,
{
    let n = nodes.len() - 1;
    let init = nodes.subrange(0, n);
    let last = nodes[n];
    lemma_reads_concat(walk_steps(dir, rel, init, rules), node_steps(dir, rel, last, rules), p);
    if reads(walk_steps(dir, rel, init, rules), p) {
        lemma_reads_located(dir, rel, init, rules, p);
        let i = choose|i: int|
            0 <= i < init.len() && #[trigger] at_or_under(child_rel_path(rel, init[i].name), p);
        assert(init[i] == nodes[i]);
    } else {
        lemma_node_reads_located(dir, rel, last, rules, p);
    }
}

proof fn lemma_node_reads_located(
    dir: Seq<char>,
    rel: Seq<char>,
    t: FsTree,
    rules: Seq<ExcludePattern>,
    p: Seq<char>,
)
    requires
        node_well_formed(t),
        reads(node_steps(dir, rel, t, rules), p),
    ensures
        at_or_under(child_rel_path(rel, t.name), p),
    decreases t,
{
    let c = child_rel_path(rel, t.name);
    let s = planned_step(dir, rel, t.name, t.exact, t.kind, rules);
    let own = seq![s];
    match s {
        StepView::Descend { path, rel_path } => {
            let rest = walk_steps(path, rel_path, t.children, rules);
            lemma_reads_concat(own, rest, p);
            if reads(own, p) {
                let k = choose|k: int|
                    0 <= k < own.len() && own[k] == (StepView::ReadFile { rel_path: p });
                assert(own[k] == s);
            } else {
                lemma_reads_located(path, rel_path, t.children, rules, p);
                let i = choose|i: int|
                    0 <= i < t.children.len() && #[trigger] at_or_under(
                        child_rel_path(c, t.children[i].name),
                        p,
                    );
                let q = child_rel_path(c, t.children[i].name);
                assert(c.len() > 0);
                assert(q =~= c + seq!['/'] + t.children[i].name);
                assert(q.subrange(0, c.len() as int) =~= c);
                assert(q[c.len() as int] == '/');
                if p != q {
                    assert(p.subrange(0, c.len() as int) =~= p.subrange(0, q.len() as int).subrange(
                        0,
                        c.len() as int,
                    ));
                    assert(p[c.len() as int] == p.subrange(0, q.len() as int)[c.len() as int]);
                    assert(p[c.len() as int] == q[c.len() as int]);
                }
            }
        },
        _ => {
            let k = choose|k: int| 0 <= k < own.len() && own[k] == (StepView::ReadFile { rel_path: p });
            assert(own[k] == s);
        },
    }
}

/// Paths at or under two sibling entries with different names never meet.
proof fn lemma_siblings_apart(rel: Seq<char>, a: Seq<char>, b: Seq<char>, p: Seq<char>)
    requires
        no_separator(a),
        no_separator(b),
        a != b,
    ensures
        !(at_or_under(child_rel_path(rel, a), p) && at_or_under(child_rel_path(rel, b), p)),
{
    let r = if rel.len() == 0 { rel } else { rel + seq!['/'] };
    let ca = child_rel_path(rel, a);
    let cb = child_rel_path(rel, b);
    assert(ca =~= r + a);
    assert(cb =~= r + b);
    if at_or_under(ca, p) && at_or_under(cb, p) {
        let m = r.len() as int;
        if a.len() == b.len() {
            assert(ca.len() == cb.len());
            assert(p.subrange(0, ca.len() as int) =~= ca) by {
                if p != ca {
                }
            }
            assert(p.subrange(0, cb.len() as int) =~= cb);
            assert forall|k: int| 0 <= k < a.len() implies a[k] == b[k] by {
                assert(ca[m + k] == a[k]);
                assert(cb[m + k] == b[k]);
                assert(p.subrange(0, ca.len() as int)[m + k] == p[m + k]);
            }
            assert(a =~= b);
        } else if a.len() < b.len() {
            assert(p.len() >= cb.len());
            assert(p[ca.len() as int] == '/');
            assert(p.subrange(0, cb.len() as int) =~= cb) by {
                if p != cb {
                }
            }
            assert(p.subrange(0, cb.len() as int)[ca.len() as int] == p[ca.len() as int]);
            assert(cb[m + a.len()] == b[a.len() as int]);
        } else {
            assert(p.len() >= ca.len());
            assert(p[cb.len() as int] == '/');
            assert(p.subrange(0, ca.len() as int) =~= ca) by {
                if p != ca {
                }
            }
            assert(p.subrange(0, ca.len() as int)[cb.len() as int] == p[cb.len() as int]);
            assert(ca[m + b.len()] == a[b.len() as int]);
        }
    }
}

/// On a valid tree the walk reads every file at most once, so each kept file
/// gets exactly one `# p` header.
pub proof fn lemma_walk_reads_once(
    dir: Seq<char>,
    rel: Seq<char>,
    nodes: Seq<FsTree>,
    rules: Seq<ExcludePattern>,
)
    requires
        well_formed(nodes),
    ensures
        reads_once(walk_steps(dir, rel, nodes, rules)),
    decreases nodes,
{
    if nodes.len() > 0 {
        let n = nodes.len() - 1;
        let init = nodes.subrange(0, n);
        let last = nodes[n];
        let a = walk_steps(dir, rel, init, rules);
        let b = node_steps(dir, rel, last, rules);
        lemma_walk_reads_once(dir, rel, init, rules);
        lemma_node_reads_once(dir, rel, last, rules);
        assert forall|p: Seq<char>| !(#[trigger] reads(a, p) && reads(b, p)) by {
            if reads(a, p) && reads(b, p) {
                lemma_reads_located(dir, rel, init, rules, p);
                lemma_node_reads_located(dir, rel, last, rules, p);
                let i = choose|i: int|
                    0 <= i < init.len() && #[trigger] at_or_under(child_rel_path(rel, init[i].name), p);
                assert(init[i] == nodes[i]);
                lemma_well_formed_entries(init);
                assert(node_well_formed(init[i]));
                lemma_siblings_apart(rel, nodes[i].name, last.name, p);
            }
        }
        lemma_reads_once_concat(a, b);
    }
}

proof fn lemma_node_reads_once(dir: Seq<char>, rel: Seq<char>, t: FsTree, rules: Seq<ExcludePattern>)
    requires
        node_well_formed(t),
    ensures
        reads_once(node_steps(dir, rel, t, rules)),
    decreases t,
{
    let s = planned_step(dir, rel, t.name, t.exact, t.kind, rules);
    let own = seq![s];
    match s {
        StepView::Descend { path, rel_path } => {
            let rest = walk_steps(path, rel_path, t.children, rules);
            lemma_walk_reads_once(path, rel_path, t.children, rules);
            assert forall|p: Seq<char>| !(#[trigger] reads(own, p) && reads(rest, p)) by {
                if reads(own, p) {
                    let k = choose|k: int|
                        0 <= k < own.len() && own[k] == (StepView::ReadFile { rel_path: p });
                }
            }
            lemma_reads_once_concat(own, rest);
        },
        _ => {},
    }
}

} // verus!
