//! The order of the tree view: parents, siblings and what belongs to no root.
use vstd::prelude::*;

use crate::process::{arranged, lemma_order_total, order};
use crate::process::{Proc, SortCol};
use crate::tree::{at_depth, children_at, distinct, flat_of, hangs_below, is_root, kids, leftover};
use crate::tree::{law_every_process_is_listed_once, lemma_leftover, lemma_offspring, lemma_place_of};
use crate::tree::{law_tree_can_be_built_again, same_but_children, same_table};
use crate::tree::{lemma_resolved, lemma_unseen, lemma_walk, lemma_walk_levels};
use crate::tree::{none_seen, offspring, place_of, resolved, root_places, unseen, visits, walk};

verus! {

/// A table in which no process number occurs twice and the children are set.
pub open spec fn built(procs: Seq<Proc>) -> bool {
    &&& procs.len() <= usize::MAX
    &&& distinct(procs)
    &&& forall|i: int|
        0 <= i < procs.len() ==> (#[trigger] procs[i]).children@ == children_at(procs, i)
}

/// The place of the parent of a process that is not at the outermost level.
pub open spec fn parent_of(procs: Seq<Proc>, i: usize) -> usize {
    place_of(procs, procs[i as int].ppid)->0
}

/// A process has another for its parent.
pub open spec fn is_child(procs: Seq<Proc>, c: usize, p: usize) -> bool {
    !is_root(procs, c as int) && parent_of(procs, c) == p
}

/// In at most `n` steps the parents of a process lead to the outermost level.
pub open spec fn rooted(procs: Seq<Proc>, i: usize, n: nat) -> bool
    decreases n,
{
    is_root(procs, i as int) || (n > 0 && rooted(procs, parent_of(procs, i), (n - 1) as nat))
}

/// The parents of a process lead to the outermost level; else they go round in
/// a circle.
pub open spec fn has_root(procs: Seq<Proc>, i: usize) -> bool {
    exists|n: nat| rooted(procs, i, n)
}

/// In at most `n` steps the parents of a process lead to another.
pub open spec fn descends(procs: Seq<Proc>, i: usize, a: usize, n: nat) -> bool
    decreases n,
{
    n > 0 && !is_root(procs, i as int) && (parent_of(procs, i) == a || descends(
        procs,
        parent_of(procs, i),
        a,
        (n - 1) as nat,
    ))
}

/// A process descends from another.
pub open spec fn is_below(procs: Seq<Proc>, i: usize, a: usize) -> bool {
    exists|n: nat| descends(procs, i, a, n)
}

/// Two processes are both at the outermost level, or have the same parent.
pub open spec fn peers(procs: Seq<Proc>, a: usize, b: usize) -> bool {
    if is_root(procs, a as int) {
        is_root(procs, b as int)
    } else {
        !is_root(procs, b as int) && procs[a as int].ppid == procs[b as int].ppid
    }
}

/// Between two entries stand only processes that descend from the first.
pub open spec fn encloses(procs: Seq<Proc>, l: Seq<(usize, nat)>, j: int, k: int) -> bool {
    forall|m: int| j < m < k ==> is_below(procs, (#[trigger] l[m]).0, l[j].0)
}

proof fn lemma_own_place(procs: Seq<Proc>, i: int)
    requires
        built(procs),
        0 <= i < procs.len(),
    ensures
        place_of(procs, procs[i].pid) == Some(i as usize),
{
    lemma_place_of(procs, procs[i].pid);
}

proof fn lemma_parent(procs: Seq<Proc>, c: usize, p: usize)
    requires
        built(procs),
        c < procs.len(),
        p < procs.len(),
    ensures
        procs[c as int].ppid == procs[p as int].pid ==> parent_of(procs, c) == p && (is_root(
            procs,
            c as int,
        ) ==> c == p),
        is_child(procs, c, p) ==> procs[c as int].ppid == procs[p as int].pid,
{
    lemma_own_place(procs, p as int);
    lemma_place_of(procs, procs[c as int].ppid);
    if procs[c as int].ppid == procs[p as int].pid && is_root(procs, c as int) && c != p {
        assert(procs[c as int].pid == procs[p as int].pid);
        if c < p {
            assert(procs[c as int].pid != procs[p as int].pid);
        } else {
            assert(procs[p as int].pid != procs[c as int].pid);
        }
    }
}

proof fn lemma_parent_place(procs: Seq<Proc>, c: usize)
    requires
        built(procs),
        c < procs.len(),
        !is_root(procs, c as int),
    ensures
        parent_of(procs, c) < procs.len(),
        procs[c as int].ppid == procs[parent_of(procs, c) as int].pid,
{
    lemma_place_of(procs, procs[c as int].ppid);
}

proof fn lemma_offspring_all(procs: Seq<Proc>, pid: u32, j: int)
    requires
        0 <= j < procs.len(),
        procs[j].ppid == pid,
    ensures
        offspring(procs, pid).contains(procs[j].pid),
    decreases procs.len(),
{
    let all = offspring(procs, pid);
    if j == procs.len() - 1 {
        assert(all[all.len() - 1] == procs[j].pid);
    } else {
        let front = procs.drop_last();
        lemma_offspring_all(front, pid, j);
        let before = offspring(front, pid);
        let m = choose|m: int| 0 <= m < before.len() && before[m] == procs[j].pid;
        assert(all[m] == procs[j].pid);
    }
}

proof fn lemma_resolved_all(procs: Seq<Proc>, pids: Seq<u32>, k: int, i: usize)
    requires
        0 <= k < pids.len(),
        place_of(procs, pids[k]) == Some(i),
    ensures
        resolved(procs, pids).contains(i),
    decreases pids.len(),
{
    let all = resolved(procs, pids);
    if k == pids.len() - 1 {
        assert(all[all.len() - 1] == i);
    } else {
        let front = pids.drop_last();
        lemma_resolved_all(procs, front, k, i);
        let before = resolved(procs, front);
        let m = choose|m: int| 0 <= m < before.len() && before[m] == i;
        assert(all[m] == i);
    }
}

/// Places sorted by process number are the same places, in ascending order.
proof fn lemma_by_number(procs: Seq<Proc>, idx: Seq<usize>)
    ensures
        forall|x: usize| #[trigger]
            arranged(procs, idx, SortCol::Pid, true).contains(x) <==> idx.contains(x),
        forall|a: int, b: int|
            0 <= a < b < arranged(procs, idx, SortCol::Pid, true).len() ==> procs[(
            #[trigger] arranged(procs, idx, SortCol::Pid, true)[a]) as int].pid <= procs[(
            #[trigger] arranged(procs, idx, SortCol::Pid, true)[b]) as int].pid,
{
    let l = arranged(procs, idx, SortCol::Pid, true);
    let leq = order(procs, SortCol::Pid, true);
    lemma_order_total(procs, SortCol::Pid, true);
    idx.lemma_sort_by_ensures(leq);
    l.to_multiset_ensures();
    idx.to_multiset_ensures();
    assert forall|x: usize| #[trigger] l.contains(x) <==> idx.contains(x) by {
        assert(l.contains(x) <==> l.to_multiset().count(x) > 0);
        assert(idx.contains(x) <==> idx.to_multiset().count(x) > 0);
    }
    assert forall|a: int, b: int| 0 <= a < b < l.len() implies procs[(
    #[trigger] l[a]) as int].pid <= procs[(#[trigger] l[b]) as int].pid by {
        assert(leq(l[a], l[b]));
    }
}

/// The children that a process is walked with are the processes whose parent
/// has its number, in ascending order.
proof fn lemma_kids(procs: Seq<Proc>, p: usize)
    requires
        built(procs),
        p < procs.len(),
    ensures
        forall|c: usize| #[trigger]
            kids(procs, p as int).contains(c) <==> c < procs.len() && procs[c as int].ppid
                == procs[p as int].pid,
        forall|a: int, b: int|
            0 <= a < b < kids(procs, p as int).len() ==> procs[(#[trigger] kids(
                procs,
                p as int,
            )[a]) as int].pid <= procs[(#[trigger] kids(procs, p as int)[b]) as int].pid,
{
    let pids = procs[p as int].children@;
    let set = resolved(procs, pids);
    lemma_by_number(procs, set);
    lemma_own_place(procs, p as int);
    assert(procs[p as int].children@ == children_at(procs, p as int));
    assert forall|c: usize| #[trigger] kids(procs, p as int).contains(c) <==> c < procs.len()
        && procs[c as int].ppid == procs[p as int].pid by {
        if set.contains(c) {
            lemma_resolved(procs, pids, c);
            let q = choose|q: int|
                0 <= q < pids.len() && place_of(procs, #[trigger] pids[q]) == Some(c);
            lemma_place_of(procs, pids[q]);
            assert(offspring(procs, procs[p as int].pid).contains(pids[q]));
            lemma_offspring(procs, procs[p as int].pid, pids[q]);
            let y = choose|y: int|
                0 <= y < procs.len() && (#[trigger] procs[y]).pid == pids[q] && procs[y].ppid
                    == procs[p as int].pid;
            lemma_own_place(procs, y);
        }
        if c < procs.len() && procs[c as int].ppid == procs[p as int].pid {
            lemma_offspring_all(procs, procs[p as int].pid, c as int);
            lemma_own_place(procs, c as int);
            let q = choose|q: int| 0 <= q < pids.len() && pids[q] == procs[c as int].pid;
            lemma_resolved_all(procs, pids, q, c);
        }
    }
}

proof fn lemma_roots(procs: Seq<Proc>, n: int)
    requires
        0 <= n <= procs.len() <= usize::MAX,
    ensures
        forall|x: usize| #[trigger]
            root_places(procs, n).contains(x) <==> x < n && is_root(procs, x as int),
    decreases n,
{
    if n > 0 {
        lemma_roots(procs, n - 1);
        let before = root_places(procs, n - 1);
        let all = root_places(procs, n);
        assert forall|x: usize| #[trigger] all.contains(x) <==> x < n && is_root(
            procs,
            x as int,
        ) by {
            if all.contains(x) {
                let m = choose|m: int| 0 <= m < all.len() && all[m] == x;
                if m < before.len() {
                    assert(before[m] == x);
                    assert(before.contains(x));
                }
            }
            if x < n && is_root(procs, x as int) {
                if x == n - 1 {
                    assert(all[all.len() - 1] == x);
                } else {
                    assert(before.contains(x));
                    let m = choose|m: int| 0 <= m < before.len() && before[m] == x;
                    assert(all[m] == x);
                }
            }
        }
    }
}

/// What is walked last is walked with what has been seen before.
proof fn lemma_split(
    procs: Seq<Proc>,
    a: Seq<(usize, nat)>,
    b: Seq<(usize, nat)>,
    seen: Seq<bool>,
)
    ensures
        ({
            let first = walk(procs, a, seen);
            let second = walk(procs, b, first.1);
            walk(procs, a + b, seen) == (first.0 + second.0, second.1)
        }),
    decreases unseen(seen), a.len(),
{
    let first = walk(procs, a, seen);
    let second = walk(procs, b, first.1);
    if a.len() == 0 {
        assert(a + b =~= b);
        assert(first.0 + second.0 =~= second.0);
    } else {
        let (i, d) = a[0];
        let rest = a.drop_first();
        assert((a + b)[0] == a[0]);
        assert((a + b).drop_first() =~= rest + b);
        if i >= seen.len() || seen[i as int] {
            lemma_split(procs, rest, b, seen);
        } else {
            lemma_unseen(seen, i as int);
            let next = seen.update(i as int, true);
            let c = at_depth(kids(procs, i as int), d + 1);
            lemma_split(procs, c + rest, b, next);
            assert(c + (rest + b) =~= (c + rest) + b);
            let below = walk(procs, c + rest, next);
            assert(seq![(i, d)] + (below.0 + second.0) =~= (seq![(i, d)] + below.0) + second.0);
        }
    }
}

/// After a walk everything that was to be visited has been seen, and so have
/// the children of whatever was visited.
proof fn lemma_closed(procs: Seq<Proc>, todo: Seq<(usize, nat)>, seen: Seq<bool>)
    ensures
        ({
            let w = walk(procs, todo, seen);
            &&& forall|m: int|
                0 <= m < todo.len() && (#[trigger] todo[m]).0 < seen.len() ==> w.1[todo[m].0 as int]
            &&& forall|k: int, c: usize|
                0 <= k < w.0.len() && c < seen.len() && #[trigger] kids(
                    procs,
                    w.0[k].0 as int,
                ).contains(c) ==> w.1[c as int]
        }),
    decreases unseen(seen), todo.len(),
{
    if todo.len() > 0 {
        let (i, d) = todo[0];
        let rest = todo.drop_first();
        let w = walk(procs, todo, seen);
        lemma_walk(procs, todo, seen);
        if i >= seen.len() || seen[i as int] {
            lemma_closed(procs, rest, seen);
            assert forall|m: int|
                0 <= m < todo.len() && (#[trigger] todo[m]).0 < seen.len() implies w.1[todo[m].0 as int] by {
                if m > 0 {
                    assert(rest[m - 1] == todo[m]);
                }
            }
            assert forall|k: int, x: usize|
                0 <= k < w.0.len() && x < seen.len() && #[trigger] kids(
                    procs,
                    w.0[k].0 as int,
                ).contains(x) implies w.1[x as int] by {
                let same = walk(procs, rest, seen);
                assert(kids(procs, same.0[k].0 as int).contains(x));
            }
        } else {
            lemma_unseen(seen, i as int);
            let next = seen.update(i as int, true);
            let ch = kids(procs, i as int);
            let c = at_depth(ch, d + 1);
            let below = walk(procs, c + rest, next);
            lemma_closed(procs, c + rest, next);
            lemma_walk(procs, c + rest, next);
            assert(w.0 == seq![(i, d)] + below.0);
            assert forall|m: int|
                0 <= m < todo.len() && (#[trigger] todo[m]).0 < seen.len() implies w.1[todo[m].0 as int] by {
                if m > 0 {
                    assert((c + rest)[c.len() + m - 1] == todo[m]);
                } else {
                    assert(next[i as int]);
                }
            }
            assert forall|k: int, x: usize|
                0 <= k < w.0.len() && x < seen.len() && #[trigger] kids(
                    procs,
                    w.0[k].0 as int,
                ).contains(x) implies w.1[x as int] by {
                if k == 0 {
                    let m = choose|m: int| 0 <= m < ch.len() && ch[m] == x;
                    assert((c + rest)[m] == (x, d + 1));
                } else {
                    assert(w.0[k] == below.0[k - 1]);
                    assert(kids(procs, below.0[k - 1].0 as int).contains(x));
                }
            }
        }
    }
}

proof fn lemma_fewer_unseen(procs: Seq<Proc>, todo: Seq<(usize, nat)>, seen: Seq<bool>)
    ensures
        unseen(walk(procs, todo, seen).1) <= unseen(seen),
    decreases unseen(seen), todo.len(),
{
    if todo.len() > 0 {
        let (i, d) = todo[0];
        let rest = todo.drop_first();
        if i >= seen.len() || seen[i as int] {
            lemma_fewer_unseen(procs, rest, seen);
        } else {
            lemma_unseen(seen, i as int);
            let more = at_depth(kids(procs, i as int), d + 1) + rest;
            lemma_fewer_unseen(procs, more, seen.update(i as int, true));
        }
    }
}

/// An entry of a walk is one that was to be visited, or a child of an earlier
/// entry.
proof fn lemma_origin(procs: Seq<Proc>, todo: Seq<(usize, nat)>, seen: Seq<bool>, k: int) -> (j: int)
    requires
        built(procs),
        seen.len() == procs.len(),
        0 <= k < walk(procs, todo, seen).0.len(),
    ensures
        ({
            let w = walk(procs, todo, seen).0;
            if j < 0 {
                todo.contains(w[k])
            } else {
                &&& j < k
                &&& w[j].0 < procs.len()
                &&& !seen[w[j].0 as int]
                &&& w[k].1 == w[j].1 + 1
                &&& is_child(procs, w[k].0, w[j].0)
            }
        }),
{
    let w = walk(procs, todo, seen).0;
    lemma_walk(procs, todo, seen);
    lemma_walk_levels(procs, todo, seen);
    if todo.contains(w[k]) {
        -1
    } else {
        let j = choose|j: int| hangs_below(procs, w, j, k);
        lemma_kids(procs, w[j].0);
        assert(kids(procs, w[j].0 as int).contains(w[k].0));
        lemma_parent(procs, w[k].0, w[j].0);
        assert(w[j].0 != w[k].0);
        j
    }
}

proof fn lemma_below_step(procs: Seq<Proc>, i: usize, p: usize, a: usize)
    requires
        is_child(procs, i, p),
        p == a || is_below(procs, p, a),
    ensures
        is_below(procs, i, a),
{
    if p == a {
        assert(descends(procs, i, a, 1));
    } else {
        let n = choose|n: nat| descends(procs, p, a, n);
        assert(descends(procs, i, a, n + 1));
    }
}

/// Where everything that is to be visited descends from a process, everything
/// that is visited does.
proof fn lemma_all_below(
    procs: Seq<Proc>,
    todo: Seq<(usize, nat)>,
    seen: Seq<bool>,
    a: usize,
    k: int,
)
    requires
        built(procs),
        seen.len() == procs.len(),
        forall|m: int|
            0 <= m < todo.len() && (#[trigger] todo[m]).0 < procs.len() && !seen[todo[m].0 as int]
                ==> is_below(procs, todo[m].0, a),
        0 <= k < walk(procs, todo, seen).0.len(),
    ensures
        is_below(procs, walk(procs, todo, seen).0[k].0, a),
    decreases k,
{
    let w = walk(procs, todo, seen).0;
    lemma_walk(procs, todo, seen);
    let j = lemma_origin(procs, todo, seen, k);
    if j < 0 {
        let m = choose|m: int| 0 <= m < todo.len() && todo[m] == w[k];
        assert(is_below(procs, todo[m].0, a));
    } else {
        lemma_all_below(procs, todo, seen, a, j);
        lemma_below_step(procs, w[k].0, w[j].0, a);
    }
}

/// What is to be visited is at the outermost level or has a parent that has
/// been seen.
spec fn anchored(procs: Seq<Proc>, todo: Seq<(usize, nat)>, seen: Seq<bool>) -> bool {
    forall|m: int|
        0 <= m < todo.len() && (#[trigger] todo[m]).0 < procs.len() && !seen[todo[m].0 as int]
            ==> is_root(procs, todo[m].0 as int) || seen[parent_of(procs, todo[m].0) as int]
}

/// Peers are to be visited in ascending order.
spec fn ranked(procs: Seq<Proc>, todo: Seq<(usize, nat)>, seen: Seq<bool>) -> bool {
    forall|a: int, b: int|
        0 <= a < b < todo.len() && todo[a].0 < procs.len() && todo[b].0 < procs.len()
            && !seen[todo[a].0 as int] && !seen[todo[b].0 as int] && #[trigger] peers(
            procs,
            todo[a].0,
            todo[b].0,
        ) ==> procs[todo[a].0 as int].pid <= procs[todo[b].0 as int].pid
}

/// Between a parent and its child stand only descendants of the parent.
spec fn nested(procs: Seq<Proc>, w: Seq<(usize, nat)>) -> bool {
    forall|j: int, k: int|
        0 <= j < k < w.len() && #[trigger] is_child(procs, w[k].0, w[j].0) ==> encloses(
            procs,
            w,
            j,
            k,
        )
}

/// Peers stand in ascending order.
spec fn ascending(procs: Seq<Proc>, w: Seq<(usize, nat)>) -> bool {
    forall|j: int, k: int|
        0 <= j < k < w.len() && #[trigger] peers(procs, w[j].0, w[k].0) ==> procs[w[j].0 as int].pid
            <= procs[w[k].0 as int].pid
}

proof fn lemma_same_parent(procs: Seq<Proc>, a: usize, b: usize)
    requires
        peers(procs, a, b),
        !is_root(procs, a as int),
    ensures
        !is_root(procs, b as int),
        parent_of(procs, a) == parent_of(procs, b),
{
}

proof fn lemma_visit(
    procs: Seq<Proc>,
    x: (usize, nat),
    rest: Seq<(usize, nat)>,
    seen: Seq<bool>,
    w: Seq<(usize, nat)>,
    inner: Seq<(usize, nat)>,
    outer: Seq<(usize, nat)>,
)
    requires
        built(procs),
        seen.len() == procs.len(),
        x.0 < procs.len(),
        !seen[x.0 as int],
        anchored(procs, seq![x] + rest, seen),
        ranked(procs, seq![x] + rest, seen),
        ({
            let next = seen.update(x.0 as int, true);
            let c = at_depth(kids(procs, x.0 as int), x.1 + 1);
            &&& inner == walk(procs, c, next).0
            &&& outer == walk(procs, rest, walk(procs, c, next).1).0
        }),
        w == seq![x] + inner + outer,
        nested(procs, inner),
        nested(procs, outer),
        ascending(procs, inner),
        ascending(procs, outer),
    ensures
        nested(procs, w),
        ascending(procs, w),
{
    let todo = seq![x] + rest;
    let next = seen.update(x.0 as int, true);
    let ch = kids(procs, x.0 as int);
    let c = at_depth(ch, x.1 + 1);
    let mid = walk(procs, c, next).1;
    let n = inner.len() as int;
    lemma_walk(procs, c, next);
    lemma_walk(procs, rest, mid);
    lemma_closed(procs, c, next);
    lemma_kids(procs, x.0);
    assert(todo[0] == x);
    assert(w[0] == x);
    assert forall|m: int|
        0 <= m < c.len() && (#[trigger] c[m]).0 < procs.len() && !next[c[m].0 as int] implies is_below(
        procs,
        c[m].0,
        x.0,
    ) by {
        assert(ch.contains(ch[m]));
        lemma_parent(procs, c[m].0, x.0);
        lemma_below_step(procs, c[m].0, x.0, x.0);
    }
    assert forall|k: int| 1 <= k <= n implies is_below(procs, (#[trigger] w[k]).0, x.0)
        && !is_root(procs, w[k].0 as int) && w[k] == inner[k - 1] by {
        lemma_all_below(procs, c, next, x.0, k - 1);
        assert(w[k] == inner[k - 1]);
        let m = choose|m: nat| descends(procs, w[k].0, x.0, m);
        assert(descends(procs, w[k].0, x.0, m));
    }
    // Whoever has a parent among the first entries is not among the last.
    assert forall|j: int, k: int|
        0 <= j <= n < k < w.len() implies !#[trigger] is_child(procs, w[k].0, w[j].0) by {
        assert(w[k] == outer[k - n - 1]);
        assert(!mid[w[k].0 as int]);
        if is_child(procs, w[k].0, w[j].0) {
            if j == 0 {
                lemma_parent(procs, w[k].0, x.0);
                assert(ch.contains(w[k].0));
                let m = choose|m: int| 0 <= m < ch.len() && ch[m] == w[k].0;
                assert(c[m].0 == w[k].0);
                assert(mid[c[m].0 as int]);
            } else {
                assert(w[j] == inner[j - 1]);
                lemma_parent(procs, w[k].0, w[j].0);
                lemma_kids(procs, inner[j - 1].0);
                assert(kids(procs, inner[j - 1].0 as int).contains(w[k].0));
                assert(mid[w[k].0 as int]);
            }
        }
    }
    assert forall|j: int, k: int|
        0 <= j < k < w.len() && #[trigger] is_child(procs, w[k].0, w[j].0) implies encloses(
        procs,
        w,
        j,
        k,
    ) by {
        if j <= n {
            assert(k <= n);
            if j == 0 {
                assert forall|m: int| j < m < k implies is_below(
                    procs,
                    (#[trigger] w[m]).0,
                    w[j].0,
                ) by {}
            } else {
                let (a, b) = (j - 1, k - 1);
                assert(w[k] == inner[b] && w[j] == inner[a]);
                assert(is_child(procs, inner[b].0, inner[a].0));
                assert(encloses(procs, inner, a, b));
                assert forall|m: int| j < m < k implies is_below(
                    procs,
                    (#[trigger] w[m]).0,
                    w[j].0,
                ) by {
                    assert(w[m] == inner[m - 1]);
                }
            }
        } else {
            let (a, b) = (j - n - 1, k - n - 1);
            assert(w[k] == outer[b] && w[j] == outer[a]);
            assert(is_child(procs, outer[b].0, outer[a].0));
            assert(encloses(procs, outer, a, b));
            assert forall|m: int| j < m < k implies is_below(
                procs,
                (#[trigger] w[m]).0,
                w[j].0,
            ) by {
                assert(w[m] == outer[m - n - 1]);
            }
        }
    }
    assert forall|j: int, k: int|
        0 <= j < k < w.len() && #[trigger] peers(procs, w[j].0, w[k].0) implies procs[w[j].0 as int].pid
        <= procs[w[k].0 as int].pid by {
        if j > n {
            let (a, b) = (j - n - 1, k - n - 1);
            assert(w[k] == outer[b] && w[j] == outer[a]);
            assert(peers(procs, outer[a].0, outer[b].0));
        } else if j > 0 && k <= n {
            let (a, b) = (j - 1, k - 1);
            assert(w[k] == inner[b] && w[j] == inner[a]);
            assert(peers(procs, inner[a].0, inner[b].0));
        } else if j > 0 {
            // The parent of an inner entry is an entry of the block, so its
            // children are all in the block.
            assert(w[j] == inner[j - 1]);
            lemma_same_parent(procs, w[j].0, w[k].0);
            let o = lemma_origin(procs, c, next, j - 1);
            if o < 0 {
                let m = choose|m: int| 0 <= m < c.len() && c[m] == inner[j - 1];
                assert(ch.contains(ch[m]));
                lemma_parent(procs, w[j].0, x.0);
                assert(is_child(procs, w[k].0, w[0].0));
            } else {
                assert(w[o + 1] == inner[o]);
                assert(is_child(procs, w[k].0, w[o + 1].0));
            }
        } else if k <= n {
            // A peer of the first entry is no descendant of it.
            assert(!is_root(procs, w[k].0 as int));
            lemma_same_parent(procs, x.0, w[k].0);
            let v = parent_of(procs, x.0);
            assert(seen[v as int]);
            let o = lemma_origin(procs, c, next, k - 1);
            if o < 0 {
                let m = choose|m: int| 0 <= m < c.len() && c[m] == inner[k - 1];
                assert(ch.contains(ch[m]));
                lemma_parent(procs, w[k].0, x.0);
            } else {
                assert(!next[inner[o].0 as int]);
            }
        } else {
            assert(w[k] == outer[k - n - 1]);
            let o = lemma_origin(procs, rest, mid, k - n - 1);
            if o < 0 {
                let m = choose|m: int| 0 <= m < rest.len() && rest[m] == outer[k - n - 1];
                assert(todo[m + 1] == w[k]);
                assert(peers(procs, todo[0].0, todo[m + 1].0));
                assert(!mid[w[k].0 as int]);
                assert(!next[w[k].0 as int]);
                assert(!seen[w[k].0 as int]);
            } else {
                assert(!is_root(procs, x.0 as int));
                lemma_same_parent(procs, x.0, w[k].0);
                let v = parent_of(procs, x.0);
                assert(seen[v as int]);
                lemma_parent_place(procs, x.0);
                assert(next[v as int]);
                assert(mid[v as int]);
            }
        }
    }
}

proof fn lemma_ordered(procs: Seq<Proc>, todo: Seq<(usize, nat)>, seen: Seq<bool>)
    requires
        built(procs),
        seen.len() == procs.len(),
        anchored(procs, todo, seen),
        ranked(procs, todo, seen),
    ensures
        nested(procs, walk(procs, todo, seen).0),
        ascending(procs, walk(procs, todo, seen).0),
    decreases unseen(seen), todo.len(),
{
    if todo.len() > 0 {
        let (i, d) = todo[0];
        let rest = todo.drop_first();
        assert(todo =~= seq![todo[0]] + rest);
        if i >= seen.len() || seen[i as int] {
            assert(anchored(procs, rest, seen)) by {
                assert forall|m: int|
                    0 <= m < rest.len() && (#[trigger] rest[m]).0 < procs.len()
                        && !seen[rest[m].0 as int] implies is_root(procs, rest[m].0 as int)
                    || seen[parent_of(procs, rest[m].0) as int] by {
                    assert(todo[m + 1] == rest[m]);
                }
            }
            assert(ranked(procs, rest, seen)) by {
                lemma_rank_rest(procs, todo, seen, seen);
            }
            lemma_ordered(procs, rest, seen);
        } else {
            lemma_unseen(seen, i as int);
            let next = seen.update(i as int, true);
            let ch = kids(procs, i as int);
            let c = at_depth(ch, d + 1);
            let first = walk(procs, c, next);
            lemma_kids(procs, i);
            lemma_walk(procs, c, next);
            lemma_fewer_unseen(procs, c, next);
            assert(anchored(procs, c, next)) by {
                assert forall|m: int|
                    0 <= m < c.len() && (#[trigger] c[m]).0 < procs.len() && !next[c[m].0 as int] implies is_root(
                procs, c[m].0 as int) || next[parent_of(procs, c[m].0) as int] by {
                    assert(ch.contains(ch[m]));
                    lemma_parent(procs, c[m].0, i);
                }
            }
            assert(ranked(procs, c, next)) by {
                assert forall|a: int, b: int|
                    0 <= a < b < c.len() && #[trigger] peers(procs, c[a].0, c[b].0) implies procs[c[a].0 as int].pid
                    <= procs[c[b].0 as int].pid by {
                    assert(c[a].0 == ch[a] && c[b].0 == ch[b]);
                }
            }
            lemma_ordered(procs, c, next);
            assert(anchored(procs, rest, first.1)) by {
                assert forall|m: int|
                    0 <= m < rest.len() && (#[trigger] rest[m]).0 < procs.len()
                        && !first.1[rest[m].0 as int] implies is_root(procs, rest[m].0 as int)
                    || first.1[parent_of(procs, rest[m].0) as int] by {
                    assert(todo[m + 1] == rest[m]);
                    assert(!next[rest[m].0 as int]);
                    assert(!seen[rest[m].0 as int]);
                    if !is_root(procs, rest[m].0 as int) {
                        lemma_parent_place(procs, rest[m].0);
                        let v = parent_of(procs, rest[m].0);
                        assert(seen[v as int]);
                        assert(next[v as int]);
                    }
                }
            }
            assert(ranked(procs, rest, first.1)) by {
                assert forall|z: int| 0 <= z < seen.len() && seen[z] implies #[trigger] first.1[z] by {
                    assert(next[z]);
                }
                lemma_rank_rest(procs, todo, seen, first.1);
            }
            lemma_ordered(procs, rest, first.1);
            lemma_split(procs, c, rest, next);
            let second = walk(procs, rest, first.1);
            let w = walk(procs, todo, seen).0;
            assert(w == seq![(i, d)] + (first.0 + second.0));
            assert(w =~= seq![(i, d)] + first.0 + second.0);
            lemma_visit(procs, todo[0], rest, seen, w, first.0, second.0);
        }
    }
}

proof fn lemma_rank_rest(
    procs: Seq<Proc>,
    todo: Seq<(usize, nat)>,
    seen: Seq<bool>,
    later: Seq<bool>,
)
    requires
        todo.len() > 0,
        seen.len() == later.len() == procs.len(),
        ranked(procs, todo, seen),
        forall|z: int| 0 <= z < seen.len() && seen[z] ==> #[trigger] later[z],
    ensures
        ranked(procs, todo.drop_first(), later),
{
    let rest = todo.drop_first();
    assert forall|a: int, b: int|
        0 <= a < b < rest.len() && rest[a].0 < procs.len() && rest[b].0 < procs.len()
            && !later[rest[a].0 as int] && !later[rest[b].0 as int] && #[trigger] peers(
            procs,
            rest[a].0,
            rest[b].0,
        ) implies procs[rest[a].0 as int].pid <= procs[rest[b].0 as int].pid by {
        assert(rest[a] == todo[a + 1] && rest[b] == todo[b + 1]);
        assert(peers(procs, todo[a + 1].0, todo[b + 1].0));
    }
}

/// The processes at the outermost level, which the walk starts from.
spec fn outermost(procs: Seq<Proc>) -> Seq<(usize, nat)> {
    at_depth(arranged(procs, root_places(procs, procs.len() as int), SortCol::Pid, true), 0)
}

/// The part of the list that the walk visits, and what it has seen.
spec fn walked(procs: Seq<Proc>) -> (Seq<(usize, nat)>, Seq<bool>) {
    walk(procs, outermost(procs), none_seen(procs.len()))
}

proof fn lemma_outermost(procs: Seq<Proc>)
    requires
        built(procs),
    ensures
        forall|m: int|
            0 <= m < outermost(procs).len() ==> (#[trigger] outermost(procs)[m]).0 < procs.len()
                && is_root(procs, outermost(procs)[m].0 as int) && outermost(procs)[m].1 == 0,
        forall|i: usize|
            i < procs.len() && #[trigger] is_root(procs, i as int) ==> outermost(procs).contains(
                (i, 0nat),
            ),
        nested(procs, walked(procs).0),
        ascending(procs, walked(procs).0),
{
    let n = procs.len() as int;
    let all = root_places(procs, n);
    let idx = arranged(procs, all, SortCol::Pid, true);
    let todo = outermost(procs);
    let none = none_seen(procs.len());
    lemma_roots(procs, n);
    lemma_by_number(procs, all);
    assert forall|m: int| 0 <= m < todo.len() implies (#[trigger] todo[m]).0 < procs.len()
        && is_root(procs, todo[m].0 as int) && todo[m].1 == 0 by {
        assert(idx.contains(idx[m]));
    }
    assert forall|i: usize| i < procs.len() && #[trigger] is_root(procs, i as int) implies todo.contains(
        (i, 0nat),
    ) by {
        assert(all.contains(i));
        assert(idx.contains(i));
        let m = choose|m: int| 0 <= m < idx.len() && idx[m] == i;
        assert(todo[m] == (i, 0nat));
    }
    assert(ranked(procs, todo, none)) by {
        assert forall|a: int, b: int|
            0 <= a < b < todo.len() && #[trigger] peers(procs, todo[a].0, todo[b].0) implies procs[todo[a].0 as int].pid
            <= procs[todo[b].0 as int].pid by {
            assert(todo[a].0 == idx[a] && todo[b].0 == idx[b]);
        }
    }
    lemma_ordered(procs, todo, none);
}

proof fn lemma_visited_has_root(procs: Seq<Proc>, k: int)
    requires
        built(procs),
        0 <= k < walked(procs).0.len(),
    ensures
        has_root(procs, walked(procs).0[k].0),
    decreases k,
{
    let w = walked(procs).0;
    lemma_outermost(procs);
    let j = lemma_origin(procs, outermost(procs), none_seen(procs.len()), k);
    if j < 0 {
        let m = choose|m: int| 0 <= m < outermost(procs).len() && outermost(procs)[m] == w[k];
        assert(rooted(procs, w[k].0, 0));
    } else {
        lemma_visited_has_root(procs, j);
        let n = choose|n: nat| rooted(procs, w[j].0, n);
        assert(rooted(procs, w[k].0, n + 1));
    }
}

proof fn lemma_rooted_is_visited(procs: Seq<Proc>, i: usize, n: nat)
    requires
        built(procs),
        i < procs.len(),
        rooted(procs, i, n),
    ensures
        walked(procs).1[i as int],
    decreases n,
{
    let todo = outermost(procs);
    let none = none_seen(procs.len());
    lemma_outermost(procs);
    lemma_closed(procs, todo, none);
    lemma_walk(procs, todo, none);
    if is_root(procs, i as int) {
        let m = choose|m: int| 0 <= m < todo.len() && todo[m] == (i, 0nat);
        assert(todo.contains((i, 0nat)));
        assert(todo[m].0 == i);
    } else {
        let p = parent_of(procs, i);
        lemma_parent_place(procs, i);
        lemma_rooted_is_visited(procs, p, (n - 1) as nat);
        assert(walked(procs).1[p as int]);
        assert(!none[p as int]);
        assert(visits(walked(procs).0, p as int));
        let k = choose|k: int|
            0 <= k < walked(procs).0.len() && (#[trigger] walked(procs).0[k]).0 == p as int;
        lemma_kids(procs, p);
        assert(kids(procs, walked(procs).0[k].0 as int).contains(i));
    }
}

/// The list is what the walk visits, which is what has a root, and then the
/// rest in the order of the table.
proof fn lemma_parts(procs: Seq<Proc>, k: int)
    requires
        built(procs),
        0 <= k < flat_of(procs).len(),
    ensures
        flat_of(procs)[k].0 < procs.len(),
        k < walked(procs).0.len() <==> has_root(procs, flat_of(procs)[k].0),
        k < walked(procs).0.len() ==> flat_of(procs)[k] == walked(procs).0[k],
        k >= walked(procs).0.len() ==> flat_of(procs)[k].1 == 0,
        forall|j: int|
            walked(procs).0.len() <= j < k ==> (#[trigger] flat_of(procs)[j]).0 < flat_of(
                procs,
            )[k].0,
{
    let l = flat_of(procs);
    let w = walked(procs);
    let n = procs.len() as int;
    let rest = leftover(w.1, n);
    assert(l == w.0 + rest);
    law_every_process_is_listed_once(procs);
    assert(l[k].0 < procs.len());
    lemma_walk(procs, outermost(procs), none_seen(procs.len()));
    lemma_leftover(w.1, n);
    lemma_leftover_ascends(w.1, n);
    if k < w.0.len() {
        assert(l[k] == w.0[k]);
        lemma_visited_has_root(procs, k);
    } else {
        assert(l[k] == rest[k - w.0.len()]);
        assert(!w.1[l[k].0 as int]);
        if has_root(procs, l[k].0) {
            let m = choose|m: nat| rooted(procs, l[k].0, m);
            lemma_rooted_is_visited(procs, l[k].0, m);
        }
        assert forall|j: int| w.0.len() <= j < k implies (#[trigger] l[j]).0 < l[k].0 by {
            assert(l[j] == rest[j - w.0.len()]);
        }
    }
}

proof fn lemma_leftover_ascends(seen: Seq<bool>, n: int)
    requires
        0 <= n <= seen.len() <= usize::MAX,
    ensures
        forall|j: int, k: int|
            0 <= j < k < leftover(seen, n).len() ==> (#[trigger] leftover(seen, n)[j]).0 < (
            #[trigger] leftover(seen, n)[k]).0,
    decreases n,
{
    if n > 0 {
        lemma_leftover(seen, n - 1);
        lemma_leftover_ascends(seen, n - 1);
        let before = leftover(seen, n - 1);
        let l = leftover(seen, n);
        assert forall|j: int, k: int| 0 <= j < k < l.len() implies (#[trigger] l[j]).0 < (
        #[trigger] l[k]).0 by {
            assert(l[j] == before[j]);
            assert(before[j].0 < n - 1);
            if k < before.len() {
                assert(l[k] == before[k]);
            }
        }
    }
}

/// The entry at `j` is the parent of the one at `k`, stands above it and one
/// level further out, and only descendants of the parent stand between them.
pub open spec fn stands_below(procs: Seq<Proc>, l: Seq<(usize, nat)>, j: int, k: int) -> bool {
    &&& 0 <= j < k
    &&& is_child(procs, l[k].0, l[j].0)
    &&& l[k].1 == l[j].1 + 1
    &&& encloses(procs, l, j, k)
}

/// Setting the children of a table in which no process number occurs twice
/// builds its tree.
pub proof fn law_children_build_the_tree(before: Seq<Proc>, after: Seq<Proc>)
    requires
        before.len() <= usize::MAX,
        distinct(before),
        same_table(before, after),
        forall|i: int|
            0 <= i < after.len() ==> (#[trigger] after[i]).children@ == children_at(before, i),
    ensures
        built(after),
{
    assert forall|i: int, j: int| 0 <= i < j < after.len() implies (#[trigger] after[i]).pid != (
    #[trigger] after[j]).pid by {
        assert(same_but_children(before[i], after[i]));
        assert(same_but_children(before[j], after[j]));
    }
    assert forall|i: int| 0 <= i < after.len() implies (#[trigger] after[i]).children@
        == children_at(after, i) by {
        law_tree_can_be_built_again(before, after, i);
    }
}

/// In the tree view a process at the outermost level is not indented; one whose
/// parents lead there stands below its parent, one level further in, with only
/// descendants of the parent between the two; and one whose parents go round in
/// a circle is not indented.
pub proof fn law_places_in_the_tree(procs: Seq<Proc>, k: int)
    requires
        built(procs),
        0 <= k < flat_of(procs).len(),
    ensures
        ({
            let l = flat_of(procs);
            let i = l[k].0;
            &&& is_root(procs, i as int) ==> l[k].1 == 0
            &&& !is_root(procs, i as int) && has_root(procs, i) ==> exists|j: int|
                stands_below(procs, l, j, k)
            &&& !has_root(procs, i) ==> l[k].1 == 0
        }),
{
    let l = flat_of(procs);
    let w = walked(procs).0;
    let i = l[k].0;
    lemma_parts(procs, k);
    lemma_outermost(procs);
    if is_root(procs, i as int) {
        assert(rooted(procs, i, 0));
    }
    if has_root(procs, i) {
        let j = lemma_origin(procs, outermost(procs), none_seen(procs.len()), k);
        if j < 0 {
            let m = choose|m: int| 0 <= m < outermost(procs).len() && outermost(procs)[m] == w[k];
            assert(is_root(procs, outermost(procs)[m].0 as int));
        } else {
            lemma_parts(procs, j);
            assert(is_child(procs, w[k].0, w[j].0));
            assert(encloses(procs, w, j, k));
            assert forall|m: int| j < m < k implies is_below(procs, (#[trigger] l[m]).0, l[j].0) by {
                lemma_parts(procs, m);
                assert(l[m] == w[m]);
            }
            assert(stands_below(procs, l, j, k));
        }
    }
}

/// In the tree view the processes at the outermost level, and the children of
/// one parent, stand in the ascending order of their numbers, unless their
/// parents go round in a circle.
pub proof fn law_peers_ascend(procs: Seq<Proc>, j: int, k: int)
    requires
        built(procs),
        0 <= j < k < flat_of(procs).len(),
        peers(procs, flat_of(procs)[j].0, flat_of(procs)[k].0),
        has_root(procs, flat_of(procs)[j].0),
    ensures
        procs[flat_of(procs)[j].0 as int].pid < procs[flat_of(procs)[k].0 as int].pid,
{
    let l = flat_of(procs);
    let w = walked(procs).0;
    let (a, b) = (l[j].0, l[k].0);
    let n = choose|n: nat| rooted(procs, a, n);
    assert(rooted(procs, b, n));
    lemma_parts(procs, j);
    lemma_parts(procs, k);
    lemma_outermost(procs);
    assert(peers(procs, w[j].0, w[k].0));
    law_every_process_is_listed_once(procs);
    assert(l[j].0 != l[k].0);
    if a < b {
        assert(procs[a as int].pid != procs[b as int].pid);
    } else {
        assert(procs[b as int].pid != procs[a as int].pid);
    }
}

/// In the tree view the processes whose parents go round in a circle come last,
/// in the order of the table.
pub proof fn law_circles_come_last(procs: Seq<Proc>, j: int, k: int)
    requires
        built(procs),
        0 <= j < k < flat_of(procs).len(),
        !has_root(procs, flat_of(procs)[j].0),
    ensures
        !has_root(procs, flat_of(procs)[k].0),
        flat_of(procs)[j].0 < flat_of(procs)[k].0,
{
    lemma_parts(procs, j);
    lemma_parts(procs, k);
}

} // verus!
