//! The tree of processes and the list that it is shown as.
use std::collections::HashMap;
use vstd::prelude::*;

use crate::process;
use crate::process::{arrange, Proc, SortCol};
use crate::process::{arranged, within};

verus! {

/// The place of a process in the table; where several have the same number,
/// the last of them.
pub open spec fn place_of(procs: Seq<Proc>, pid: u32) -> Option<usize>
    decreases procs.len(),
{
    if procs.len() == 0 {
        None
    } else if procs.last().pid == pid {
        Some((procs.len() - 1) as usize)
    } else {
        place_of(procs.drop_last(), pid)
    }
}

/// The place of a process is one where it stands.
pub proof fn lemma_place_of(procs: Seq<Proc>, pid: u32)
    requires
        procs.len() <= usize::MAX,
    ensures
        place_of(procs, pid) matches Some(i) ==> i < procs.len() && procs[i as int].pid == pid
            && forall|j: int| i < j < procs.len() ==> (#[trigger] procs[j]).pid != pid,
        place_of(procs, pid) is None ==> forall|j: int|
            0 <= j < procs.len() ==> (#[trigger] procs[j]).pid != pid,
    decreases procs.len(),
{
    if procs.len() > 0 && procs.last().pid != pid {
        let front = procs.drop_last();
        lemma_place_of(front, pid);
        assert forall|j: int|
            0 <= j < procs.len() && (place_of(procs, pid) matches Some(i) ==> i < j) implies (
        #[trigger] procs[j]).pid != pid by {
            if j < front.len() {
                assert(front[j] == procs[j]);
            }
        }
    }
}

/// The table's places by process number.
fn places(procs: &Vec<Proc>) -> (m: HashMap<u32, usize>)
    ensures
        forall|pid: u32|
            #[trigger] m@.contains_key(pid) <==> place_of(procs@, pid) is Some,
        forall|pid: u32| #[trigger]
            m@.contains_key(pid) ==> place_of(procs@, pid) == Some(m@[pid]),
{
    broadcast use vstd::std_specs::hash::group_hash_axioms;

    let mut m: HashMap<u32, usize> = HashMap::new();
    for i in 0..procs.len()
        invariant
            forall|pid: u32|
                #[trigger] m@.contains_key(pid) <==> place_of(
                    procs@.take(i as int),
                    pid,
                ) is Some,
            forall|pid: u32| #[trigger]
                m@.contains_key(pid) ==> place_of(procs@.take(i as int), pid) == Some(m@[pid]),
    {
        broadcast use vstd::std_specs::hash::group_hash_axioms;

        m.insert(procs[i].pid, i);
        proof {
            let next = procs@.take(i + 1);
            assert(next.drop_last() =~= procs@.take(i as int));
            assert(next.last() == procs@[i as int]);
        }
    }
    assert(procs@.take(procs@.len() as int) =~= procs@);
    m
}

fn look_up(m: &HashMap<u32, usize>, pid: u32) -> (r: Option<usize>)
    ensures
        r == if m@.contains_key(pid) {
            Some(m@[pid])
        } else {
            None
        },
{
    broadcast use vstd::std_specs::hash::group_hash_axioms;

    match m.get(&pid) {
        Some(i) => Some(*i),
        None => None,
    }
}

/// The numbers of the processes whose parent is `pid`, in the order of the
/// table.
pub open spec fn offspring(procs: Seq<Proc>, pid: u32) -> Seq<u32>
    decreases procs.len(),
{
    if procs.len() == 0 {
        seq![]
    } else {
        let before = offspring(procs.drop_last(), pid);
        if procs.last().ppid == pid {
            before.push(procs.last().pid)
        } else {
            before
        }
    }
}

/// The children of the process at a place: those whose parent has its number,
/// unless a later process has that number too.
pub open spec fn children_at(procs: Seq<Proc>, i: int) -> Seq<u32> {
    if place_of(procs, procs[i].pid) == Some(i as usize) {
        offspring(procs, procs[i].pid)
    } else {
        seq![]
    }
}

/// Two processes that differ in their children at most.
pub open spec fn same_but_children(a: Proc, b: Proc) -> bool {
    &&& a.pid == b.pid
    &&& a.ppid == b.ppid
    &&& a.name == b.name
    &&& a.user == b.user
    &&& a.state == b.state
    &&& a.cpu == b.cpu
    &&& a.mem_kb == b.mem_kb
    &&& a.threads == b.threads
    &&& a.cmd == b.cmd
    &&& a.nice == b.nice
    &&& a.virt_kb == b.virt_kb
}

/// The same table, with children of its own.
pub open spec fn same_table(a: Seq<Proc>, b: Seq<Proc>) -> bool {
    a.len() == b.len() && forall|i: int|
        0 <= i < a.len() ==> same_but_children(#[trigger] a[i], b[i])
}

pub(crate) proof fn lemma_same_table(a: Seq<Proc>, b: Seq<Proc>, pid: u32)
    requires
        same_table(a, b),
    ensures
        place_of(a, pid) == place_of(b, pid),
        offspring(a, pid) == offspring(b, pid),
    decreases a.len(),
{
    if a.len() > 0 {
        let (c, d) = (a.drop_last(), b.drop_last());
        assert forall|i: int| 0 <= i < c.len() implies same_but_children(#[trigger] c[i], d[i]) by {
            assert(same_but_children(a[i], b[i]));
        }
        lemma_same_table(c, d, pid);
        assert(same_but_children(a[a.len() - 1], b[b.len() - 1]));
    }
}

/// Sets the children of every process.
pub fn build_tree(procs: &mut Vec<Proc>)
    ensures
        same_table(old(procs)@, final(procs)@),
        forall|i: int|
            0 <= i < final(procs)@.len() ==> (#[trigger] final(procs)@[i]).children@ == children_at(
                old(procs)@,
                i,
            ),
        forall|i: int|
            0 <= i < final(procs)@.len() ==> (#[trigger] final(procs)@[i]).children@ == children_at(
                final(procs)@,
                i,
            ),
{
    let ghost start = procs@;
    let m = places(procs);
    let n: usize = procs.len();
    for i in 0..n
        invariant
            n == procs@.len(),
            same_table(start, procs@),
            forall|j: int| 0 <= j < i ==> (#[trigger] procs@[j]).children@.len() == 0,
    {
        let ghost before = procs@;
        procs[i].children.clear();
        assert forall|j: int| 0 <= j < n implies same_but_children(#[trigger] start[j], procs@[j]) by {
            assert(same_but_children(start[j], before[j]));
        }
    }
    for i in 0..n
        invariant
            n == procs@.len(),
            n == start.len(),
            same_table(start, procs@),
            forall|pid: u32|
                #[trigger] m@.contains_key(pid) <==> place_of(start, pid) is Some,
            forall|pid: u32| #[trigger]
                m@.contains_key(pid) ==> place_of(start, pid) == Some(m@[pid]),
            forall|j: int|
                0 <= j < n ==> (#[trigger] procs@[j]).children@ == (if place_of(start, start[j].pid)
                    == Some(j as usize) {
                    offspring(start.take(i as int), start[j].pid)
                } else {
                    seq![]
                }),
    {
        let ghost before = procs@;
        let ghost next = start.take(i + 1);
        assert(next.drop_last() =~= start.take(i as int));
        assert(same_but_children(start[i as int], procs@[i as int]));
        let pid: u32 = procs[i].pid;
        let ppid: u32 = procs[i].ppid;
        proof {
            lemma_place_of(start, ppid);
        }
        match look_up(&m, ppid) {
            Some(k) => {
                assert(m@.contains_key(ppid));
                procs[k].children.push(pid);
                proof {
                    assert forall|j: int| 0 <= j < n implies same_but_children(
                        #[trigger] start[j],
                        procs@[j],
                    ) by {
                        assert(same_but_children(start[j], before[j]));
                    }
                    assert forall|j: int| 0 <= j < n implies (#[trigger] procs@[j]).children@ == (
                    if place_of(start, start[j].pid) == Some(j as usize) {
                        offspring(next, start[j].pid)
                    } else {
                        seq![]
                    }) by {
                        assert(before[j].children@ == (if place_of(start, start[j].pid) == Some(
                            j as usize,
                        ) {
                            offspring(start.take(i as int), start[j].pid)
                        } else {
                            seq![]
                        }));
                        if j == k {
                            assert(start[j].pid == ppid);
                        }
                    }
                }
            },
            None => {
                assert(!m@.contains_key(ppid));
                assert forall|j: int| 0 <= j < n implies start[j].pid != ppid by {}
            },
        }
    }
    proof {
        assert(start.take(n as int) =~= start);
        assert forall|i: int| 0 <= i < n implies (#[trigger] procs@[i]).children@ == children_at(
            procs@,
            i,
        ) by {
            law_tree_can_be_built_again(start, procs@, i);
        }
    }
}

/// The places of the processes with the given numbers; numbers that no process
/// has are dropped.
pub open spec fn resolved(procs: Seq<Proc>, pids: Seq<u32>) -> Seq<usize>
    decreases pids.len(),
{
    if pids.len() == 0 {
        seq![]
    } else {
        let before = resolved(procs, pids.drop_last());
        match place_of(procs, pids.last()) {
            Some(i) => before.push(i),
            None => before,
        }
    }
}

/// The places of the children of the process at a place, by process number.
pub open spec fn kids(procs: Seq<Proc>, i: int) -> Seq<usize> {
    arranged(procs, resolved(procs, procs[i].children@), SortCol::Pid, true)
}

/// A process is shown at the outermost level: its parent is not in the table,
/// or it is its own parent.
pub open spec fn is_root(procs: Seq<Proc>, i: int) -> bool {
    place_of(procs, procs[i].ppid) is None || procs[i].ppid == procs[i].pid
}

/// The places below `n` of the processes that are shown at the outermost level.
pub open spec fn root_places(procs: Seq<Proc>, n: int) -> Seq<usize>
    decreases n,
{
    if n <= 0 {
        seq![]
    } else if is_root(procs, n - 1) {
        root_places(procs, n - 1).push((n - 1) as usize)
    } else {
        root_places(procs, n - 1)
    }
}

/// The given places, all at one level.
pub open spec fn at_depth(idx: Seq<usize>, d: nat) -> Seq<(usize, nat)> {
    Seq::new(idx.len(), |k: int| (idx[k], d))
}

/// How many places have not been seen.
pub open spec fn unseen(seen: Seq<bool>) -> nat
    decreases seen.len(),
{
    if seen.len() == 0 {
        0
    } else {
        unseen(seen.drop_last()) + (if seen.last() {
            0nat
        } else {
            1nat
        })
    }
}

/// To see a place leaves one fewer that has not been seen.
pub proof fn lemma_unseen(seen: Seq<bool>, i: int)
    requires
        0 <= i < seen.len(),
        !seen[i],
    ensures
        unseen(seen.update(i, true)) + 1 == unseen(seen),
    decreases seen.len(),
{
    let next = seen.update(i, true);
    if i == seen.len() - 1 {
        assert(next.drop_last() =~= seen.drop_last());
    } else {
        lemma_unseen(seen.drop_last(), i);
        assert(next.drop_last() =~= seen.drop_last().update(i, true));
    }
}

/// The walk through the tree, each process before its children and each at
/// most once: the places that are still to be visited with their levels give
/// the places in the order of the visits, and what has been seen in the end.
pub open spec fn walk(procs: Seq<Proc>, todo: Seq<(usize, nat)>, seen: Seq<bool>) -> (
    Seq<(usize, nat)>,
    Seq<bool>,
)
    decreases unseen(seen), todo.len(),
{
    if todo.len() == 0 {
        (seq![], seen)
    } else {
        let (i, d) = todo[0];
        let rest = todo.drop_first();
        if i >= seen.len() || seen[i as int] {
            walk(procs, rest, seen)
        } else {
            proof {
                lemma_unseen(seen, i as int);
            }
            let below = walk(
                procs,
                at_depth(kids(procs, i as int), d + 1) + rest,
                seen.update(i as int, true),
            );
            (seq![(i, d)] + below.0, below.1)
        }
    }
}

/// The places below `n` that have not been seen, at the outermost level.
pub open spec fn leftover(seen: Seq<bool>, n: int) -> Seq<(usize, nat)>
    decreases n,
{
    if n <= 0 {
        seq![]
    } else if seen[n - 1] {
        leftover(seen, n - 1)
    } else {
        leftover(seen, n - 1).push(((n - 1) as usize, 0nat))
    }
}

/// Nothing has been seen.
pub open spec fn none_seen(n: nat) -> Seq<bool> {
    Seq::new(n, |i: int| false)
}

/// The tree as a list of places with their levels: what can be reached from
/// the outermost processes, by process number, and then the rest.
pub open spec fn flat_of(procs: Seq<Proc>) -> Seq<(usize, nat)> {
    let roots = arranged(procs, root_places(procs, procs.len() as int), SortCol::Pid, true);
    let walked = walk(procs, at_depth(roots, 0), none_seen(procs.len()));
    walked.0 + leftover(walked.1, procs.len() as int)
}

/// A list of places with their levels.
pub open spec fn levels(v: Seq<(usize, usize)>) -> Seq<(usize, nat)> {
    Seq::new(v.len(), |k: int| (v[k].0, v[k].1 as nat))
}

/// What is on a stack, from its top down.
pub open spec fn from_top(v: Seq<(usize, usize)>) -> Seq<(usize, nat)> {
    Seq::new(v.len(), |k: int| (v[v.len() - 1 - k].0, v[v.len() - 1 - k].1 as nat))
}

fn resolve(procs: &Vec<Proc>, m: &HashMap<u32, usize>, pids: &Vec<u32>) -> (r: Vec<usize>)
    requires
        forall|pid: u32|
            #[trigger] m@.contains_key(pid) <==> place_of(procs@, pid) is Some,
        forall|pid: u32| #[trigger]
            m@.contains_key(pid) ==> place_of(procs@, pid) == Some(m@[pid]),
    ensures
        r@ == resolved(procs@, pids@),
        within(r@, procs@.len()),
{
    let mut r: Vec<usize> = Vec::new();
    for k in 0..pids.len()
        invariant
            forall|pid: u32|
                #[trigger] m@.contains_key(pid) <==> place_of(procs@, pid) is Some,
            forall|pid: u32| #[trigger]
                m@.contains_key(pid) ==> place_of(procs@, pid) == Some(m@[pid]),
            r@ == resolved(procs@, pids@.take(k as int)),
            within(r@, procs@.len()),
    {
        proof {
            let next = pids@.take(k + 1);
            assert(next.drop_last() =~= pids@.take(k as int));
            assert(next.last() == pids@[k as int]);
            assert(procs@.len() == procs.len());
            lemma_place_of(procs@, pids@[k as int]);
        }
        match look_up(m, pids[k]) {
            Some(i) => {
                assert(m@.contains_key(pids@[k as int]));
                r.push(i);
            },
            None => {
                assert(!m@.contains_key(pids@[k as int]));
            },
        }
    }
    assert(pids@.take(pids@.len() as int) =~= pids@);
    r
}

/// Lists the tree: the places of the processes with their levels.
pub fn flatten_tree(procs: &Vec<Proc>) -> (result: Vec<(usize, usize)>)
    ensures
        levels(result@) == flat_of(procs@),
{
    let m = places(procs);
    let n: usize = procs.len();
    let mut roots: Vec<usize> = Vec::new();
    let mut seen: Vec<bool> = Vec::new();
    for i in 0..n
        invariant
            n == procs@.len(),
            forall|pid: u32|
                #[trigger] m@.contains_key(pid) <==> place_of(procs@, pid) is Some,
            roots@ == root_places(procs@, i as int),
            within(roots@, procs@.len()),
            seen@ == none_seen(i as nat),
    {
        let p = &procs[i];
        if look_up(&m, p.ppid).is_none() || p.ppid == p.pid {
            assert(is_root(procs@, i as int)) by {
                assert(m@.contains_key(p.ppid) <==> place_of(procs@, p.ppid) is Some);
            }
            roots.push(i);
        } else {
            assert(m@.contains_key(p.ppid));
        }
        seen.push(false);
        assert(seen@ =~= none_seen((i + 1) as nat));
    }
    let sorted = arrange(procs, roots, SortCol::Pid, true);
    let mut stack: Vec<(usize, usize)> = Vec::new();
    push_all(&mut stack, &sorted, 0);
    assert(from_top(stack@) =~= at_depth(sorted@, 0));
    let mut result: Vec<(usize, usize)> = Vec::new();
    let ghost whole = walk(procs@, at_depth(sorted@, 0), seen@);
    proof {
        lemma_none_seen(n as nat);
        assert(levels(result@) + whole.0 =~= whole.0);
    }
    while stack.len() > 0
        invariant
            n == procs@.len() == seen@.len(),
            n == procs.len(),
            forall|pid: u32|
                #[trigger] m@.contains_key(pid) <==> place_of(procs@, pid) is Some,
            forall|pid: u32| #[trigger]
                m@.contains_key(pid) ==> place_of(procs@, pid) == Some(m@[pid]),
            forall|k: int|
                0 <= k < stack@.len() ==> (#[trigger] stack@[k]).0 < n && stack@[k].1
                    <= result@.len(),
            result@.len() + unseen(seen@) == n,
            levels(result@) + walk(procs@, from_top(stack@), seen@).0 == whole.0,
            walk(procs@, from_top(stack@), seen@).1 == whole.1,
        decreases unseen(seen@), stack@.len(),
    {
        let ghost todo = from_top(stack@);
        let (i, d) = stack[stack.len() - 1];
        stack.pop();
        assert(from_top(stack@) =~= todo.drop_first());
        assert(todo[0] == (i, d as nat));
        if !seen[i] {
            let ghost before = levels(result@);
            proof {
                lemma_unseen(seen@, i as int);
            }
            seen.set(i, true);
            result.push((i, d));
            let ch = arrange(procs, resolve(procs, &m, &procs[i].children), SortCol::Pid, true);
            let ghost rest = from_top(stack@);
            push_all(&mut stack, &ch, d + 1);
            proof {
                assert(from_top(stack@) =~= at_depth(ch@, (d + 1) as nat) + rest);
                let below = walk(procs@, from_top(stack@), seen@);
                assert(levels(result@) =~= before.push((i, d as nat)));
                assert(before.push((i, d as nat)) + below.0 =~= before + (seq![(i, d as nat)]
                    + below.0));
            }
        }
    }
    assert(levels(result@) + seq![] =~= levels(result@));
    let ghost base = levels(result@);
    assert(base + leftover(seen@, 0) =~= base);
    for i in 0..n
        invariant
            n == seen@.len(),
            levels(result@) == base + leftover(seen@, i as int),
    {
        if !seen[i] {
            let ghost before = levels(result@);
            result.push((i, 0));
            assert(levels(result@) =~= before.push((i, 0nat)));
            assert(before.push((i, 0nat)) =~= base + leftover(seen@, i as int).push((i, 0nat)));
        }
    }
    result
}

proof fn lemma_none_seen(n: nat)
    ensures
        unseen(none_seen(n)) == n,
    decreases n,
{
    if n > 0 {
        lemma_none_seen((n - 1) as nat);
        assert(none_seen(n).drop_last() =~= none_seen((n - 1) as nat));
    }
}

/// Puts places on a stack so that they come off in their order.
fn push_all(stack: &mut Vec<(usize, usize)>, idx: &Vec<usize>, d: usize)
    ensures
        final(stack)@ == old(stack)@ + Seq::new(
            idx@.len(),
            |k: int| (idx@[idx@.len() - 1 - k], d),
        ),
{
    let n: usize = idx.len();
    assert(stack@ =~= old(stack)@ + Seq::new(0, |k: int| (idx@[idx@.len() - 1 - k], d)));
    for k in 0..n
        invariant
            n == idx@.len(),
            stack@ == old(stack)@ + Seq::new(k as nat, |j: int| (idx@[idx@.len() - 1 - j], d)),
    {
        stack.push((idx[n - 1 - k], d));
        assert(stack@ =~= old(stack)@ + Seq::new(
            (k + 1) as nat,
            |j: int| (idx@[idx@.len() - 1 - j], d),
        ));
    }
}

/// The walk visits exactly the places that become seen, each once.
pub(crate) proof fn lemma_walk(procs: Seq<Proc>, todo: Seq<(usize, nat)>, seen: Seq<bool>)
    ensures
        ({
            let w = walk(procs, todo, seen);
            &&& w.1.len() == seen.len()
            &&& forall|k: int|
                0 <= k < w.0.len() ==> (#[trigger] w.0[k]).0 < seen.len() && !seen[w.0[k].0 as int]
                    && w.1[w.0[k].0 as int]
            &&& forall|j: int, k: int|
                0 <= j < k < w.0.len() ==> (#[trigger] w.0[j]).0 != (#[trigger] w.0[k]).0
            &&& forall|i: int| 0 <= i < seen.len() && seen[i] ==> #[trigger] w.1[i]
            &&& forall|i: int|
                0 <= i < seen.len() && #[trigger] w.1[i] && !seen[i] ==> visits(w.0, i)
        }),
    decreases unseen(seen), todo.len(),
{
    if todo.len() > 0 {
        let (i, d) = todo[0];
        let rest = todo.drop_first();
        if i >= seen.len() || seen[i as int] {
            lemma_walk(procs, rest, seen);
        } else {
            lemma_unseen(seen, i as int);
            let next = seen.update(i as int, true);
            let more = at_depth(kids(procs, i as int), d + 1) + rest;
            lemma_walk(procs, more, next);
            let below = walk(procs, more, next);
            let w = walk(procs, todo, seen);
            assert(w.0 == seq![(i, d)] + below.0);
            assert forall|k: int| 0 <= k < w.0.len() implies (#[trigger] w.0[k]).0 < seen.len()
                && !seen[w.0[k].0 as int] && w.1[w.0[k].0 as int] by {
                if k > 0 {
                    assert(w.0[k] == below.0[k - 1]);
                } else {
                    assert(next[i as int]);
                }
            }
            assert forall|j: int, k: int| 0 <= j < k < w.0.len() implies (#[trigger] w.0[j]).0 != (
            #[trigger] w.0[k]).0 by {
                assert(w.0[k] == below.0[k - 1]);
                if j > 0 {
                    assert(w.0[j] == below.0[j - 1]);
                }
            }
            assert forall|x: int| 0 <= x < seen.len() && seen[x] implies #[trigger] w.1[x] by {
                assert(next[x]);
            }
            assert forall|x: int| 0 <= x < seen.len() && #[trigger] w.1[x] && !seen[x] implies visits(
                w.0,
                x,
            ) by {
                if x == i {
                    assert(w.0[0].0 == x);
                } else {
                    assert(visits(below.0, x));
                    let k = choose|k: int| 0 <= k < below.0.len() && (#[trigger] below.0[k]).0 == x;
                    assert(w.0[k + 1].0 == x);
                }
            }
        }
    }
}

/// A place is in a list.
pub open spec fn visits(l: Seq<(usize, nat)>, i: int) -> bool {
    exists|k: int| 0 <= k < l.len() && (#[trigger] l[k]).0 == i
}

pub(crate) proof fn lemma_leftover(seen: Seq<bool>, n: int)
    requires
        0 <= n <= seen.len() <= usize::MAX,
    ensures
        forall|k: int|
            0 <= k < leftover(seen, n).len() ==> (#[trigger] leftover(seen, n)[k]).0 < n
                && !seen[leftover(seen, n)[k].0 as int] && leftover(seen, n)[k].1 == 0,
        forall|j: int, k: int|
            0 <= j < k < leftover(seen, n).len() ==> (#[trigger] leftover(seen, n)[j]).0 != (
            #[trigger] leftover(seen, n)[k]).0,
        forall|i: int| 0 <= i < n && !#[trigger] seen[i] ==> visits(leftover(seen, n), i),
    decreases n,
{
    if n > 0 {
        lemma_leftover(seen, n - 1);
        let before = leftover(seen, n - 1);
        let l = leftover(seen, n);
        assert forall|i: int| 0 <= i < n && !#[trigger] seen[i] implies visits(l, i) by {
            if i == n - 1 {
                assert(l[l.len() - 1].0 == i);
            } else {
                assert(visits(before, i));
                let k = choose|k: int| 0 <= k < before.len() && (#[trigger] before[k]).0 == i;
                assert(l[k] == before[k]);
            }
        }
    }
}

/// The tree view loses no process and shows none twice, whatever the parents
/// are, cycles included.
pub proof fn law_every_process_is_listed_once(procs: Seq<Proc>)
    requires
        procs.len() <= usize::MAX,
    ensures
        forall|k: int|
            0 <= k < flat_of(procs).len() ==> (#[trigger] flat_of(procs)[k]).0 < procs.len(),
        forall|j: int, k: int|
            0 <= j < k < flat_of(procs).len() ==> (#[trigger] flat_of(procs)[j]).0 != (
            #[trigger] flat_of(procs)[k]).0,
        forall|i: int| 0 <= i < procs.len() ==> #[trigger] visits(flat_of(procs), i),
{
    let n = procs.len() as int;
    let roots = arranged(procs, root_places(procs, n), SortCol::Pid, true);
    let todo = at_depth(roots, 0);
    let w = walk(procs, todo, none_seen(procs.len()));
    let rest = leftover(w.1, n);
    let l = flat_of(procs);
    lemma_walk(procs, todo, none_seen(procs.len()));
    lemma_leftover(w.1, n);
    assert(l == w.0 + rest);
    assert forall|k: int| 0 <= k < l.len() implies (#[trigger] l[k]).0 < procs.len() by {
        if k < w.0.len() {
            assert(l[k] == w.0[k]);
        } else {
            assert(l[k] == rest[k - w.0.len()]);
        }
    }
    assert forall|j: int, k: int| 0 <= j < k < l.len() implies (#[trigger] l[j]).0 != (
    #[trigger] l[k]).0 by {
        if k < w.0.len() {
            assert(l[k] == w.0[k]);
            assert(l[j] == w.0[j]);
        } else {
            assert(l[k] == rest[k - w.0.len()]);
            if j < w.0.len() {
                assert(l[j] == w.0[j]);
                assert(w.1[w.0[j].0 as int]);
            } else {
                assert(l[j] == rest[j - w.0.len()]);
            }
        }
    }
    assert forall|i: int| 0 <= i < n implies #[trigger] visits(l, i) by {
        if w.1[i] {
            assert(visits(w.0, i));
            let k = choose|k: int| 0 <= k < w.0.len() && (#[trigger] w.0[k]).0 == i;
            assert(l[k].0 == i);
        } else {
            assert(visits(rest, i));
            let k = choose|k: int| 0 <= k < rest.len() && (#[trigger] rest[k]).0 == i;
            assert(l[w.0.len() + k].0 == i);
        }
    }
}

/// The entry at `k` is a child of an earlier entry, one level further in.
pub open spec fn hangs_below(procs: Seq<Proc>, l: Seq<(usize, nat)>, j: int, k: int) -> bool {
    0 <= j < k && l[k].1 == l[j].1 + 1 && kids(procs, l[j].0 as int).contains(l[k].0)
}

pub(crate) proof fn lemma_walk_levels(procs: Seq<Proc>, todo: Seq<(usize, nat)>, seen: Seq<bool>)
    ensures
        forall|k: int|
            0 <= k < walk(procs, todo, seen).0.len() ==> todo.contains(
                #[trigger] walk(procs, todo, seen).0[k],
            ) || exists|j: int| hangs_below(procs, walk(procs, todo, seen).0, j, k),
    decreases unseen(seen), todo.len(),
{
    if todo.len() > 0 {
        let (i, d) = todo[0];
        let rest = todo.drop_first();
        let l = walk(procs, todo, seen).0;
        if i >= seen.len() || seen[i as int] {
            lemma_walk_levels(procs, rest, seen);
            assert forall|k: int| 0 <= k < l.len() implies todo.contains(#[trigger] l[k])
                || exists|j: int| hangs_below(procs, l, j, k) by {
                assert(l == walk(procs, rest, seen).0);
                if rest.contains(l[k]) {
                    let m = choose|m: int| 0 <= m < rest.len() && rest[m] == l[k];
                    assert(todo[m + 1] == l[k]);
                }
            }
        } else {
            lemma_unseen(seen, i as int);
            let next = seen.update(i as int, true);
            let ch = at_depth(kids(procs, i as int), d + 1);
            lemma_walk_levels(procs, ch + rest, next);
            let below = walk(procs, ch + rest, next).0;
            assert(l == seq![(i, d)] + below);
            assert forall|k: int| 0 <= k < l.len() implies todo.contains(#[trigger] l[k])
                || exists|j: int| hangs_below(procs, l, j, k) by {
                if k == 0 {
                    assert(todo[0] == l[0]);
                } else {
                    assert(l[k] == below[k - 1]);
                    if (ch + rest).contains(below[k - 1]) {
                        let m = choose|m: int|
                            0 <= m < (ch + rest).len() && (ch + rest)[m] == below[k - 1];
                        if m < ch.len() {
                            assert(ch[m] == l[k]);
                            assert(kids(procs, i as int)[m] == l[k].0);
                            assert(hangs_below(procs, l, 0, k));
                        } else {
                            assert(rest[m - ch.len()] == l[k]);
                            assert(todo[m - ch.len() + 1] == l[k]);
                        }
                    } else {
                        let b = k - 1;
                        let j = choose|j: int| hangs_below(procs, below, j, b);
                        assert(l[j + 1] == below[j]);
                        assert(hangs_below(procs, l, j + 1, k));
                    }
                }
            }
        }
    }
}

/// In the tree view whatever is indented stands after its parent, one level
/// further in.
pub proof fn law_children_follow_their_parent(procs: Seq<Proc>, k: int)
    requires
        0 <= k < flat_of(procs).len(),
        flat_of(procs)[k].1 > 0,
        procs.len() <= usize::MAX,
    ensures
        exists|j: int| hangs_below(procs, flat_of(procs), j, k),
{
    let n = procs.len() as int;
    let roots = arranged(procs, root_places(procs, n), SortCol::Pid, true);
    let todo = at_depth(roots, 0);
    let w = walk(procs, todo, none_seen(procs.len()));
    let rest = leftover(w.1, n);
    let l = flat_of(procs);
    assert(l == w.0 + rest);
    lemma_walk(procs, todo, none_seen(procs.len()));
    lemma_leftover(w.1, n);
    lemma_walk_levels(procs, todo, none_seen(procs.len()));
    if k >= w.0.len() {
        assert(l[k] == rest[k - w.0.len()]);
    } else {
        assert(l[k] == w.0[k]);
        if todo.contains(w.0[k]) {
            let m = choose|m: int| 0 <= m < todo.len() && todo[m] == w.0[k];
            assert(todo[m].1 == 0);
        } else {
            let j = choose|j: int| hangs_below(procs, w.0, j, k);
            assert(l[j] == w.0[j]);
            assert(hangs_below(procs, l, j, k));
        }
    }
}

/// No two processes have the same number.
pub open spec fn distinct(procs: Seq<Proc>) -> bool {
    forall|i: int, j: int|
        0 <= i < j < procs.len() ==> (#[trigger] procs[i]).pid != (#[trigger] procs[j]).pid
}

pub(crate) proof fn lemma_offspring(procs: Seq<Proc>, pid: u32, x: u32)
    requires
        offspring(procs, pid).contains(x),
    ensures
        exists|j: int|
            0 <= j < procs.len() && (#[trigger] procs[j]).pid == x && procs[j].ppid == pid,
    decreases procs.len(),
{
    if procs.len() > 0 {
        let front = procs.drop_last();
        let before = offspring(front, pid);
        let all = offspring(procs, pid);
        let m = choose|m: int| 0 <= m < all.len() && all[m] == x;
        if m < before.len() {
            assert(before[m] == x);
            lemma_offspring(front, pid, x);
            let j = choose|j: int|
                0 <= j < front.len() && (#[trigger] front[j]).pid == x && front[j].ppid == pid;
            assert(procs[j] == front[j]);
        } else {
            assert(procs[procs.len() - 1].pid == x);
        }
    }
}

pub(crate) proof fn lemma_resolved(procs: Seq<Proc>, pids: Seq<u32>, i: usize)
    requires
        resolved(procs, pids).contains(i),
    ensures
        exists|k: int| 0 <= k < pids.len() && place_of(procs, #[trigger] pids[k]) == Some(i),
    decreases pids.len(),
{
    if pids.len() > 0 {
        let front = pids.drop_last();
        let before = resolved(procs, front);
        let all = resolved(procs, pids);
        let m = choose|m: int| 0 <= m < all.len() && all[m] == i;
        if m < before.len() {
            assert(before[m] == i);
            lemma_resolved(procs, front, i);
            let k = choose|k: int|
                0 <= k < front.len() && place_of(procs, #[trigger] front[k]) == Some(i);
            assert(pids[k] == front[k]);
        } else {
            assert(place_of(procs, pids[pids.len() - 1]) == Some(i));
        }
    }
}

/// Of a table with its children set, in which no process number occurs twice,
/// whatever the tree view indents stands below the process that is its parent
/// in the system.
pub proof fn law_indented_below_the_parent(procs: Seq<Proc>, k: int)
    requires
        procs.len() <= usize::MAX,
        distinct(procs),
        forall|i: int| 0 <= i < procs.len() ==> (#[trigger] procs[i]).children@ == children_at(
            procs,
            i,
        ),
        0 <= k < flat_of(procs).len(),
        flat_of(procs)[k].1 > 0,
    ensures
        exists|j: int|
            0 <= j < k && flat_of(procs)[k].1 == (#[trigger] flat_of(procs)[j]).1 + 1
                && procs[flat_of(procs)[k].0 as int].ppid == procs[flat_of(
                procs,
            )[j].0 as int].pid,
{
    let l = flat_of(procs);
    law_every_process_is_listed_once(procs);
    law_children_follow_their_parent(procs, k);
    let j = choose|j: int| hangs_below(procs, l, j, k);
    let (a, x) = (l[j].0 as int, l[k].0);
    assert(l[j].0 < procs.len());
    let pids = procs[a].children@;
    let set = resolved(procs, pids);
    assert(set.contains(x)) by {
        broadcast use vstd::seq_lib::group_to_multiset_ensures;

        process::lemma_order_total(procs, SortCol::Pid, true);
        set.lemma_sort_by_ensures(process::order(procs, SortCol::Pid, true));
    }
    lemma_resolved(procs, pids, x);
    let q = choose|q: int| 0 <= q < pids.len() && place_of(procs, #[trigger] pids[q]) == Some(x);
    lemma_place_of(procs, pids[q]);
    assert(procs[a].children@ == children_at(procs, a));
    assert(offspring(procs, procs[a].pid).contains(pids[q]));
    lemma_offspring(procs, procs[a].pid, pids[q]);
    let y = choose|y: int|
        0 <= y < procs.len() && (#[trigger] procs[y]).pid == pids[q] && procs[y].ppid
            == procs[a].pid;
    assert(procs[x as int].pid == procs[y].pid);
    assert(x as int == y);
    assert(l[j].1 + 1 == l[k].1);
}

/// The tree depends on the numbers of the processes and of their parents
/// alone: whatever children were set before, the same are found again.
pub proof fn law_tree_can_be_built_again(a: Seq<Proc>, b: Seq<Proc>, i: int)
    requires
        same_table(a, b),
        0 <= i < a.len(),
    ensures
        children_at(a, i) == children_at(b, i),
{
    assert(same_but_children(a[i], b[i]));
    lemma_same_table(a, b, a[i].pid);
}


/// A process number stands for the last process of the table that has it, and
/// for none where no process has it.
pub proof fn law_numbers_stand_for_processes(procs: Seq<Proc>, pid: u32, i: int)
    requires
        -1 <= i < procs.len() <= usize::MAX,
        i >= 0 ==> procs[i].pid == pid,
        forall|j: int| i < j < procs.len() ==> (#[trigger] procs[j]).pid != pid,
    ensures
        i >= 0 ==> place_of(procs, pid) == Some(i as usize),
        i == -1 ==> place_of(procs, pid) is None,
    decreases procs.len(),
{
    if procs.len() > 0 && i < procs.len() - 1 {
        let d = procs.drop_last();
        assert(procs[procs.len() - 1].pid != pid);
        assert forall|j: int| i < j < d.len() implies (#[trigger] d[j]).pid != pid by {
            assert(d[j] == procs[j]);
        }
        if i >= 0 {
            assert(d[i] == procs[i]);
        }
        law_numbers_stand_for_processes(d, pid, i);
    }
}

/// A process is at the outermost level exactly where it is its own parent or no
/// process of the table is its parent.
pub proof fn law_outermost_processes(procs: Seq<Proc>, i: int)
    requires
        0 <= i < procs.len() <= usize::MAX,
    ensures
        is_root(procs, i) <==> procs[i].ppid == procs[i].pid || forall|j: int|
            0 <= j < procs.len() ==> (#[trigger] procs[j]).pid != procs[i].ppid,
{
    let ppid = procs[i].ppid;
    lemma_place_of(procs, ppid);
    if forall|j: int| 0 <= j < procs.len() ==> (#[trigger] procs[j]).pid != ppid {
        law_numbers_stand_for_processes(procs, ppid, -1);
    }
}

/// The children of a process are those that name it as their parent, in the
/// order of the table.
pub proof fn law_children_name_their_parent(procs: Seq<Proc>, p: Proc, pid: u32)
    ensures
        offspring(seq![], pid).len() == 0,
        p.ppid == pid ==> offspring(procs.push(p), pid) == offspring(procs, pid).push(p.pid),
        p.ppid != pid ==> offspring(procs.push(p), pid) == offspring(procs, pid),
{
    assert(procs.push(p).drop_last() =~= procs);
}

} // verus!
