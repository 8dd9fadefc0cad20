//! Which processes are shown, and in what order.
use vstd::prelude::*;
use vstd::relations::sorted_by;

use crate::number;
use crate::process::{arrange, Proc, SortCol};
use crate::process::{arranged, lemma_order_total, lemma_text_total, order, precedes, sortable};
use crate::process::{text_less, within};
use crate::reading::less;
use crate::text;
use crate::text::has_part;
use crate::tree;
use crate::tree::{at_depth, flat_of, kids, levels, none_seen, resolved, root_places, unseen, walk};
use crate::tree::{law_every_process_is_listed_once, visits};
use crate::tree::{lemma_place_of, lemma_same_table, lemma_unseen, same_but_children, same_table};

verus! {

/// What `str::to_lowercase` makes of a text.
pub uninterp spec fn lowercase(s: Seq<char>) -> Seq<char>;

/// `str::to_lowercase` depends on nothing but the text, and makes an empty text
/// of an empty one.
pub assume_specification[ str::to_lowercase ](s: &str) -> (r: String)
    ensures
        r@ == lowercase(s@),
        s@.len() == 0 ==> r@.len() == 0,
;

/// What is looked for is a part of the name, the user, the number or the
/// command of a process.
pub open spec fn is_hit(
    name: Seq<char>,
    user: Seq<char>,
    pid: u32,
    cmd: Seq<char>,
    q: Seq<char>,
) -> bool {
    has_part(name, q) || has_part(user, q) || has_part(number::decimal_of(pid as nat), q)
        || has_part(cmd, q)
}

/// Tells whether a text is a part of the name, the user, the number or the
/// command of a process.
pub fn hit(name: &str, user: &str, pid: u32, cmd: &str, q: &str) -> (r: bool)
    ensures
        r == is_hit(name@, user@, pid, cmd@, q@),
{
    text::contains(name, q) || text::contains(user, q) || text::contains(
        number::decimal(pid as u64).as_str(),
        q,
    ) || text::contains(cmd, q)
}

/// A search finds a process, upper and lower case being the same to it.
pub open spec fn found(p: Proc, search: Seq<char>) -> bool {
    is_hit(
        lowercase(p.name@),
        lowercase(p.user@),
        p.pid,
        lowercase(p.cmd@),
        lowercase(search),
    )
}

/// For every process, whether a search finds it.
pub open spec fn hits(procs: Seq<Proc>, search: Seq<char>) -> Seq<bool> {
    Seq::new(procs.len(), |i: int| found(procs[i], search))
}

/// Every one of `n` processes is kept.
pub open spec fn all_kept(n: nat) -> Seq<bool> {
    Seq::new(n, |i: int| true)
}

proof fn lemma_empty_part(hay: Seq<char>, needle: Seq<char>)
    requires
        needle.len() == 0,
    ensures
        has_part(hay, needle),
{
    assert(hay.subrange(0, 0int + needle.len()) =~= needle);
}

/// Tells for every process whether a search finds it. The empty search finds
/// every one.
pub fn matching(procs: &Vec<Proc>, search: &str) -> (keep: Vec<bool>)
    ensures
        keep@ == hits(procs@, search@),
        search@.len() == 0 ==> keep@ == all_kept(procs@.len()),
{
    let mut keep: Vec<bool> = Vec::new();
    let all = search.is_empty();
    let q = search.to_lowercase();
    proof {
        if search@.len() == 0 {
            assert forall|i: int| 0 <= i < procs@.len() implies found(
                #[trigger] procs@[i],
                search@,
            ) by {
                lemma_empty_part(lowercase(procs@[i].name@), lowercase(search@));
            }
            assert(hits(procs@, search@) =~= all_kept(procs@.len()));
        }
    }
    for i in 0..procs.len()
        invariant
            all == (search@.len() == 0),
            all ==> hits(procs@, search@) == all_kept(procs@.len()),
            q@ == lowercase(search@),
            keep@ == hits(procs@, search@).take(i as int),
    {
        let p = &procs[i];
        assert(hits(procs@, search@)[i as int] == found(procs@[i as int], search@));
        let k = all || hit(
            p.name.as_str().to_lowercase().as_str(),
            p.user.as_str().to_lowercase().as_str(),
            p.pid,
            p.cmd.as_str().to_lowercase().as_str(),
            q.as_str(),
        );
        keep.push(k);
        assert(keep@ =~= hits(procs@, search@).take(i + 1));
    }
    assert(hits(procs@, search@).take(procs@.len() as int) =~= hits(procs@, search@));
    keep
}

/// Those of the given places that are to be kept.
pub open spec fn chosen(idx: Seq<usize>, keep: Seq<bool>) -> Seq<usize>
    decreases idx.len(),
{
    if idx.len() == 0 {
        seq![]
    } else if keep[idx.last() as int] {
        chosen(idx.drop_last(), keep).push(idx.last())
    } else {
        chosen(idx.drop_last(), keep)
    }
}

/// All places, in the order of the tree or of the table.
pub open spec fn candidates(procs: Seq<Proc>, in_tree: bool) -> Seq<usize> {
    if in_tree {
        Seq::new(flat_of(procs).len(), |k: int| flat_of(procs)[k].0)
    } else {
        Seq::new(procs.len(), |k: int| k as usize)
    }
}

/// The list: the places that are to be kept, in the order of the tree, or
/// sorted by a column.
pub open spec fn listing(
    procs: Seq<Proc>,
    keep: Seq<bool>,
    in_tree: bool,
    col: SortCol,
    asc: bool,
) -> Seq<usize> {
    let idx = chosen(candidates(procs, in_tree), keep);
    if in_tree {
        idx
    } else {
        arranged(procs, idx, col, asc)
    }
}

proof fn lemma_chosen(idx: Seq<usize>, keep: Seq<bool>, n: nat)
    requires
        within(idx, n),
    ensures
        within(chosen(idx, keep), n),
        forall|x: usize| #[trigger]
            chosen(idx, keep).contains(x) <==> idx.contains(x) && keep[x as int],
        idx.no_duplicates() ==> chosen(idx, keep).no_duplicates(),
    decreases idx.len(),
{
    if idx.len() > 0 {
        let front = idx.drop_last();
        let c = chosen(front, keep);
        assert forall|i: int| 0 <= i < front.len() implies (#[trigger] front[i]) < n by {
            assert(front[i] == idx[i]);
        }
        lemma_chosen(front, keep, n);
        assert(idx[idx.len() - 1] < n);
        let d = chosen(idx, keep);
        assert forall|x: usize| #[trigger] d.contains(x) <==> idx.contains(x) && keep[x as int] by {
            if front.contains(x) {
                let k = choose|k: int| 0 <= k < front.len() && front[k] == x;
                assert(idx[k] == x);
            }
            if c.contains(x) {
                let k = choose|k: int| 0 <= k < c.len() && c[k] == x;
                assert(d[k] == x);
            }
            if idx.contains(x) && x != idx.last() {
                let k = choose|k: int| 0 <= k < idx.len() && idx[k] == x;
                assert(front[k] == x);
            }
            if keep[idx.last() as int] {
                assert(d[d.len() - 1] == idx.last());
            }
            if d.contains(x) {
                let k = choose|k: int| 0 <= k < d.len() && d[k] == x;
                if k < c.len() {
                    assert(c[k] == x);
                } else {
                    assert(idx[idx.len() - 1] == x);
                }
            }
        }
        if idx.no_duplicates() {
            assert(front.no_duplicates()) by {
                assert forall|i: int, j: int|
                    0 <= i < front.len() && 0 <= j < front.len() && i != j implies front[i]
                    != front[j] by {
                    assert(idx[i] != idx[j]);
                }
            }
            assert(!front.contains(idx.last())) by {
                if front.contains(idx.last()) {
                    let k = choose|k: int| 0 <= k < front.len() && front[k] == idx.last();
                    assert(idx[k] == idx[idx.len() - 1]);
                }
            }
            if keep[idx.last() as int] {
                assert forall|i: int, j: int|
                    0 <= i < d.len() && 0 <= j < d.len() && i != j implies d[i] != d[j] by {
                    if i == c.len() {
                        assert(c.contains(c[j]));
                    } else if j == c.len() {
                        assert(c.contains(c[i]));
                    }
                }
            }
        }
    }
}

proof fn lemma_candidates(procs: Seq<Proc>, in_tree: bool)
    requires
        procs.len() <= usize::MAX,
    ensures
        within(candidates(procs, in_tree), procs.len()),
        candidates(procs, in_tree).no_duplicates(),
        forall|x: usize| x < procs.len() ==> #[trigger] candidates(procs, in_tree).contains(x),
{
    let c = candidates(procs, in_tree);
    if in_tree {
        law_every_process_is_listed_once(procs);
        let l = flat_of(procs);
        assert forall|i: int| 0 <= i < c.len() implies (#[trigger] c[i]) < procs.len() by {
            assert(l[i].0 < procs.len());
        }
        assert forall|i: int, j: int| 0 <= i < c.len() && 0 <= j < c.len() && i != j implies c[i]
            != c[j] by {
            if i < j {
                assert(l[i].0 != l[j].0);
            } else {
                assert(l[j].0 != l[i].0);
            }
        }
        assert forall|x: usize| x < procs.len() implies #[trigger] c.contains(x) by {
            assert(visits(l, x as int));
            let k = choose|k: int| 0 <= k < l.len() && (#[trigger] l[k]).0 == x;
            assert(c[k] == x);
        }
    } else {
        assert forall|x: usize| x < procs.len() implies #[trigger] c.contains(x) by {
            assert(c[x as int] == x);
        }
    }
}

fn choose_kept(idx: Vec<usize>, keep: &Vec<bool>) -> (r: Vec<usize>)
    requires
        within(idx@, keep@.len()),
    ensures
        r@ == chosen(idx@, keep@),
{
    let mut r: Vec<usize> = Vec::new();
    for k in 0..idx.len()
        invariant
            within(idx@, keep@.len()),
            r@ == chosen(idx@.take(k as int), keep@),
    {
        assert(idx@.take(k + 1).drop_last() =~= idx@.take(k as int));
        let i: usize = idx[k];
        if keep[i] {
            r.push(i);
        }
    }
    assert(idx@.take(idx@.len() as int) =~= idx@);
    r
}

/// Lists the processes that are to be kept.
pub fn list(procs: &Vec<Proc>, keep: &Vec<bool>, in_tree: bool, col: SortCol, asc: bool) -> (r: Vec<
    usize,
>)
    requires
        keep@.len() == procs@.len(),
        !in_tree ==> sortable(procs@, col),
    ensures
        r@ == listing(procs@, keep@, in_tree, col, asc),
        within(r@, procs@.len()),
{
    let mut idx: Vec<usize> = Vec::new();
    proof {
        lemma_candidates(procs@, in_tree);
        lemma_chosen(candidates(procs@, in_tree), keep@, procs@.len());
    }
    if in_tree {
        let flat = tree::flatten_tree(procs);
        for k in 0..flat.len()
            invariant
                levels(flat@) == flat_of(procs@),
                idx@ == candidates(procs@, true).take(k as int),
        {
            assert(levels(flat@)[k as int].0 == flat@[k as int].0);
            idx.push(flat[k].0);
            assert(idx@ =~= candidates(procs@, true).take(k + 1));
        }
        assert(levels(flat@).len() == flat@.len());
        assert(idx@ =~= candidates(procs@, true));
        choose_kept(idx, keep)
    } else {
        for k in 0..procs.len()
            invariant
                idx@ == candidates(procs@, false).take(k as int),
        {
            idx.push(k);
            assert(idx@ =~= candidates(procs@, false).take(k + 1));
        }
        assert(idx@ =~= candidates(procs@, false));
        arrange(procs, choose_kept(idx, keep), col, asc)
    }
}

proof fn lemma_listing(
    procs: Seq<Proc>,
    keep: Seq<bool>,
    in_tree: bool,
    col: SortCol,
    asc: bool,
)
    requires
        procs.len() <= usize::MAX,
        keep.len() == procs.len(),
    ensures
        within(listing(procs, keep, in_tree, col, asc), procs.len()),
        listing(procs, keep, in_tree, col, asc).no_duplicates(),
        forall|x: usize| #[trigger]
            listing(procs, keep, in_tree, col, asc).contains(x) <==> x < procs.len()
                && keep[x as int],
        !in_tree ==> sorted_by(
            listing(procs, keep, in_tree, col, asc),
            order(procs, col, asc),
        ),
{
    let all = candidates(procs, in_tree);
    let idx = chosen(all, keep);
    let l = listing(procs, keep, in_tree, col, asc);
    lemma_candidates(procs, in_tree);
    lemma_chosen(all, keep, procs.len());
    assert forall|x: usize| #[trigger] idx.contains(x) <==> x < procs.len() && keep[x as int] by {
        if all.contains(x) {
            let k = choose|k: int| 0 <= k < all.len() && all[k] == x;
            assert(all[k] < procs.len());
        }
    }
    if !in_tree {
        let leq = order(procs, col, asc);
        lemma_order_total(procs, col, asc);
        idx.lemma_sort_by_ensures(leq);
        assert forall|x: usize| #[trigger] l.contains(x) <==> idx.contains(x) by {
            l.to_multiset_ensures();
            idx.to_multiset_ensures();
            assert(l.contains(x) <==> l.to_multiset().count(x) > 0);
            assert(idx.contains(x) <==> idx.to_multiset().count(x) > 0);
        }
        assert(l.no_duplicates()) by {
            idx.lemma_multiset_has_no_duplicates();
            l.lemma_multiset_has_no_duplicates_conv();
        }
        assert forall|i: int| 0 <= i < l.len() implies (#[trigger] l[i]) < procs.len() by {
            assert(l.contains(l[i]));
        }
    }
}

/// The list holds exactly the processes that are to be kept, each once.
pub proof fn law_list_holds_what_is_kept(
    procs: Seq<Proc>,
    keep: Seq<bool>,
    in_tree: bool,
    col: SortCol,
    asc: bool,
    x: usize,
)
    requires
        procs.len() <= usize::MAX,
        keep.len() == procs.len(),
    ensures
        listing(procs, keep, in_tree, col, asc).contains(x) <==> x < procs.len() && keep[x as int],
        listing(procs, keep, in_tree, col, asc).no_duplicates(),
{
    lemma_listing(procs, keep, in_tree, col, asc);
}

/// Outside of the tree view the list is sorted: no process precedes one that
/// stands above it, and where the column does not decide, the processes stand
/// in the order of the table.
pub proof fn law_list_is_sorted(
    procs: Seq<Proc>,
    keep: Seq<bool>,
    col: SortCol,
    asc: bool,
    j: int,
    k: int,
)
    requires
        procs.len() <= usize::MAX,
        keep.len() == procs.len(),
        0 <= j < k < listing(procs, keep, false, col, asc).len(),
    ensures
        ({
            let l = listing(procs, keep, false, col, asc);
            &&& !precedes(procs, col, asc, l[k], l[j])
            &&& !precedes(procs, col, asc, l[j], l[k]) ==> l[j] < l[k]
        }),
{
    let l = listing(procs, keep, false, col, asc);
    let leq = order(procs, col, asc);
    lemma_listing(procs, keep, false, col, asc);
    lemma_order_total(procs, col, asc);
    assert(leq(l[j], l[k]));
    assert(l[j] != l[k]);
    if precedes(procs, col, asc, l[k], l[j]) {
        assert(leq(l[k], l[j]));
    }
}

/// To turn the order round turns the list round, where no two of its processes
/// are the same in the column.
pub proof fn law_reverse_turns_the_list_round(
    procs: Seq<Proc>,
    keep: Seq<bool>,
    col: SortCol,
    asc: bool,
)
    requires
        procs.len() <= usize::MAX,
        keep.len() == procs.len(),
        forall|a: usize, b: usize|
            a < procs.len() && b < procs.len() && a != b && keep[a as int] && keep[b as int]
                ==> #[trigger] precedes(procs, col, asc, a, b) || precedes(procs, col, asc, b, a),
    ensures
        listing(procs, keep, false, col, !asc) == listing(procs, keep, false, col, asc).reverse(),
{
    let l = listing(procs, keep, false, col, asc);
    let m = listing(procs, keep, false, col, !asc);
    let r = l.reverse();
    let leq = order(procs, col, !asc);
    let idx = chosen(candidates(procs, false), keep);
    lemma_listing(procs, keep, false, col, asc);
    lemma_listing(procs, keep, false, col, !asc);
    lemma_order_total(procs, col, asc);
    lemma_order_total(procs, col, !asc);
    idx.lemma_sort_by_ensures(order(procs, col, asc));
    idx.lemma_sort_by_ensures(leq);
    assert(r.to_multiset() =~= l.to_multiset()) by {
        l.lemma_reverse_to_multiset();
    }
    assert forall|i: int, j: int| 0 <= i < j < r.len() implies #[trigger] leq(r[i], r[j]) by {
        let a = l.len() - 1 - j;
        let b = l.len() - 1 - i;
        law_list_is_sorted(procs, keep, col, asc, a, b);
        assert(l.contains(l[a]) && l.contains(l[b]));
        assert(l[a] != l[b]);
        assert(precedes(procs, col, asc, l[a], l[b]));
        assert(precedes(procs, col, !asc, l[b], l[a]));
    }
    assert(sorted_by(r, leq));
    vstd::seq_lib::lemma_sorted_unique(m, r, leq);
}

/// The tree view keeps the order of the tree, whatever the column.
pub proof fn law_tree_ignores_the_column(
    procs: Seq<Proc>,
    keep: Seq<bool>,
    a: SortCol,
    b: SortCol,
    asc: bool,
    desc: bool,
)
    ensures
        listing(procs, keep, true, a, asc) == listing(procs, keep, true, b, desc),
{
}

/// The list without a search holds every process.
pub proof fn law_full_list_holds_all(
    procs: Seq<Proc>,
    in_tree: bool,
    col: SortCol,
    asc: bool,
    x: usize,
)
    requires
        procs.len() <= usize::MAX,
    ensures
        listing(procs, all_kept(procs.len()), in_tree, col, asc).contains(x) <==> x < procs.len(),
{
    lemma_listing(procs, all_kept(procs.len()), in_tree, col, asc);
}

proof fn lemma_chosen_count(idx: Seq<usize>, keep: Seq<bool>, x: usize)
    ensures
        chosen(idx, keep).to_multiset().count(x) == if keep[x as int] {
            idx.to_multiset().count(x)
        } else {
            0
        },
    decreases idx.len(),
{
    broadcast use vstd::seq_lib::group_to_multiset_ensures;

    if idx.len() > 0 {
        let front = idx.drop_last();
        lemma_chosen_count(front, keep, x);
        assert(idx =~= front.push(idx.last()));
        assert(idx.to_multiset() =~= front.to_multiset().insert(idx.last()));
        if keep[idx.last() as int] {
            let c = chosen(front, keep);
            assert(c.push(idx.last()).to_multiset() =~= c.to_multiset().insert(idx.last()));
        }
    } else {
        assert(idx =~= seq![]);
        assert(chosen(idx, keep) =~= idx);
        assert(idx.to_multiset().len() == 0);
        assert(!idx.contains(x));
    }
}

/// What is left of a sorted list is sorted.
proof fn lemma_chosen_sorted(idx: Seq<usize>, keep: Seq<bool>, leq: spec_fn(usize, usize) -> bool)
    requires
        sorted_by(idx, leq),
    ensures
        sorted_by(chosen(idx, keep), leq),
        forall|j: int| 0 <= j < chosen(idx, keep).len() ==> idx.contains(
            #[trigger] chosen(idx, keep)[j],
        ),
    decreases idx.len(),
{
    if idx.len() > 0 {
        let front = idx.drop_last();
        let c = chosen(front, keep);
        let d = chosen(idx, keep);
        assert(sorted_by(front, leq)) by {
            assert forall|i: int, j: int| 0 <= i < j < front.len() implies #[trigger] leq(
                front[i],
                front[j],
            ) by {
                assert(leq(idx[i], idx[j]));
            }
        }
        lemma_chosen_sorted(front, keep, leq);
        assert forall|j: int| 0 <= j < d.len() implies idx.contains(#[trigger] d[j]) by {
            if j < c.len() {
                assert(d[j] == c[j]);
                let m = choose|m: int| 0 <= m < front.len() && front[m] == c[j];
                assert(idx[m] == d[j]);
            } else {
                assert(idx[idx.len() - 1] == d[j]);
            }
        }
        assert forall|i: int, j: int| 0 <= i < j < d.len() implies #[trigger] leq(d[i], d[j]) by {
            assert(d[i] == c[i]);
            if j < c.len() {
                assert(d[j] == c[j]);
            } else {
                let m = choose|m: int| 0 <= m < front.len() && front[m] == c[i];
                assert(front.contains(c[i]));
                assert(leq(idx[m], idx[idx.len() - 1]));
            }
        }
    }
}

proof fn lemma_chosen_twice(idx: Seq<usize>, all: Seq<bool>, keep: Seq<bool>)
    requires
        within(idx, all.len()),
        forall|i: int| 0 <= i < all.len() ==> #[trigger] all[i],
    ensures
        chosen(chosen(idx, all), keep) == chosen(idx, keep),
        chosen(idx, all) == idx,
    decreases idx.len(),
{
    if idx.len() > 0 {
        let front = idx.drop_last();
        assert forall|i: int| 0 <= i < front.len() implies (#[trigger] front[i]) < all.len() by {
            assert(front[i] == idx[i]);
        }
        lemma_chosen_twice(front, all, keep);
        assert(idx[idx.len() - 1] < all.len());
        assert(all[idx.last() as int]);
        assert(chosen(idx, all) =~= idx);
    } else {
        assert(chosen(idx, all) =~= idx);
    }
}

/// A search never reorders the list: what it leaves stands in the order of the
/// list without a search, in the tree view and outside of it.
pub proof fn law_search_keeps_the_order(
    procs: Seq<Proc>,
    search: Seq<char>,
    in_tree: bool,
    col: SortCol,
    asc: bool,
)
    requires
        procs.len() <= usize::MAX,
    ensures
        listing(procs, hits(procs, search), in_tree, col, asc) == chosen(
            listing(procs, all_kept(procs.len()), in_tree, col, asc),
            hits(procs, search),
        ),
{
    let keep = hits(procs, search);
    let all = all_kept(procs.len());
    let c = candidates(procs, in_tree);
    lemma_candidates(procs, in_tree);
    lemma_chosen_twice(c, all, keep);
    if !in_tree {
        let leq = order(procs, col, asc);
        let full = arranged(procs, c, col, asc);
        let part = arranged(procs, chosen(c, keep), col, asc);
        lemma_order_total(procs, col, asc);
        c.lemma_sort_by_ensures(leq);
        chosen(c, keep).lemma_sort_by_ensures(leq);
        lemma_chosen_sorted(full, keep, leq);
        assert(part.to_multiset() =~= chosen(full, keep).to_multiset()) by {
            assert forall|x: usize| #[trigger]
                part.to_multiset().count(x) == chosen(full, keep).to_multiset().count(x) by {
                lemma_chosen_count(c, keep, x);
                lemma_chosen_count(full, keep, x);
            }
        }
        vstd::seq_lib::lemma_sorted_unique(part, chosen(full, keep), leq);
    }
}

/// Searches that are the same in lower case find the same processes, and so
/// leave the same list.
pub proof fn law_case_does_not_matter(
    procs: Seq<Proc>,
    a: Seq<char>,
    b: Seq<char>,
    in_tree: bool,
    col: SortCol,
    asc: bool,
)
    requires
        lowercase(a) == lowercase(b),
    ensures
        hits(procs, a) == hits(procs, b),
        listing(procs, hits(procs, a), in_tree, col, asc) == listing(
            procs,
            hits(procs, b),
            in_tree,
            col,
            asc,
        ),
{
    assert(hits(procs, a) =~= hits(procs, b));
}

/// Two tables of the same processes, with the same children where the tree is
/// shown.
pub open spec fn same_shown(a: Seq<Proc>, b: Seq<Proc>, in_tree: bool) -> bool {
    &&& same_table(a, b)
    &&& in_tree ==> forall|i: int|
        0 <= i < a.len() ==> (#[trigger] a[i]).children@ == b[i].children@
}

proof fn lemma_arranged_same(
    a: Seq<Proc>,
    b: Seq<Proc>,
    idx: Seq<usize>,
    col: SortCol,
    asc: bool,
)
    requires
        same_table(a, b),
        within(idx, a.len()),
    ensures
        arranged(a, idx, col, asc) == arranged(b, idx, col, asc),
{
    let (f, g) = (order(a, col, asc), order(b, col, asc));
    let (l, m) = (arranged(a, idx, col, asc), arranged(b, idx, col, asc));
    lemma_order_total(a, col, asc);
    lemma_order_total(b, col, asc);
    idx.lemma_sort_by_ensures(f);
    idx.lemma_sort_by_ensures(g);
    assert forall|i: int, j: int| 0 <= i < j < l.len() implies #[trigger] g(l[i], l[j]) by {
        assert(f(l[i], l[j]));
        assert(l.contains(l[i]) && l.contains(l[j]));
        assert(idx.contains(l[i]) && idx.contains(l[j]));
        assert(same_but_children(a[l[i] as int], b[l[i] as int]));
        assert(same_but_children(a[l[j] as int], b[l[j] as int]));
    }
    assert(sorted_by(l, g));
    vstd::seq_lib::lemma_sorted_unique(l, m, g);
}

proof fn lemma_resolved_same(a: Seq<Proc>, b: Seq<Proc>, pids: Seq<u32>)
    requires
        same_table(a, b),
        a.len() <= usize::MAX,
    ensures
        resolved(a, pids) == resolved(b, pids),
        within(resolved(a, pids), a.len()),
    decreases pids.len(),
{
    if pids.len() > 0 {
        lemma_resolved_same(a, b, pids.drop_last());
        lemma_same_table(a, b, pids.last());
        lemma_place_of(a, pids.last());
    }
}

proof fn lemma_roots_same(a: Seq<Proc>, b: Seq<Proc>, n: int)
    requires
        same_table(a, b),
        n <= a.len() <= usize::MAX,
    ensures
        root_places(a, n) == root_places(b, n),
        within(root_places(a, n), a.len()),
    decreases n,
{
    if n > 0 {
        lemma_roots_same(a, b, n - 1);
        assert(same_but_children(a[n - 1], b[n - 1]));
        lemma_same_table(a, b, a[n - 1].ppid);
    }
}

proof fn lemma_walk_same(
    a: Seq<Proc>,
    b: Seq<Proc>,
    todo: Seq<(usize, nat)>,
    seen: Seq<bool>,
)
    requires
        same_shown(a, b, true),
        a.len() <= usize::MAX,
        seen.len() == a.len(),
    ensures
        walk(a, todo, seen) == walk(b, todo, seen),
    decreases unseen(seen), todo.len(),
{
    if todo.len() > 0 {
        let (i, d) = todo[0];
        let rest = todo.drop_first();
        if i >= seen.len() || seen[i as int] {
            lemma_walk_same(a, b, rest, seen);
        } else {
            lemma_unseen(seen, i as int);
            assert(a[i as int].children@ == b[i as int].children@);
            let pids = a[i as int].children@;
            lemma_resolved_same(a, b, pids);
            lemma_arranged_same(a, b, resolved(a, pids), SortCol::Pid, true);
            let more = at_depth(kids(a, i as int), d + 1) + rest;
            lemma_walk_same(a, b, more, seen.update(i as int, true));
        }
    }
}

/// The list depends on the processes alone: where their tree is built anew, the
/// same search leaves the same list.
pub proof fn law_same_processes_list_the_same(
    a: Seq<Proc>,
    b: Seq<Proc>,
    search: Seq<char>,
    in_tree: bool,
    col: SortCol,
    asc: bool,
)
    requires
        same_shown(a, b, in_tree),
        a.len() <= usize::MAX,
    ensures
        hits(a, search) == hits(b, search),
        listing(a, hits(a, search), in_tree, col, asc) == listing(
            b,
            hits(b, search),
            in_tree,
            col,
            asc,
        ),
{
    assert forall|i: int| 0 <= i < a.len() implies found(#[trigger] a[i], search) == found(
        b[i],
        search,
    ) by {
        assert(same_but_children(a[i], b[i]));
    }
    assert(hits(a, search) =~= hits(b, search));
    let keep = hits(a, search);
    if in_tree {
        let n = a.len() as int;
        let roots = root_places(a, n);
        lemma_roots_same(a, b, n);
        lemma_arranged_same(a, b, roots, SortCol::Pid, true);
        lemma_walk_same(
            a,
            b,
            at_depth(arranged(a, roots, SortCol::Pid, true), 0),
            none_seen(a.len()),
        );
        assert(candidates(a, true) =~= candidates(b, true));
    } else {
        assert(candidates(a, false) =~= candidates(b, false));
        lemma_candidates(a, false);
        lemma_chosen(candidates(a, false), keep, a.len());
        lemma_arranged_same(a, b, chosen(candidates(a, false), keep), col, asc);
    }
}


/// A process is listed wherever the text that is searched for is a part of its
/// name, both in lower case.
pub proof fn law_search_finds_names(
    procs: Seq<Proc>,
    search: Seq<char>,
    in_tree: bool,
    col: SortCol,
    asc: bool,
    x: usize,
    at: int,
)
    requires
        procs.len() <= usize::MAX,
        x < procs.len(),
        0 <= at,
        at + lowercase(search).len() <= lowercase(procs[x as int].name@).len(),
        forall|k: int|
            0 <= k < lowercase(search).len() ==> lowercase(procs[x as int].name@)[at + k] == #[trigger] lowercase(
                search,
            )[k],
    ensures
        listing(procs, hits(procs, search), in_tree, col, asc).contains(x),
{
    let q = lowercase(search);
    let hay = lowercase(procs[x as int].name@);
    assert(hay.subrange(at, at + q.len()) =~= q);
    assert(has_part(hay, q));
    assert(found(procs[x as int], search));
    lemma_listing(procs, hits(procs, search), in_tree, col, asc);
}

/// A process is listed wherever the text that is searched for is a part of its
/// user, both in lower case.
pub proof fn law_search_finds_users(
    procs: Seq<Proc>,
    search: Seq<char>,
    in_tree: bool,
    col: SortCol,
    asc: bool,
    x: usize,
    at: int,
)
    requires
        procs.len() <= usize::MAX,
        x < procs.len(),
        0 <= at,
        at + lowercase(search).len() <= lowercase(procs[x as int].user@).len(),
        forall|k: int|
            0 <= k < lowercase(search).len() ==> lowercase(procs[x as int].user@)[at + k] == #[trigger] lowercase(
                search,
            )[k],
    ensures
        listing(procs, hits(procs, search), in_tree, col, asc).contains(x),
{
    let q = lowercase(search);
    let hay = lowercase(procs[x as int].user@);
    assert(hay.subrange(at, at + q.len()) =~= q);
    assert(has_part(hay, q));
    assert(found(procs[x as int], search));
    lemma_listing(procs, hits(procs, search), in_tree, col, asc);
}

/// A process is listed wherever the text that is searched for is a part of its
/// command, both in lower case.
pub proof fn law_search_finds_commands(
    procs: Seq<Proc>,
    search: Seq<char>,
    in_tree: bool,
    col: SortCol,
    asc: bool,
    x: usize,
    at: int,
)
    requires
        procs.len() <= usize::MAX,
        x < procs.len(),
        0 <= at,
        at + lowercase(search).len() <= lowercase(procs[x as int].cmd@).len(),
        forall|k: int|
            0 <= k < lowercase(search).len() ==> lowercase(procs[x as int].cmd@)[at + k] == #[trigger] lowercase(
                search,
            )[k],
    ensures
        listing(procs, hits(procs, search), in_tree, col, asc).contains(x),
{
    let q = lowercase(search);
    let hay = lowercase(procs[x as int].cmd@);
    assert(hay.subrange(at, at + q.len()) =~= q);
    assert(has_part(hay, q));
    assert(found(procs[x as int], search));
    lemma_listing(procs, hits(procs, search), in_tree, col, asc);
}

/// A process is listed wherever the text that is searched for is a part of its
/// number in decimal digits.
pub proof fn law_search_finds_numbers(
    procs: Seq<Proc>,
    search: Seq<char>,
    in_tree: bool,
    col: SortCol,
    asc: bool,
    x: usize,
    at: int,
)
    requires
        procs.len() <= usize::MAX,
        x < procs.len(),
        0 <= at,
        at + lowercase(search).len() <= number::decimal_of(procs[x as int].pid as nat).len(),
        forall|k: int|
            0 <= k < lowercase(search).len() ==> number::decimal_of(procs[x as int].pid as nat)[at + k] == #[trigger] lowercase(
                search,
            )[k],
    ensures
        listing(procs, hits(procs, search), in_tree, col, asc).contains(x),
{
    let q = lowercase(search);
    let hay = number::decimal_of(procs[x as int].pid as nat);
    assert(hay.subrange(at, at + q.len()) =~= q);
    assert(has_part(hay, q));
    assert(found(procs[x as int], search));
    lemma_listing(procs, hits(procs, search), in_tree, col, asc);
}

/// A text stands in another from a place on.
pub open spec fn stands_at(needle: Seq<char>, hay: Seq<char>, at: int) -> bool {
    &&& 0 <= at
    &&& at + needle.len() <= hay.len()
    &&& forall|k: int| 0 <= k < needle.len() ==> hay[at + k] == #[trigger] needle[k]
}

proof fn lemma_part_stands(hay: Seq<char>, needle: Seq<char>)
    ensures
        has_part(hay, needle) <==> exists|at: int| stands_at(needle, hay, at),
{
    if has_part(hay, needle) {
        let i = choose|i: int|
            0 <= i && i + needle.len() <= hay.len() && #[trigger] hay.subrange(i, i + needle.len())
                == needle;
        assert forall|k: int| 0 <= k < needle.len() implies hay[i + k] == #[trigger] needle[k] by {
            assert(hay.subrange(i, i + needle.len())[k] == hay[i + k]);
        }
        assert(stands_at(needle, hay, i));
    }
    if exists|at: int| stands_at(needle, hay, at) {
        let at = choose|at: int| stands_at(needle, hay, at);
        assert(hay.subrange(at, at + needle.len()) =~= needle);
    }
}

/// A search lists nothing but what it finds: of every listed process the name,
/// the user, the command or the number has the text as a part.
pub proof fn law_search_finds_nothing_else(
    procs: Seq<Proc>,
    search: Seq<char>,
    in_tree: bool,
    col: SortCol,
    asc: bool,
    x: usize,
)
    requires
        procs.len() <= usize::MAX,
        listing(procs, hits(procs, search), in_tree, col, asc).contains(x),
    ensures
        x < procs.len(),
        ({
            let p = procs[x as int];
            let q = lowercase(search);
            ||| exists|at: int| stands_at(q, lowercase(p.name@), at)
            ||| exists|at: int| stands_at(q, lowercase(p.user@), at)
            ||| exists|at: int| stands_at(q, lowercase(p.cmd@), at)
            ||| exists|at: int| stands_at(q, number::decimal_of(p.pid as nat), at)
        }),
{
    lemma_listing(procs, hits(procs, search), in_tree, col, asc);
    let p = procs[x as int];
    let q = lowercase(search);
    assert(found(p, search));
    lemma_part_stands(lowercase(p.name@), q);
    lemma_part_stands(lowercase(p.user@), q);
    lemma_part_stands(lowercase(p.cmd@), q);
    lemma_part_stands(number::decimal_of(p.pid as nat), q);
}

/// The list sorted by memory: an entry has no more of it than those below, or no
/// less where the order is turned round; equal ones stand in the order of the
/// table.
pub proof fn law_sorted_by_memory(procs: Seq<Proc>, keep: Seq<bool>, asc: bool, j: int, k: int)
    requires
        procs.len() <= usize::MAX,
        keep.len() == procs.len(),
        0 <= j < k < listing(procs, keep, false, SortCol::Mem, asc).len(),
    ensures
        ({
            let l = listing(procs, keep, false, SortCol::Mem, asc);
            let (a, b) = (procs[l[j] as int].mem_kb, procs[l[k] as int].mem_kb);
            &&& asc ==> a <= b
            &&& !asc ==> a >= b
            &&& a == b ==> l[j] < l[k]
        }),
{
    law_list_is_sorted(procs, keep, SortCol::Mem, asc, j, k);
}

/// The list sorted by process number: that of an entry is no greater than those below
/// it, or no less where the order is turned round; equal ones stand in the order
/// of the table.
pub proof fn law_sorted_by_pid(procs: Seq<Proc>, keep: Seq<bool>, asc: bool, j: int, k: int)
    requires
        procs.len() <= usize::MAX,
        keep.len() == procs.len(),
        0 <= j < k < listing(procs, keep, false, SortCol::Pid, asc).len(),
    ensures
        ({
            let l = listing(procs, keep, false, SortCol::Pid, asc);
            let (a, b) = (procs[l[j] as int].pid, procs[l[k] as int].pid);
            &&& asc ==> a <= b
            &&& !asc ==> a >= b
            &&& a == b ==> l[j] < l[k]
        }),
{
    law_list_is_sorted(procs, keep, SortCol::Pid, asc, j, k);
}

/// The list sorted by state: that of an entry is no greater than those below
/// it, or no less where the order is turned round; equal ones stand in the order
/// of the table.
pub proof fn law_sorted_by_state(procs: Seq<Proc>, keep: Seq<bool>, asc: bool, j: int, k: int)
    requires
        procs.len() <= usize::MAX,
        keep.len() == procs.len(),
        0 <= j < k < listing(procs, keep, false, SortCol::State, asc).len(),
    ensures
        ({
            let l = listing(procs, keep, false, SortCol::State, asc);
            let (a, b) = (procs[l[j] as int].state, procs[l[k] as int].state);
            &&& asc ==> a <= b
            &&& !asc ==> a >= b
            &&& a == b ==> l[j] < l[k]
        }),
{
    law_list_is_sorted(procs, keep, SortCol::State, asc, j, k);
}

/// The list sorted by number of threads: that of an entry is no greater than those below
/// it, or no less where the order is turned round; equal ones stand in the order
/// of the table.
pub proof fn law_sorted_by_threads(procs: Seq<Proc>, keep: Seq<bool>, asc: bool, j: int, k: int)
    requires
        procs.len() <= usize::MAX,
        keep.len() == procs.len(),
        0 <= j < k < listing(procs, keep, false, SortCol::Threads, asc).len(),
    ensures
        ({
            let l = listing(procs, keep, false, SortCol::Threads, asc);
            let (a, b) = (procs[l[j] as int].threads, procs[l[k] as int].threads);
            &&& asc ==> a <= b
            &&& !asc ==> a >= b
            &&& a == b ==> l[j] < l[k]
        }),
{
    law_list_is_sorted(procs, keep, SortCol::Threads, asc, j, k);
}

/// The list sorted by virtual memory: an entry has no more of it than those below, or no
/// less where the order is turned round; equal ones stand in the order of the
/// table.
pub proof fn law_sorted_by_virtual_memory(procs: Seq<Proc>, keep: Seq<bool>, asc: bool, j: int, k: int)
    requires
        procs.len() <= usize::MAX,
        keep.len() == procs.len(),
        0 <= j < k < listing(procs, keep, false, SortCol::Virt, asc).len(),
    ensures
        ({
            let l = listing(procs, keep, false, SortCol::Virt, asc);
            let (a, b) = (procs[l[j] as int].virt_kb, procs[l[k] as int].virt_kb);
            &&& asc ==> a <= b
            &&& !asc ==> a >= b
            &&& a == b ==> l[j] < l[k]
        }),
{
    law_list_is_sorted(procs, keep, SortCol::Virt, asc, j, k);
}

/// The list sorted by load: loads that are not negative, which are in the order
/// of their bits, ascend, or descend where the order is turned round; the same
/// loads stand in the order of the table.
pub proof fn law_sorted_by_load(procs: Seq<Proc>, keep: Seq<bool>, asc: bool, j: int, k: int)
    requires
        procs.len() <= usize::MAX,
        keep.len() == procs.len(),
        0 <= j < k < listing(procs, keep, false, SortCol::Cpu, asc).len(),
        forall|i: int|
            0 <= i < procs.len() ==> (#[trigger] procs[i]).cpu.bits < 0x8000_0000_0000_0000,
    ensures
        ({
            let l = listing(procs, keep, false, SortCol::Cpu, asc);
            let (a, b) = (procs[l[j] as int].cpu.bits, procs[l[k] as int].cpu.bits);
            &&& asc ==> a <= b
            &&& !asc ==> a >= b
            &&& a == b ==> l[j] < l[k]
        }),
{
    lemma_listing(procs, keep, false, SortCol::Cpu, asc);
    law_list_is_sorted(procs, keep, SortCol::Cpu, asc, j, k);
    let l = listing(procs, keep, false, SortCol::Cpu, asc);
    assert(l[j] < procs.len() && l[k] < procs.len());
}

/// Where the first of two texts does not come after the second, they are the
/// same up to some place, at which the first one ends or has the lesser
/// character.
proof fn lemma_first_difference(a: Seq<char>, b: Seq<char>) -> (i: int)
    requires
        !text_less(b, a),
    ensures
        0 <= i <= a.len(),
        i <= b.len(),
        a.take(i) == b.take(i),
        i < a.len() ==> i < b.len() && a[i] < b[i],
    decreases a.len(),
{
    if a.len() == 0 || b.len() == 0 || a[0] != b[0] {
        assert(a.take(0) =~= b.take(0));
        0
    } else {
        let (x, y) = (a.drop_first(), b.drop_first());
        let i = lemma_first_difference(x, y);
        assert forall|k: int| 0 <= k < i + 1 implies #[trigger] a[k] == b[k] by {
            if k > 0 {
                assert(x.take(i)[k - 1] == y.take(i)[k - 1]);
            }
        }
        assert(a.take(i + 1) =~= b.take(i + 1));
        i + 1
    }
}

/// The list sorted by name: of two entries, the name above and the name below are
/// the same up to some place, at which the one above ends or has the lesser
/// character; the other way where the order is turned round. The same names stand
/// in the order of the table.
pub proof fn law_sorted_by_name(procs: Seq<Proc>, keep: Seq<bool>, asc: bool, j: int, k: int)
    requires
        procs.len() <= usize::MAX,
        keep.len() == procs.len(),
        0 <= j < k < listing(procs, keep, false, SortCol::Name, asc).len(),
    ensures
        ({
            let l = listing(procs, keep, false, SortCol::Name, asc);
            let (above, below) = (procs[l[j] as int].name@, procs[l[k] as int].name@);
            &&& asc ==> exists|i: int|
                0 <= i <= above.len() && i <= below.len() && #[trigger] above.take(i)
                    == below.take(i) && (i < above.len() ==> i < below.len() && above[i]
                    < below[i])
            &&& !asc ==> exists|i: int|
                0 <= i <= below.len() && i <= above.len() && #[trigger] below.take(i)
                    == above.take(i) && (i < below.len() ==> i < above.len() && below[i]
                    < above[i])
            &&& above == below ==> l[j] < l[k]
        }),
{
    law_list_is_sorted(procs, keep, SortCol::Name, asc, j, k);
    let l = listing(procs, keep, false, SortCol::Name, asc);
    let (above, below) = (procs[l[j] as int].name@, procs[l[k] as int].name@);
    lemma_text_total(above, below);
    if asc {
        let i = lemma_first_difference(above, below);
    } else {
        let i = lemma_first_difference(below, above);
    }
}

/// The list sorted by user: of two entries, the user above and the user below are
/// the same up to some place, at which the one above ends or has the lesser
/// character; the other way where the order is turned round. The same users stand
/// in the order of the table.
pub proof fn law_sorted_by_user(procs: Seq<Proc>, keep: Seq<bool>, asc: bool, j: int, k: int)
    requires
        procs.len() <= usize::MAX,
        keep.len() == procs.len(),
        0 <= j < k < listing(procs, keep, false, SortCol::User, asc).len(),
    ensures
        ({
            let l = listing(procs, keep, false, SortCol::User, asc);
            let (above, below) = (procs[l[j] as int].user@, procs[l[k] as int].user@);
            &&& asc ==> exists|i: int|
                0 <= i <= above.len() && i <= below.len() && #[trigger] above.take(i)
                    == below.take(i) && (i < above.len() ==> i < below.len() && above[i]
                    < below[i])
            &&& !asc ==> exists|i: int|
                0 <= i <= below.len() && i <= above.len() && #[trigger] below.take(i)
                    == above.take(i) && (i < below.len() ==> i < above.len() && below[i]
                    < above[i])
            &&& above == below ==> l[j] < l[k]
        }),
{
    law_list_is_sorted(procs, keep, SortCol::User, asc, j, k);
    let l = listing(procs, keep, false, SortCol::User, asc);
    let (above, below) = (procs[l[j] as int].user@, procs[l[k] as int].user@);
    lemma_text_total(above, below);
    if asc {
        let i = lemma_first_difference(above, below);
    } else {
        let i = lemma_first_difference(below, above);
    }
}


/// The tree view without a search lists the processes in the order of the tree.
pub proof fn law_tree_view_is_the_tree(procs: Seq<Proc>, col: SortCol, asc: bool, k: int)
    requires
        procs.len() <= usize::MAX,
        0 <= k < flat_of(procs).len(),
    ensures
        ({
            let l = listing(procs, all_kept(procs.len()), true, col, asc);
            &&& l.len() == flat_of(procs).len()
            &&& l[k] == flat_of(procs)[k].0
        }),
{
    let all = all_kept(procs.len());
    let c = candidates(procs, true);
    lemma_candidates(procs, true);
    lemma_chosen_twice(c, all, all);
}

/// What is kept of some places comes from them in their order.
proof fn lemma_chosen_from(idx: Seq<usize>, keep: Seq<bool>, i: int, j: int) -> (r: (int, int))
    requires
        0 <= i < j < chosen(idx, keep).len(),
    ensures
        0 <= r.0 < r.1 < idx.len(),
        idx[r.0] == chosen(idx, keep)[i],
        idx[r.1] == chosen(idx, keep)[j],
    decreases idx.len(),
{
    let d = idx.drop_last();
    let c = chosen(d, keep);
    if j < c.len() {
        let r = lemma_chosen_from(d, keep, i, j);
        assert(idx[r.0] == d[r.0] && idx[r.1] == d[r.1]);
        r
    } else {
        let a = lemma_one_from(d, keep, i);
        assert(idx[a] == d[a]);
        (a, idx.len() - 1)
    }
}

proof fn lemma_one_from(idx: Seq<usize>, keep: Seq<bool>, i: int) -> (a: int)
    requires
        0 <= i < chosen(idx, keep).len(),
    ensures
        0 <= a < idx.len(),
        idx[a] == chosen(idx, keep)[i],
    decreases idx.len(),
{
    let d = idx.drop_last();
    if i < chosen(d, keep).len() {
        let a = lemma_one_from(d, keep, i);
        assert(idx[a] == d[a]);
        a
    } else {
        idx.len() - 1
    }
}

/// Of two processes that a search leaves, the one that stands above the other
/// does so in the list without a search as well.
pub proof fn law_search_leaves_the_order(
    procs: Seq<Proc>,
    search: Seq<char>,
    in_tree: bool,
    col: SortCol,
    asc: bool,
    i: int,
    j: int,
) -> (r: (int, int))
    requires
        procs.len() <= usize::MAX,
        0 <= i < j < listing(procs, hits(procs, search), in_tree, col, asc).len(),
    ensures
        ({
            let full = listing(procs, all_kept(procs.len()), in_tree, col, asc);
            let part = listing(procs, hits(procs, search), in_tree, col, asc);
            &&& 0 <= r.0 < r.1 < full.len()
            &&& full[r.0] == part[i]
            &&& full[r.1] == part[j]
        }),
{
    law_search_keeps_the_order(procs, search, in_tree, col, asc);
    lemma_chosen_from(
        listing(procs, all_kept(procs.len()), in_tree, col, asc),
        hits(procs, search),
        i,
        j,
    )
}

/// An empty search, which is empty in lower case too, finds every process.
pub proof fn law_empty_search_finds_all(procs: Seq<Proc>, search: Seq<char>, i: int)
    requires
        lowercase(search).len() == 0,
        0 <= i < procs.len(),
    ensures
        hits(procs, search)[i],
{
    lemma_empty_part(lowercase(procs[i].name@), lowercase(search));
}


/// The list sorted by load: no load is less than one that stands above it, or
/// more where the order is turned round, negative ones included.
pub proof fn law_sorted_by_any_load(procs: Seq<Proc>, keep: Seq<bool>, asc: bool, j: int, k: int)
    requires
        procs.len() <= usize::MAX,
        keep.len() == procs.len(),
        0 <= j < k < listing(procs, keep, false, SortCol::Cpu, asc).len(),
    ensures
        ({
            let l = listing(procs, keep, false, SortCol::Cpu, asc);
            let (a, b) = (procs[l[j] as int].cpu.bits, procs[l[k] as int].cpu.bits);
            &&& asc ==> !less(b, a)
            &&& !asc ==> !less(a, b)
        }),
{
    law_list_is_sorted(procs, keep, SortCol::Cpu, asc, j, k);
}

} // verus!
