//! Processes and their order in the list.
use vstd::prelude::*;
use vstd::relations::{sorted_by, total_ordering};

use crate::reading;
use crate::reading::Reading;
use crate::text;

verus! {

/// One process, as the list shows it.
pub struct Proc {
    pub pid: u32,
    pub ppid: u32,
    pub name: String,
    pub user: String,
    pub state: char,
    pub cpu: Reading,
    pub mem_kb: u64,
    pub threads: u32,
    pub cmd: String,
    pub nice: i32,
    pub virt_kb: u64,
    pub children: Vec<u32>,
}

/// The columns that the list can be sorted by.
#[derive(Clone, Copy, Debug, PartialEq, Eq, Structural)]
pub enum SortCol {
    Cpu,
    Mem,
    Pid,
    Name,
    User,
    State,
    Threads,
    Virt,
}

/// The name of a column in the title of the list.
pub open spec fn label_of(col: SortCol) -> Seq<char> {
    match col {
        SortCol::Cpu => "CPU"@,
        SortCol::Mem => "MEM"@,
        SortCol::Pid => "PID"@,
        SortCol::Name => "NAME"@,
        SortCol::User => "USER"@,
        SortCol::State => "ST"@,
        SortCol::Threads => "THR"@,
        SortCol::Virt => "VIRT"@,
    }
}

impl SortCol {
    /// The name of the column in the title of the list.
    pub fn label(self) -> (s: &'static str)
        ensures
            s@ == label_of(self),
    {
        match self {
            SortCol::Cpu => "CPU",
            SortCol::Mem => "MEM",
            SortCol::Pid => "PID",
            SortCol::Name => "NAME",
            SortCol::User => "USER",
            SortCol::State => "ST",
            SortCol::Threads => "THR",
            SortCol::Virt => "VIRT",
        }
    }
}

/// The order of texts by their characters, as in a dictionary.
pub open spec fn text_less(a: Seq<char>, b: Seq<char>) -> bool
    decreases a.len(),
{
    if b.len() == 0 {
        false
    } else if a.len() == 0 {
        true
    } else if a[0] != b[0] {
        a[0] < b[0]
    } else {
        text_less(a.drop_first(), b.drop_first())
    }
}

/// Of two texts one is less, or they are the same.
pub proof fn lemma_text_total(a: Seq<char>, b: Seq<char>)
    ensures
        text_less(a, b) || text_less(b, a) || a == b,
        !(text_less(a, b) && text_less(b, a)),
        a == b ==> !text_less(a, b),
    decreases a.len(),
{
    if a.len() > 0 && b.len() > 0 {
        if a[0] == b[0] {
            lemma_text_total(a.drop_first(), b.drop_first());
            if a.drop_first() == b.drop_first() {
                assert(a =~= seq![a[0]] + a.drop_first());
                assert(b =~= seq![b[0]] + b.drop_first());
            }
        }
    } else if a.len() == b.len() {
        assert(a =~= b);
    }
}

proof fn lemma_text_chain(a: Seq<char>, b: Seq<char>, c: Seq<char>)
    requires
        text_less(a, b),
        text_less(b, c),
    ensures
        text_less(a, c),
    decreases a.len(),
{
    if a.len() > 0 && b.len() > 0 && c.len() > 0 && a[0] == b[0] && b[0] == c[0] {
        lemma_text_chain(a.drop_first(), b.drop_first(), c.drop_first());
    }
}

fn text_before(a: &str, b: &str) -> (r: bool)
    ensures
        r == text_less(a@, b@),
{
    let v = text::chars(a);
    let w = text::chars(b);
    let mut i: usize = 0;
    assert(v@.skip(0) =~= v@);
    assert(w@.skip(0) =~= w@);
    while i < v.len() && i < w.len() && v[i] == w[i]
        invariant
            i <= v@.len(),
            i <= w@.len(),
            text_less(v@.skip(i as int), w@.skip(i as int)) == text_less(v@, w@),
        decreases v@.len() - i,
    {
        assert(v@.skip(i as int).drop_first() =~= v@.skip(i + 1));
        assert(w@.skip(i as int).drop_first() =~= w@.skip(i + 1));
        i = i + 1;
    }
    if i >= w.len() {
        false
    } else if i >= v.len() {
        true
    } else {
        v[i] < w[i]
    }
}

/// One process is less than another in a column.
pub open spec fn col_less(a: Proc, b: Proc, col: SortCol) -> bool {
    match col {
        SortCol::Cpu => reading::rank(a.cpu.bits) < reading::rank(b.cpu.bits),
        SortCol::Mem => a.mem_kb < b.mem_kb,
        SortCol::Pid => a.pid < b.pid,
        SortCol::Name => text_less(a.name@, b.name@),
        SortCol::User => text_less(a.user@, b.user@),
        SortCol::State => a.state < b.state,
        SortCol::Threads => a.threads < b.threads,
        SortCol::Virt => a.virt_kb < b.virt_kb,
    }
}

/// Where the list is sorted by `col`, the process at `a` stands before the one
/// at `b`.
pub open spec fn precedes(procs: Seq<Proc>, col: SortCol, asc: bool, a: usize, b: usize) -> bool {
    if asc {
        col_less(procs[a as int], procs[b as int], col)
    } else {
        col_less(procs[b as int], procs[a as int], col)
    }
}

/// The order of the list: by a column, and in the order of the table where
/// that column does not decide.
pub open spec fn order(procs: Seq<Proc>, col: SortCol, asc: bool) -> spec_fn(usize, usize) -> bool {
    |a: usize, b: usize|
        precedes(procs, col, asc, a, b) || (!precedes(procs, col, asc, b, a) && a <= b)
}

/// The given places of the table, sorted.
pub open spec fn arranged(procs: Seq<Proc>, idx: Seq<usize>, col: SortCol, asc: bool) -> Seq<
    usize,
> {
    idx.sort_by(order(procs, col, asc))
}

proof fn lemma_col_weak_order(a: Proc, b: Proc, c: Proc, col: SortCol)
    ensures
        !(col_less(a, b, col) && col_less(b, a, col)),
        col_less(a, b, col) && col_less(b, c, col) ==> col_less(a, c, col),
        !col_less(b, a, col) && !col_less(c, b, col) ==> !col_less(c, a, col),
{
    if col == SortCol::Name {
        lemma_text_order(a.name@, b.name@, c.name@);
    } else if col == SortCol::User {
        lemma_text_order(a.user@, b.user@, c.user@);
    }
}

proof fn lemma_text_order(a: Seq<char>, b: Seq<char>, c: Seq<char>)
    ensures
        !(text_less(a, b) && text_less(b, a)),
        text_less(a, b) && text_less(b, c) ==> text_less(a, c),
        !text_less(b, a) && !text_less(c, b) ==> !text_less(c, a),
{
    lemma_text_total(a, b);
    lemma_text_total(b, c);
    lemma_text_total(a, c);
    if text_less(a, b) && text_less(b, c) {
        lemma_text_chain(a, b, c);
    }
}

/// The order of the list is total: no two places of the table are the same in
/// it.
pub proof fn lemma_order_total(procs: Seq<Proc>, col: SortCol, asc: bool)
    ensures
        total_ordering(order(procs, col, asc)),
{
    let leq = order(procs, col, asc);
    assert forall|x: usize| #[trigger] leq(x, x) by {
        lemma_col_weak_order(procs[x as int], procs[x as int], procs[x as int], col);
    }
    assert forall|x: usize, y: usize| #[trigger] leq(x, y) && #[trigger] leq(y, x) implies x
        == y by {
        lemma_col_weak_order(procs[x as int], procs[y as int], procs[x as int], col);
    }
    assert forall|x: usize, y: usize, z: usize| #[trigger] leq(x, y) && #[trigger] leq(y, z) implies leq(
        x,
        z,
    ) by {
        let (a, b, c) = (procs[x as int], procs[y as int], procs[z as int]);
        lemma_col_weak_order(a, b, c, col);
        lemma_col_weak_order(b, c, a, col);
        lemma_col_weak_order(c, a, b, col);
        lemma_col_weak_order(a, c, b, col);
        lemma_col_weak_order(c, b, a, col);
        lemma_col_weak_order(b, a, c, col);
    }
    assert forall|x: usize, y: usize| #[trigger] leq(x, y) || #[trigger] leq(y, x) by {
        lemma_col_weak_order(procs[x as int], procs[y as int], procs[x as int], col);
    }
}

/// Tells whether one process is less than another in a column.
fn is_col_less(a: &Proc, b: &Proc, col: SortCol) -> (r: bool)
    requires
        col == SortCol::Cpu ==> !reading::is_nan(a.cpu.bits) && !reading::is_nan(b.cpu.bits),
    ensures
        r == col_less(*a, *b, col),
{
    match col {
        SortCol::Cpu => reading::less_than(a.cpu.bits, b.cpu.bits),
        SortCol::Mem => a.mem_kb < b.mem_kb,
        SortCol::Pid => a.pid < b.pid,
        SortCol::Name => text_before(a.name.as_str(), b.name.as_str()),
        SortCol::User => text_before(a.user.as_str(), b.user.as_str()),
        SortCol::State => a.state < b.state,
        SortCol::Threads => a.threads < b.threads,
        SortCol::Virt => a.virt_kb < b.virt_kb,
    }
}

/// The processes have an order in a column: every load is a number, where it
/// is the load that decides.
pub open spec fn sortable(procs: Seq<Proc>, col: SortCol) -> bool {
    col == SortCol::Cpu ==> forall|i: int|
        0 <= i < procs.len() ==> !reading::is_nan((#[trigger] procs[i]).cpu.bits)
}

/// Tells whether the processes have an order in a column.
pub fn can_sort(procs: &Vec<Proc>, col: SortCol) -> (r: bool)
    ensures
        r == sortable(procs@, col),
{
    if col != SortCol::Cpu {
        return true;
    }
    for i in 0..procs.len()
        invariant
            col == SortCol::Cpu,
            forall|j: int| 0 <= j < i ==> !reading::is_nan((#[trigger] procs@[j]).cpu.bits),
    {
        if reading::not_a_number(procs[i].cpu.bits) {
            assert(reading::is_nan(procs@[i as int].cpu.bits));
            return false;
        }
    }
    true
}

/// Every one of the given places is a place of the table.
pub open spec fn within(idx: Seq<usize>, n: nat) -> bool {
    forall|i: int| 0 <= i < idx.len() ==> (#[trigger] idx[i]) < n
}

fn in_order(procs: &Vec<Proc>, col: SortCol, asc: bool, a: usize, b: usize) -> (r: bool)
    requires
        sortable(procs@, col),
        a < procs@.len(),
        b < procs@.len(),
    ensures
        r == order(procs@, col, asc)(a, b),
{
    let p = &procs[a];
    let q = &procs[b];
    if asc {
        is_col_less(p, q, col) || (!is_col_less(q, p, col) && a <= b)
    } else {
        is_col_less(q, p, col) || (!is_col_less(p, q, col) && a <= b)
    }
}

/// Merges two sorted lists.
fn merge(procs: &Vec<Proc>, v: &Vec<usize>, w: &Vec<usize>, col: SortCol, asc: bool) -> (r: Vec<
    usize,
>)
    requires
        sortable(procs@, col),
        within(v@, procs@.len()),
        within(w@, procs@.len()),
        sorted_by(v@, order(procs@, col, asc)),
        sorted_by(w@, order(procs@, col, asc)),
    ensures
        sorted_by(r@, order(procs@, col, asc)),
        r@.to_multiset() == (v@ + w@).to_multiset(),
        within(r@, procs@.len()),
{
    let ghost leq = order(procs@, col, asc);
    proof {
        lemma_order_total(procs@, col, asc);
    }
    let mut r: Vec<usize> = Vec::new();
    let mut i: usize = 0;
    let mut j: usize = 0;
    assert(v@.take(0) + w@.take(0) =~= r@);
    while i < v.len() || j < w.len()
        invariant
            sortable(procs@, col),
            within(v@, procs@.len()),
            within(w@, procs@.len()),
            within(r@, procs@.len()),
            leq == order(procs@, col, asc),
            total_ordering(leq),
            sorted_by(v@, leq),
            sorted_by(w@, leq),
            sorted_by(r@, leq),
            i <= v@.len(),
            j <= w@.len(),
            r@.to_multiset() == (v@.take(i as int) + w@.take(j as int)).to_multiset(),
            forall|k: int, m: int|
                0 <= k < r@.len() && i <= m < v@.len() ==> #[trigger] leq(r@[k], v@[m]),
            forall|k: int, m: int|
                0 <= k < r@.len() && j <= m < w@.len() ==> #[trigger] leq(r@[k], w@[m]),
        decreases v@.len() - i + w@.len() - j,
    {
        broadcast use vstd::seq_lib::group_to_multiset_ensures;

        let left: bool = if i >= v.len() {
            false
        } else if j >= w.len() {
            true
        } else {
            in_order(procs, col, asc, v[i], w[j])
        };
        let ghost before = v@.take(i as int) + w@.take(j as int);
        if left {
            let x: usize = v[i];
            r.push(x);
            proof {
                assert(v@.take(i + 1) + w@.take(j as int) =~= before.insert(i as int, x));
                assert forall|m: int| j <= m < w@.len() implies #[trigger] leq(x, w@[m]) by {
                    assert(leq(x, w@[j as int]));
                    if m > j {
                        assert(leq(w@[j as int], w@[m]));
                    }
                }
                assert forall|m: int| i < m < v@.len() implies #[trigger] leq(x, v@[m]) by {
                    assert(leq(v@[i as int], v@[m]));
                }
            }
            i = i + 1;
        } else {
            let x: usize = w[j];
            r.push(x);
            proof {
                assert(v@.take(i as int) + w@.take(j + 1) =~= before.push(x));
                assert forall|m: int| i <= m < v@.len() implies #[trigger] leq(x, v@[m]) by {
                    assert(leq(x, v@[i as int]) || leq(v@[i as int], x));
                    assert(leq(x, v@[i as int]));
                    if m > i {
                        assert(leq(v@[i as int], v@[m]));
                    }
                }
                assert forall|m: int| j < m < w@.len() implies #[trigger] leq(x, w@[m]) by {
                    assert(leq(w@[j as int], w@[m]));
                }
            }
            j = j + 1;
        }
    }
    assert(v@.take(v@.len() as int) + w@.take(w@.len() as int) =~= v@ + w@);
    r
}

/// Sorts places of the table.
pub fn arrange(procs: &Vec<Proc>, idx: Vec<usize>, col: SortCol, asc: bool) -> (r: Vec<usize>)
    requires
        sortable(procs@, col),
        within(idx@, procs@.len()),
    ensures
        r@ == arranged(procs@, idx@, col, asc),
        sorted_by(r@, order(procs@, col, asc)),
        r@.to_multiset() == idx@.to_multiset(),
        within(r@, procs@.len()),
    decreases idx@.len(),
{
    let ghost leq = order(procs@, col, asc);
    proof {
        lemma_order_total(procs@, col, asc);
        idx@.lemma_sort_by_ensures(leq);
    }
    let n: usize = idx.len();
    if n <= 1 {
        assert(sorted_by(idx@, leq));
        proof {
            vstd::seq_lib::lemma_sorted_unique(idx@, arranged(procs@, idx@, col, asc), leq);
        }
        return idx;
    }
    let half: usize = n / 2;
    let mut left = idx;
    let right = left.split_off(half);
    let ghost l0 = left@;
    let ghost r0 = right@;
    assert(l0 + r0 =~= idx@);
    let l = arrange(procs, left, col, asc);
    let r = arrange(procs, right, col, asc);
    let m = merge(procs, &l, &r, col, asc);
    proof {
        vstd::seq_lib::lemma_multiset_commutative(l0, r0);
        vstd::seq_lib::lemma_multiset_commutative(l@, r@);
        assert(m@.to_multiset() == idx@.to_multiset());
        vstd::seq_lib::lemma_sorted_unique(m@, arranged(procs@, idx@, col, asc), leq);
    }
    m
}


/// Processes can be sorted by every column but the load, and by the load where
/// all loads are numbers, of which those below infinity are some.
pub proof fn law_what_can_be_sorted(procs: Seq<Proc>, col: SortCol, i: int)
    ensures
        col != SortCol::Cpu ==> sortable(procs, col),
        (forall|j: int|
            0 <= j < procs.len() ==> (#[trigger] procs[j]).cpu.bits <= 0x7ff0_0000_0000_0000)
            ==> sortable(procs, col),
        0 <= i < procs.len() && 0x7ff0_0000_0000_0000 < procs[i].cpu.bits < 0x8000_0000_0000_0000
            ==> !sortable(procs, SortCol::Cpu),
{
}

} // verus!
