//! The last values of a quantity, for the graphs.
use std::collections::VecDeque;
use vstd::prelude::*;

verus! {

/// How many values are kept.
pub const HIST: usize = 200;

/// A history before anything was measured: the same value throughout.
pub fn nhist<T: Copy>(zero: T) -> (h: VecDeque<T>)
    ensures
        h@ == Seq::new(HIST as nat, |i: int| zero),
{
    let mut h: VecDeque<T> = VecDeque::new();
    for i in 0..HIST
        invariant
            h@ == Seq::new(i as nat, |j: int| zero),
    {
        h.push_back(zero);
        assert(h@ =~= Seq::new((i + 1) as nat, |j: int| zero));
    }
    h
}

/// A history with one more value, and without its oldest where it would grow
/// too long.
pub open spec fn pushed<T>(h: Seq<T>, v: T) -> Seq<T> {
    if h.len() < HIST {
        h.push(v)
    } else {
        h.push(v).drop_first()
    }
}

/// Adds a value to a history.
pub fn push_h<T>(h: &mut VecDeque<T>, v: T)
    ensures
        final(h)@ == pushed(old(h)@, v),
{
    h.push_back(v);
    if h.len() > HIST {
        h.pop_front();
    }
}

/// The histories that the graphs show.
pub struct Histories<T> {
    pub avg: VecDeque<T>,
    pub rx: VecDeque<T>,
    pub tx: VecDeque<T>,
    pub read: VecDeque<T>,
    pub written: VecDeque<T>,
    pub gpu: VecDeque<T>,
}

/// What was measured is added to the histories.
pub open spec fn recorded<T>(
    before: Histories<T>,
    after: Histories<T>,
    avg: T,
    rx: T,
    tx: T,
    read: T,
    written: T,
    gpu: Option<T>,
) -> bool {
    &&& after.avg@ == pushed(before.avg@, avg)
    &&& after.rx@ == pushed(before.rx@, rx)
    &&& after.tx@ == pushed(before.tx@, tx)
    &&& after.read@ == pushed(before.read@, read)
    &&& after.written@ == pushed(before.written@, written)
    &&& after.gpu@ == match gpu {
        Some(v) => pushed(before.gpu@, v),
        None => before.gpu@,
    }
}

impl<T: Copy> Histories<T> {
    /// The histories before anything was measured.
    pub fn new(zero: T) -> (h: Self)
        ensures
            ({
                let none = Seq::new(HIST as nat, |i: int| zero);
                &&& h.avg@ == none
                &&& h.rx@ == none
                &&& h.tx@ == none
                &&& h.read@ == none
                &&& h.written@ == none
                &&& h.gpu@ == none
            }),
    {
        Histories {
            avg: nhist(zero),
            rx: nhist(zero),
            tx: nhist(zero),
            read: nhist(zero),
            written: nhist(zero),
            gpu: nhist(zero),
        }
    }

    /// Adds what was measured, and the load of a graphics processor where one
    /// was found.
    pub fn record(&mut self, avg: T, rx: T, tx: T, read: T, written: T, gpu: Option<T>)
        ensures
            final(self).avg@ == pushed(old(self).avg@, avg),
            final(self).rx@ == pushed(old(self).rx@, rx),
            final(self).tx@ == pushed(old(self).tx@, tx),
            final(self).read@ == pushed(old(self).read@, read),
            final(self).written@ == pushed(old(self).written@, written),
            gpu matches Some(v) ==> final(self).gpu@ == pushed(old(self).gpu@, v),
            gpu is None ==> final(self).gpu@ == old(self).gpu@,
            recorded(*old(self), *final(self), avg, rx, tx, read, written, gpu),
    {
        push_h(&mut self.avg, avg);
        push_h(&mut self.rx, rx);
        push_h(&mut self.tx, tx);
        push_h(&mut self.read, read);
        push_h(&mut self.written, written);
        if let Some(v) = gpu {
            push_h(&mut self.gpu, v);
        }
    }
}

/// The values `vs` one after the other.
pub open spec fn pushed_all<T>(h: Seq<T>, vs: Seq<T>) -> Seq<T>
    decreases vs.len(),
{
    if vs.len() == 0 {
        h
    } else {
        pushed(pushed_all(h, vs.drop_last()), vs.last())
    }
}

/// A full history stays as long as it is and ends in the newest value.
pub proof fn law_history_keeps_its_length<T>(h: Seq<T>, v: T)
    requires
        h.len() == HIST,
    ensures
        pushed(h, v).len() == HIST,
        pushed(h, v).last() == v,
        pushed(h, v).drop_last() == h.drop_first(),
{
    assert(pushed(h, v).drop_last() =~= h.drop_first());
}

/// A full history holds the newest values, in the order in which they came.
pub proof fn law_history_holds_the_newest<T>(h: Seq<T>, vs: Seq<T>)
    requires
        h.len() == HIST,
    ensures
        pushed_all(h, vs) == (h + vs).skip(vs.len() as int),
    decreases vs.len(),
{
    if vs.len() == 0 {
        assert((h + vs).skip(0) =~= h);
    } else {
        law_history_holds_the_newest(h, vs.drop_last());
        assert(pushed_all(h, vs) =~= (h + vs).skip(vs.len() as int));
    }
}

/// The value that a column of a graph shows, where `len` values are spread over
/// `w` columns.
pub open spec fn sampled(col: int, w: int, len: int) -> int {
    if len == 0 {
        0
    } else if col * len / w < len {
        col * len / w
    } else {
        len - 1
    }
}

/// Which of `len` values the column `col` of a graph of `w` columns shows.
pub fn sample(col: u16, w: u16, len: usize) -> (i: usize)
    requires
        w > 0,
    ensures
        i == sampled(col as int, w as int, len as int),
        col < w && len > 0 ==> i < len,
{
    assert(0 <= col * len <= 0xffff * usize::MAX) by (nonlinear_arith)
        requires
            0 <= col <= 0xffff,
            0 <= len <= usize::MAX,
    ;
    if len == 0 {
        return 0;
    }
    let n: u128 = (col as u128 * len as u128) / (w as u128);
    if n < len as u128 {
        n as usize
    } else {
        len - 1
    }
}

/// The place, among `len` values in ascending order, of the one that a graph
/// without a fixed scale takes for its top.
pub open spec fn top_place(len: int) -> int {
    len * 9 / 10
}

/// The place of the value that a graph without a fixed scale takes for its top.
pub fn ninth_tenth(len: usize) -> (i: usize)
    ensures
        i == top_place(len as int),
        len > 0 ==> i < len,
{
    ((len as u128 * 9) / 10) as usize
}

/// The columns of a graph show the values in order, from the first one on.
pub proof fn law_samples_are_in_order(a: int, b: int, w: int, len: int)
    requires
        0 <= a <= b < w,
        len > 0,
    ensures
        sampled(0, w, len) == 0,
        0 <= sampled(a, w, len) <= sampled(b, w, len) < len,
{
    assert(0 * len / w == 0) by (nonlinear_arith)
        requires
            w > 0,
    ;
    assert(a * len <= b * len) by (nonlinear_arith)
        requires
            a <= b,
            len > 0,
    ;
    assert(a * len >= 0) by (nonlinear_arith)
        requires
            a >= 0,
            len > 0,
    ;
    vstd::arithmetic::div_mod::lemma_div_is_ordered(a * len, b * len, w);
    vstd::arithmetic::div_mod::lemma_div_is_ordered(0, a * len, w);
}


/// A history that is not yet full keeps all of its values.
pub proof fn law_history_grows_to_200<T>(h: Seq<T>, v: T)
    ensures
        h.len() < 200 ==> pushed(h, v) == h.push(v),
        h.len() == 200 ==> pushed(h, v).len() == 200,
        pushed(h, v).last() == v,
{
}

/// The value in a column has the same share of the values before it as the
/// column has of the columns.
pub proof fn law_samples_are_spread(col: int, w: int, len: int)
    requires
        0 <= col < w,
        len > 0,
    ensures
        sampled(col, w, len) * w <= col * len < (sampled(col, w, len) + 1) * w,
        w == len ==> sampled(col, w, len) == col,
{
    let q = col * len / w;
    vstd::arithmetic::div_mod::lemma_fundamental_div_mod(col * len, w);
    assert(q * w <= col * len < (q + 1) * w) by (nonlinear_arith)
        requires
            col * len == w * q + (col * len) % w,
            0 <= (col * len) % w < w,
    ;
    assert(q < len) by (nonlinear_arith)
        requires
            q * w <= col * len,
            0 <= col < w,
            len > 0,
    ;
    if w == len {
        assert(q == col) by (nonlinear_arith)
            requires
                q * w <= col * w < (q + 1) * w,
                w > 0,
        ;
    }
}

/// Nine tenths of the values are at most the one that a graph takes for its top.
pub proof fn law_top_is_the_ninth_tenth(len: int)
    requires
        len >= 0,
    ensures
        10 * top_place(len) <= 9 * len < 10 * top_place(len) + 10,
{
}


/// Every quantity that was measured is the newest of its own history, and the
/// history of a graphics processor grows only where one was found.
pub proof fn law_each_history_is_its_own<T>(
    before: Histories<T>,
    after: Histories<T>,
    avg: T,
    rx: T,
    tx: T,
    read: T,
    written: T,
    gpu: Option<T>,
)
    requires
        recorded(before, after, avg, rx, tx, read, written, gpu),
    ensures
        after.avg@.last() == avg,
        after.rx@.last() == rx,
        after.tx@.last() == tx,
        after.read@.last() == read,
        after.written@.last() == written,
        gpu matches Some(v) ==> after.gpu@.last() == v,
        gpu is None ==> after.gpu@ == before.gpu@,
        before.avg@.len() == 200 ==> after.avg@.drop_last() == before.avg@.drop_first(),
        before.rx@.len() == 200 ==> after.rx@.drop_last() == before.rx@.drop_first(),
        before.tx@.len() == 200 ==> after.tx@.drop_last() == before.tx@.drop_first(),
        before.read@.len() == 200 ==> after.read@.drop_last() == before.read@.drop_first(),
        before.written@.len() == 200 ==> after.written@.drop_last()
            == before.written@.drop_first(),
        before.gpu@.len() == 200 && gpu is Some ==> after.gpu@.drop_last()
            == before.gpu@.drop_first(),
{
    if before.avg@.len() == 200 {
        law_history_keeps_its_length(before.avg@, avg);
    }
    if before.rx@.len() == 200 {
        law_history_keeps_its_length(before.rx@, rx);
    }
    if before.tx@.len() == 200 {
        law_history_keeps_its_length(before.tx@, tx);
    }
    if before.read@.len() == 200 {
        law_history_keeps_its_length(before.read@, read);
    }
    if before.written@.len() == 200 {
        law_history_keeps_its_length(before.written@, written);
    }
    if let Some(v) = gpu {
        if before.gpu@.len() == 200 {
            law_history_keeps_its_length(before.gpu@, v);
        }
    }
}

} // verus!
