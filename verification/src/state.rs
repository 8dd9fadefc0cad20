//! What is known of the system when a frame is drawn.
use vstd::prelude::*;

use crate::layout;
use crate::list;
use crate::list::{all_kept, hits, listing};
use crate::number::rest;
use crate::process::Proc;
use crate::process::{sortable, within};
use crate::reading::Reading;
use crate::sensors;
use crate::sensors::sum_of;
use crate::stats::MemInfo;
use crate::tree;
use crate::tree::{children_at, same_table};
use crate::ui::{clamped, scrolled};
use crate::ui::{Ui, UiModel};

verus! {

/// A graphics processor. Load and temperature are shown without decimals, and
/// memory is counted in mebibytes.
pub struct GpuInfo {
    pub name: String,
    pub pct: Reading,
    pub mem_used: u64,
    pub mem_total: u64,
    pub temp: Option<Reading>,
}

/// What is known of the system.
pub struct State {
    /// The load of each processor in percent, with one decimal.
    pub cores: Vec<Reading>,
    /// The mean load and its highest value of late, with one decimal.
    pub avg: Reading,
    pub peak: String,
    /// What flows through the network and to the disks.
    pub net_rx: String,
    pub net_tx: String,
    pub disk_r: String,
    pub disk_w: String,
    pub mem: MemInfo,
    /// How much of the memory and of the swap space is in use, in percent with
    /// one decimal.
    pub mem_pct: Reading,
    pub swap_pct: Reading,
    /// The temperature without decimals.
    pub temp: Option<String>,
    pub freqs: Vec<u64>,
    pub hostname: String,
    /// The mean load of the last 1, 5 and 15 minutes, with two decimals.
    pub load1: String,
    pub load5: String,
    pub load15: String,
    pub uptime: u64,
    pub all_procs: Vec<Proc>,
    pub gpu: Option<GpuInfo>,
    pub proc_count: usize,
}

/// The longest notation of a number that is shown.
pub const TEXT_LEN: usize = 400;

/// A text is no longer than the notation of a number can be.
pub open spec fn short(s: Seq<char>) -> bool {
    s.len() <= TEXT_LEN
}

/// The notation of a share in percent: at most `100.0` is shown.
pub open spec fn is_share(s: Seq<char>) -> bool {
    s.len() <= 5
}

impl GpuInfo {
    /// Its memory can be counted in kibibytes, and its readings are notations
    /// of numbers.
    pub open spec fn wf(self) -> bool {
        &&& short(self.pct.text@)
        &&& self.temp matches Some(t) ==> short(t.text@)
        &&& self.mem_used * 1024 <= u64::MAX
        &&& self.mem_total * 1024 <= u64::MAX
    }
}

impl State {
    /// Every reading is the notation of a number, and the clock rates can be
    /// added up.
    pub open spec fn wf(self) -> bool {
        &&& forall|i: int| 0 <= i < self.cores@.len() ==> short((#[trigger] self.cores@[i]).text@)
        &&& short(self.avg.text@)
        &&& short(self.peak@)
        &&& short(self.net_rx@)
        &&& short(self.net_tx@)
        &&& short(self.disk_r@)
        &&& short(self.disk_w@)
        &&& is_share(self.mem_pct.text@)
        &&& is_share(self.swap_pct.text@)
        &&& forall|i: int|
            0 <= i < self.all_procs@.len() ==> short((#[trigger] self.all_procs@[i]).cpu.text@)
        &&& sum_of(self.freqs@) <= u64::MAX
        &&& self.gpu matches Some(g) ==> g.wf()
    }

    /// Tells whether the readings can be shown.
    pub fn valid(&self) -> (r: bool)
        ensures
            r == self.wf(),
    {
        for i in 0..self.cores.len()
            invariant
                forall|j: int| 0 <= j < i ==> short((#[trigger] self.cores@[j]).text@),
        {
            if self.cores[i].text.as_str().unicode_len() > TEXT_LEN {
                assert(!short(self.cores@[i as int].text@));
                return false;
            }
        }
        for i in 0..self.all_procs.len()
            invariant
                forall|j: int| 0 <= j < i ==> short((#[trigger] self.all_procs@[j]).cpu.text@),
        {
            if self.all_procs[i].cpu.text.as_str().unicode_len() > TEXT_LEN {
                assert(!short(self.all_procs@[i as int].cpu.text@));
                return false;
            }
        }
        let gpu = match &self.gpu {
            Some(g) => {
                let t = match &g.temp {
                    Some(t) => t.text.as_str().unicode_len() <= TEXT_LEN,
                    None => true,
                };
                t && g.pct.text.as_str().unicode_len() <= TEXT_LEN && g.mem_used <= u64::MAX / 1024
                    && g.mem_total <= u64::MAX / 1024
            },
            None => true,
        };
        gpu && self.avg.text.as_str().unicode_len() <= TEXT_LEN && self.peak.as_str().unicode_len()
            <= TEXT_LEN && self.net_rx.as_str().unicode_len() <= TEXT_LEN
            && self.net_tx.as_str().unicode_len() <= TEXT_LEN && self.disk_r.as_str().unicode_len()
            <= TEXT_LEN && self.disk_w.as_str().unicode_len() <= TEXT_LEN
            && self.mem_pct.text.as_str().unicode_len() <= 5
            && self.swap_pct.text.as_str().unicode_len() <= 5 && sensors::sum(
            &self.freqs,
        ).is_some()
    }

    /// The same but for the processes, of which only the children may differ.
    pub open spec fn same_but_tree(self, other: State) -> bool {
        &&& self == (State { all_procs: self.all_procs, ..other })
        &&& same_table(other.all_procs@, self.all_procs@)
    }

    /// Lists the processes that the search finds, as places of the table: in
    /// the order of the tree, whose levels are then set, or sorted.
    pub fn display_list(&mut self, ui: &Ui) -> (r: Vec<usize>)
        requires
            !ui.tree_view ==> sortable(old(self).all_procs@, ui.sort_col),
        ensures
            final(self).same_but_tree(*old(self)),
            ui.tree_view ==> forall|i: int|
                0 <= i < final(self).all_procs@.len() ==> (
                #[trigger] final(self).all_procs@[i]).children@ == children_at(
                    old(self).all_procs@,
                    i,
                ),
            !ui.tree_view ==> final(self).all_procs == old(self).all_procs,
            r@ == listing(
                final(self).all_procs@,
                hits(final(self).all_procs@, ui.search@),
                ui.tree_view,
                ui.sort_col,
                ui.sort_asc,
            ),
            ui.search@.len() == 0 ==> hits(final(self).all_procs@, ui.search@) == all_kept(
                final(self).all_procs@.len(),
            ),
            within(r@, final(self).all_procs@.len()),
    {
        if ui.tree_view {
            tree::build_tree(&mut self.all_procs);
        }
        let keep = list::matching(&self.all_procs, ui.search.as_str());
        list::list(&self.all_procs, &keep, ui.tree_view, ui.sort_col, ui.sort_asc)
    }

    /// Prepares a frame of `th` rows: lists the processes, and keeps the
    /// selection on the list and on the screen.
    pub fn prepare(&mut self, ui: &mut Ui, th: u16) -> (display: Vec<usize>)
        requires
            !old(ui).tree_view ==> sortable(old(self).all_procs@, old(ui).sort_col),
        ensures
            final(self).same_but_tree(*old(self)),
            old(ui).tree_view ==> forall|i: int|
                0 <= i < final(self).all_procs@.len() ==> (
                #[trigger] final(self).all_procs@[i]).children@ == children_at(
                    old(self).all_procs@,
                    i,
                ),
            !old(ui).tree_view ==> final(self).all_procs == old(self).all_procs,
            display@ == listing(
                final(self).all_procs@,
                hits(final(self).all_procs@, old(ui).search@),
                old(ui).tree_view,
                old(ui).sort_col,
                old(ui).sort_asc,
            ),
            old(ui).search@.len() == 0 ==> hits(final(self).all_procs@, old(ui).search@)
                == all_kept(final(self).all_procs@.len()),
            within(display@, final(self).all_procs@.len()),
            final(ui)@ == brought_into_view(
                old(ui)@,
                display@.len() as int,
                layout::visible_rows(th as int, old(ui).show_graphs),
            ),
    {
        let display = self.display_list(ui);
        let vis: usize = layout::compute_vis(th, ui.show_graphs);
        ui.clamp_selected(display.len());
        ui.ensure_visible(vis);
        display
    }
}

/// The selection is one of `len` entries, and the list is scrolled so that it
/// is among `rows` rows.
pub open spec fn brought_into_view(u: UiModel, len: int, rows: int) -> UiModel {
    let selected = clamped(u.selected, len);
    UiModel { selected, scroll: scrolled(selected, u.scroll, rows), ..u }
}

/// A prepared frame shows the selected process, unless there is none or no row
/// for it; and preparing it again changes nothing.
pub proof fn law_prepared_selection_is_shown(u: UiModel, len: int, rows: int)
    requires
        u.selected >= 0,
        u.scroll >= 0,
        len >= 0,
        rows >= 0,
    ensures
        ({
            let v = brought_into_view(u, len, rows);
            &&& len > 0 ==> 0 <= v.selected < len
            &&& rows > 0 ==> v.scroll <= v.selected < v.scroll + rows
            &&& v.scroll >= 0
            &&& brought_into_view(v, len, rows) == v
        }),
{
}

/// The memory in use.
pub open spec fn used_of(m: MemInfo) -> int {
    rest(m.total as int, m.available as int)
}

/// The swap space in use.
pub open spec fn swap_used_of(m: MemInfo) -> int {
    rest(m.swap_total as int, m.swap_free as int)
}

/// The memory in use, in kibibytes.
pub fn mem_used(m: &MemInfo) -> (n: u64)
    ensures
        n == used_of(*m),
{
    if m.total < m.available {
        0
    } else {
        m.total - m.available
    }
}

/// The swap space in use, in kibibytes.
pub fn swap_used(m: &MemInfo) -> (n: u64)
    ensures
        n == swap_used_of(*m),
{
    if m.swap_total < m.swap_free {
        0
    } else {
        m.swap_total - m.swap_free
    }
}

/// How long the processes are not read again, in nanoseconds.
pub const PROC_NANOS: u64 = 1_500_000_000;

/// The processes are to be read again, `elapsed` nanoseconds after the last time.
pub open spec fn is_due(elapsed: u64) -> bool {
    elapsed > PROC_NANOS
}

/// Tells whether the processes are to be read again, where they were read
/// `elapsed` nanoseconds ago.
pub fn procs_due(elapsed: u64) -> (r: bool)
    ensures
        r == (elapsed > PROC_NANOS),
        r == is_due(elapsed),
{
    elapsed > PROC_NANOS
}

/// How long events are taken before the system is read again, in nanoseconds.
pub const FRAME_NANOS: u64 = 1_000_000_000;

/// How long the monitor waits for an event at most, in nanoseconds.
pub const POLL_NANOS: u64 = 50_000_000;

/// How long to wait for an event before the next frame is due.
pub open spec fn wait_of(now: u64, deadline: u64) -> Option<u64> {
    if now >= deadline {
        None
    } else if deadline - now < POLL_NANOS {
        Some((deadline - now) as u64)
    } else {
        Some(POLL_NANOS)
    }
}

/// How long to wait for an event before the next frame is due, in nanoseconds;
/// nothing where it is due.
pub fn poll_wait(now: u64, deadline: u64) -> (r: Option<u64>)
    ensures
        r == if now >= deadline {
            None
        } else if deadline - now < POLL_NANOS {
            Some((deadline - now) as u64)
        } else {
            Some(POLL_NANOS)
        },
        r == wait_of(now, deadline),
{
    if now >= deadline {
        return None;
    }
    let left: u64 = deadline - now;
    if left < POLL_NANOS {
        Some(left)
    } else {
        Some(POLL_NANOS)
    }
}


/// To bring the selection into view changes nothing but the selection and the
/// scrolling, and neither where the selection is on the list and on the screen.
pub proof fn law_view_is_kept(u: UiModel, len: int, rows: int)
    requires
        u.selected >= 0,
        u.scroll >= 0,
        len >= 0,
        rows >= 0,
    ensures
        ({
            let v = brought_into_view(u, len, rows);
            &&& v == (UiModel { selected: v.selected, scroll: v.scroll, ..u })
            &&& u.selected < len ==> v.selected == u.selected
            &&& 0 < len <= u.selected ==> v.selected == len - 1
            &&& len == 0 ==> v.selected == 0
            &&& u.scroll <= v.selected < u.scroll + rows ==> v.scroll == u.scroll
            &&& v.selected < u.scroll ==> v.scroll == v.selected
            &&& rows > 0 && v.selected >= u.scroll + rows ==> v.scroll == v.selected - rows + 1
        }),
{
}

/// What is used is what is not free, and nothing where more is free than there
/// is.
pub proof fn law_what_is_used(m: MemInfo)
    ensures
        m.available <= m.total ==> used_of(m) + m.available == m.total,
        m.available >= m.total ==> used_of(m) == 0,
        m.swap_free <= m.swap_total ==> swap_used_of(m) + m.swap_free == m.swap_total,
        m.swap_free >= m.swap_total ==> swap_used_of(m) == 0,
{
}

/// The processes are read again after one and a half seconds, a frame is drawn
/// every second, and events are waited for a twentieth of a second at a time.
pub proof fn law_times()
    ensures
        2 * PROC_NANOS == 3_000_000_000,
        FRAME_NANOS == 1_000_000_000,
        20 * POLL_NANOS == FRAME_NANOS,
{
}


/// Readings can be shown where each text has at most 400 characters, the
/// percentages of the memory at most five, and the clock rates and the memory
/// of a graphics processor can be counted.
pub proof fn law_readings_that_can_be_shown(s: State)
    requires
        forall|i: int| 0 <= i < s.cores@.len() ==> (#[trigger] s.cores@[i]).text@.len() <= 400,
        forall|i: int|
            0 <= i < s.all_procs@.len() ==> (#[trigger] s.all_procs@[i]).cpu.text@.len() <= 400,
        s.avg.text@.len() <= 400,
        s.peak@.len() <= 400,
        s.net_rx@.len() <= 400,
        s.net_tx@.len() <= 400,
        s.disk_r@.len() <= 400,
        s.disk_w@.len() <= 400,
        s.mem_pct.text@.len() <= 5,
        s.swap_pct.text@.len() <= 5,
        sum_of(s.freqs@) <= u64::MAX,
        s.gpu matches Some(g) ==> {
            &&& g.pct.text@.len() <= 400
            &&& g.temp matches Some(t) ==> t.text@.len() <= 400
            &&& g.mem_used <= u64::MAX / 1024
            &&& g.mem_total <= u64::MAX / 1024
        },
    ensures
        s.wf(),
{
    assert forall|i: int| 0 <= i < s.cores@.len() implies short((#[trigger] s.cores@[i]).text@) by {}
    assert forall|i: int| 0 <= i < s.all_procs@.len() implies short(
        (#[trigger] s.all_procs@[i]).cpu.text@,
    ) by {}
}


/// The processes are read again only after more than one and a half seconds.
pub proof fn law_processes_are_read_again(elapsed: u64)
    ensures
        is_due(elapsed) <==> elapsed > 1_500_000_000,
{
}

/// The next event is waited for until the frame is due, but at most a twentieth
/// of a second, and not at all from then on.
pub proof fn law_waits_end_in_time(now: u64, deadline: u64)
    ensures
        now >= deadline ==> wait_of(now, deadline) is None,
        now < deadline ==> {
            &&& wait_of(now, deadline) matches Some(w)
            &&& 0 < w <= 50_000_000
            &&& now + w <= deadline
            &&& w == 50_000_000 || now + w == deadline
        },
{
}

} // verus!
