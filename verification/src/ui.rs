//! What the user sees and has chosen: modes, selection, scrolling, messages.
use vstd::prelude::*;

use crate::process::SortCol;

verus! {

/// What the keys are taken for.
#[derive(Clone, Copy, Debug, PartialEq, Eq, Structural)]
pub enum UiMode {
    Normal,
    Search,
    Kill,
    Signal,
    Help,
}

/// What the user sees and has chosen.
pub struct Ui {
    pub mode: UiMode,
    pub sort_col: SortCol,
    pub sort_asc: bool,
    pub tree_view: bool,
    pub search: String,
    pub selected: usize,
    pub scroll: usize,
    pub kill_sig: i32,
    pub status_msg: String,
    /// When the message was set, in nanoseconds on the caller's clock.
    pub status_ts: u64,
    pub show_graphs: bool,
    pub proc_table_y: u16,
    pub proc_table_h: u16,
}

/// The values of a `Ui`.
pub struct UiModel {
    pub mode: UiMode,
    pub sort_col: SortCol,
    pub sort_asc: bool,
    pub tree_view: bool,
    pub search: Seq<char>,
    pub selected: int,
    pub scroll: int,
    pub kill_sig: int,
    pub status_msg: Seq<char>,
    pub status_ts: int,
    pub show_graphs: bool,
    pub proc_table_y: int,
    pub proc_table_h: int,
}

impl View for Ui {
    type V = UiModel;

    open spec fn view(&self) -> UiModel {
        UiModel {
            mode: self.mode,
            sort_col: self.sort_col,
            sort_asc: self.sort_asc,
            tree_view: self.tree_view,
            search: self.search@,
            selected: self.selected as int,
            scroll: self.scroll as int,
            kill_sig: self.kill_sig as int,
            status_msg: self.status_msg@,
            status_ts: self.status_ts as int,
            show_graphs: self.show_graphs,
            proc_table_y: self.proc_table_y as int,
            proc_table_h: self.proc_table_h as int,
        }
    }
}

/// The message is shown for three seconds.
pub const STATUS_NANOS: u64 = 3_000_000_000;

/// The selection is one of `len` entries; where there are none it is the first
/// place.
pub open spec fn clamped(selected: int, len: int) -> int {
    if len == 0 {
        0
    } else if selected >= len {
        len - 1
    } else {
        selected
    }
}

/// Where the list is scrolled to, so that the selection is among `rows` rows.
pub open spec fn scrolled(selected: int, scroll: int, rows: int) -> int {
    if selected < scroll {
        selected
    } else if rows > 0 && selected >= scroll + rows {
        selected - rows + 1
    } else {
        scroll
    }
}

/// The message is set and not older than it is shown for.
pub open spec fn status_fresh(u: UiModel, now: int) -> bool {
    u.status_msg.len() > 0 && now - u.status_ts < STATUS_NANOS
}

impl Ui {
    /// A signal number has at most two digits.
    pub open spec fn wf(self) -> bool {
        0 <= self.kill_sig <= 99
    }

    /// What a session starts with, at the time `now`.
    pub fn new(now: u64) -> (u: Self)
        ensures
            u.wf(),
            u@ == (UiModel {
                mode: UiMode::Normal,
                sort_col: SortCol::Cpu,
                sort_asc: false,
                tree_view: false,
                search: seq![],
                selected: 0,
                scroll: 0,
                kill_sig: 15,
                status_msg: seq![],
                status_ts: now as int,
                show_graphs: true,
                proc_table_y: 0,
                proc_table_h: 0,
            }),
    {
        Ui {
            mode: UiMode::Normal,
            sort_col: SortCol::Cpu,
            sort_asc: false,
            tree_view: false,
            search: String::new(),
            selected: 0,
            scroll: 0,
            kill_sig: 15,
            status_msg: String::new(),
            status_ts: now,
            show_graphs: true,
            proc_table_y: 0,
            proc_table_h: 0,
        }
    }

    /// Sets the message, at the time `now`.
    pub fn set_status(&mut self, msg: String, now: u64)
        ensures
            final(self)@ == (UiModel { status_msg: msg@, status_ts: now as int, ..old(self)@ }),
    {
        self.status_msg = msg;
        self.status_ts = now;
    }

    /// Tells whether the message is shown at the time `now`.
    pub fn shows_status(&self, now: u64) -> (r: bool)
        ensures
            r == status_fresh(self@, now as int),
    {
        !self.status_msg.as_str().is_empty() && (now < self.status_ts || now - self.status_ts
            < STATUS_NANOS)
    }

    /// Keeps the selection within a list of `len` entries.
    pub fn clamp_selected(&mut self, len: usize)
        ensures
            final(self)@ == (UiModel {
                selected: clamped(old(self).selected as int, len as int),
                ..old(self)@
            }),
    {
        if len == 0 {
            self.selected = 0;
            return ;
        }
        if self.selected >= len {
            self.selected = len - 1;
        }
    }

    /// Scrolls the list so that the selection is among `rows` rows.
    pub fn ensure_visible(&mut self, rows: usize)
        ensures
            final(self)@ == (UiModel {
                scroll: scrolled(
                    old(self).selected as int,
                    old(self).scroll as int,
                    rows as int,
                ),
                ..old(self)@
            }),
    {
        if self.selected < self.scroll {
            self.scroll = self.selected;
        }
        if rows > 0 && self.selected - self.scroll >= rows {
            self.scroll = self.selected - rows + 1;
        }
    }
}

/// After scrolling, the selection is on the screen, and what was on the screen
/// before is not moved without need.
pub proof fn law_selection_is_visible(selected: int, scroll: int, rows: int)
    requires
        rows > 0,
        selected >= 0,
        scroll >= 0,
    ensures
        scrolled(selected, scroll, rows) <= selected < scrolled(selected, scroll, rows) + rows,
        scroll <= selected < scroll + rows ==> scrolled(selected, scroll, rows) == scroll,
        scrolled(selected, scroll, rows) >= 0,
{
}

/// The selection is an entry of the list, unless the list is empty.
pub proof fn law_selection_is_an_entry(selected: int, len: int)
    requires
        selected >= 0,
        len >= 0,
    ensures
        len > 0 ==> 0 <= clamped(selected, len) < len,
        len == 0 ==> clamped(selected, len) == 0,
        0 <= selected < len ==> clamped(selected, len) == selected,
{
}


/// The list is scrolled no further than needed: to the selection where that is
/// above, and so that the selection is in the last row where it is below.
pub proof fn law_scrolling_is_least(selected: int, scroll: int, rows: int)
    requires
        rows >= 0,
    ensures
        selected < scroll ==> scrolled(selected, scroll, rows) == selected,
        rows > 0 && selected >= scroll + rows ==> scrolled(selected, scroll, rows) + rows - 1
            == selected,
        scroll <= selected < scroll + rows ==> scrolled(selected, scroll, rows) == scroll,
        rows == 0 && scroll <= selected ==> scrolled(selected, scroll, rows) == scroll,
{
}

/// A selection beyond the list becomes the last entry.
pub proof fn law_selection_beyond_the_list(selected: int, len: int)
    requires
        len > 0,
        selected >= len,
    ensures
        clamped(selected, len) + 1 == len,
{
}

/// A message is shown for less than three seconds after it was set, and one
/// without text never.
pub proof fn law_messages_last_three_seconds(u: UiModel, now: int)
    ensures
        status_fresh(u, now) <==> u.status_msg.len() > 0 && now < u.status_ts + 3_000_000_000,
{
}

} // verus!
