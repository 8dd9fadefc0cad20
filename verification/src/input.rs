//! What keys and the mouse do.
use vstd::prelude::*;

use crate::number;
use crate::process::{Proc, SortCol};
use crate::text;
use crate::ui::{Ui, UiMode};
use crate::ui::UiModel;

verus! {

/// The keys that the monitor knows.
#[derive(Clone, Copy, Debug, PartialEq, Eq, Structural)]
pub enum KeyCode {
    Char(char),
    F(u8),
    Esc,
    Enter,
    Backspace,
    Up,
    Down,
    PageUp,
    PageDown,
    Home,
    End,
    Other,
}

/// What the mouse did.
#[derive(Clone, Copy, Debug, PartialEq, Eq, Structural)]
pub enum MouseKind {
    ScrollUp,
    ScrollDown,
    LeftDown,
    /// The pointer is moved or dragged, or a button is let go.
    Passing,
    Other,
}

/// An event of the terminal.
#[derive(Clone, Copy, Debug, PartialEq, Eq, Structural)]
pub enum Event {
    Key { code: KeyCode, ctrl: bool },
    Mouse { kind: MouseKind, row: u16, column: u16 },
    Resize,
    Other,
}

/// What is left to be done after an event.
#[derive(Clone, Copy, Debug, PartialEq, Eq, Structural)]
pub enum Action {
    Continue,
    Quit,
    Signal { pid: u32, sig: i32 },
}

/// The column whose heading is at a column of the screen.
pub open spec fn heading_at(column: int) -> Option<SortCol> {
    if 2 <= column < 9 {
        Some(SortCol::Pid)
    } else if 10 <= column < 27 {
        Some(SortCol::Name)
    } else if 28 <= column < 40 {
        Some(SortCol::User)
    } else if 41 <= column < 46 {
        Some(SortCol::State)
    } else if 47 <= column < 54 {
        Some(SortCol::Cpu)
    } else if 55 <= column < 65 {
        Some(SortCol::Mem)
    } else if 66 <= column < 74 {
        Some(SortCol::Virt)
    } else if 75 <= column < 80 {
        Some(SortCol::Threads)
    } else {
        None
    }
}

/// The list sorted by a column, in its first direction.
pub open spec fn sorted_ui(u: UiModel, col: SortCol, asc: bool) -> UiModel {
    UiModel { sort_col: col, sort_asc: asc, tree_view: false, ..u }
}

/// What a key does while the list is used.
pub open spec fn normal_key(u: UiModel, code: KeyCode, ctrl: bool, len: int, vis: int) -> (
    UiModel,
    Action,
) {
    let next = match code {
        KeyCode::Char('?') => UiModel { mode: UiMode::Help, ..u },
        KeyCode::Char('/') => UiModel { mode: UiMode::Search, search: seq![], ..u },
        KeyCode::Char('k') => if len > 0 {
            UiModel { kill_sig: 15, mode: UiMode::Kill, ..u }
        } else {
            u
        },
        KeyCode::F(9) => if len > 0 {
            UiModel { kill_sig: 15, mode: UiMode::Signal, ..u }
        } else {
            u
        },
        KeyCode::Char('t') => UiModel { tree_view: !u.tree_view, selected: 0, scroll: 0, ..u },
        KeyCode::Char('g') => UiModel { show_graphs: !u.show_graphs, ..u },
        KeyCode::Char('r') => UiModel { sort_asc: !u.sort_asc, ..u },
        KeyCode::Char('c') => sorted_ui(u, SortCol::Cpu, false),
        KeyCode::Char('m') => sorted_ui(u, SortCol::Mem, false),
        KeyCode::Char('p') => sorted_ui(u, SortCol::Pid, true),
        KeyCode::Char('n') => sorted_ui(u, SortCol::Name, true),
        KeyCode::Char('u') => sorted_ui(u, SortCol::User, true),
        KeyCode::Char('v') => sorted_ui(u, SortCol::Virt, false),
        KeyCode::Up => selection_up(u),
        KeyCode::Down => selection_down(u, len),
        KeyCode::PageUp => UiModel {
            selected: if u.selected < vis {
                0
            } else {
                u.selected - vis
            },
            ..u
        },
        KeyCode::PageDown => UiModel {
            selected: if u.selected + vis < last_place(len) {
                u.selected + vis
            } else {
                last_place(len)
            },
            ..u
        },
        KeyCode::Home => UiModel { selected: 0, scroll: 0, ..u },
        KeyCode::End => UiModel { selected: last_place(len), ..u },
        _ => u,
    };
    if quits(code, ctrl) {
        (u, Action::Quit)
    } else {
        (next, Action::Continue)
    }
}

/// The keys that end the session while the list is used.
pub open spec fn quits(code: KeyCode, ctrl: bool) -> bool {
    code == KeyCode::Char('q') || code == KeyCode::Esc || (ctrl && code == KeyCode::Char('c'))
}

/// The last place of a list; the first of an empty one.
pub open spec fn last_place(len: int) -> int {
    if len == 0 {
        0
    } else {
        len - 1
    }
}

/// The entry above is selected, unless the first one is.
pub open spec fn selection_up(u: UiModel) -> UiModel {
    UiModel {
        selected: if u.selected > 0 {
            u.selected - 1
        } else {
            u.selected
        },
        ..u
    }
}

/// The entry below is selected, unless the last one is.
pub open spec fn selection_down(u: UiModel, len: int) -> UiModel {
    UiModel {
        selected: if u.selected + 1 < len {
            u.selected + 1
        } else {
            u.selected
        },
        ..u
    }
}

/// What a click does: on an entry it selects, on the selected entry it asks
/// whether to end the process, on a heading it sorts.
pub open spec fn clicked(u: UiModel, row: int, column: int, len: int) -> UiModel {
    let first = u.proc_table_y + 3;
    let end = u.proc_table_y + u.proc_table_h - 1;
    let entry = u.scroll + (row - first);
    if first <= row < end && entry < len {
        if entry == u.selected {
            UiModel { kill_sig: 15, mode: UiMode::Kill, ..u }
        } else {
            UiModel { selected: entry, ..u }
        }
    } else if row == u.proc_table_y + 1 {
        match heading_at(column) {
            Some(col) => if u.sort_col == col {
                UiModel { sort_asc: !u.sort_asc, tree_view: false, ..u }
            } else {
                sorted_ui(u, col, false)
            },
            None => u,
        }
    } else {
        u
    }
}

/// What sending the chosen signal takes: the number of the process, where one
/// is selected.
pub open spec fn confirmed(u: UiModel, target: Option<u32>) -> (UiModel, Action) {
    (
        UiModel { mode: UiMode::Normal, ..u },
        match target {
            Some(pid) => Action::Signal { pid, sig: u.kill_sig as i32 },
            None => Action::Continue,
        },
    )
}

/// What an event does to what the user sees, and what is left to be done.
/// `target` is the number of the selected process, `len` the length of the
/// list, `vis` the number of its rows on the screen.
pub open spec fn step(u: UiModel, ev: Event, target: Option<u32>, len: int, vis: int) -> (
    UiModel,
    Action,
) {
    match (u.mode, ev) {
        (UiMode::Help, Event::Key { code, .. }) => (
            if code == KeyCode::Char('?') || code == KeyCode::Esc {
                UiModel { mode: UiMode::Normal, ..u }
            } else {
                u
            },
            Action::Continue,
        ),
        (UiMode::Search, Event::Key { code, .. }) => (
            match code {
                KeyCode::Esc => UiModel { search: seq![], mode: UiMode::Normal, ..u },
                KeyCode::Enter => UiModel { mode: UiMode::Normal, ..u },
                KeyCode::Backspace => UiModel {
                    search: if u.search.len() > 0 {
                        u.search.drop_last()
                    } else {
                        u.search
                    },
                    ..u
                },
                KeyCode::Char(c) => UiModel {
                    search: u.search.push(c),
                    selected: 0,
                    scroll: 0,
                    ..u
                },
                _ => u,
            },
            Action::Continue,
        ),
        (UiMode::Kill, Event::Key { code, .. }) => if code == KeyCode::Char('y') || code
            == KeyCode::Enter {
            confirmed(u, target)
        } else if code == KeyCode::F(9) {
            (UiModel { mode: UiMode::Signal, ..u }, Action::Continue)
        } else if code == KeyCode::Char('n') || code == KeyCode::Esc {
            (UiModel { mode: UiMode::Normal, ..u }, Action::Continue)
        } else {
            (u, Action::Continue)
        },
        (UiMode::Signal, Event::Key { code, .. }) => match code {
            KeyCode::Esc => (UiModel { mode: UiMode::Normal, ..u }, Action::Continue),
            KeyCode::Enter => confirmed(u, target),
            KeyCode::Char(c) => if '0' <= c <= '9' {
                (UiModel { kill_sig: typed(u.kill_sig, c as int - '0' as int), ..u }, Action::Continue)
            } else {
                (u, Action::Continue)
            },
            _ => (u, Action::Continue),
        },
        (UiMode::Normal, Event::Key { code, ctrl }) => normal_key(u, code, ctrl, len, vis),
        (UiMode::Normal, Event::Mouse { kind, row, column }) => (
            match kind {
                MouseKind::ScrollUp => selection_up(u),
                MouseKind::ScrollDown => selection_down(u, len),
                MouseKind::LeftDown => clicked(u, row as int, column as int, len),
                _ => u,
            },
            Action::Continue,
        ),
        _ => (u, Action::Continue),
    }
}

/// A signal number after one more digit: it has at most two, and a third one
/// starts a new number.
pub open spec fn typed(sig: int, d: int) -> int {
    if sig < 10 {
        sig * 10 + d
    } else {
        d
    }
}

/// The numbers that an event makes are within the machine's limits, and the
/// list holds places of the table.
pub open spec fn takes(u: UiModel, ev: Event, display: Seq<usize>, n: int, vis: int) -> bool {
    match (u.mode, ev) {
        (UiMode::Kill, Event::Key { code, .. }) => (code == KeyCode::Char('y') || code
            == KeyCode::Enter) && u.selected < display.len() ==> display[u.selected] < n,
        (UiMode::Signal, Event::Key { code: KeyCode::Enter, .. }) => u.selected < display.len()
            ==> display[u.selected] < n,
        (UiMode::Normal, Event::Key { code: KeyCode::Down, .. }) => u.selected < usize::MAX,
        (UiMode::Normal, Event::Key { code: KeyCode::PageDown, .. }) => u.selected + vis
            <= usize::MAX,
        (UiMode::Normal, Event::Mouse { kind: MouseKind::ScrollDown, .. }) => u.selected
            < usize::MAX,
        (UiMode::Normal, Event::Mouse { kind: MouseKind::LeftDown, row, .. }) => {
            &&& u.proc_table_y + 3 <= 0xffff
            &&& 1 <= u.proc_table_y + u.proc_table_h <= 0xffff
            &&& u.proc_table_y + 3 <= row < u.proc_table_y + u.proc_table_h - 1 ==> u.scroll
                + row - (u.proc_table_y + 3) <= usize::MAX
        },
        _ => true,
    }
}

/// The number of the selected process.
pub open spec fn target_of(procs: Seq<Proc>, display: Seq<usize>, selected: int) -> Option<u32> {
    if 0 <= selected < display.len() {
        Some(procs[display[selected] as int].pid)
    } else {
        None
    }
}

/// Tells whether an event can be handled.
pub fn can_handle(ev: Event, n: usize, ui: &Ui, display: &Vec<usize>, vis: usize) -> (r: bool)
    ensures
        r == takes(ui@, ev, display@, n as int, vis as int),
{
    match (ui.mode, ev) {
        (UiMode::Kill, Event::Key { code, .. }) => !((code == KeyCode::Char('y') || code
            == KeyCode::Enter) && ui.selected < display.len()) || display[ui.selected] < n,
        (UiMode::Signal, Event::Key { code: KeyCode::Enter, .. }) => !(ui.selected
            < display.len()) || display[ui.selected] < n,
        (UiMode::Normal, Event::Key { code: KeyCode::Down, .. }) => ui.selected < usize::MAX,
        (UiMode::Normal, Event::Key { code: KeyCode::PageDown, .. }) => ui.selected <= usize::MAX
            - vis,
        (UiMode::Normal, Event::Mouse { kind: MouseKind::ScrollDown, .. }) => ui.selected
            < usize::MAX,
        (UiMode::Normal, Event::Mouse { kind: MouseKind::LeftDown, row, .. }) => {
            let y: u32 = ui.proc_table_y as u32;
            let h: u32 = ui.proc_table_h as u32;
            let r: u32 = row as u32;
            y + 3 <= 0xffff && 1 <= y + h && y + h <= 0xffff && (!(y + 3 <= r && r < y + h - 1)
                || ui.scroll <= usize::MAX - (r - (y + 3)) as usize)
        },
        _ => true,
    }
}

fn sort_by(ui: &mut Ui, col: SortCol, asc: bool)
    ensures
        final(ui)@ == sorted_ui(old(ui)@, col, asc),
        final(ui).kill_sig == old(ui).kill_sig,
{
    ui.sort_col = col;
    ui.sort_asc = asc;
    ui.tree_view = false;
}

fn heading(column: u16) -> (r: Option<SortCol>)
    ensures
        r == heading_at(column as int),
{
    if 2 <= column && column < 9 {
        Some(SortCol::Pid)
    } else if 10 <= column && column < 27 {
        Some(SortCol::Name)
    } else if 28 <= column && column < 40 {
        Some(SortCol::User)
    } else if 41 <= column && column < 46 {
        Some(SortCol::State)
    } else if 47 <= column && column < 54 {
        Some(SortCol::Cpu)
    } else if 55 <= column && column < 65 {
        Some(SortCol::Mem)
    } else if 66 <= column && column < 74 {
        Some(SortCol::Virt)
    } else if 75 <= column && column < 80 {
        Some(SortCol::Threads)
    } else {
        None
    }
}

fn last(len: usize) -> (r: usize)
    ensures
        r == last_place(len as int),
{
    if len == 0 {
        0
    } else {
        len - 1
    }
}

fn on_normal_key(ui: &mut Ui, code: KeyCode, ctrl: bool, len: usize, vis: usize) -> (a: Action)
    requires
        old(ui).wf(),
        code == KeyCode::Down ==> old(ui).selected < usize::MAX,
        code == KeyCode::PageDown ==> old(ui).selected + vis <= usize::MAX,
    ensures
        final(ui).wf(),
        (final(ui)@, a) == normal_key(old(ui)@, code, ctrl, len as int, vis as int),
{
    if ctrl && code == KeyCode::Char('c') {
        return Action::Quit;
    }
    match code {
        KeyCode::Char('q') => {
            return Action::Quit;
        },
        KeyCode::Esc => {
            return Action::Quit;
        },
        KeyCode::Char('?') => {
            ui.mode = UiMode::Help;
        },
        KeyCode::Char('/') => {
            ui.mode = UiMode::Search;
            ui.search = String::new();
            assert(ui@.search =~= seq![]);
        },
        KeyCode::Char('k') => {
            if len > 0 {
                ui.kill_sig = 15;
                ui.mode = UiMode::Kill;
            }
        },
        KeyCode::F(9) => {
            if len > 0 {
                ui.kill_sig = 15;
                ui.mode = UiMode::Signal;
            }
        },
        KeyCode::Char('t') => {
            ui.tree_view = !ui.tree_view;
            ui.selected = 0;
            ui.scroll = 0;
        },
        KeyCode::Char('g') => {
            ui.show_graphs = !ui.show_graphs;
        },
        KeyCode::Char('r') => {
            ui.sort_asc = !ui.sort_asc;
        },
        KeyCode::Char('c') => {
            sort_by(ui, SortCol::Cpu, false);
        },
        KeyCode::Char('m') => {
            sort_by(ui, SortCol::Mem, false);
        },
        KeyCode::Char('p') => {
            sort_by(ui, SortCol::Pid, true);
        },
        KeyCode::Char('n') => {
            sort_by(ui, SortCol::Name, true);
        },
        KeyCode::Char('u') => {
            sort_by(ui, SortCol::User, true);
        },
        KeyCode::Char('v') => {
            sort_by(ui, SortCol::Virt, false);
        },
        KeyCode::Up => {
            if ui.selected > 0 {
                ui.selected = ui.selected - 1;
            }
        },
        KeyCode::Down => {
            if ui.selected + 1 < len {
                ui.selected = ui.selected + 1;
            }
        },
        KeyCode::PageUp => {
            ui.selected = if ui.selected < vis {
                0
            } else {
                ui.selected - vis
            };
        },
        KeyCode::PageDown => {
            let far: usize = ui.selected + vis;
            let end: usize = last(len);
            ui.selected = if far < end {
                far
            } else {
                end
            };
        },
        KeyCode::Home => {
            ui.selected = 0;
            ui.scroll = 0;
        },
        KeyCode::End => {
            ui.selected = last(len);
        },
        _ => {},
    }
    Action::Continue
}

fn on_click(ui: &mut Ui, row: u16, column: u16, len: usize)
    requires
        old(ui).wf(),
        old(ui).mode == UiMode::Normal,
        old(ui).proc_table_y + 3 <= 0xffff,
        1 <= old(ui).proc_table_y + old(ui).proc_table_h <= 0xffff,
        old(ui).proc_table_y + 3 <= row < old(ui).proc_table_y + old(ui).proc_table_h - 1
            ==> old(ui).scroll + row - (old(ui).proc_table_y + 3) <= usize::MAX,
    ensures
        final(ui).wf(),
        final(ui)@ == clicked(old(ui)@, row as int, column as int, len as int),
{
    let ts: u16 = ui.proc_table_y + 3;
    let te: u16 = ui.proc_table_y + ui.proc_table_h - 1;
    if row >= ts && row < te {
        let entry: usize = ui.scroll + (row - ts) as usize;
        if entry < len {
            if entry == ui.selected {
                ui.kill_sig = 15;
                ui.mode = UiMode::Kill;
            } else {
                ui.selected = entry;
            }
        }
    }
    if row == ui.proc_table_y + 1 {
        if let Some(col) = heading(column) {
            if ui.sort_col == col {
                ui.sort_asc = !ui.sort_asc;
            } else {
                ui.sort_col = col;
                ui.sort_asc = false;
            }
            ui.tree_view = false;
        }
    }
}

fn on_confirm(procs: &Vec<Proc>, ui: &mut Ui, display: &Vec<usize>) -> (a: Action)
    requires
        old(ui).wf(),
        old(ui).selected < display@.len() ==> display@[old(ui).selected as int] < procs@.len(),
    ensures
        final(ui).wf(),
        (final(ui)@, a) == confirmed(
            old(ui)@,
            target_of(procs@, display@, old(ui).selected as int),
        ),
{
    let action = if ui.selected < display.len() {
        Action::Signal { pid: procs[display[ui.selected]].pid, sig: ui.kill_sig }
    } else {
        Action::Continue
    };
    ui.mode = UiMode::Normal;
    action
}

fn on_search_key(ui: &mut Ui, code: KeyCode)
    requires
        old(ui).wf(),
        old(ui).mode == UiMode::Search,
    ensures
        final(ui).wf(),
        forall|target: Option<u32>, len: int, vis: int, ctrl: bool|
            (final(ui)@, Action::Continue) == #[trigger] step(
                old(ui)@,
                Event::Key { code, ctrl },
                target,
                len,
                vis,
            ),
{
    match code {
        KeyCode::Esc => {
            ui.search = String::new();
            assert(ui@.search =~= seq![]);
            ui.mode = UiMode::Normal;
        },
        KeyCode::Enter => {
            ui.mode = UiMode::Normal;
        },
        KeyCode::Backspace => {
            let v = text::chars(ui.search.as_str());
            if v.len() > 0 {
                ui.search = text::string(&v, 0, v.len() - 1);
                assert(ui@.search =~= old(ui)@.search.drop_last());
            }
        },
        KeyCode::Char(c) => {
            ui.search.push(c);
            ui.selected = 0;
            ui.scroll = 0;
        },
        _ => {},
    }
}

/// Handles one event. `display` is the list of processes on the screen, as
/// places of the table `procs`, and `vis` the number of its rows.
pub fn handle_input(
    ev: Event,
    procs: &Vec<Proc>,
    ui: &mut Ui,
    display: &Vec<usize>,
    vis: usize,
) -> (a: Action)
    requires
        old(ui).wf(),
        takes(old(ui)@, ev, display@, procs@.len() as int, vis as int),
    ensures
        final(ui).wf(),
        (final(ui)@, a) == step(
            old(ui)@,
            ev,
            target_of(procs@, display@, old(ui).selected as int),
            display@.len() as int,
            vis as int,
        ),
{
    match ui.mode {
        UiMode::Help => {
            if let Event::Key { code, .. } = ev {
                if code == KeyCode::Char('?') || code == KeyCode::Esc {
                    ui.mode = UiMode::Normal;
                }
            }
            Action::Continue
        },
        UiMode::Search => {
            if let Event::Key { code, .. } = ev {
                on_search_key(ui, code);
            }
            Action::Continue
        },
        UiMode::Kill => {
            if let Event::Key { code, .. } = ev {
                if code == KeyCode::Char('y') || code == KeyCode::Enter {
                    return on_confirm(procs, ui, display);
                } else if code == KeyCode::F(9) {
                    ui.mode = UiMode::Signal;
                } else if code == KeyCode::Char('n') || code == KeyCode::Esc {
                    ui.mode = UiMode::Normal;
                }
            }
            Action::Continue
        },
        UiMode::Signal => {
            if let Event::Key { code, .. } = ev {
                match code {
                    KeyCode::Esc => {
                        ui.mode = UiMode::Normal;
                    },
                    KeyCode::Enter => {
                        return on_confirm(procs, ui, display);
                    },
                    KeyCode::Char(c) => {
                        if '0' <= c && c <= '9' {
                            let d: i32 = (c as u32 - '0' as u32) as i32;
                            ui.kill_sig = if ui.kill_sig < 10 {
                                ui.kill_sig * 10 + d
                            } else {
                                d
                            };
                        }
                    },
                    _ => {},
                }
            }
            Action::Continue
        },
        UiMode::Normal => match ev {
            Event::Key { code, ctrl } => on_normal_key(ui, code, ctrl, display.len(), vis),
            Event::Mouse { kind, row, column } => {
                match kind {
                    MouseKind::ScrollUp => {
                        if ui.selected > 0 {
                            ui.selected = ui.selected - 1;
                        }
                    },
                    MouseKind::ScrollDown => {
                        if ui.selected + 1 < display.len() {
                            ui.selected = ui.selected + 1;
                        }
                    },
                    MouseKind::LeftDown => {
                        on_click(ui, row, column, display.len());
                    },
                    _ => {},
                }
                Action::Continue
            },
            _ => Action::Continue,
        },
    }
}

/// An event may change what is on the screen.
pub open spec fn may_change(ev: Event) -> bool {
    !(ev matches Event::Mouse { kind: MouseKind::Passing, .. })
}

/// Tells whether the screen is drawn anew after an event.
pub fn redraws(ev: Event) -> (r: bool)
    ensures
        r == may_change(ev),
{
    match ev {
        Event::Mouse { kind: MouseKind::Passing, .. } => false,
        _ => true,
    }
}

/// How a session goes on after an event.
#[derive(Clone, Copy, Debug, PartialEq, Eq, Structural)]
pub enum Next {
    Quit,
    Redraw,
    Wait,
}

/// How a session goes on after an event that led to an action: it ends, or the
/// screen is drawn anew, unless the event cannot have changed it.
pub open spec fn goes_on(ev: Event, a: Action) -> Next {
    if a == Action::Quit {
        Next::Quit
    } else if may_change(ev) {
        Next::Redraw
    } else {
        Next::Wait
    }
}

/// Decides how a session goes on after an event.
pub fn next_step(ev: Event, a: Action) -> (n: Next)
    ensures
        n == goes_on(ev, a),
{
    match a {
        Action::Quit => Next::Quit,
        _ => if redraws(ev) {
            Next::Redraw
        } else {
            Next::Wait
        },
    }
}

/// The arguments of the command that sends a signal.
pub open spec fn args_of(pid: u32, sig: i32) -> (Seq<char>, Seq<char>) {
    (seq!['-'] + number::signed_decimal_of(sig as int), number::decimal_of(pid as nat))
}

/// The arguments of the command that sends a signal: the signal as an option,
/// and the process.
pub fn signal_args(pid: u32, sig: i32) -> (r: (String, String))
    ensures
        r.0@ == seq!['-'] + number::signed_decimal_of(sig as int),
        r.1@ == number::decimal_of(pid as nat),
        (r.0@, r.1@) == args_of(pid, sig),
{
    let mut option: String = String::new();
    option.push('-');
    assert(option@ =~= seq!['-']);
    option.append(number::signed_decimal(sig).as_str());
    (option, number::decimal(pid as u64))
}

/// What came of sending a signal: where the command failed, what it wrote to
/// its error output.
pub fn signal_outcome(success: bool, errors: &str) -> (r: Result<(), String>)
    ensures
        success ==> r is Ok,
        !success ==> (r matches Err(e) && e@ == text::trim_of(errors@)),
{
    if success {
        Ok(())
    } else {
        Err(text::trim(errors))
    }
}

/// The message about a signal.
pub open spec fn signal_message(pid: u32, sig: i32, error: Option<Seq<char>>) -> Seq<char> {
    match error {
        None => "Sent signal "@ + number::signed_decimal_of(sig as int) + " to PID "@
            + number::decimal_of(pid as nat),
        Some(e) => "Error: "@ + e,
    }
}

/// Shows what came of sending a signal, at the time `now`.
pub fn report_signal(
    ui: &mut Ui,
    pid: u32,
    sig: i32,
    outcome: Result<(), String>,
    now: u64,
)
    ensures
        final(ui)@ == (UiModel {
            status_msg: signal_message(
                pid,
                sig,
                match outcome {
                    Ok(_) => None,
                    Err(e) => Some(e@),
                },
            ),
            status_ts: now as int,
            ..old(ui)@
        }),
{
    match outcome {
        Ok(_) => {
            let mut m = "Sent signal ".to_owned();
            m.append(number::signed_decimal(sig).as_str());
            m.append(" to PID ");
            m.append(number::decimal(pid as u64).as_str());
            ui.set_status(m, now);
        },
        Err(e) => {
            let mut m = "Error: ".to_owned();
            m.append(e.as_str());
            ui.set_status(m, now);
        },
    }
}

/// A signal is sent only where the user confirms it, to the selected process
/// and with the chosen number.
pub proof fn law_signals_are_confirmed(
    u: UiModel,
    ev: Event,
    target: Option<u32>,
    len: int,
    vis: int,
)
    ensures
        step(u, ev, target, len, vis).1 matches Action::Signal { pid, sig } ==> {
            &&& target == Some(pid)
            &&& sig == u.kill_sig as i32
            &&& step(u, ev, target, len, vis).0.mode == UiMode::Normal
            &&& ev matches Event::Key { code, .. }
            &&& {
                ||| u.mode == UiMode::Kill && (code == KeyCode::Char('y') || code
                    == KeyCode::Enter)
                ||| u.mode == UiMode::Signal && code == KeyCode::Enter
            }
        },
{
}

/// Where the user is asked whether to end a process, it is with the signal 15
/// that the question speaks of, whatever was chosen before: it holds at first,
/// and every event keeps it.
pub proof fn law_question_is_about_signal_15(
    u: UiModel,
    ev: Event,
    target: Option<u32>,
    len: int,
    vis: int,
)
    requires
        u.mode == UiMode::Kill ==> u.kill_sig == 15,
    ensures
        step(u, ev, target, len, vis).0.mode == UiMode::Kill ==> step(
            u,
            ev,
            target,
            len,
            vis,
        ).0.kill_sig == 15,
{
}

/// The session ends only while the list is used, and only on its keys.
pub proof fn law_quit_only_from_the_list(
    u: UiModel,
    ev: Event,
    target: Option<u32>,
    len: int,
    vis: int,
)
    ensures
        step(u, ev, target, len, vis).1 == Action::Quit <==> u.mode == UiMode::Normal && (
        ev matches Event::Key { code, ctrl } && quits(code, ctrl)),
{
}

/// The selection never leaves the list.
pub proof fn law_selection_stays_in_the_list(
    u: UiModel,
    ev: Event,
    target: Option<u32>,
    len: int,
    vis: int,
)
    requires
        len >= 0,
        vis >= 0,
        u.scroll >= 0,
        0 <= u.selected <= last_place(len),
    ensures
        0 <= step(u, ev, target, len, vis).0.selected <= last_place(len),
{
}

/// Events after which the screen is not drawn anew change nothing.
pub proof fn law_passing_events_change_nothing(
    u: UiModel,
    ev: Event,
    target: Option<u32>,
    len: int,
    vis: int,
)
    requires
        !may_change(ev),
    ensures
        step(u, ev, target, len, vis) == (u, Action::Continue),
{
}

/// After every event that changes something or sends a signal the session ends
/// or the screen is drawn anew.
pub proof fn law_changes_are_drawn(
    u: UiModel,
    ev: Event,
    target: Option<u32>,
    len: int,
    vis: int,
)
    ensures
        ({
            let (v, a) = step(u, ev, target, len, vis);
            goes_on(ev, a) == Next::Wait ==> v == u && a == Action::Continue
        }),
{
}

/// While a question, a search or the help is open, the mouse does nothing.
pub proof fn law_mouse_only_in_the_list(
    u: UiModel,
    ev: Event,
    target: Option<u32>,
    len: int,
    vis: int,
)
    requires
        u.mode != UiMode::Normal,
        !(ev is Key),
    ensures
        step(u, ev, target, len, vis) == (u, Action::Continue),
{
}

/// The keys that turn something over undo themselves.
pub proof fn law_toggles_undo_themselves(
    u: UiModel,
    code: KeyCode,
    target: Option<u32>,
    len: int,
    vis: int,
)
    requires
        u.mode == UiMode::Normal,
        code == KeyCode::Char('g') || code == KeyCode::Char('r'),
    ensures
        step(
            step(u, Event::Key { code, ctrl: false }, target, len, vis).0,
            Event::Key { code, ctrl: false },
            target,
            len,
            vis,
        ).0 == u,
{
}

/// A search that is left with the escape key leaves no search text, and one
/// that is confirmed keeps it.
pub proof fn law_search_is_kept_or_dropped(
    u: UiModel,
    ctrl: bool,
    target: Option<u32>,
    len: int,
    vis: int,
)
    requires
        u.mode == UiMode::Search,
    ensures
        step(u, Event::Key { code: KeyCode::Esc, ctrl }, target, len, vis).0 == (UiModel {
            search: seq![],
            mode: UiMode::Normal,
            ..u
        }),
        step(u, Event::Key { code: KeyCode::Enter, ctrl }, target, len, vis).0 == (UiModel {
            mode: UiMode::Normal,
            ..u
        }),
{
}

/// The backspace key takes back the last character of a search.
pub proof fn law_backspace_takes_back(
    u: UiModel,
    c: char,
    target: Option<u32>,
    len: int,
    vis: int,
)
    requires
        u.mode == UiMode::Search,
    ensures
        ({
            let typed = step(
                u,
                Event::Key { code: KeyCode::Char(c), ctrl: false },
                target,
                len,
                vis,
            ).0;
            step(
                typed,
                Event::Key { code: KeyCode::Backspace, ctrl: false },
                target,
                len,
                vis,
            ).0.search == u.search
        }),
{
    assert(u.search.push(c).drop_last() =~= u.search);
}

} // verus!
