//! What each key and each button of the mouse is for, told one by one.
use vstd::prelude::*;

use crate::input::{args_of, goes_on, may_change, signal_message, step, target_of};
use crate::input::{Action, Event, KeyCode, MouseKind, Next};
use crate::number::{decimal_of, signed_decimal_of};
use crate::process::{Proc, SortCol};
use crate::ui::{UiMode, UiModel};

verus! {

/// No event touches the message, nor what is known of the place of the list on
/// the screen; only the key `g`, in the list, shows or hides the graphs.
pub proof fn law_events_leave_the_screen_alone(
    u: UiModel,
    ev: Event,
    target: Option<u32>,
    len: int,
    vis: int,
)
    ensures
        ({
            let v = step(u, ev, target, len, vis).0;
            &&& v.status_msg == u.status_msg
            &&& v.status_ts == u.status_ts
            &&& v.proc_table_y == u.proc_table_y
            &&& v.proc_table_h == u.proc_table_h
            &&& v.show_graphs != u.show_graphs <==> u.mode == UiMode::Normal && (
            ev matches Event::Key { code, .. } && code == KeyCode::Char('g'))
        }),
{
}

/// The key `t` changes between the tree and the sorted list, from whichever is
/// shown, and goes to the first entry. Pressed twice it leaves the view as it
/// was.
pub proof fn law_t_turns_the_tree_over(
    u: UiModel,
    ctrl: bool,
    ctrl2: bool,
    target: Option<u32>,
    target2: Option<u32>,
    len: int,
    len2: int,
    vis: int,
)
    requires
        u.mode == UiMode::Normal,
    ensures
        ({
            let (v, a) = step(u, Event::Key { code: KeyCode::Char('t'), ctrl }, target, len, vis);
            let w = step(
                v,
                Event::Key { code: KeyCode::Char('t'), ctrl: ctrl2 },
                target2,
                len2,
                vis,
            ).0;
            &&& a == Action::Continue
            &&& v.tree_view != u.tree_view
            &&& v.selected == 0
            &&& v.scroll == 0
            &&& v.sort_col == u.sort_col
            &&& v.sort_asc == u.sort_asc
            &&& v.mode == u.mode
            &&& v.search == u.search
            &&& v.kill_sig == u.kill_sig
            &&& w.tree_view == u.tree_view
        }),
{
}

/// The keys `g` and `r` turn over one thing each, whatever it was: the graphs
/// are shown or hidden, and the order is turned round.
pub proof fn law_g_and_r_turn_one_thing_over(
    u: UiModel,
    ctrl: bool,
    target: Option<u32>,
    len: int,
    vis: int,
)
    requires
        u.mode == UiMode::Normal,
    ensures
        ({
            let (g, a) = step(u, Event::Key { code: KeyCode::Char('g'), ctrl }, target, len, vis);
            &&& a == Action::Continue
            &&& g.show_graphs != u.show_graphs
            &&& g.sort_col == u.sort_col
            &&& g.sort_asc == u.sort_asc
            &&& g.tree_view == u.tree_view
            &&& g.selected == u.selected
            &&& g.scroll == u.scroll
            &&& g.mode == u.mode
            &&& g.search == u.search
            &&& g.kill_sig == u.kill_sig
        }),
        ({
            let (r, a) = step(u, Event::Key { code: KeyCode::Char('r'), ctrl }, target, len, vis);
            &&& a == Action::Continue
            &&& r.sort_asc != u.sort_asc
            &&& r.show_graphs == u.show_graphs
            &&& r.sort_col == u.sort_col
            &&& r.tree_view == u.tree_view
            &&& r.selected == u.selected
            &&& r.scroll == u.scroll
            &&& r.mode == u.mode
            &&& r.search == u.search
            &&& r.kill_sig == u.kill_sig
        }),
{
}

/// Each of the keys `c`, `m`, `p`, `n`, `u` and `v` sorts by the column that it
/// is named after: what is measured starts with the most, the number, the name
/// and the user with the least. The tree is left; the rest stays.
pub proof fn law_sort_keys_name_their_column(
    u: UiModel,
    c: char,
    ctrl: bool,
    target: Option<u32>,
    len: int,
    vis: int,
)
    requires
        u.mode == UiMode::Normal,
        c == 'c' || c == 'm' || c == 'p' || c == 'n' || c == 'u' || c == 'v',
        !(c == 'c' && ctrl),
    ensures
        ({
            let (v, a) = step(u, Event::Key { code: KeyCode::Char(c), ctrl }, target, len, vis);
            &&& a == Action::Continue
            &&& c == 'c' <==> v.sort_col == SortCol::Cpu
            &&& c == 'm' <==> v.sort_col == SortCol::Mem
            &&& c == 'p' <==> v.sort_col == SortCol::Pid
            &&& c == 'n' <==> v.sort_col == SortCol::Name
            &&& c == 'u' <==> v.sort_col == SortCol::User
            &&& c == 'v' <==> v.sort_col == SortCol::Virt
            &&& v.sort_asc <==> c == 'p' || c == 'n' || c == 'u'
            &&& !v.tree_view
            &&& v.selected == u.selected
            &&& v.scroll == u.scroll
            &&& v.mode == u.mode
            &&& v.search == u.search
            &&& v.kill_sig == u.kill_sig
            &&& v.show_graphs == u.show_graphs
        }),
{
}

/// The arrow keys and the wheel of the mouse go one entry up or down and stop
/// at the ends of the list; nothing else changes.
pub proof fn law_arrows_go_by_one(
    u: UiModel,
    ctrl: bool,
    row: u16,
    column: u16,
    target: Option<u32>,
    len: int,
    vis: int,
)
    requires
        u.mode == UiMode::Normal,
        0 <= u.selected,
    ensures
        ({
            let (v, a) = step(u, Event::Key { code: KeyCode::Up, ctrl }, target, len, vis);
            &&& a == Action::Continue
            &&& u.selected == 0 ==> v.selected == 0
            &&& u.selected > 0 ==> v.selected + 1 == u.selected
            &&& v == (UiModel { selected: v.selected, ..u })
            &&& step(
                u,
                Event::Mouse { kind: MouseKind::ScrollUp, row, column },
                target,
                len,
                vis,
            ) == (v, a)
        }),
        ({
            let (v, a) = step(u, Event::Key { code: KeyCode::Down, ctrl }, target, len, vis);
            &&& a == Action::Continue
            &&& u.selected >= len - 1 ==> v.selected == u.selected
            &&& u.selected < len - 1 ==> v.selected == u.selected + 1
            &&& v == (UiModel { selected: v.selected, ..u })
            &&& step(
                u,
                Event::Mouse { kind: MouseKind::ScrollDown, row, column },
                target,
                len,
                vis,
            ) == (v, a)
        }),
{
}

/// Down and then up, or up and then down, leads back, unless the end of the
/// list stopped the first step.
pub proof fn law_arrows_lead_back(u: UiModel, target: Option<u32>, len: int, vis: int)
    requires
        u.mode == UiMode::Normal,
        0 <= u.selected < len,
    ensures
        u.selected < len - 1 ==> step(
            step(u, Event::Key { code: KeyCode::Down, ctrl: false }, target, len, vis).0,
            Event::Key { code: KeyCode::Up, ctrl: false },
            target,
            len,
            vis,
        ).0 == u,
        u.selected > 0 ==> step(
            step(u, Event::Key { code: KeyCode::Up, ctrl: false }, target, len, vis).0,
            Event::Key { code: KeyCode::Down, ctrl: false },
            target,
            len,
            vis,
        ).0 == u,
{
}

/// The page keys go on by as many entries as there are rows, and no further
/// than to the first and the last entry; nothing else changes.
pub proof fn law_pages_go_by_the_rows(
    u: UiModel,
    ctrl: bool,
    target: Option<u32>,
    len: int,
    vis: int,
)
    requires
        u.mode == UiMode::Normal,
        0 <= u.selected,
        0 <= vis,
        0 <= len,
    ensures
        ({
            let (v, a) = step(u, Event::Key { code: KeyCode::PageUp, ctrl }, target, len, vis);
            &&& a == Action::Continue
            &&& u.selected >= vis ==> u.selected - v.selected == vis
            &&& u.selected <= vis ==> v.selected == 0
            &&& v == (UiModel { selected: v.selected, ..u })
        }),
        ({
            let (v, a) = step(u, Event::Key { code: KeyCode::PageDown, ctrl }, target, len, vis);
            &&& a == Action::Continue
            &&& len > 0 && u.selected + vis <= len - 1 ==> v.selected - u.selected == vis
            &&& len > 0 && u.selected + vis >= len - 1 ==> v.selected == len - 1
            &&& len == 0 ==> v.selected == 0
            &&& v == (UiModel { selected: v.selected, ..u })
        }),
{
}

/// The keys for the ends lead to the first entry, scrolled to the top, and to
/// the last one; nothing else changes.
pub proof fn law_home_and_end_are_the_ends(
    u: UiModel,
    ctrl: bool,
    target: Option<u32>,
    len: int,
    vis: int,
)
    requires
        u.mode == UiMode::Normal,
        0 <= len,
    ensures
        ({
            let (v, a) = step(u, Event::Key { code: KeyCode::Home, ctrl }, target, len, vis);
            &&& a == Action::Continue
            &&& v.selected == 0
            &&& v.scroll == 0
            &&& v == (UiModel { selected: 0, scroll: 0, ..u })
        }),
        ({
            let (v, a) = step(u, Event::Key { code: KeyCode::End, ctrl }, target, len, vis);
            &&& a == Action::Continue
            &&& len > 0 ==> v.selected + 1 == len
            &&& len == 0 ==> v.selected == 0
            &&& v == (UiModel { selected: v.selected, ..u })
        }),
{
}

/// The session ends exactly on `q`, on the escape key and on `c` with the
/// control key, while the list is used; it then leaves everything as it was.
pub proof fn law_keys_that_end_the_session(
    u: UiModel,
    ev: Event,
    target: Option<u32>,
    len: int,
    vis: int,
)
    ensures
        ({
            let (v, a) = step(u, ev, target, len, vis);
            let ends = u.mode == UiMode::Normal && (ev matches Event::Key { code, ctrl } && (code
                == KeyCode::Char('q') || code == KeyCode::Esc || (code == KeyCode::Char('c')
                && ctrl)));
            &&& a == Action::Quit <==> ends
            &&& ends ==> v == u
            &&& goes_on(ev, a) == Next::Quit <==> ends
        }),
{
}

/// Every other character is nothing to the list.
pub proof fn law_other_characters_do_nothing(
    u: UiModel,
    c: char,
    ctrl: bool,
    target: Option<u32>,
    len: int,
    vis: int,
)
    requires
        u.mode == UiMode::Normal,
        c != '?' && c != '/' && c != 'k' && c != 't' && c != 'g' && c != 'r' && c != 'q',
        c != 'c' && c != 'm' && c != 'p' && c != 'n' && c != 'u' && c != 'v',
    ensures
        step(u, Event::Key { code: KeyCode::Char(c), ctrl }, target, len, vis) == (
            u,
            Action::Continue,
        ),
{
}

/// So are the enter and the backspace key, the function keys but one, and the
/// keys that have no name here.
pub proof fn law_other_keys_do_nothing(
    u: UiModel,
    code: KeyCode,
    ctrl: bool,
    target: Option<u32>,
    len: int,
    vis: int,
)
    requires
        u.mode == UiMode::Normal,
        code == KeyCode::Enter || code == KeyCode::Backspace || code == KeyCode::Other || (
        code matches KeyCode::F(n) && n != 9),
    ensures
        step(u, Event::Key { code, ctrl }, target, len, vis) == (u, Action::Continue),
{
}

/// The question mark opens the help over the list, and the question mark or
/// the escape key closes it; no other key does anything to it.
pub proof fn law_help_opens_and_closes(
    u: UiModel,
    code: KeyCode,
    ctrl: bool,
    target: Option<u32>,
    len: int,
    vis: int,
)
    ensures
        u.mode == UiMode::Normal ==> {
            let (v, a) = step(u, Event::Key { code: KeyCode::Char('?'), ctrl }, target, len, vis);
            &&& a == Action::Continue
            &&& v.mode == UiMode::Help
            &&& v == (UiModel { mode: v.mode, ..u })
        },
        u.mode == UiMode::Help ==> {
            let (v, a) = step(u, Event::Key { code, ctrl }, target, len, vis);
            &&& a == Action::Continue
            &&& v.mode == UiMode::Normal <==> code == KeyCode::Char('?') || code == KeyCode::Esc
            &&& v.mode != UiMode::Normal ==> v.mode == UiMode::Help
            &&& v == (UiModel { mode: v.mode, ..u })
        },
{
}

/// The slash starts a search with no text. Whatever characters are then typed
/// become its text, in their order.
pub proof fn law_search_is_what_is_typed(
    u: UiModel,
    c: char,
    ctrl: bool,
    target: Option<u32>,
    len: int,
    vis: int,
)
    ensures
        u.mode == UiMode::Normal ==> {
            let (v, a) = step(u, Event::Key { code: KeyCode::Char('/'), ctrl }, target, len, vis);
            &&& a == Action::Continue
            &&& v.mode == UiMode::Search
            &&& v.search.len() == 0
            &&& v == (UiModel { mode: v.mode, search: v.search, ..u })
        },
        u.mode == UiMode::Search ==> {
            let (v, a) = step(u, Event::Key { code: KeyCode::Char(c), ctrl }, target, len, vis);
            &&& a == Action::Continue
            &&& v.mode == UiMode::Search
            &&& v.search.len() == u.search.len() + 1
            &&& v.search.last() == c
            &&& forall|i: int| 0 <= i < u.search.len() ==> #[trigger] v.search[i] == u.search[i]
            &&& v.selected == 0
            &&& v.scroll == 0
            &&& v.sort_col == u.sort_col
            &&& v.sort_asc == u.sort_asc
            &&& v.tree_view == u.tree_view
            &&& v.kill_sig == u.kill_sig
        },
{
}

/// In a search the backspace key takes off the last character, where there is
/// one, and the enter and the escape key lead back to the list: the one with
/// the text, the other without it. No other key does anything.
pub proof fn law_search_keys(
    u: UiModel,
    code: KeyCode,
    ctrl: bool,
    target: Option<u32>,
    len: int,
    vis: int,
)
    requires
        u.mode == UiMode::Search,
        !(code is Char),
    ensures
        ({
            let (v, a) = step(u, Event::Key { code, ctrl }, target, len, vis);
            &&& a == Action::Continue
            &&& v == (UiModel { mode: v.mode, search: v.search, ..u })
            &&& code == KeyCode::Enter || code == KeyCode::Esc <==> v.mode == UiMode::Normal
            &&& code != KeyCode::Enter && code != KeyCode::Esc ==> v.mode == UiMode::Search
            &&& code == KeyCode::Esc ==> v.search.len() == 0
            &&& code == KeyCode::Backspace && u.search.len() > 0 ==> {
                &&& v.search.len() + 1 == u.search.len()
                &&& forall|i: int|
                    0 <= i < v.search.len() ==> #[trigger] v.search[i] == u.search[i]
            }
            &&& code != KeyCode::Esc && !(code == KeyCode::Backspace && u.search.len() > 0)
                ==> v.search == u.search
        }),
{
}

/// The key `k` asks whether to end the selected process, and `F9` asks for a
/// signal: both where the list has an entry, and both with 15 as the number.
pub proof fn law_k_and_f9_ask_first(
    u: UiModel,
    ctrl: bool,
    target: Option<u32>,
    len: int,
    vis: int,
)
    requires
        u.mode == UiMode::Normal,
    ensures
        ({
            let (k, a) = step(u, Event::Key { code: KeyCode::Char('k'), ctrl }, target, len, vis);
            &&& a == Action::Continue
            &&& len <= 0 ==> k == u
            &&& len > 0 ==> k.mode == UiMode::Kill && k.kill_sig == 15
            &&& k == (UiModel { mode: k.mode, kill_sig: k.kill_sig, ..u })
        }),
        ({
            let (f, a) = step(u, Event::Key { code: KeyCode::F(9), ctrl }, target, len, vis);
            &&& a == Action::Continue
            &&& len <= 0 ==> f == u
            &&& len > 0 ==> f.mode == UiMode::Signal && f.kill_sig == 15
            &&& f == (UiModel { mode: f.mode, kill_sig: f.kill_sig, ..u })
        }),
{
}

/// The question whether to end a process is answered by `y` or the enter key,
/// which sends the signal to the selected process, by `n` or the escape key,
/// which sends nothing, or by `F9`, which asks for another signal. Every other
/// key leaves it open.
pub proof fn law_question_is_answered(
    u: UiModel,
    code: KeyCode,
    ctrl: bool,
    target: Option<u32>,
    len: int,
    vis: int,
)
    requires
        u.mode == UiMode::Kill,
    ensures
        ({
            let (v, a) = step(u, Event::Key { code, ctrl }, target, len, vis);
            let yes = code == KeyCode::Char('y') || code == KeyCode::Enter;
            let no = code == KeyCode::Char('n') || code == KeyCode::Esc;
            &&& v == (UiModel { mode: v.mode, ..u })
            &&& yes || no <==> v.mode == UiMode::Normal
            &&& code == KeyCode::F(9) <==> v.mode == UiMode::Signal
            &&& !yes && !no && code != KeyCode::F(9) ==> v.mode == UiMode::Kill
            &&& yes && target is Some ==> a == (Action::Signal {
                pid: target->0,
                sig: u.kill_sig as i32,
            })
            &&& !yes || target is None ==> a == Action::Continue
        }),
{
}

/// The number of a signal is what the digits say: asked for by `F9`, one digit
/// is the number, and two are a number of two digits. The enter key sends just
/// that number to the selected process.
pub proof fn law_signal_number_is_what_is_typed(
    u: UiModel,
    a: int,
    b: int,
    ctrl: bool,
    target: Option<u32>,
    pid: u32,
    len: int,
    vis: int,
)
    requires
        u.mode == UiMode::Normal,
        len > 0,
        0 <= a <= 9,
        0 <= b <= 9,
    ensures
        ({
            let f9 = Event::Key { code: KeyCode::F(9), ctrl };
            let first = Event::Key { code: KeyCode::Char(('0' as int + a) as char), ctrl };
            let second = Event::Key { code: KeyCode::Char(('0' as int + b) as char), ctrl };
            let enter = Event::Key { code: KeyCode::Enter, ctrl };
            let asked = step(u, f9, target, len, vis).0;
            let one = step(asked, first, target, len, vis);
            let two = step(one.0, second, target, len, vis);
            &&& asked.kill_sig == 15
            &&& one.0.kill_sig == a
            &&& one.0.mode == UiMode::Signal
            &&& one.1 == Action::Continue
            &&& two.0.kill_sig == 10 * a + b
            &&& two.0.mode == UiMode::Signal
            &&& two.1 == Action::Continue
            &&& step(asked, enter, Some(pid), len, vis).1 == (Action::Signal { pid, sig: 15 })
            &&& step(one.0, enter, Some(pid), len, vis).1 == (Action::Signal { pid, sig: a as i32 })
            &&& step(two.0, enter, Some(pid), len, vis).1 == (Action::Signal {
                pid,
                sig: (10 * a + b) as i32,
            })
            &&& step(two.0, enter, Some(pid), len, vis).0.mode == UiMode::Normal
            &&& step(two.0, enter, None, len, vis).1 == Action::Continue
        }),
{
}

/// While a signal is asked for, each digit joins a number of one digit behind
/// it, and takes the place of a longer one. The enter key sends the number, the
/// escape key sends nothing, and both lead back to the list. Every other key
/// leaves the number alone.
pub proof fn law_signal_keys(
    u: UiModel,
    code: KeyCode,
    ctrl: bool,
    target: Option<u32>,
    len: int,
    vis: int,
)
    requires
        u.mode == UiMode::Signal,
    ensures
        ({
            let (v, a) = step(u, Event::Key { code, ctrl }, target, len, vis);
            let digit = code matches KeyCode::Char(c) && '0' <= c <= '9';
            &&& v == (UiModel { mode: v.mode, kill_sig: v.kill_sig, ..u })
            &&& code == KeyCode::Enter || code == KeyCode::Esc <==> v.mode == UiMode::Normal
            &&& code != KeyCode::Enter && code != KeyCode::Esc ==> v.mode == UiMode::Signal
            &&& !digit ==> v.kill_sig == u.kill_sig
            &&& forall|d: int|
                0 <= d <= 9 && code == KeyCode::Char(#[trigger] (('0' as int + d) as char)) ==> {
                    &&& u.kill_sig <= 9 ==> v.kill_sig == 10 * u.kill_sig + d
                    &&& u.kill_sig >= 10 ==> v.kill_sig == d
                }
            &&& code == KeyCode::Enter && target is Some ==> a == (Action::Signal {
                pid: target->0,
                sig: u.kill_sig as i32,
            })
            &&& code != KeyCode::Enter || target is None ==> a == Action::Continue
        }),
{
}

/// The process that a signal goes to is the one of the selected entry.
pub proof fn law_target_is_the_selected_entry(
    procs: Seq<Proc>,
    display: Seq<usize>,
    selected: int,
)
    ensures
        0 <= selected < display.len() ==> target_of(procs, display, selected) == Some(
            procs[display[selected] as int].pid,
        ),
        selected < 0 || selected >= display.len() ==> target_of(procs, display, selected) is None,
{
}

/// A click on a row of the list selects the entry that the row shows, counted
/// from the one that the list is scrolled to; on the selected entry it asks
/// whether to end it. The rows start three below the top of the list and end
/// above its lower frame.
pub proof fn law_click_selects(
    u: UiModel,
    row: u16,
    column: u16,
    target: Option<u32>,
    len: int,
    vis: int,
    i: int,
)
    requires
        u.mode == UiMode::Normal,
        0 <= i,
        row == u.proc_table_y + 3 + i,
        row < u.proc_table_y + u.proc_table_h - 1,
    ensures
        ({
            let (v, a) = step(
                u,
                Event::Mouse { kind: MouseKind::LeftDown, row, column },
                target,
                len,
                vis,
            );
            let entry = u.scroll + i;
            &&& a == Action::Continue
            &&& entry < len && entry != u.selected ==> v.selected == entry && v == (UiModel {
                selected: v.selected,
                ..u
            })
            &&& entry < len && entry == u.selected ==> v.mode == UiMode::Kill && v.kill_sig == 15
                && v == (UiModel { mode: v.mode, kill_sig: v.kill_sig, ..u })
            &&& entry >= len ==> v == u
        }),
{
}

/// A click on the line of the headings sorts by the column under the pointer,
/// from the most to the least; on the column that sorts already it turns the
/// order round. The tree is left. Between the headings it does nothing.
pub proof fn law_click_on_the_headings(
    u: UiModel,
    row: u16,
    column: u16,
    target: Option<u32>,
    len: int,
    vis: int,
)
    requires
        u.mode == UiMode::Normal,
        row == u.proc_table_y + 1,
    ensures
        ({
            let (v, a) = step(
                u,
                Event::Mouse { kind: MouseKind::LeftDown, row, column },
                target,
                len,
                vis,
            );
            let on = |first: int, width: int| first <= column < first + width;
            let none = !on(2, 7) && !on(10, 17) && !on(28, 12) && !on(41, 5) && !on(47, 7) && !on(
                55,
                10,
            ) && !on(66, 8) && !on(75, 5);
            &&& a == Action::Continue
            &&& on(2, 7) ==> v.sort_col == SortCol::Pid
            &&& on(10, 17) ==> v.sort_col == SortCol::Name
            &&& on(28, 12) ==> v.sort_col == SortCol::User
            &&& on(41, 5) ==> v.sort_col == SortCol::State
            &&& on(47, 7) ==> v.sort_col == SortCol::Cpu
            &&& on(55, 10) ==> v.sort_col == SortCol::Mem
            &&& on(66, 8) ==> v.sort_col == SortCol::Virt
            &&& on(75, 5) ==> v.sort_col == SortCol::Threads
            &&& none ==> v == u
            &&& !none ==> !v.tree_view
            &&& !none && v.sort_col == u.sort_col ==> v.sort_asc != u.sort_asc
            &&& v.sort_col != u.sort_col ==> !v.sort_asc
            &&& v == (UiModel {
                sort_col: v.sort_col,
                sort_asc: v.sort_asc,
                tree_view: v.tree_view,
                ..u
            })
        }),
{
}

/// A click anywhere else does nothing, nor does any other use of the mouse.
pub proof fn law_other_clicks_do_nothing(
    u: UiModel,
    kind: MouseKind,
    row: u16,
    column: u16,
    target: Option<u32>,
    len: int,
    vis: int,
)
    requires
        kind != MouseKind::ScrollUp,
        kind != MouseKind::ScrollDown,
        kind == MouseKind::LeftDown ==> row != u.proc_table_y + 1 && (row < u.proc_table_y + 3
            || row >= u.proc_table_y + u.proc_table_h - 1),
    ensures
        step(u, Event::Mouse { kind, row, column }, target, len, vis) == (u, Action::Continue),
{
}

/// The screen is drawn anew after every event that does not end the session,
/// but for the moves of the pointer.
pub proof fn law_when_the_screen_is_drawn(ev: Event, a: Action)
    ensures
        ({
            let moved = ev matches Event::Mouse { kind, .. } && kind == MouseKind::Passing;
            &&& may_change(ev) <==> !moved
            &&& a == Action::Quit <==> goes_on(ev, a) == Next::Quit
            &&& a != Action::Quit && moved ==> goes_on(ev, a) == Next::Wait
            &&& a != Action::Quit && !moved ==> goes_on(ev, a) == Next::Redraw
        }),
{
}


/// What is told of a signal: that it was sent, which one, and to which process,
/// or else the error.
pub proof fn law_signals_are_told(pid: u32, sig: i32, e: Seq<char>)
    ensures
        signal_message(pid, sig, None) == "Sent signal "@ + signed_decimal_of(sig as int)
            + " to PID "@ + decimal_of(pid as nat),
        signal_message(pid, sig, Some(e)) == "Error: "@ + e,
{
}


/// A signal is sent by its number behind a dash, and then the number of the
/// process.
pub proof fn law_signals_are_named_first(pid: u32, sig: i32)
    ensures
        ({
            let (option, process) = args_of(pid, sig);
            &&& option.len() > 0
            &&& option[0] == '-'
            &&& option.drop_first() == signed_decimal_of(sig as int)
            &&& process == decimal_of(pid as nat)
        }),
{
    assert(args_of(pid, sig).0.drop_first() =~= signed_decimal_of(sig as int));
}

} // verus!
