use sysmon::input::{
    can_handle, handle_input, next_step, redraws, report_signal, signal_args, signal_outcome, Action,
    Event, KeyCode, MouseKind, Next,
};
use sysmon::process::{Proc, SortCol};
use sysmon::reading::Reading;
use sysmon::ui::{Ui, UiMode};

fn table(n: u32) -> Vec<Proc> {
    (0..n)
        .map(|i| Proc {
            pid: 100 + i,
            ppid: 1,
            name: String::new(),
            user: String::new(),
            state: 'S',
            cpu: Reading { bits: 0, text: String::new() },
            mem_kb: 0,
            threads: 1,
            cmd: String::new(),
            nice: 0,
            virt_kb: 0,
            children: vec![],
        })
        .collect()
}

fn key(code: KeyCode) -> Event {
    Event::Key { code, ctrl: false }
}

fn ch(c: char) -> Event {
    key(KeyCode::Char(c))
}

fn send(ui: &mut Ui, ev: Event) -> Action {
    let procs = table(10);
    let display: Vec<usize> = (0..10).rev().collect();
    assert!(can_handle(ev, procs.len(), ui, &display, 4));
    handle_input(ev, &procs, ui, &display, 4)
}

#[test]
fn session_starts_with_the_list() {
    let u = Ui::new(5);
    assert_eq!((u.mode, u.sort_col, u.sort_asc), (UiMode::Normal, SortCol::Cpu, false));
    assert_eq!((u.tree_view, u.show_graphs, u.selected, u.scroll), (false, true, 0, 0));
    assert_eq!((u.kill_sig, u.status_ts, u.proc_table_y, u.proc_table_h), (15, 5, 0, 0));
    assert!(u.search.is_empty() && u.status_msg.is_empty());
}

#[test]
fn messages_are_shown_for_three_seconds() {
    let mut u = Ui::new(0);
    assert!(!u.shows_status(0));
    u.set_status("done".to_string(), 1_000);
    assert!(u.shows_status(1_000));
    assert!(u.shows_status(3_000_000_999));
    assert!(!u.shows_status(3_000_001_000));
}

#[test]
fn selection_is_clamped_and_visible() {
    let mut u = Ui::new(0);
    u.selected = 9;
    u.clamp_selected(4);
    assert_eq!(u.selected, 3);
    u.clamp_selected(0);
    assert_eq!(u.selected, 0);
    u.selected = 20;
    u.ensure_visible(5);
    assert_eq!(u.scroll, 16);
    u.selected = 10;
    u.ensure_visible(5);
    assert_eq!(u.scroll, 10);
    u.selected = 30;
    u.ensure_visible(0);
    assert_eq!(u.scroll, 10);
}

#[test]
fn keys_quit_from_the_list_only() {
    let mut u = Ui::new(0);
    assert_eq!(send(&mut u, ch('q')), Action::Quit);
    assert_eq!(send(&mut u, key(KeyCode::Esc)), Action::Quit);
    let ctrl_c = Event::Key { code: KeyCode::Char('c'), ctrl: true };
    assert_eq!(send(&mut u, ctrl_c), Action::Quit);
    send(&mut u, ch('?'));
    assert_eq!(u.mode, UiMode::Help);
    assert_eq!(send(&mut u, ch('q')), Action::Continue);
    assert_eq!(send(&mut u, key(KeyCode::Esc)), Action::Continue);
    assert_eq!(u.mode, UiMode::Normal);
}

#[test]
fn search_is_typed_and_kept_or_dropped() {
    let mut u = Ui::new(0);
    u.selected = 4;
    send(&mut u, ch('/'));
    assert_eq!((u.mode, u.selected), (UiMode::Search, 4));
    for c in "fox".chars() {
        send(&mut u, ch(c));
    }
    assert_eq!((u.search.as_str(), u.selected, u.scroll), ("fox", 0, 0));
    send(&mut u, key(KeyCode::Backspace));
    assert_eq!(u.search, "fo");
    send(&mut u, key(KeyCode::Enter));
    assert_eq!((u.mode, u.search.as_str()), (UiMode::Normal, "fo"));
    send(&mut u, ch('/'));
    assert_eq!(u.search, "");
    send(&mut u, key(KeyCode::Backspace));
    send(&mut u, ch('q'));
    send(&mut u, key(KeyCode::Esc));
    assert_eq!((u.mode, u.search.as_str()), (UiMode::Normal, ""));
}

#[test]
fn killing_asks_first() {
    let mut u = Ui::new(0);
    u.selected = 2;
    u.kill_sig = 9;
    assert_eq!(send(&mut u, ch('k')), Action::Continue);
    assert_eq!((u.mode, u.kill_sig), (UiMode::Kill, 15));
    assert_eq!(send(&mut u, ch('n')), Action::Continue);
    assert_eq!(u.mode, UiMode::Normal);
    send(&mut u, ch('k'));
    assert_eq!(send(&mut u, ch('y')), Action::Signal { pid: 107, sig: 15 });
    assert_eq!(u.mode, UiMode::Normal);
    let procs = table(0);
    assert_eq!(handle_input(ch('k'), &procs, &mut u, &vec![], 4), Action::Continue);
    assert_eq!(u.mode, UiMode::Normal);
}

#[test]
fn signals_are_chosen_by_number() {
    let mut u = Ui::new(0);
    send(&mut u, key(KeyCode::F(9)));
    assert_eq!(u.mode, UiMode::Signal);
    send(&mut u, ch('9'));
    assert_eq!(u.kill_sig, 9);
    send(&mut u, ch('1'));
    assert_eq!(u.kill_sig, 91);
    send(&mut u, ch('1'));
    assert_eq!(u.kill_sig, 1);
    send(&mut u, ch('x'));
    assert_eq!(send(&mut u, key(KeyCode::Enter)), Action::Signal { pid: 109, sig: 1 });
    send(&mut u, ch('k'));
    send(&mut u, key(KeyCode::F(9)));
    assert_eq!(u.mode, UiMode::Signal);
    send(&mut u, key(KeyCode::Esc));
    assert_eq!(u.mode, UiMode::Normal);
}

#[test]
fn signal_outcomes_are_told() {
    assert_eq!(signal_args(42, 9), ("-9".to_string(), "42".to_string()));
    assert_eq!(signal_outcome(true, "noise"), Ok(()));
    assert_eq!(signal_outcome(false, " no such process\n"), Err("no such process".to_string()));
    let mut u = Ui::new(0);
    report_signal(&mut u, 42, 9, Ok(()), 7);
    assert_eq!((u.status_msg.as_str(), u.status_ts), ("Sent signal 9 to PID 42", 7));
    report_signal(&mut u, 42, 9, Err("no".to_string()), 8);
    assert_eq!((u.status_msg.as_str(), u.status_ts), ("Error: no", 8));
}

#[test]
fn list_keys_sort_and_toggle() {
    let cases = [
        ('c', SortCol::Cpu, false),
        ('m', SortCol::Mem, false),
        ('p', SortCol::Pid, true),
        ('n', SortCol::Name, true),
        ('u', SortCol::User, true),
        ('v', SortCol::Virt, false),
    ];
    for (c, col, asc) in cases {
        let mut u = Ui::new(0);
        u.tree_view = true;
        send(&mut u, ch(c));
        assert_eq!((u.sort_col, u.sort_asc, u.tree_view), (col, asc, false));
    }
    let mut u = Ui::new(0);
    send(&mut u, ch('r'));
    assert!(u.sort_asc);
    send(&mut u, ch('r'));
    assert!(!u.sort_asc);
    send(&mut u, ch('g'));
    assert!(!u.show_graphs);
    u.selected = 5;
    u.scroll = 3;
    send(&mut u, ch('t'));
    assert_eq!((u.tree_view, u.selected, u.scroll), (true, 0, 0));
}

#[test]
fn list_keys_move_the_selection() {
    let mut u = Ui::new(0);
    send(&mut u, key(KeyCode::Up));
    assert_eq!(u.selected, 0);
    send(&mut u, key(KeyCode::Down));
    assert_eq!(u.selected, 1);
    send(&mut u, key(KeyCode::PageDown));
    assert_eq!(u.selected, 5);
    send(&mut u, key(KeyCode::PageDown));
    assert_eq!(u.selected, 9);
    send(&mut u, key(KeyCode::Down));
    assert_eq!(u.selected, 9);
    send(&mut u, key(KeyCode::PageUp));
    assert_eq!(u.selected, 5);
    send(&mut u, key(KeyCode::Home));
    assert_eq!((u.selected, u.scroll), (0, 0));
    send(&mut u, key(KeyCode::End));
    assert_eq!(u.selected, 9);
    send(&mut u, key(KeyCode::Other));
    assert_eq!(u.selected, 9);
}

fn mouse(kind: MouseKind, row: u16, column: u16) -> Event {
    Event::Mouse { kind, row, column }
}

#[test]
fn mouse_scrolls_selects_and_asks() {
    let mut u = Ui::new(0);
    u.proc_table_y = 20;
    u.proc_table_h = 12;
    u.scroll = 1;
    send(&mut u, mouse(MouseKind::ScrollDown, 0, 0));
    assert_eq!(u.selected, 1);
    send(&mut u, mouse(MouseKind::ScrollUp, 0, 0));
    assert_eq!(u.selected, 0);
    send(&mut u, mouse(MouseKind::LeftDown, 25, 3));
    assert_eq!((u.selected, u.mode), (3, UiMode::Normal));
    send(&mut u, mouse(MouseKind::LeftDown, 31, 3));
    assert_eq!(u.selected, 3);
    send(&mut u, mouse(MouseKind::LeftDown, 22, 3));
    assert_eq!(u.selected, 3);
    send(&mut u, mouse(MouseKind::LeftDown, 25, 3));
    assert_eq!((u.selected, u.mode, u.kill_sig), (3, UiMode::Kill, 15));
    send(&mut u, mouse(MouseKind::ScrollDown, 0, 0));
    assert_eq!(u.selected, 3);
}

#[test]
fn mouse_sorts_on_headings() {
    let cases = [
        (2, Some(SortCol::Pid)),
        (8, Some(SortCol::Pid)),
        (9, None),
        (10, Some(SortCol::Name)),
        (27, None),
        (39, Some(SortCol::User)),
        (41, Some(SortCol::State)),
        (55, Some(SortCol::Mem)),
        (73, Some(SortCol::Virt)),
        (79, Some(SortCol::Threads)),
        (80, None),
        (0, None),
    ];
    for (column, want) in cases {
        let mut u = Ui::new(0);
        u.proc_table_y = 20;
        u.proc_table_h = 12;
        u.sort_asc = true;
        u.tree_view = true;
        send(&mut u, mouse(MouseKind::LeftDown, 21, column));
        match want {
            Some(col) => assert_eq!((u.sort_col, u.sort_asc, u.tree_view), (col, false, false)),
            None => assert_eq!((u.sort_col, u.sort_asc, u.tree_view), (SortCol::Cpu, true, true)),
        }
    }
    let mut u = Ui::new(0);
    u.proc_table_y = 20;
    u.proc_table_h = 12;
    send(&mut u, mouse(MouseKind::LeftDown, 21, 47));
    assert_eq!((u.sort_col, u.sort_asc), (SortCol::Cpu, true));
}

#[test]
fn passing_events_draw_nothing() {
    let pass = mouse(MouseKind::Passing, 1, 1);
    assert!(!redraws(pass));
    assert!(redraws(Event::Resize));
    assert!(redraws(Event::Other));
    assert_eq!(next_step(pass, Action::Continue), Next::Wait);
    assert_eq!(next_step(ch('q'), Action::Quit), Next::Quit);
    assert_eq!(next_step(ch('y'), Action::Signal { pid: 1, sig: 15 }), Next::Redraw);
    let mut u = Ui::new(0);
    u.proc_table_y = 20;
    u.proc_table_h = 12;
    assert_eq!(send(&mut u, pass), Action::Continue);
    assert_eq!(send(&mut u, mouse(MouseKind::Other, 25, 3)), Action::Continue);
    assert_eq!(send(&mut u, Event::Resize), Action::Continue);
    assert_eq!((u.selected, u.mode), (0, UiMode::Normal));
}

#[test]
fn events_beyond_the_limits_are_told() {
    let mut u = Ui::new(0);
    let display: Vec<usize> = vec![0, 7];
    assert!(!can_handle(mouse(MouseKind::LeftDown, 0, 0), 1, &u, &display, 4));
    u.proc_table_y = 65533;
    u.proc_table_h = 1;
    assert!(!can_handle(mouse(MouseKind::LeftDown, 0, 0), 1, &u, &display, 4));
    u.proc_table_y = 5;
    assert!(can_handle(mouse(MouseKind::LeftDown, 0, 0), 1, &u, &display, 4));
    u.selected = usize::MAX;
    assert!(!can_handle(key(KeyCode::Down), 1, &u, &display, 4));
    assert!(!can_handle(key(KeyCode::PageDown), 1, &u, &display, 4));
    u.selected = 1;
    u.mode = UiMode::Kill;
    assert!(!can_handle(ch('y'), 1, &u, &display, 4));
    assert!(can_handle(ch('n'), 1, &u, &display, 4));
    assert!(can_handle(ch('y'), 8, &u, &display, 4));
}
