use sysmon::buffer::{Buffer, Canvas, Cell, Color};
use sysmon::draw::{draw_box_buf, draw_graph_buf, draw_hbar_buf, Column};
use sysmon::input::{can_handle, handle_input, Action, Event, KeyCode, MouseKind};
use sysmon::layout;
use sysmon::panels::Gauges;
use sysmon::process::{Proc, SortCol};
use sysmon::reading::Reading;
use sysmon::render::render_to_buf;
use sysmon::state::{GpuInfo, State};
use sysmon::stats::MemInfo;
use sysmon::term::{encode, encode_with, Attr, TermOp};
use sysmon::ui::{Ui, UiMode};

fn row(b: &Buffer, y: u16) -> String {
    (0..b.w).map(|x| b.cells[y as usize * b.w as usize + x as usize].ch).collect()
}

fn cell(b: &Buffer, x: u16, y: u16) -> Cell {
    b.cells[b.idx(x, y).unwrap()]
}

#[test]
fn buffer_starts_blank() {
    let b = Buffer::new(3, 2);
    assert_eq!(b.cells, vec![Cell::default(); 6]);
    assert_eq!(b.idx(2, 1), Some(5));
    assert_eq!(b.idx(3, 1), None);
    assert_eq!(b.idx(2, 2), None);
    let b = Buffer::unpainted(3, 2);
    assert!(b.cells.iter().all(|c| c.ch == '\0'));
    assert!(Buffer::new(0, 9).cells.is_empty());
}

#[test]
fn canvas_draws_and_clips() {
    let mut b = Buffer::new(5, 2);
    Canvas::new(&mut b).fg(Color::Red).bold().print(3, 0, "abc");
    Canvas::new(&mut b).dim().rev().print(0, 1, "x");
    Canvas::new(&mut b).print(0, 9, "lost");
    assert_eq!(row(&b, 0), "   ab");
    assert_eq!(cell(&b, 3, 0), Cell { ch: 'a', fg: Color::Red, bold: true, dim: false, rev: false });
    assert_eq!(cell(&b, 0, 1), Cell { ch: 'x', fg: Color::White, bold: false, dim: true, rev: true });
    Canvas::new(&mut b).rev_if(false).print_truncated(0, 1, "longer", 4);
    assert_eq!(row(&b, 1), "long ");
    Canvas::new(&mut b).rev_if(true).print_truncated(0, 1, "a", 3);
    assert_eq!(row(&b, 1), "a  g ");
    assert!(cell(&b, 2, 1).rev && !cell(&b, 3, 1).rev);
    Canvas::new(&mut b).fill_line(1, 0, 2, '─');
    assert_eq!(row(&b, 0), " ──ab");
}

#[test]
fn boxes_have_frames_and_titles() {
    let mut b = Buffer::new(10, 4);
    draw_box_buf(&mut b, 0, 0, 10, 4, "CPU", Color::Green);
    assert_eq!(row(&b, 0), "┌─ CPU ──┐");
    assert_eq!(row(&b, 1), "│        │");
    assert_eq!(row(&b, 3), "└────────┘");
    assert_eq!(cell(&b, 0, 0), Cell { ch: '┌', fg: Color::White, bold: false, dim: true, rev: false });
    assert_eq!(cell(&b, 3, 0), Cell { ch: 'C', fg: Color::Green, bold: true, dim: false, rev: false });
    let mut b = Buffer::new(10, 4);
    draw_box_buf(&mut b, 1, 1, 8, 2, "PROCESSES", Color::Red);
    assert_eq!(row(&b, 1), " ┌─ PRO─┐ ");
    assert_eq!(row(&b, 2), " └──────┘ ");
    let mut b = Buffer::new(10, 4);
    draw_box_buf(&mut b, 0, 0, 3, 4, "x", Color::Red);
    draw_box_buf(&mut b, 0, 0, 9, 1, "x", Color::Red);
    assert_eq!(b.cells, Buffer::new(10, 4).cells);
    draw_box_buf(&mut b, 0, 0, 6, 2, "x", Color::Red);
    assert_eq!(row(&b, 0), "┌────┐    ");
}

#[test]
fn bars_are_filled_from_the_left() {
    let mut b = Buffer::new(8, 1);
    draw_hbar_buf(&mut b, 1, 0, 5, 2, Color::Yellow);
    assert_eq!(row(&b, 0), " ██░░░  ");
    assert_eq!(cell(&b, 1, 0).fg, Color::Yellow);
    assert!(!cell(&b, 1, 0).dim && cell(&b, 3, 0).dim);
    draw_hbar_buf(&mut b, 1, 0, 5, 9, Color::Yellow);
    assert_eq!(row(&b, 0), " █████  ");
}

#[test]
fn graphs_have_columns() {
    let mut b = Buffer::new(5, 3);
    let columns = vec![
        Column { full: 0, part: None },
        Column { full: 0, part: Some(2) },
        Column { full: 1, part: Some(7) },
        Column { full: 3, part: None },
    ];
    draw_graph_buf(&mut b, 1, 0, 4, 3, &columns, Color::Cyan);
    assert_eq!(row(&b, 0), "    █");
    assert_eq!(row(&b, 1), "   ██");
    assert_eq!(row(&b, 2), " ▁▃██");
    assert!(cell(&b, 1, 2).dim && !cell(&b, 2, 2).dim);
    assert_eq!(cell(&b, 2, 2).fg, Color::Cyan);
    let blocks: Vec<char> = (0..10)
        .map(|e| {
            let mut b = Buffer::new(1, 1);
            draw_graph_buf(&mut b, 0, 0, 1, 1, &vec![Column { full: 0, part: Some(e) }], Color::Red);
            b.cells[0].ch
        })
        .collect();
    assert_eq!(blocks, vec!['▁', '▂', '▃', '▄', '▅', '▆', '▇', '█', '█', '█']);
    let mut b = Buffer::new(2, 2);
    draw_graph_buf(&mut b, 0, 0, 0, 2, &vec![], Color::Red);
    assert_eq!(b.cells, Buffer::new(2, 2).cells);
}

#[test]
fn commands_are_encoded() {
    assert_eq!(encode(TermOp::MoveTo(0, 0)), "\u{1b}[1;1H");
    assert_eq!(encode(TermOp::MoveTo(9, 41)), "\u{1b}[42;10H");
    assert_eq!(encode(TermOp::Attribute(Attr::Reset)), "\u{1b}[0m");
    assert_eq!(encode(TermOp::Attribute(Attr::Bold)), "\u{1b}[1m");
    assert_eq!(encode(TermOp::Attribute(Attr::Dim)), "\u{1b}[2m");
    assert_eq!(encode(TermOp::Attribute(Attr::Reverse)), "\u{1b}[7m");
    assert_eq!(encode(TermOp::ResetColor), "\u{1b}[0m");
    assert_eq!(encode(TermOp::Print('◈')), "◈");
    let colors = [
        (Color::Reset, "39"),
        (Color::DarkGrey, "38;5;8"),
        (Color::Red, "38;5;9"),
        (Color::Green, "38;5;10"),
        (Color::Yellow, "38;5;11"),
        (Color::Magenta, "38;5;13"),
        (Color::Cyan, "38;5;14"),
        (Color::White, "38;5;15"),
    ];
    for (c, code) in colors {
        let s = encode(TermOp::Foreground(c));
        assert!(s == format!("\u{1b}[{}m", code) || s == "\u{1b}[m", "{:?}", s);
    }
}

#[test]
fn only_changed_cells_are_drawn() {
    let mut a = Buffer::new(4, 2);
    let mut b = Buffer::new(4, 2);
    let end = vec![TermOp::Attribute(Attr::Reset), TermOp::ResetColor];
    assert_eq!(b.diff(&a), end);
    b.set(1, 0, 'x', Color::Red, true, false, false);
    b.set(2, 0, 'y', Color::Red, true, false, false);
    b.set(0, 1, 'z', Color::Reset, false, false, true);
    b.set(1, 1, 'w', Color::Green, false, false, true);
    let mut want = vec![
        TermOp::MoveTo(1, 0),
        TermOp::Attribute(Attr::Reset),
        TermOp::Attribute(Attr::Bold),
        TermOp::Foreground(Color::Red),
        TermOp::Print('x'),
        TermOp::Print('y'),
        TermOp::MoveTo(0, 1),
        TermOp::Attribute(Attr::Reset),
        TermOp::Attribute(Attr::Reverse),
        TermOp::Print('z'),
        TermOp::Foreground(Color::Green),
        TermOp::Print('w'),
    ];
    want.extend(end.iter().cloned());
    assert_eq!(b.diff(&a), want);
    a.set(1, 0, 'x', Color::Red, true, false, false);
    let ops = b.diff(&a);
    assert_eq!(ops[0], TermOp::MoveTo(2, 0));
    assert_eq!(Buffer::new(4, 2).diff(&b).len(), 4 + 2 + 2);
}

#[test]
fn difference_is_written_out() {
    let a = Buffer::new(3, 1);
    let mut b = Buffer::new(3, 1);
    b.set(0, 0, 'h', Color::Reset, false, true, false);
    let mut out = String::from("<");
    b.flush_diff(&a, &mut out);
    assert_eq!(out, "<\u{1b}[1;1H\u{1b}[0m\u{1b}[2mh\u{1b}[0m\u{1b}[0m");
}

fn show(screen: &mut Vec<Cell>, w: usize, ops: &Vec<TermOp>) {
    let (mut x, mut y) = (0usize, 0usize);
    let mut pen = Cell::default();
    for op in ops {
        match op {
            TermOp::MoveTo(a, b) => {
                x = *a as usize;
                y = *b as usize;
            }
            TermOp::Attribute(Attr::Reset) => pen = Cell::default(),
            TermOp::Attribute(Attr::Bold) => pen.bold = true,
            TermOp::Attribute(Attr::Dim) => pen.dim = true,
            TermOp::Attribute(Attr::Reverse) => pen.rev = true,
            TermOp::Foreground(c) => pen.fg = *c,
            TermOp::ResetColor => pen = Cell::default(),
            TermOp::Print(c) => {
                screen[y * w + x] = Cell { ch: *c, ..pen };
                x += 1;
            }
        }
    }
}

fn reading(v: f64, digits: usize) -> Reading {
    Reading { bits: v.to_bits(), text: format!("{:.*}", digits, v) }
}

fn process(pid: u32, name: &str, cpu: f64) -> Proc {
    Proc {
        pid,
        ppid: 1,
        name: name.to_string(),
        user: "a_long_user_name".to_string(),
        state: 'R',
        cpu: reading(cpu, 1),
        mem_kb: 2048,
        threads: 12,
        cmd: format!("/usr/bin/{} --flag", name),
        nice: 0,
        virt_kb: 1_048_576,
        children: vec![],
    }
}

fn state(gpu: bool) -> State {
    State {
        cores: vec![reading(12.34, 1), reading(65.0, 1), reading(100.0, 1)],
        avg: reading(59.1, 1),
        peak: "88.0".to_string(),
        net_rx: "12KB/s".to_string(),
        net_tx: "3B/s".to_string(),
        disk_r: "1.0MB/s".to_string(),
        disk_w: "0B/s".to_string(),
        mem: MemInfo {
            total: 16_777_216,
            available: 4_194_304,
            swap_total: 0,
            swap_free: 0,
            buffers: 10,
            cached: 2048,
        },
        mem_pct: reading(75.0, 1),
        swap_pct: reading(0.0, 1),
        temp: Some("48".to_string()),
        freqs: vec![2000, 3001],
        hostname: "box".to_string(),
        load1: "0.10".to_string(),
        load5: "0.20".to_string(),
        load15: "0.30".to_string(),
        uptime: 3661,
        all_procs: vec![process(7, "alpha", 1.0), process(42, "beta", 90.0), process(1234567, "gamma", 70.0)],
        gpu: if gpu {
            Some(GpuInfo {
                name: "GPU One".to_string(),
                pct: reading(81.0, 0),
                mem_used: 512,
                mem_total: 8192,
                temp: Some(reading(61.0, 0)),
            })
        } else {
            None
        },
        proc_count: 3,
    }
}

fn gauges(w: u16, h: u16, s: &State, graphs: bool) -> Gauges {
    let l = layout::layout(w, h, graphs, s.gpu.is_some(), s.cores.len());
    let flat = |n: u16| vec![Column { full: 1, part: Some(3) }; n as usize];
    let g = Gauges {
        cores: vec![1, 2, 3],
        mem: 3,
        swap: 0,
        gpu: 4,
        avg: flat(l.avg_w),
        rx: flat(l.rx_w),
        tx: flat(l.tx_w),
        read: flat(l.read_w),
        write: flat(l.write_w),
        gpu_graph: flat(l.gpu_graph_w),
    };
    assert!(g.matches(&l, s.cores.len(), s.gpu.is_some()));
    g
}

fn frame(w: u16, h: u16, gpu: bool, ui: &mut Ui, now: u64) -> Buffer {
    let mut s = state(gpu);
    assert!(s.valid());
    let display = s.prepare(ui, h);
    let g = gauges(w, h, &s, ui.show_graphs);
    let mut b = Buffer::new(w, h);
    render_to_buf(&mut b, &s, &g, ui, &display, now);
    b
}

#[test]
fn small_screens_are_left_alone() {
    for (w, h) in [(39, 50), (100, 14), (0, 0)] {
        let mut ui = Ui::new(0);
        let b = frame(w, h, false, &mut ui, 0);
        assert_eq!(b.cells, Buffer::new(w, h).cells);
        assert_eq!((ui.proc_table_y, ui.proc_table_h), (0, 0));
    }
}

#[test]
fn frame_has_header_boxes_list_and_footer() {
    let mut ui = Ui::new(0);
    let b = frame(100, 40, false, &mut ui, 0);
    let l = layout::layout(100, 40, true, false, 3);
    assert_eq!((ui.proc_table_y, ui.proc_table_h), (l.bot_y, l.bot_h));
    assert_eq!(
        row(&b, 0).trim_end(),
        " ◈ SYSMON  box 48°C  2500 MHz  ↑ 01:01:01  load 0.10 0.20 0.30  3 procs"
    );
    assert!(row(&b, 1).starts_with("┌─ CPU  59.1% 48°C ─"));
    assert!(row(&b, 1).contains("┌─ RAM  12.00GB / 16.00GB ─"));
    assert_eq!(&row(&b, 2).chars().take(30).collect::<String>(), "│ 0 █░░░░░░░░░░░░░░░░  12.3%  ");
    assert!(row(&b, 2).chars().skip(30).collect::<String>().starts_with(" 2 ███░░"));
    assert!(row(&b, 3).contains("RAM  ███░"));
    assert!(row(&b, 3).contains(" 75.0%"));
    assert!(row(&b, 5).contains("SWAP ─── none ───"));
    assert!(row(&b, 4).starts_with("│ avg 59.1%   peak 88.0%  200s history"));
    assert!(row(&b, 7).contains("Total 16.00GB"));
    assert!(row(&b, 7).contains("Cache 2MB"));
    assert!(row(&b, 8).contains("Used  12.00GB"));
    assert!(row(&b, 10).contains("Bufs  10KB"));
    assert!(row(&b, l.mid_y).starts_with("┌─ NET  ▼ 12KB/s  ▲ 3B/s ─"));
    assert!(row(&b, l.mid_y).contains("┌─ DISK  R 1.0MB/s  W 0B/s ─"));
    assert!(row(&b, l.mid_y + 1).contains("▼ RX  12KB/s"));
    assert!(row(&b, l.mid_y + 1).contains("▲ TX  3B/s"));
    assert!(row(&b, l.mid_y + 1).contains("● Read  1.0MB/s"));
    assert!(row(&b, l.mid_y + 1).contains("● Write 0B/s"));
    assert!(row(&b, l.bot_y).starts_with("┌─ PROCESSES  CPU▼  3 shown ─"));
    assert!(row(&b, l.bot_y + 1).starts_with("│  PID     NAME              USER         ST   ▼CPU%    MEM        VIRT     THR  COMMAND"));
    assert!(row(&b, l.bot_y + 2).starts_with("│──────"));
    assert_eq!(
        row(&b, l.bot_y + 3),
        "│ 42      beta              a_long_user  RUN     90.0%       2MB   1.00GB    12  /usr/bin/beta --f │"
    );
    assert_eq!(
        row(&b, l.bot_y + 4),
        "│ 1234567 gamma             a_long_user  RUN     70.0%       2MB   1.00GB    12  /usr/bin/gamma -- │"
    );
    assert!(cell(&b, 2, l.bot_y + 3).rev);
    assert!(!cell(&b, 2, l.bot_y + 4).rev);
    assert_eq!(cell(&b, 48, l.bot_y + 4).fg, Color::Yellow);
    assert_eq!(cell(&b, 60, l.bot_y + 4).fg, Color::Reset);
    assert_eq!(
        row(&b, 39).trim_end(),
        " [/]search  [k]kill  [F9]sig  [t]tree  [g]graphs  [↑↓]scroll  [?]help  [q]quit"
    );
    assert_eq!(cell(&b, 1, 39).fg, Color::DarkGrey);
    assert_eq!(cell(&b, 1, 0).fg, Color::Cyan);
}

#[test]
fn graphics_processor_has_a_box() {
    let mut ui = Ui::new(0);
    let b = frame(110, 40, true, &mut ui, 0);
    let l = layout::layout(110, 40, true, true, 3);
    assert!(row(&b, l.mid_y).contains("┌─ GPU 81% ─"));
    assert!(row(&b, l.mid_y + 1).contains("│ GPU One  "));
    assert!(row(&b, l.mid_y + 2).contains("│ ████░"));
    assert!(row(&b, l.mid_y + 3).contains("│ 512MB/8.00GB"));
    assert!(row(&b, l.mid_y + 4).contains("│ 61°C"));
    assert_eq!(cell(&b, l.gpu_x + 2, l.mid_y + 4).fg, Color::Yellow);
    assert_eq!(cell(&b, l.gpu_x + 2, l.mid_y + 2).fg, Color::Red);
}

#[test]
fn swap_space_has_a_bar() {
    let mut s = state(false);
    s.mem.swap_total = 1000;
    s.mem.swap_free = 100;
    s.swap_pct = reading(90.0, 1);
    let mut ui = Ui::new(0);
    let display = s.prepare(&mut ui, 40);
    let mut g = gauges(100, 40, &s, true);
    g.swap = 20;
    let mut b = Buffer::new(100, 40);
    render_to_buf(&mut b, &s, &g, &mut ui, &display, 0);
    assert!(row(&b, 5).contains("SWAP ████████████████████░░░░  90.0%"));
    assert!(row(&b, 9).contains("SwpU  900KB"));
    assert_eq!(cell(&b, 67, 5).fg, Color::Red);
}

#[test]
fn list_without_graphs_fills_the_screen() {
    let mut ui = Ui::new(0);
    ui.show_graphs = false;
    ui.tree_view = true;
    let b = frame(90, 20, false, &mut ui, 0);
    assert_eq!((ui.proc_table_y, ui.proc_table_h), (1, 18));
    assert!(row(&b, 0).trim_end().ends_with("3 procs [TREE]"));
    assert!(row(&b, 1).starts_with("┌─ PROCESSES  CPU▼  3 shown ─"));
    assert!(row(&b, 4).starts_with("│ 7       alpha"));
    assert!(row(&b, 5).starts_with("│ 42      beta"));
    assert!(row(&b, 18).starts_with("└──"));
}

#[test]
fn footer_follows_the_mode() {
    let cases = [
        (UiMode::Search, " Search: et_  [Enter] confirm  [Esc] cancel", Color::Yellow),
        (
            UiMode::Help,
            " [/]search [k]kill [F9]signal [t]tree [g]graphs [r]reverse [c/m/p/n/u]sort [?]help [q]quit",
            Color::Cyan,
        ),
        (UiMode::Kill, " Kill PID 42 with SIGTERM? [y]yes  [n]cancel  [F9]choose signal", Color::Red),
        (
            UiMode::Signal,
            " Signal: [1]HUP [2]INT [3]QUIT [9]KILL [15]TERM — type number then Enter",
            Color::Red,
        ),
    ];
    for (mode, want, color) in cases {
        let mut ui = Ui::new(0);
        ui.mode = mode;
        ui.search = "et".to_string();
        let b = frame(100, 30, false, &mut ui, 0);
        assert_eq!(row(&b, 29).trim_end(), want);
        assert_eq!(cell(&b, 1, 29).fg, color);
        assert!(cell(&b, 1, 29).bold);
    }
    let mut ui = Ui::new(0);
    ui.set_status("Sent".to_string(), 10);
    let b = frame(100, 30, false, &mut ui, 20);
    assert_eq!(row(&b, 29).trim_end(), " ✓ Sent");
    assert_eq!(cell(&b, 1, 29).fg, Color::Green);
    let b = frame(100, 30, false, &mut ui, 10 + 3_000_000_000);
    assert!(row(&b, 29).starts_with(" [/]search  [k]kill"));
    let mut ui = Ui::new(0);
    ui.mode = UiMode::Kill;
    ui.search = "nothing".to_string();
    let b = frame(100, 30, false, &mut ui, 0);
    assert!(row(&b, 29).starts_with(" Kill PID 0 with"));
}

#[test]
fn search_and_order_shape_the_list() {
    let mut ui = Ui::new(0);
    ui.search = "GAM".to_string();
    ui.sort_col = SortCol::Name;
    ui.sort_asc = true;
    ui.selected = 9;
    let b = frame(100, 40, false, &mut ui, 0);
    let y = ui.proc_table_y;
    assert!(row(&b, y).starts_with("┌─ PROCESSES [/GAM]  NAME▲  1 shown ─"));
    assert!(row(&b, y + 1).contains("▲NAME"));
    assert!(row(&b, y + 3).starts_with("│ 1234567 gamma"));
    assert!(row(&b, y + 4).starts_with("│     "));
    assert_eq!((ui.selected, ui.scroll), (0, 0));
}

#[test]
fn scrolled_list_shows_the_selection() {
    let mut s = state(false);
    s.all_procs = (0..50).map(|i| process(i, "p", i as f64)).collect();
    let mut ui = Ui::new(0);
    ui.sort_col = SortCol::Pid;
    ui.sort_asc = true;
    ui.selected = 30;
    let display = s.prepare(&mut ui, 40);
    let g = gauges(100, 40, &s, true);
    let mut b = Buffer::new(100, 40);
    render_to_buf(&mut b, &s, &g, &mut ui, &display, 0);
    let vis = layout::compute_vis(40, true);
    assert_eq!(ui.scroll, 30 - vis + 1);
    let y = ui.proc_table_y + 3 + (vis as u16 - 1);
    assert!(row(&b, y).starts_with("│ 30 "));
    assert!(cell(&b, 2, y).rev);
    assert!(row(&b, y + 1).starts_with("└──"));
    assert!(row(&b, ui.proc_table_y + 3).starts_with(&format!("│ {} ", 30 - vis + 1)));
}

#[test]
fn drawn_frames_appear_on_the_screen() {
    let (w, h) = (100u16, 40u16);
    let mut prev = Buffer::unpainted(w, h);
    let mut screen = prev.cells.clone();
    for k in 0..6 {
        let mut ui = Ui::new(0);
        ui.selected = k % 3;
        ui.show_graphs = k != 2;
        ui.tree_view = k == 3;
        ui.mode = if k == 4 { UiMode::Kill } else { UiMode::Normal };
        let b = frame(w, h, k % 2 == 1, &mut ui, 0);
        let ops = b.diff(&prev);
        show(&mut screen, w as usize, &ops);
        assert!(screen == b.cells, "{}", k);
        prev = b;
    }
}

#[test]
fn odd_sizes_are_drawn() {
    for (w, h) in [(40, 15), (41, 16), (40, 200), (300, 15), (83, 27), (61, 31)] {
        for gpu in [false, true] {
            let mut ui = Ui::new(0);
            let b = frame(w, h, gpu, &mut ui, 0);
            assert!(row(&b, 0).starts_with(" ◈ SYSMON"));
            assert!(row(&b, h - 1).starts_with(" [/]search"));
            assert_eq!(ui.proc_table_y + ui.proc_table_h, h - 1);
        }
    }
}

#[test]
fn states_that_cannot_be_shown_are_told() {
    assert!(state(true).valid());
    let mut s = state(true);
    s.mem_pct.text = "1000.0".to_string();
    assert!(!s.valid());
    let mut s = state(true);
    s.freqs = vec![u64::MAX, 1];
    assert!(!s.valid());
    let mut s = state(true);
    s.net_rx = "9".repeat(401);
    assert!(!s.valid());
    let mut s = state(true);
    s.all_procs[0].cpu.text = "9".repeat(401);
    assert!(!s.valid());
    let mut s = state(true);
    s.cores[2].text = "9".repeat(401);
    assert!(!s.valid());
    let mut s = state(true);
    if let Some(g) = &mut s.gpu {
        g.mem_total = u64::MAX / 1024 + 1;
    }
    assert!(!s.valid());
    let s = state(true);
    let l = layout::layout(100, 40, true, true, 3);
    let mut g = gauges(100, 40, &s, true);
    g.rx.pop();
    assert!(!g.matches(&l, 3, true));
}

#[test]
fn clicks_select_what_is_shown() {
    let mut s = state(false);
    s.all_procs = (0..50).map(|i| process(i, "p", i as f64)).collect();
    let mut ui = Ui::new(0);
    ui.selected = 30;
    let display = s.prepare(&mut ui, 40);
    let g = gauges(100, 40, &s, true);
    let mut b = Buffer::new(100, 40);
    render_to_buf(&mut b, &s, &g, &mut ui, &display, 0);
    for y in 0..40u16 {
        let mut u = Ui::new(0);
        u.selected = ui.selected;
        u.scroll = ui.scroll;
        u.proc_table_y = ui.proc_table_y;
        u.proc_table_h = ui.proc_table_h;
        let ev = Event::Mouse { kind: MouseKind::LeftDown, row: y, column: 50 };
        assert!(can_handle(ev, 50, &u, &display, 10));
        handle_input(ev, &s.all_procs, &mut u, &display, 10);
        let shown: Option<u32> = if y > ui.proc_table_y + 2 && y < ui.proc_table_y + ui.proc_table_h - 1 {
            row(&b, y).chars().skip(2).take(7).collect::<String>().trim().parse().ok()
        } else {
            None
        };
        match shown {
            Some(pid) => {
                assert_eq!(s.all_procs[display[u.selected]].pid, pid);
                assert_eq!(u.mode == UiMode::Kill, u.selected == ui.selected);
            }
            None => assert_eq!((u.selected, u.mode), (ui.selected, UiMode::Normal)),
        }
    }
}

#[test]
fn footer_names_the_target() {
    let mut s = state(false);
    let mut ui = Ui::new(0);
    ui.selected = 2;
    let display = s.prepare(&mut ui, 40);
    let kill = Event::Key { code: KeyCode::Char('k'), ctrl: false };
    handle_input(kill, &s.all_procs, &mut ui, &display, 10);
    let g = gauges(100, 40, &s, true);
    let mut b = Buffer::new(100, 40);
    render_to_buf(&mut b, &s, &g, &mut ui, &display, 0);
    let yes = Event::Key { code: KeyCode::Char('y'), ctrl: false };
    let action = handle_input(yes, &s.all_procs, &mut ui, &display, 10);
    assert_eq!(action, Action::Signal { pid: 7, sig: 15 });
    assert!(row(&b, 39).starts_with(" Kill PID 7 with SIGTERM?"));
}

#[test]
fn colour_codes_are_passed_on() {
    let code = "\u{1b}[35m".to_string();
    assert_eq!(encode_with(TermOp::Foreground(Color::Red), code.clone()), code);
    assert_eq!(encode_with(TermOp::Print('x'), code), "x");
}

#[test]
fn new_sizes_are_unpainted() {
    let b = Buffer::new(4, 3);
    assert!(b.resized(4, 3).is_none());
    for (w, h) in [(5, 3), (4, 2), (3, 4)] {
        let r = b.resized(w, h).unwrap();
        assert_eq!((r.w, r.h), (w, h));
        assert!(r.cells == Buffer::unpainted(w, h).cells);
    }
}

#[test]
fn characters_appear_without_colours() {
    let (w, h) = (100u16, 40u16);
    let prev = Buffer::unpainted(w, h);
    let mut ui = Ui::new(0);
    let b = frame(w, h, true, &mut ui, 0);
    let ops: Vec<TermOp> = b
        .diff(&prev)
        .iter()
        .map(|op| match op {
            TermOp::Foreground(_) => TermOp::Attribute(Attr::Reset),
            other => *other,
        })
        .collect();
    let mut screen = prev.cells.clone();
    show(&mut screen, w as usize, &ops);
    assert!(screen.iter().zip(b.cells.iter()).all(|(s, c)| s.ch == c.ch));
}

#[test]
fn only_the_selected_row_is_reversed() {
    for k in 0..3usize {
        for gpu in [false, true] {
            let mut ui = Ui::new(0);
            ui.selected = k;
            let b = frame(110, 40, gpu, &mut ui, 0);
            let y = ui.proc_table_y + 3 + k as u16;
            for r in 0..40u16 {
                let reversed = (0..110u16).any(|x| cell(&b, x, r).rev);
                assert_eq!(reversed, r == y);
            }
        }
    }
}
