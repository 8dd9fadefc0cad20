//! A whole frame.
use vstd::prelude::*;

use crate::buffer::{blank, boxed, print, shown, styled, uniform};
use crate::buffer::{Buffer, Canvas, Cell, Color, Style};
use crate::draw::Column;
use crate::draw::{bar_cells, bar_on, border, box_on, bright, colored, dimmed};
use crate::draw::{graph_cells, graph_on, paint, title_of};
use crate::input::{clicked, heading_at, step, takes, target_of};
use crate::input::{Action, Event};
use crate::layout;
use crate::layout::{frame, half_of, visible_rows};
use crate::layout::{law_list_has_the_visible_rows, law_parts_fill_the_screen};
use crate::layout::{Frame, MIN_H, MIN_W, TOP_Y};
use crate::notation::{mem_text, state_color, state_text, up_text};
use crate::number;
use crate::number::{decimal_of, rest};
use crate::panels::{cores_on, detail_of, detail_place, details_on, flows_on, percent, temp_text};
use crate::panels::{cpu_on, disk_on, gpu_on, header_on, header_text, net_on, ram_on};
use crate::panels::{draw_cpu, draw_disk, draw_gpu, draw_header, draw_net, draw_ram, Gauges};
use crate::process::{label_of, within};
use crate::process::{Proc, SortCol};
use crate::reading::load_color;
use crate::reading::Reading;
use crate::state::used_of;
use crate::sensors::mean_of;
use crate::state::short;
use crate::state::{GpuInfo, State};
use crate::stats::MemInfo;
use crate::table::draw_table;
use crate::table::{heading_on, heading_place, heading_style, heading_text, headings_on};
use crate::table::{in_row, lemma_heading_len, list_title, row_count, row_on, rows_on, table_on};
use crate::table::unless_selected;
use crate::term::Terminal;
use crate::term::law_characters_do_not_need_colors;
use crate::term::{all_colored, diff_of, is_colored, replay, replay_either, reset_pen, same_chars};
use crate::term::{law_colored_cells_keep_their_attrs, law_diff_shows_the_frame};
use crate::text::{left_of, right_of, run, take_of};
use crate::ui::status_fresh;
use crate::ui::{Ui, UiMode, UiModel};

verus! {

/// The number of the selected process, or zero.
pub open spec fn selected_pid(procs: Seq<Proc>, display: Seq<usize>, selected: int) -> u32 {
    if 0 <= selected < display.len() {
        procs[display[selected] as int].pid
    } else {
        0
    }
}

/// What the footer says: how to go on in the present mode, or what has just
/// happened.
pub open spec fn footer_text(
    u: UiModel,
    procs: Seq<Proc>,
    display: Seq<usize>,
    now: int,
) -> Seq<char> {
    match u.mode {
        UiMode::Search => " Search: "@ + u.search + "_  [Enter] confirm  [Esc] cancel"@,
        UiMode::Help =>
            " [/]search [k]kill [F9]signal [t]tree [g]graphs [r]reverse [c/m/p/n/u]sort [?]help [q]quit"@,
        UiMode::Kill => " Kill PID "@ + decimal_of(
            selected_pid(procs, display, u.selected) as nat,
        ) + " with SIGTERM? [y]yes  [n]cancel  [F9]choose signal"@,
        UiMode::Signal =>
            " Signal: [1]HUP [2]INT [3]QUIT [9]KILL [15]TERM — type number then Enter"@,
        UiMode::Normal => if status_fresh(u, now) {
            " ✓ "@ + u.status_msg
        } else {
            " [/]search  [k]kill  [F9]sig  [t]tree  [g]graphs  [↑↓]scroll  [?]help  [q]quit"@
        },
    }
}

/// The colour of the footer.
pub open spec fn footer_color(u: UiModel, now: int) -> Color {
    match u.mode {
        UiMode::Kill => Color::Red,
        UiMode::Signal => Color::Red,
        UiMode::Search => Color::Yellow,
        UiMode::Help => Color::Cyan,
        UiMode::Normal => if status_fresh(u, now) {
            Color::Green
        } else {
            Color::DarkGrey
        },
    }
}

fn footer(ui: &Ui, procs: &Vec<Proc>, display: &Vec<usize>, now: u64) -> (r: (String, Color))
    requires
        within(display@, procs@.len()),
    ensures
        r.0@ == footer_text(ui@, procs@, display@, now as int),
        r.1 == footer_color(ui@, now as int),
{
    match ui.mode {
        UiMode::Search => {
            let mut t: String = " Search: ".to_owned();
            t.append(ui.search.as_str());
            t.append("_  [Enter] confirm  [Esc] cancel");
            (t, Color::Yellow)
        },
        UiMode::Help => (
            " [/]search [k]kill [F9]signal [t]tree [g]graphs [r]reverse [c/m/p/n/u]sort [?]help [q]quit".to_owned(),
            Color::Cyan,
        ),
        UiMode::Kill => {
            let pid: u32 = if ui.selected < display.len() {
                assert(display@[ui.selected as int] < procs@.len());
                procs[display[ui.selected]].pid
            } else {
                0
            };
            let mut t: String = " Kill PID ".to_owned();
            t.append(number::decimal(pid as u64).as_str());
            t.append(" with SIGTERM? [y]yes  [n]cancel  [F9]choose signal");
            (t, Color::Red)
        },
        UiMode::Signal => (
            " Signal: [1]HUP [2]INT [3]QUIT [9]KILL [15]TERM — type number then Enter".to_owned(),
            Color::Red,
        ),
        UiMode::Normal => {
            if ui.shows_status(now) {
                let mut t: String = " ✓ ".to_owned();
                t.append(ui.status_msg.as_str());
                (t, Color::Green)
            } else {
                (
                    " [/]search  [k]kill  [F9]sig  [t]tree  [g]graphs  [↑↓]scroll  [?]help  [q]quit".to_owned(),
                    Color::DarkGrey,
                )
            }
        },
    }
}

/// A grid with all the boxes above the list.
#[verifier::opaque]
pub open spec fn boxes_on(g: Seq<Seq<Cell>>, s: State, gz: Gauges, f: Frame) -> Seq<Seq<Cell>> {
    let g1 = cpu_on(g, s, gz, f);
    let g2 = ram_on(g1, s, gz, f);
    let g3 = net_on(g2, s, gz, f);
    let g4 = disk_on(g3, s, gz, f);
    match s.gpu {
        Some(gpu) => gpu_on(g4, gpu, gz.gpu as int, gz.gpu_graph@, f),
        None => g4,
    }
}

/// There is room for a frame.
pub open spec fn large_enough(tw: int, th: int) -> bool {
    tw >= MIN_W && th >= MIN_H
}

/// The parts of the frame that a state is shown in.
pub open spec fn frame_of(tw: int, th: int, s: State, u: UiModel) -> Frame {
    frame(tw, th, u.show_graphs, s.gpu is Some, s.cores@.len() as int)
}

/// A grid of `tw` columns and `th` rows with a frame drawn over it; on a screen
/// that is too small nothing is drawn.
pub open spec fn rendered(
    g: Seq<Seq<Cell>>,
    tw: int,
    th: int,
    s: State,
    gz: Gauges,
    u: UiModel,
    display: Seq<usize>,
    now: int,
) -> Seq<Seq<Cell>> {
    if !large_enough(tw, th) {
        g
    } else {
        let f = frame_of(tw, th, s, u);
        let g1 = header_on(g, tw, s, u.tree_view);
        let g2 = if u.show_graphs {
            boxes_on(g1, s, gz, f)
        } else {
            g1
        };
        let g3 = table_on(g2, tw, s.all_procs@, u, display, f);
        print(
            g3,
            0,
            th - 1,
            boxed(footer_text(u, s.all_procs@, display, now), tw),
            bright(footer_color(u, now)),
        )
    }
}

/// What the user sees remembers where the list stands.
pub open spec fn placed(u: UiModel, tw: int, th: int, s: State) -> UiModel {
    if large_enough(tw, th) {
        let f = frame_of(tw, th, s, u);
        UiModel { proc_table_y: f.bot_y, proc_table_h: f.bot_h, ..u }
    } else {
        u
    }
}

/// Draws a frame.
pub fn render_to_buf(
    buf: &mut Buffer,
    s: &State,
    gz: &Gauges,
    ui: &mut Ui,
    display: &Vec<usize>,
    now: u64,
)
    requires
        old(buf).wf(),
        large_enough(old(buf).w as int, old(buf).h as int) ==> {
            &&& s.wf()
            &&& within(display@, s.all_procs@.len())
            &&& old(ui).show_graphs ==> gz.fills(
                frame_of(old(buf).w as int, old(buf).h as int, *s, old(ui)@),
                s.cores@.len() as int,
                s.gpu is Some,
            )
        },
    ensures
        final(buf).wf(),
        final(buf).w == old(buf).w,
        final(buf).h == old(buf).h,
        final(buf)@ == rendered(
            old(buf)@,
            old(buf).w as int,
            old(buf).h as int,
            *s,
            *gz,
            old(ui)@,
            display@,
            now as int,
        ),
        final(ui)@ == placed(old(ui)@, old(buf).w as int, old(buf).h as int, *s),
{
    let tw: u16 = buf.w;
    let th: u16 = buf.h;
    if tw < MIN_W || th < MIN_H {
        return ;
    }
    let l = layout::layout(tw, th, ui.show_graphs, s.gpu.is_some(), s.cores.len());
    draw_header(buf, s, ui.tree_view);
    proof {
        reveal(boxes_on);
    }
    if ui.show_graphs {
        draw_cpu(buf, s, gz, &l);
        draw_ram(buf, s, gz, &l);
        draw_net(buf, s, gz, &l);
        draw_disk(buf, s, gz, &l);
        if let Some(gpu) = &s.gpu {
            draw_gpu(buf, gpu, s, gz, &l);
        }
    }
    draw_table(buf, &s.all_procs, ui, display, &l);
    let (t, c) = footer(ui, &s.all_procs, display, now);
    Canvas::new(buf).fg(c).bold().print_truncated(0, th - 1, t.as_str(), tw);
    ui.proc_table_y = l.bot_y;
    ui.proc_table_h = l.bot_h;
}

/// What is drawn on a grid leaves its size and its first row as they are, and
/// brings no attributes without a colour.
spec fn drawn_below(g: Seq<Seq<Cell>>, h: Seq<Seq<Cell>>) -> bool {
    &&& g.len() == h.len()
    &&& forall|r: int| 0 <= r < g.len() ==> (#[trigger] h[r]).len() == g[r].len()
    &&& g.len() > 0 ==> h[0] == g[0]
    &&& all_colored(g) ==> all_colored(h)
}

/// No cell has its colours exchanged but in one row.
pub open spec fn reversed_only(g: Seq<Seq<Cell>>, row: int) -> bool {
    forall|r: int, c: int|
        0 <= r < g.len() && 0 <= c < g[r].len() && r != row ==> !(#[trigger] g[r][c]).rev
}

/// As `drawn_below`, and it brings no cells with their colours exchanged.
spec fn drawn_plain(g: Seq<Seq<Cell>>, h: Seq<Seq<Cell>>) -> bool {
    drawn_below(g, h) && (reversed_only(g, -1) ==> reversed_only(h, -1))
}

proof fn lemma_print_plain(
    g: Seq<Seq<Cell>>,
    x: int,
    y: int,
    t: Seq<char>,
    st: Style,
    row: int,
)
    requires
        !st.rev,
        reversed_only(g, row),
    ensures
        reversed_only(print(g, x, y, t, st), row),
{
    let h = print(g, x, y, t, st);
    assert forall|r: int, c: int|
        0 <= r < h.len() && 0 <= c < h[r].len() && r != row implies !(#[trigger] h[r][c]).rev by {
        assert(!g[r][c].rev);
    }
}

/// A style with attributes has a colour of its own.
spec fn colors(st: Style) -> bool {
    is_colored(styled(' ', st))
}

proof fn lemma_print_colors(g: Seq<Seq<Cell>>, x: int, y: int, t: Seq<char>, st: Style)
    requires
        colors(st),
        all_colored(g),
    ensures
        all_colored(print(g, x, y, t, st)),
{
    let h = print(g, x, y, t, st);
    assert forall|r: int, c: int| 0 <= r < h.len() && 0 <= c < h[r].len() implies is_colored(
        #[trigger] h[r][c],
    ) by {
        assert(is_colored(g[r][c]));
    }
}

proof fn lemma_print_below(g: Seq<Seq<Cell>>, x: int, y: int, t: Seq<char>, st: Style)
    requires
        y >= 1,
        colors(st),
        !st.rev,
    ensures
        drawn_plain(g, print(g, x, y, t, st)),
{
    if reversed_only(g, -1) {
        lemma_print_plain(g, x, y, t, st, -1);
    }
    if all_colored(g) {
        lemma_print_colors(g, x, y, t, st);
    }
}

proof fn lemma_paint_below(
    g: Seq<Seq<Cell>>,
    x: int,
    y: int,
    w: int,
    h: int,
    f: spec_fn(int, int) -> Option<Cell>,
)
    requires
        y >= 1,
        forall|i: int, j: int| #[trigger] f(i, j) matches Some(c) ==> is_colored(c) && !c.rev,
    ensures
        drawn_plain(g, paint(g, x, y, w, h, f)),
{
    let p = paint(g, x, y, w, h, f);
    if g.len() > 0 {
        assert(p[0] =~= g[0]);
    }
    if all_colored(g) {
        assert forall|r: int, c: int| 0 <= r < p.len() && 0 <= c < p[r].len() implies is_colored(
            #[trigger] p[r][c],
        ) by {
            assert(is_colored(g[r][c]));
            let k = f(c - x, r - y);
        }
    }
    if reversed_only(g, -1) {
        assert forall|r: int, c: int|
            0 <= r < p.len() && 0 <= c < p[r].len() && r != -1 implies !(#[trigger] p[r][c]).rev by {
            assert(!g[r][c].rev);
            let k = f(c - x, r - y);
        }
    }
}

proof fn lemma_box_below(
    g: Seq<Seq<Cell>>,
    x: int,
    y: int,
    w: int,
    h: int,
    title: Seq<char>,
    tc: Color,
)
    requires
        y >= 1,
        tc != Color::Reset,
    ensures
        drawn_plain(g, box_on(g, x, y, w, h, title, tc)),
{
    lemma_paint_below(g, x, y, w, h, border(w, h));
    let framed = paint(g, x, y, w, h, border(w, h));
    lemma_print_below(framed, x + 2, y, title_of(title, w), bright(tc));
}

proof fn lemma_cores_below(
    g: Seq<Seq<Cell>>,
    cores: Seq<Reading>,
    fills: Seq<u16>,
    f: Frame,
    n: int,
)
    requires
        n <= cores.len(),
    ensures
        drawn_plain(g, cores_on(g, cores, fills, f, n)),
    decreases n,
{
    if n > 0 {
        lemma_cores_below(g, cores, fills, f, n - 1);
        let a = cores_on(g, cores, fills, f, n - 1);
        let half = half_of(cores.len() as int);
        let i = n - 1;
        let (bx, row) = if i < half {
            (1, i % 0x1_0000)
        } else {
            (1 + f.core_w, (i - half) % 0x1_0000)
        };
        let y = TOP_Y + 1 + row;
        let c = load_color(cores[i].bits);
        let t = right_of(decimal_of(i as nat), 2) + " "@;
        lemma_print_below(a, bx, y, t, dimmed());
        let b = print(a, bx, y, t, dimmed());
        lemma_paint_below(b, bx + 3, y, f.core_bar_w, 1, bar_cells(fills[i] as int, c));
        let d = bar_on(b, bx + 3, y, f.core_bar_w, fills[i] as int, c);
        let share = percent(right_of(cores[i].text@, 5));
        lemma_print_below(d, bx + 4 + f.core_bar_w, y, share, colored(c));
    }
}

proof fn lemma_cpu_below(g: Seq<Seq<Cell>>, s: State, gz: Gauges, f: Frame)
    requires
        f.core_rows >= 0,
    ensures
        drawn_plain(g, cpu_on(g, s, gz, f)),
{
    let c = load_color(s.avg.bits);
    let title = "CPU  "@ + percent(s.avg.text@) + temp_text(s.temp);
    let y = TOP_Y + 1 + f.core_rows;
    let n = s.cores@.len() as int;
    lemma_box_below(g, 0, TOP_Y as int, f.cpu_w, f.top_h, title, c);
    let g1 = box_on(g, 0, TOP_Y as int, f.cpu_w, f.top_h, title, c);
    lemma_cores_below(g1, s.cores@, gz.cores@, f, n);
    let g2 = cores_on(g1, s.cores@, gz.cores@, f, n);
    lemma_print_below(g2, 2, y, "avg "@, dimmed());
    let g3 = print(g2, 2, y, "avg "@, dimmed());
    lemma_print_below(g3, 6, y, percent(s.avg.text@), bright(c));
    let g4 = print(g3, 6, y, percent(s.avg.text@), bright(c));
    lemma_print_below(g4, 14, y, "peak "@ + s.peak@ + "%  200s history"@, dimmed());
    let g5 = print(g4, 14, y, "peak "@ + s.peak@ + "%  200s history"@, dimmed());
    lemma_paint_below(g5, 1, y + 1, f.avg_w, f.avg_h, graph_cells(gz.avg@, f.avg_h, c));
}

proof fn lemma_details_below(
    g: Seq<Seq<Cell>>,
    m: MemInfo,
    mc: Color,
    sc: Color,
    f: Frame,
    i: int,
)
    requires
        i >= 0,
    ensures
        drawn_plain(g, details_on(g, m, mc, sc, f, i)),
    decreases 7 - i,
{
    let (x, y) = detail_place(f, i);
    if i < 7 && y < TOP_Y + f.top_h - 1 {
        let (label, kb, c) = detail_of(m, mc, sc, i);
        lemma_print_below(g, x, y, left_of(label, 6), dimmed());
        let g1 = print(g, x, y, left_of(label, 6), dimmed());
        lemma_print_below(g1, x + 6, y, mem_text(kb as nat), colored(c));
        let g2 = print(g1, x + 6, y, mem_text(kb as nat), colored(c));
        lemma_details_below(g2, m, mc, sc, f, i + 1);
    }
}

proof fn lemma_ram_below(g: Seq<Seq<Cell>>, s: State, gz: Gauges, f: Frame)
    ensures
        drawn_plain(g, ram_on(g, s, gz, f)),
{
    let mc = load_color(s.mem_pct.bits);
    let sc = load_color(s.swap_pct.bits);
    let title = "RAM  "@ + mem_text(used_of(s.mem) as nat) + " / "@ + mem_text(s.mem.total as nat);
    let x = f.cpu_w + 2;
    let (y1, y2) = (TOP_Y + 2, TOP_Y + 4);
    let w = f.mem_bar_w;
    lemma_box_below(g, f.cpu_w, TOP_Y as int, f.ram_w, f.top_h, title, mc);
    let g1 = box_on(g, f.cpu_w, TOP_Y as int, f.ram_w, f.top_h, title, mc);
    lemma_print_below(g1, x, y1, "RAM  "@, dimmed());
    let g2 = print(g1, x, y1, "RAM  "@, dimmed());
    lemma_paint_below(g2, x + 5, y1, w, 1, bar_cells(gz.mem as int, mc));
    let g3 = bar_on(g2, x + 5, y1, w, gz.mem as int, mc);
    lemma_print_below(g3, x + 6 + w, y1, percent(right_of(s.mem_pct.text@, 5)), colored(mc));
    let g4 = print(g3, x + 6 + w, y1, percent(right_of(s.mem_pct.text@, 5)), colored(mc));
    lemma_print_below(g4, x, y2, "SWAP "@, dimmed());
    let g5 = print(g4, x, y2, "SWAP "@, dimmed());
    let bar = bar_on(g5, x + 5, y2, w, gz.swap as int, sc);
    let share = percent(right_of(s.swap_pct.text@, 5));
    lemma_paint_below(g5, x + 5, y2, w, 1, bar_cells(gz.swap as int, sc));
    lemma_print_below(bar, x + 6 + w, y2, share, colored(sc));
    lemma_print_below(g5, x + 5, y2, "─── none ───"@, dimmed());
    let g6 = if s.mem.swap_total > 0 {
        print(bar, x + 6 + w, y2, share, colored(sc))
    } else {
        print(g5, x + 5, y2, "─── none ───"@, dimmed())
    };
    lemma_details_below(g6, s.mem, mc, sc, f, 0);
}

proof fn lemma_flows_below(
    g: Seq<Seq<Cell>>,
    x: int,
    w: int,
    title: Seq<char>,
    tc: Color,
    a: (Seq<char>, int, Seq<Column>, Color),
    b: (Seq<char>, int, Seq<Column>, Color),
    f: Frame,
)
    requires
        f.mid_y >= 1,
        tc != Color::Reset,
    ensures
        drawn_plain(g, flows_on(g, x, w, title, tc, a, b, f)),
{
    let y = f.mid_y;
    lemma_box_below(g, x, y, w, f.mid_h, title, tc);
    let g1 = box_on(g, x, y, w, f.mid_h, title, tc);
    lemma_print_below(g1, x + 2, y + 1, a.0, colored(a.3));
    let g2 = print(g1, x + 2, y + 1, a.0, colored(a.3));
    lemma_print_below(g2, x + 3 + a.1, y + 1, b.0, colored(b.3));
    let g3 = print(g2, x + 3 + a.1, y + 1, b.0, colored(b.3));
    lemma_paint_below(g3, x + 1, y + 2, a.1, f.flow_h, graph_cells(a.2, f.flow_h, a.3));
    let g4 = graph_on(g3, x + 1, y + 2, a.1, f.flow_h, a.2, a.3);
    lemma_paint_below(g4, x + 2 + a.1, y + 2, b.1, f.flow_h, graph_cells(b.2, f.flow_h, b.3));
}

proof fn lemma_gpu_below(
    g: Seq<Seq<Cell>>,
    gpu: GpuInfo,
    fill: int,
    columns: Seq<Column>,
    f: Frame,
)
    requires
        f.mid_y >= 1,
        f.mid_h - f.gpu_graph_h - 1 >= 0,
    ensures
        drawn_plain(g, gpu_on(g, gpu, fill, columns, f)),
{
    let c = load_color(gpu.pct.bits);
    let (x, y) = (f.gpu_x + 2, f.mid_y);
    let h = f.gpu_graph_h;
    let title = "GPU "@ + percent(gpu.pct.text@);
    lemma_box_below(g, f.gpu_x, y, f.gpu_w, f.mid_h, title, c);
    let g1 = box_on(g, f.gpu_x, y, f.gpu_w, f.mid_h, title, c);
    lemma_print_below(g1, x, y + 1, boxed(gpu.name@, f.gpu_bar_w), dimmed());
    let g2 = print(g1, x, y + 1, boxed(gpu.name@, f.gpu_bar_w), dimmed());
    lemma_paint_below(g2, x, y + 2, f.gpu_bar_w, 1, bar_cells(fill, c));
    let g3 = bar_on(g2, x, y + 2, f.gpu_bar_w, fill, c);
    let mem = mem_text((gpu.mem_used * 1024) as nat) + "/"@ + mem_text(
        (gpu.mem_total * 1024) as nat,
    );
    lemma_print_below(g3, x, y + 3, mem, colored(Color::Cyan));
    let g4 = print(g3, x, y + 3, mem, colored(Color::Cyan));
    if let Some(t) = gpu.temp {
        lemma_print_below(g4, x, y + 4, t.text@ + "°C"@, colored(load_color(t.bits)));
    }
    let g5 = match gpu.temp {
        Some(t) => print(g4, x, y + 4, t.text@ + "°C"@, colored(load_color(t.bits))),
        None => g4,
    };
    assert(drawn_plain(g4, g5));
    lemma_paint_below(
        g5,
        f.gpu_x + 1,
        y + f.mid_h - h - 1,
        f.gpu_graph_w,
        h,
        graph_cells(columns, h, c),
    );
}

proof fn lemma_boxes_below(g: Seq<Seq<Cell>>, s: State, gz: Gauges, f: Frame)
    requires
        f.core_rows >= 0,
        f.mid_y >= 1,
        f.mid_h - f.gpu_graph_h - 1 >= 0,
    ensures
        drawn_plain(g, boxes_on(g, s, gz, f)),
{
    reveal(boxes_on);
    lemma_cpu_below(g, s, gz, f);
    let g1 = cpu_on(g, s, gz, f);
    lemma_ram_below(g1, s, gz, f);
    let g2 = ram_on(g1, s, gz, f);
    lemma_flows_below(
        g2,
        0,
        f.net_w,
        "NET  ▼ "@ + s.net_rx@ + "  ▲ "@ + s.net_tx@,
        Color::Cyan,
        ("▼ RX  "@ + s.net_rx@, f.rx_w, gz.rx@, Color::Green),
        ("▲ TX  "@ + s.net_tx@, f.tx_w, gz.tx@, Color::Yellow),
        f,
    );
    let g3 = net_on(g2, s, gz, f);
    lemma_flows_below(
        g3,
        f.net_w,
        f.disk_w,
        "DISK  R "@ + s.disk_r@ + "  W "@ + s.disk_w@,
        Color::Yellow,
        ("● Read  "@ + s.disk_r@, f.read_w, gz.read@, Color::Cyan),
        ("● Write "@ + s.disk_w@, f.write_w, gz.write@, Color::Magenta),
        f,
    );
    let g4 = disk_on(g3, s, gz, f);
    if let Some(gpu) = s.gpu {
        lemma_gpu_below(g4, gpu, gz.gpu as int, gz.gpu_graph@, f);
    }
}

proof fn lemma_row(g: Seq<Seq<Cell>>, p: Proc, y: int, sel: bool, tw: int)
    ensures
        row_on(g, p, y, sel, tw).len() == g.len(),
        forall|r: int|
            0 <= r < g.len() ==> (#[trigger] row_on(g, p, y, sel, tw)[r]).len() == g[r].len(),
        forall|r: int|
            0 <= r < g.len() && r != y ==> #[trigger] row_on(g, p, y, sel, tw)[r] == g[r],
{
    reveal(row_on);
}

proof fn lemma_row_colors(g: Seq<Seq<Cell>>, p: Proc, y: int, sel: bool, tw: int)
    requires
        all_colored(g),
    ensures
        all_colored(row_on(g, p, y, sel, tw)),
{
    reveal(row_on);
    let t0 = run(' ', tw - 2);
    let t1 = left_of(decimal_of(p.pid as nat), 7);
    let t2 = left_of(take_of(p.name@, 16), 17);
    let t3 = left_of(take_of(p.user@, 11), 12);
    let t4 = left_of(state_text(p.state), 5);
    let t5 = right_of(p.cpu.text@, 6) + "%"@;
    let t6 = right_of(mem_text(p.mem_kb as nat), 9);
    let t7 = right_of(mem_text(p.virt_kb as nat), 7);
    let t8 = right_of(decimal_of(p.threads as nat), 4);
    let t9 = take_of(p.cmd@, rest(tw, 83));
    let faint = in_row(dimmed(), sel);
    let name = in_row(bright(Color::White), sel);
    let user = in_row(colored(unless_selected(Color::Cyan, sel)), sel);
    let state = in_row(colored(unless_selected(state_color(p.state), sel)), sel);
    let load = in_row(colored(unless_selected(load_color(p.cpu.bits), sel)), sel);
    let mem = in_row(colored(unless_selected(Color::Reset, sel)), sel);
    lemma_print_colors(g, 1, y, t0, colored(Color::Reset));
    let g0 = print(g, 1, y, t0, colored(Color::Reset));
    lemma_print_colors(g0, 2, y, t1, faint);
    let g1 = print(g0, 2, y, t1, faint);
    lemma_print_colors(g1, 10, y, t2, name);
    let g2 = print(g1, 10, y, t2, name);
    lemma_print_colors(g2, 28, y, t3, user);
    let g3 = print(g2, 28, y, t3, user);
    lemma_print_colors(g3, 41, y, t4, state);
    let g4 = print(g3, 41, y, t4, state);
    lemma_print_colors(g4, 47, y, t5, load);
    let g5 = print(g4, 47, y, t5, load);
    lemma_print_colors(g5, 55, y, t6, mem);
    let g6 = print(g5, 55, y, t6, mem);
    lemma_print_colors(g6, 66, y, t7, faint);
    let g7 = print(g6, 66, y, t7, faint);
    lemma_print_colors(g7, 75, y, t8, faint);
    let g8 = print(g7, 75, y, t8, faint);
    lemma_print_colors(g8, 81, y, t9, faint);
}

proof fn lemma_rows(
    g: Seq<Seq<Cell>>,
    tw: int,
    procs: Seq<Proc>,
    u: UiModel,
    display: Seq<usize>,
    y: int,
    n: int,
)
    requires
        n >= 0,
    ensures
        rows_on(g, tw, procs, u, display, y, n).len() == g.len(),
        forall|r: int|
            0 <= r < g.len() ==> (#[trigger] rows_on(g, tw, procs, u, display, y, n)[r]).len()
                == g[r].len(),
        forall|r: int|
            0 <= r < g.len() && !(y <= r < y + n) ==> #[trigger] rows_on(
                g,
                tw,
                procs,
                u,
                display,
                y,
                n,
            )[r] == g[r],
        all_colored(g) ==> all_colored(rows_on(g, tw, procs, u, display, y, n)),
    decreases n,
{
    if n > 0 {
        lemma_rows(g, tw, procs, u, display, y, n - 1);
        let k = u.scroll + n - 1;
        if all_colored(g) {
            lemma_row_colors(
                rows_on(g, tw, procs, u, display, y, n - 1),
                procs[display[k] as int],
                y + n - 1,
                k == u.selected,
                tw,
            );
        }
        lemma_row(
            rows_on(g, tw, procs, u, display, y, n - 1),
            procs[display[k] as int],
            y + n - 1,
            k == u.selected,
            tw,
        );
    }
}

proof fn lemma_row_plain(g: Seq<Seq<Cell>>, p: Proc, y: int, sel: bool, tw: int, row: int)
    requires
        reversed_only(g, row),
        sel ==> y == row,
    ensures
        reversed_only(row_on(g, p, y, sel, tw), row),
{
    let h = row_on(g, p, y, sel, tw);
    lemma_row(g, p, y, sel, tw);
    assert forall|r: int, c: int|
        0 <= r < h.len() && 0 <= c < h[r].len() && r != row implies !(#[trigger] h[r][c]).rev by {
        assert(!g[r][c].rev);
        if r == y {
            reveal(row_on);
        } else {
            assert(h[r] == g[r]);
        }
    }
}

proof fn lemma_rows_plain(
    g: Seq<Seq<Cell>>,
    tw: int,
    procs: Seq<Proc>,
    u: UiModel,
    display: Seq<usize>,
    y: int,
    n: int,
)
    requires
        reversed_only(g, -1),
    ensures
        reversed_only(
            rows_on(g, tw, procs, u, display, y, n),
            y + u.selected - u.scroll,
        ),
    decreases n,
{
    let row = y + u.selected - u.scroll;
    if n > 0 {
        lemma_rows_plain(g, tw, procs, u, display, y, n - 1);
        let k = u.scroll + n - 1;
        lemma_row_plain(
            rows_on(g, tw, procs, u, display, y, n - 1),
            procs[display[k] as int],
            y + n - 1,
            k == u.selected,
            tw,
            row,
        );
    } else {
        assert forall|r: int, c: int|
            0 <= r < g.len() && 0 <= c < g[r].len() && r != row implies !(#[trigger] g[r][c]).rev by {}
    }
}

proof fn lemma_rows_keep(
    g: Seq<Seq<Cell>>,
    tw: int,
    procs: Seq<Proc>,
    u: UiModel,
    display: Seq<usize>,
    y: int,
    n: int,
    k: int,
)
    requires
        0 <= k < n,
        0 <= y + k < g.len(),
    ensures
        rows_on(g, tw, procs, u, display, y, n)[y + k] == rows_on(
            g,
            tw,
            procs,
            u,
            display,
            y,
            k + 1,
        )[y + k],
    decreases n,
{
    if k < n - 1 {
        lemma_rows_keep(g, tw, procs, u, display, y, n - 1, k);
        lemma_rows(g, tw, procs, u, display, y, n - 1);
        let i = u.scroll + n - 1;
        lemma_row(
            rows_on(g, tw, procs, u, display, y, n - 1),
            procs[display[i] as int],
            y + n - 1,
            i == u.selected,
            tw,
        );
    }
}

proof fn lemma_heading_below(g: Seq<Seq<Cell>>, col: SortCol, y: int, u: UiModel)
    requires
        y >= 1,
    ensures
        drawn_plain(g, heading_on(g, col, y, u)),
{
    lemma_print_below(g, heading_place(col).0, y, heading_text(col, u), heading_style(col, u));
}

proof fn lemma_headings_below(g: Seq<Seq<Cell>>, y: int, u: UiModel)
    requires
        y >= 1,
    ensures
        drawn_plain(g, headings_on(g, y, u)),
{
    reveal(headings_on);
    let g1 = heading_on(g, SortCol::Pid, y, u);
    let g2 = heading_on(g1, SortCol::Name, y, u);
    let g3 = heading_on(g2, SortCol::User, y, u);
    let g4 = heading_on(g3, SortCol::State, y, u);
    let g5 = heading_on(g4, SortCol::Cpu, y, u);
    let g6 = heading_on(g5, SortCol::Mem, y, u);
    let g7 = heading_on(g6, SortCol::Virt, y, u);
    let g8 = heading_on(g7, SortCol::Threads, y, u);
    lemma_heading_below(g, SortCol::Pid, y, u);
    lemma_heading_below(g1, SortCol::Name, y, u);
    lemma_heading_below(g2, SortCol::User, y, u);
    lemma_heading_below(g3, SortCol::State, y, u);
    lemma_heading_below(g4, SortCol::Cpu, y, u);
    lemma_heading_below(g5, SortCol::Mem, y, u);
    lemma_heading_below(g6, SortCol::Virt, y, u);
    lemma_heading_below(g7, SortCol::Threads, y, u);
    lemma_print_below(g8, 81, y, "COMMAND"@, dimmed());
}

/// The grid that the rows of the list are drawn on.
spec fn table_base(g: Seq<Seq<Cell>>, tw: int, u: UiModel, len: int, f: Frame) -> Seq<Seq<Cell>> {
    let y = f.bot_y;
    let g1 = box_on(g, 0, y, tw, f.bot_h, list_title(u, len), Color::Magenta);
    let g2 = headings_on(g1, y + 1, u);
    print(g2, 1, y + 2, run('─', tw - 2), dimmed())
}

proof fn lemma_table_base(g: Seq<Seq<Cell>>, tw: int, u: UiModel, len: int, f: Frame)
    requires
        f.bot_y >= 1,
    ensures
        drawn_plain(g, table_base(g, tw, u, len, f)),
{
    let y = f.bot_y;
    lemma_box_below(g, 0, y, tw, f.bot_h, list_title(u, len), Color::Magenta);
    let g1 = box_on(g, 0, y, tw, f.bot_h, list_title(u, len), Color::Magenta);
    lemma_headings_below(g1, y + 1, u);
    let g2 = headings_on(g1, y + 1, u);
    lemma_print_below(g2, 1, y + 2, run('─', tw - 2), dimmed());
}

proof fn lemma_table_below(
    g: Seq<Seq<Cell>>,
    tw: int,
    procs: Seq<Proc>,
    u: UiModel,
    display: Seq<usize>,
    f: Frame,
)
    requires
        f.bot_y >= 1,
    ensures
        drawn_below(g, table_on(g, tw, procs, u, display, f)),
{
    let len = display.len() as int;
    let n = row_count(u, len, f);
    if f.bot_h >= 4 {
        lemma_table_base(g, tw, u, len, f);
        lemma_rows(table_base(g, tw, u, len, f), tw, procs, u, display, f.bot_y + 3, n);
    }
}

/// A grid of `tw` columns and `th` rows.
pub open spec fn has_size(g: Seq<Seq<Cell>>, tw: int, th: int) -> bool {
    g.len() == th && forall|r: int| 0 <= r < th ==> (#[trigger] g[r]).len() == tw
}

/// A row that shows a text, cut or filled up to the width of the screen.
pub open spec fn row_shows(row: Seq<Cell>, t: Seq<char>, st: Style) -> bool {
    row == Seq::new(row.len(), |c: int| styled(boxed(t, row.len() as int)[c], st))
}

proof fn lemma_row_shows(g: Seq<Seq<Cell>>, y: int, t: Seq<char>, st: Style)
    requires
        0 <= y < g.len(),
        g[y].len() <= 0xffff,
    ensures
        row_shows(print(g, 0, y, boxed(t, g[y].len() as int), st)[y], t, st),
{
    let row = print(g, 0, y, boxed(t, g[y].len() as int), st)[y];
    assert(row =~= Seq::new(row.len(), |c: int| styled(boxed(t, row.len() as int)[c], st)));
}

/// The grid before the list is drawn.
spec fn upper_of(
    g: Seq<Seq<Cell>>,
    tw: int,
    th: int,
    s: State,
    gz: Gauges,
    u: UiModel,
) -> Seq<Seq<Cell>> {
    let g1 = header_on(g, tw, s, u.tree_view);
    if u.show_graphs {
        boxes_on(g1, s, gz, frame_of(tw, th, s, u))
    } else {
        g1
    }
}

/// The grid before the footer is drawn.
spec fn body_of(
    g: Seq<Seq<Cell>>,
    tw: int,
    th: int,
    s: State,
    gz: Gauges,
    u: UiModel,
    display: Seq<usize>,
) -> Seq<Seq<Cell>> {
    table_on(
        upper_of(g, tw, th, s, gz, u),
        tw,
        s.all_procs@,
        u,
        display,
        frame_of(tw, th, s, u),
    )
}

proof fn lemma_upper(g: Seq<Seq<Cell>>, tw: int, th: int, s: State, gz: Gauges, u: UiModel)
    requires
        large_enough(tw, th),
        has_size(g, tw, th),
    ensures
        has_size(upper_of(g, tw, th, s, gz, u), tw, th),
        upper_of(g, tw, th, s, gz, u)[0] == header_on(g, tw, s, u.tree_view)[0],
        all_colored(g) ==> all_colored(upper_of(g, tw, th, s, gz, u)),
        reversed_only(g, -1) ==> reversed_only(upper_of(g, tw, th, s, gz, u), -1),
{
    if reversed_only(g, -1) {
        lemma_print_plain(
            g,
            0,
            0,
            boxed(header_text(s, u.tree_view), tw),
            bright(Color::Cyan),
            -1,
        );
    }
    if all_colored(g) {
        lemma_print_colors(
            g,
            0,
            0,
            boxed(header_text(s, u.tree_view), tw),
            bright(Color::Cyan),
        );
    }
    let f = frame_of(tw, th, s, u);
    law_parts_fill_the_screen(tw, th, u.show_graphs, s.gpu is Some, s.cores@.len() as int);
    let g1 = header_on(g, tw, s, u.tree_view);
    let g2 = upper_of(g, tw, th, s, gz, u);
    if u.show_graphs {
        lemma_boxes_below(g1, s, gz, f);
    }
    assert(drawn_plain(g1, g2));
    assert forall|r: int| 0 <= r < th implies (#[trigger] g2[r]).len() == tw by {
        assert(g1[r].len() == g[r].len());
    }
}

proof fn lemma_body(
    g: Seq<Seq<Cell>>,
    tw: int,
    th: int,
    s: State,
    gz: Gauges,
    u: UiModel,
    display: Seq<usize>,
)
    requires
        large_enough(tw, th),
        has_size(g, tw, th),
    ensures
        has_size(body_of(g, tw, th, s, gz, u, display), tw, th),
        body_of(g, tw, th, s, gz, u, display)[0] == header_on(g, tw, s, u.tree_view)[0],
        all_colored(g) ==> all_colored(body_of(g, tw, th, s, gz, u, display)),
{
    let f = frame_of(tw, th, s, u);
    law_parts_fill_the_screen(tw, th, u.show_graphs, s.gpu is Some, s.cores@.len() as int);
    lemma_upper(g, tw, th, s, gz, u);
    let g2 = upper_of(g, tw, th, s, gz, u);
    lemma_table_below(g2, tw, s.all_procs@, u, display, f);
    let g3 = body_of(g, tw, th, s, gz, u, display);
    assert(drawn_below(g2, g3));
    assert forall|r: int| 0 <= r < th implies (#[trigger] g3[r]).len() == tw by {
        assert(g2[r].len() == tw);
    }
}

/// A frame is as large as the screen, and on one that is too small nothing is
/// drawn.
pub proof fn law_frame_keeps_the_size(
    g: Seq<Seq<Cell>>,
    tw: int,
    th: int,
    s: State,
    gz: Gauges,
    u: UiModel,
    display: Seq<usize>,
    now: int,
)
    requires
        has_size(g, tw, th),
    ensures
        has_size(rendered(g, tw, th, s, gz, u, display, now), tw, th),
        !large_enough(tw, th) ==> rendered(g, tw, th, s, gz, u, display, now) == g,
{
    if large_enough(tw, th) {
        lemma_body(g, tw, th, s, gz, u, display);
    }
}

/// The first row of a frame shows the header, whatever else is drawn.
pub proof fn law_header_is_shown(
    g: Seq<Seq<Cell>>,
    tw: int,
    th: int,
    s: State,
    gz: Gauges,
    u: UiModel,
    display: Seq<usize>,
    now: int,
)
    requires
        large_enough(tw, th),
        tw <= 0xffff,
        has_size(g, tw, th),
    ensures
        row_shows(
            rendered(g, tw, th, s, gz, u, display, now)[0],
            header_text(s, u.tree_view),
            bright(Color::Cyan),
        ),
{
    lemma_body(g, tw, th, s, gz, u, display);
    lemma_row_shows(g, 0, header_text(s, u.tree_view), bright(Color::Cyan));
}

/// The last row of a frame shows the footer, whatever else is drawn.
pub proof fn law_footer_is_shown(
    g: Seq<Seq<Cell>>,
    tw: int,
    th: int,
    s: State,
    gz: Gauges,
    u: UiModel,
    display: Seq<usize>,
    now: int,
)
    requires
        large_enough(tw, th),
        tw <= 0xffff,
        has_size(g, tw, th),
    ensures
        row_shows(
            rendered(g, tw, th, s, gz, u, display, now)[th - 1],
            footer_text(u, s.all_procs@, display, now),
            bright(footer_color(u, now)),
        ),
{
    lemma_body(g, tw, th, s, gz, u, display);
    let b = body_of(g, tw, th, s, gz, u, display);
    lemma_row_shows(
        b,
        th - 1,
        footer_text(u, s.all_procs@, display, now),
        bright(footer_color(u, now)),
    );
}

proof fn lemma_row_begins(g: Seq<Seq<Cell>>, p: Proc, y: int, sel: bool, tw: int, c: int)
    requires
        0 <= y < g.len(),
        c < g[y].len(),
        2 <= c < 10,
        c < 2 + left_of(decimal_of(p.pid as nat), 7).len(),
    ensures
        row_on(g, p, y, sel, tw)[y][c] == styled(
            left_of(decimal_of(p.pid as nat), 7)[c - 2],
            in_row(dimmed(), sel),
        ),
{
    reveal(row_on);
    number::lemma_decimal_len(p.pid as nat);
}

proof fn lemma_table_row(
    g: Seq<Seq<Cell>>,
    tw: int,
    th: int,
    procs: Seq<Proc>,
    u: UiModel,
    display: Seq<usize>,
    f: Frame,
    i: int,
    c: int,
)
    requires
        has_size(g, tw, th),
        f.bot_y >= 1,
        f.bot_h >= 4,
        f.bot_y + f.bot_h == th - 1,
        0 <= i < row_count(u, display.len() as int, f),
        c < tw,
        2 <= c < 10,
        c < 2 + left_of(decimal_of(procs[display[u.scroll + i] as int].pid as nat), 7).len(),
    ensures
        table_on(g, tw, procs, u, display, f)[f.bot_y + 3 + i][c] == styled(
            left_of(decimal_of(procs[display[u.scroll + i] as int].pid as nat), 7)[c - 2],
            in_row(dimmed(), u.scroll + i == u.selected),
        ),
{
    let len = display.len() as int;
    let n = row_count(u, len, f);
    let y = f.bot_y + 3;
    let base = table_base(g, tw, u, len, f);
    lemma_table_base(g, tw, u, len, f);
    lemma_rows_keep(base, tw, procs, u, display, y, n, i);
    lemma_rows(base, tw, procs, u, display, y, i);
    let before = rows_on(base, tw, procs, u, display, y, i);
    assert(before[y + i].len() == tw) by {
        assert(base[y + i].len() == g[y + i].len());
    }
    let k = u.scroll + i;
    lemma_row_begins(before, procs[display[k] as int], y + i, k == u.selected, tw, c);
}

/// Every process of the list that the list is scrolled to has a row of its
/// own, which begins with its number, and the number has its colours exchanged
/// exactly where the process is the selected one.
pub proof fn law_listed_processes_are_shown(
    g: Seq<Seq<Cell>>,
    tw: int,
    th: int,
    s: State,
    gz: Gauges,
    u: UiModel,
    display: Seq<usize>,
    now: int,
    k: int,
    c: int,
)
    requires
        large_enough(tw, th),
        has_size(g, tw, th),
        u.scroll >= 0,
        u.scroll <= k < display.len(),
        k < u.scroll + visible_rows(th, u.show_graphs),
        2 <= c < 10,
        c < 2 + left_of(decimal_of(s.all_procs@[display[k] as int].pid as nat), 7).len(),
    ensures
        rendered(g, tw, th, s, gz, u, display, now)[frame_of(tw, th, s, u).bot_y + 3 + k
            - u.scroll][c] == styled(
            left_of(decimal_of(s.all_procs@[display[k] as int].pid as nat), 7)[c - 2],
            in_row(dimmed(), k == u.selected),
        ),
{
    let f = frame_of(tw, th, s, u);
    law_parts_fill_the_screen(tw, th, u.show_graphs, s.gpu is Some, s.cores@.len() as int);
    law_list_has_the_visible_rows(tw, th, u.show_graphs, s.gpu is Some, s.cores@.len() as int);
    lemma_upper(g, tw, th, s, gz, u);
    let g2 = upper_of(g, tw, th, s, gz, u);
    lemma_table_row(g2, tw, th, s.all_procs@, u, display, f, k - u.scroll, c);
}

/// On a frame that is drawn on a grid without exchanged colours, none but the
/// row of the selected process has any.
pub proof fn law_only_the_selection_is_reversed(
    g: Seq<Seq<Cell>>,
    tw: int,
    th: int,
    s: State,
    gz: Gauges,
    u: UiModel,
    display: Seq<usize>,
    now: int,
    r: int,
    c: int,
)
    requires
        has_size(g, tw, th),
        reversed_only(g, -1),
        0 <= r < th,
        0 <= c < tw,
        rendered(g, tw, th, s, gz, u, display, now)[r][c].rev,
    ensures
        large_enough(tw, th),
        r == frame_of(tw, th, s, u).bot_y + 3 + u.selected - u.scroll,
        u.scroll <= u.selected < u.scroll + visible_rows(th, u.show_graphs),
        u.selected < display.len(),
{
    let drawn = rendered(g, tw, th, s, gz, u, display, now);
    law_frame_keeps_the_size(g, tw, th, s, gz, u, display, now);
    assert(drawn[r].len() == tw);
    if !large_enough(tw, th) {
        assert(g[r].len() == tw);
        assert(!g[r][c].rev);
    } else {
        let f = frame_of(tw, th, s, u);
        let len = display.len() as int;
        let n = row_count(u, len, f);
        let y = f.bot_y + 3;
        let upper = upper_of(g, tw, th, s, gz, u);
        law_parts_fill_the_screen(tw, th, u.show_graphs, s.gpu is Some, s.cores@.len() as int);
        law_list_has_the_visible_rows(tw, th, u.show_graphs, s.gpu is Some, s.cores@.len() as int);
        lemma_upper(g, tw, th, s, gz, u);
        lemma_table_base(upper, tw, u, len, f);
        let base = table_base(upper, tw, u, len, f);
        lemma_rows_plain(base, tw, s.all_procs@, u, display, y, n);
        lemma_rows(base, tw, s.all_procs@, u, display, y, n);
        let body = body_of(g, tw, th, s, gz, u, display);
        assert(body == rows_on(base, tw, s.all_procs@, u, display, y, n));
        lemma_body(g, tw, th, s, gz, u, display);
        assert(body[r].len() == tw);
        let t = boxed(footer_text(u, s.all_procs@, display, now), tw);
        let st = bright(footer_color(u, now));
        let row = y + u.selected - u.scroll;
        lemma_print_plain(body, 0, th - 1, t, st, row);
        assert(drawn == print(body, 0, th - 1, t, st));
        assert(r == row);
        if !(y <= r < y + n) {
            assert(body[r] == base[r]);
            assert(upper[r].len() == tw);
            assert(base[r].len() == tw);
            assert(!base[r][c].rev);
        }
    }
}

proof fn lemma_rendered_colors(
    g: Seq<Seq<Cell>>,
    tw: int,
    th: int,
    s: State,
    gz: Gauges,
    u: UiModel,
    display: Seq<usize>,
    now: int,
)
    requires
        has_size(g, tw, th),
        all_colored(g),
    ensures
        all_colored(rendered(g, tw, th, s, gz, u, display, now)),
{
    if large_enough(tw, th) {
        lemma_body(g, tw, th, s, gz, u, display);
        lemma_print_colors(
            body_of(g, tw, th, s, gz, u, display),
            0,
            th - 1,
            boxed(footer_text(u, s.all_procs@, display, now), tw),
            bright(footer_color(u, now)),
        );
    }
}

/// A frame that is drawn on an empty buffer appears on the screen as it was
/// drawn: after the commands of the difference, a terminal that showed any
/// other frame of the same size shows this one. This is where colours are sent.
pub proof fn law_drawn_frame_appears(
    tw: int,
    th: int,
    s: State,
    gz: Gauges,
    u: UiModel,
    display: Seq<usize>,
    now: int,
    t: Terminal,
)
    requires
        0 <= tw <= 0xffff,
        0 <= th <= 0xffff,
        has_size(t.grid, tw, th),
        t.pen == reset_pen(),
    ensures
        ({
            let drawn = rendered(
                uniform(tw as nat, th as nat, blank()),
                tw,
                th,
                s,
                gz,
                u,
                display,
                now,
            );
            &&& replay(t, diff_of(drawn, t.grid)).grid == drawn
            &&& replay(t, diff_of(drawn, t.grid)).pen == reset_pen()
        }),
{
    let g = uniform(tw as nat, th as nat, blank());
    let drawn = rendered(g, tw, th, s, gz, u, display, now);
    assert(has_size(g, tw, th));
    assert(all_colored(g));
    law_frame_keeps_the_size(g, tw, th, s, gz, u, display, now);
    lemma_rendered_colors(g, tw, th, s, gz, u, display, now);
    assert forall|y: int| 0 <= y < drawn.len() implies (#[trigger] drawn[y]).len()
        == t.grid[y].len() && drawn[y].len() <= 0xffff by {
        assert(t.grid[y].len() == tw);
    }
    law_colored_cells_keep_their_attrs(drawn, t.grid, th);
    law_diff_shows_the_frame(drawn, t);
}

/// Also where no colours are sent, the characters of a frame that is drawn on an
/// empty buffer appear on the screen in their places.
pub proof fn law_drawn_characters_appear(
    tw: int,
    th: int,
    s: State,
    gz: Gauges,
    u: UiModel,
    display: Seq<usize>,
    now: int,
    t: Terminal,
    colors: Seq<bool>,
)
    requires
        0 <= tw <= 0xffff,
        0 <= th <= 0xffff,
        has_size(t.grid, tw, th),
        t.pen == reset_pen(),
        colors.len() == diff_of(
            rendered(uniform(tw as nat, th as nat, blank()), tw, th, s, gz, u, display, now),
            t.grid,
        ).len(),
    ensures
        ({
            let drawn = rendered(
                uniform(tw as nat, th as nat, blank()),
                tw,
                th,
                s,
                gz,
                u,
                display,
                now,
            );
            same_chars(drawn, replay_either(t, diff_of(drawn, t.grid), colors).grid)
        }),
{
    let g = uniform(tw as nat, th as nat, blank());
    let drawn = rendered(g, tw, th, s, gz, u, display, now);
    law_drawn_frame_appears(tw, th, s, gz, u, display, now, t);
    law_characters_do_not_need_colors(t, diff_of(drawn, t.grid), colors);
}

/// The question whether to end a process names the process that the answer
/// sends the signal to.
pub proof fn law_footer_names_the_target(
    u: UiModel,
    ev: Event,
    procs: Seq<Proc>,
    display: Seq<usize>,
    vis: int,
    now: int,
)
    requires
        u.mode == UiMode::Kill,
        u.selected >= 0,
    ensures
        step(u, ev, target_of(procs, display, u.selected), display.len() as int, vis).1 matches
            Action::Signal { pid, sig } ==> footer_text(u, procs, display, now)
            == " Kill PID "@ + decimal_of(pid as nat)
            + " with SIGTERM? [y]yes  [n]cancel  [F9]choose signal"@,
{
}

/// A click on the row of a process selects that process, and a click on that of
/// the selected process asks whether to end it; a click on any other row does
/// not change the selection.
pub proof fn law_click_selects_what_is_shown(
    u: UiModel,
    tw: int,
    th: int,
    s: State,
    row: int,
    column: int,
    len: int,
)
    requires
        large_enough(tw, th),
        u.scroll >= 0,
        len >= 0,
    ensures
        ({
            let f = frame_of(tw, th, s, u);
            let v = placed(u, tw, th, s);
            let k = u.scroll + row - (f.bot_y + 3);
            if 0 <= row - (f.bot_y + 3) < row_count(u, len, f) {
                clicked(v, row, column, len) == if k == u.selected {
                    UiModel { kill_sig: 15, mode: UiMode::Kill, ..v }
                } else {
                    UiModel { selected: k, ..v }
                }
            } else {
                clicked(v, row, column, len).selected == u.selected
            }
        }),
{
    law_parts_fill_the_screen(tw, th, u.show_graphs, s.gpu is Some, s.cores@.len() as int);
}

/// A click on the heading of a column sorts the list by it, or turns the order
/// round where the list is sorted by it already.
pub proof fn law_click_on_a_heading_sorts(
    u: UiModel,
    tw: int,
    th: int,
    s: State,
    column: int,
    len: int,
)
    requires
        large_enough(tw, th),
        heading_at(column) is Some,
    ensures
        ({
            let v = placed(u, tw, th, s);
            let w = clicked(v, frame_of(tw, th, s, u).bot_y + 1, column, len);
            let col = heading_at(column)->0;
            &&& w.sort_col == col
            &&& !w.tree_view
            &&& w.sort_asc == (u.sort_col == col && !u.sort_asc)
            &&& w.selected == u.selected
        }),
{
    law_parts_fill_the_screen(tw, th, u.show_graphs, s.gpu is Some, s.cores@.len() as int);
}

/// Where a click finds the heading of a column, that heading is drawn.
pub proof fn law_headings_are_where_clicks_find_them(g: Seq<Seq<Cell>>, y: int, u: UiModel, c: int)
    requires
        0 <= y < g.len(),
        0 <= c < g[y].len(),
        heading_at(c) is Some,
    ensures
        ({
            let col = heading_at(c)->0;
            let (x, w, label) = heading_place(col);
            &&& x <= c < x + w == x + heading_text(col, u).len()
            &&& headings_on(g, y, u)[y][c] == styled(
                heading_text(col, u)[c - x],
                heading_style(col, u),
            )
        }),
{
    reveal(headings_on);
    lemma_heading_len(SortCol::Pid, u);
    lemma_heading_len(SortCol::Name, u);
    lemma_heading_len(SortCol::User, u);
    lemma_heading_len(SortCol::State, u);
    lemma_heading_len(SortCol::Cpu, u);
    lemma_heading_len(SortCol::Mem, u);
    lemma_heading_len(SortCol::Virt, u);
    lemma_heading_len(SortCol::Threads, u);
}

/// After a frame was drawn, every event can be handled.
pub proof fn law_events_can_be_handled(
    u: UiModel,
    tw: int,
    th: int,
    s: State,
    ev: Event,
    display: Seq<usize>,
    vis: int,
)
    requires
        large_enough(tw, th),
        tw <= 0xffff,
        th <= 0xffff,
        within(display, s.all_procs@.len()),
        0 <= u.selected < usize::MAX,
        u.selected + vis <= usize::MAX,
        0 <= u.scroll <= usize::MAX - 0x1_0000,
    ensures
        takes(placed(u, tw, th, s), ev, display, s.all_procs@.len() as int, vis),
{
    law_parts_fill_the_screen(tw, th, u.show_graphs, s.gpu is Some, s.cores@.len() as int);
}


/// The text of a column of the list, the place that it starts at, and its
/// style but for the exchanged colours.
spec fn column_of(p: Proc, col: int, sel: bool, tw: int) -> (int, Seq<char>, Style) {
    let c = |own: Color| if sel { Color::White } else { own };
    if col == 0 {
        (2, left_of(decimal_of(p.pid as nat), 7), dimmed())
    } else if col == 1 {
        (10, left_of(take_of(p.name@, 16), 17), bright(Color::White))
    } else if col == 2 {
        (28, left_of(take_of(p.user@, 11), 12), colored(c(Color::Cyan)))
    } else if col == 3 {
        (41, left_of(state_text(p.state), 5), colored(c(state_color(p.state))))
    } else if col == 4 {
        (47, right_of(p.cpu.text@, 6) + "%"@, colored(c(load_color(p.cpu.bits))))
    } else if col == 5 {
        (55, right_of(mem_text(p.mem_kb as nat), 9), colored(c(Color::Reset)))
    } else if col == 6 {
        (66, right_of(mem_text(p.virt_kb as nat), 7), dimmed())
    } else if col == 7 {
        (75, right_of(decimal_of(p.threads as nat), 4), dimmed())
    } else {
        (81, take_of(p.cmd@, rest(tw, 83)), dimmed())
    }
}

/// Where the text of a column has to end.
spec fn column_end(col: int) -> int {
    if col == 0 {
        10
    } else if col == 1 {
        28
    } else if col == 2 {
        41
    } else if col == 3 {
        47
    } else if col == 4 {
        55
    } else if col == 5 {
        66
    } else if col == 6 {
        75
    } else if col == 7 {
        81
    } else {
        0xffff
    }
}

proof fn lemma_row_column(
    g: Seq<Seq<Cell>>,
    p: Proc,
    y: int,
    sel: bool,
    tw: int,
    col: int,
    c: int,
)
    requires
        0 <= y < g.len(),
        c < g[y].len(),
        0 <= col < 9,
        tw <= 0xffff,
        column_of(p, col, sel, tw).0 <= c < column_end(col),
        c < column_of(p, col, sel, tw).0 + column_of(p, col, sel, tw).1.len(),
        column_of(p, col, sel, tw).1.len() <= 0x1_0000,
    ensures
        row_on(g, p, y, sel, tw)[y][c] == styled(
            column_of(p, col, sel, tw).1[c - column_of(p, col, sel, tw).0],
            in_row(column_of(p, col, sel, tw).2, sel),
        ),
{
    reveal(row_on);
    let (x, t, st) = column_of(p, col, sel, tw);
    assert(shown(t.len() as int, c - x) == c - x);
}

proof fn lemma_table_column(
    g: Seq<Seq<Cell>>,
    tw: int,
    th: int,
    procs: Seq<Proc>,
    u: UiModel,
    display: Seq<usize>,
    f: Frame,
    i: int,
    col: int,
    c: int,
)
    requires
        has_size(g, tw, th),
        tw <= 0xffff,
        f.bot_y >= 1,
        f.bot_h >= 4,
        f.bot_y + f.bot_h == th - 1,
        0 <= i < row_count(u, display.len() as int, f),
        c < tw,
        0 <= col < 9,
        ({
            let p = procs[display[u.scroll + i] as int];
            let (x, t, st) = column_of(p, col, u.scroll + i == u.selected, tw);
            x <= c < column_end(col) && c < x + t.len() && t.len() <= 0x1_0000
        }),
    ensures
        ({
            let p = procs[display[u.scroll + i] as int];
            let sel = u.scroll + i == u.selected;
            let (x, t, st) = column_of(p, col, sel, tw);
            table_on(g, tw, procs, u, display, f)[f.bot_y + 3 + i][c] == styled(
                t[c - x],
                in_row(st, sel),
            )
        }),
{
    let len = display.len() as int;
    let n = row_count(u, len, f);
    let y = f.bot_y + 3;
    let base = table_base(g, tw, u, len, f);
    lemma_table_base(g, tw, u, len, f);
    lemma_rows_keep(base, tw, procs, u, display, y, n, i);
    lemma_rows(base, tw, procs, u, display, y, i);
    let before = rows_on(base, tw, procs, u, display, y, i);
    assert(before[y + i].len() == tw) by {
        assert(base[y + i].len() == g[y + i].len());
    }
    let k = u.scroll + i;
    lemma_row_column(before, procs[display[k] as int], y + i, k == u.selected, tw, col, c);
}

proof fn lemma_listed_column(
    g: Seq<Seq<Cell>>,
    tw: int,
    th: int,
    s: State,
    gz: Gauges,
    u: UiModel,
    display: Seq<usize>,
    now: int,
    k: int,
    col: int,
    c: int,
)
    requires
        large_enough(tw, th),
        tw <= 0xffff,
        has_size(g, tw, th),
        0 <= u.scroll <= k < display.len(),
        k < u.scroll + visible_rows(th, u.show_graphs),
        0 <= col < 9,
        c < tw,
        ({
            let p = s.all_procs@[display[k] as int];
            let (x, t, st) = column_of(p, col, k == u.selected, tw);
            x <= c < column_end(col) && c < x + t.len() && t.len() <= 0x1_0000
        }),
    ensures
        ({
            let p = s.all_procs@[display[k] as int];
            let (x, t, st) = column_of(p, col, k == u.selected, tw);
            rendered(g, tw, th, s, gz, u, display, now)[frame_of(tw, th, s, u).bot_y + 3 + k
                - u.scroll][c] == styled(t[c - x], in_row(st, k == u.selected))
        }),
{
    let f = frame_of(tw, th, s, u);
    law_parts_fill_the_screen(tw, th, u.show_graphs, s.gpu is Some, s.cores@.len() as int);
    law_list_has_the_visible_rows(tw, th, u.show_graphs, s.gpu is Some, s.cores@.len() as int);
    lemma_upper(g, tw, th, s, gz, u);
    let g2 = upper_of(g, tw, th, s, gz, u);
    lemma_table_column(g2, tw, th, s.all_procs@, u, display, f, k - u.scroll, col, c);
}

/// The row of a listed process shows each of its qualities in the column of
/// that name: number, name, user, state, load, memory, virtual memory, threads
/// and command. Texts start at the left of their column and numbers end at its
/// right; what is too long is cut. The selected row has its colours exchanged,
/// and is otherwise white.
pub proof fn law_columns_show_their_quality(
    g: Seq<Seq<Cell>>,
    tw: int,
    th: int,
    s: State,
    gz: Gauges,
    u: UiModel,
    display: Seq<usize>,
    now: int,
    k: int,
    j: int,
)
    requires
        large_enough(tw, th),
        tw <= 0xffff,
        has_size(g, tw, th),
        s.wf(),
        0 <= u.scroll <= k < display.len(),
        k < u.scroll + visible_rows(th, u.show_graphs),
        within(display, s.all_procs@.len()),
        0 <= j,
    ensures
        ({
            let p = s.all_procs@[display[k] as int];
            let sel = k == u.selected;
            let row = rendered(g, tw, th, s, gz, u, display, now)[frame_of(tw, th, s, u).bot_y + 3
                + k - u.scroll];
            let own = |c: Color| if sel { Color::White } else { c };
            let pid = decimal_of(p.pid as nat);
            let load = right_of(p.cpu.text@, 6) + "%"@;
            let mem = right_of(mem_text(p.mem_kb as nat), 9);
            let virt = right_of(mem_text(p.virt_kb as nat), 7);
            let threads = right_of(decimal_of(p.threads as nat), 4);
            &&& j < 8 && j < pid.len() && 2 + j < tw ==> row[2 + j] == (Cell {
                ch: pid[j],
                fg: Color::White,
                bold: false,
                dim: true,
                rev: sel,
            })
            &&& j < 17 && 10 + j < tw ==> row[10 + j] == (Cell {
                ch: if j < 16 && j < p.name@.len() {
                    p.name@[j]
                } else {
                    ' '
                },
                fg: Color::White,
                bold: true,
                dim: false,
                rev: sel,
            })
            &&& j < 12 && 28 + j < tw ==> row[28 + j] == (Cell {
                ch: if j < 11 && j < p.user@.len() {
                    p.user@[j]
                } else {
                    ' '
                },
                fg: own(Color::Cyan),
                bold: false,
                dim: false,
                rev: sel,
            })
            &&& j < 5 && 41 + j < tw ==> row[41 + j] == (Cell {
                ch: left_of(state_text(p.state), 5)[j],
                fg: own(state_color(p.state)),
                bold: false,
                dim: false,
                rev: sel,
            })
            &&& j < load.len() && j < 8 && 47 + j < tw ==> row[47 + j] == (Cell {
                ch: load[j],
                fg: own(load_color(p.cpu.bits)),
                bold: false,
                dim: false,
                rev: sel,
            })
            &&& j < mem.len() && j < 11 && 55 + j < tw ==> row[55 + j] == (Cell {
                ch: mem[j],
                fg: own(Color::Reset),
                bold: false,
                dim: false,
                rev: sel,
            })
            &&& j < virt.len() && j < 9 && 66 + j < tw ==> row[66 + j] == (Cell {
                ch: virt[j],
                fg: Color::White,
                bold: false,
                dim: true,
                rev: sel,
            })
            &&& j < threads.len() && j < 6 && 75 + j < tw ==> row[75 + j] == (Cell {
                ch: threads[j],
                fg: Color::White,
                bold: false,
                dim: true,
                rev: sel,
            })
            &&& j < p.cmd@.len() && 83 + j < tw ==> row[81 + j] == (Cell {
                ch: p.cmd@[j],
                fg: Color::White,
                bold: false,
                dim: true,
                rev: sel,
            })
        }),
{
    let p = s.all_procs@[display[k] as int];
    let sel = k == u.selected;
    number::lemma_decimal_len(p.pid as nat);
    number::lemma_decimal_len(p.threads as nat);
    crate::notation::lemma_mem_len(p.mem_kb as nat);
    crate::notation::lemma_mem_len(p.virt_kb as nat);
    reveal_strlit("%");
    reveal_strlit("RUN");
    reveal_strlit("SLP");
    reveal_strlit("DSK");
    reveal_strlit("ZMB");
    reveal_strlit("STP");
    reveal_strlit("???");
    assert(display[k] < s.all_procs@.len());
    assert(short(p.cpu.text@));
    let (x, t, st) = column_of(p, 0, sel, tw);
    if j < t.len() && x + j < column_end(0) && x + j < tw {
        lemma_listed_column(g, tw, th, s, gz, u, display, now, k, 0, x + j);
    }
    let (x, t, st) = column_of(p, 1, sel, tw);
    if j < t.len() && x + j < column_end(1) && x + j < tw {
        lemma_listed_column(g, tw, th, s, gz, u, display, now, k, 1, x + j);
    }
    let (x, t, st) = column_of(p, 2, sel, tw);
    if j < t.len() && x + j < column_end(2) && x + j < tw {
        lemma_listed_column(g, tw, th, s, gz, u, display, now, k, 2, x + j);
    }
    let (x, t, st) = column_of(p, 3, sel, tw);
    if j < t.len() && x + j < column_end(3) && x + j < tw {
        lemma_listed_column(g, tw, th, s, gz, u, display, now, k, 3, x + j);
    }
    let (x, t, st) = column_of(p, 4, sel, tw);
    if j < t.len() && x + j < column_end(4) && x + j < tw {
        lemma_listed_column(g, tw, th, s, gz, u, display, now, k, 4, x + j);
    }
    let (x, t, st) = column_of(p, 5, sel, tw);
    if j < t.len() && x + j < column_end(5) && x + j < tw {
        lemma_listed_column(g, tw, th, s, gz, u, display, now, k, 5, x + j);
    }
    let (x, t, st) = column_of(p, 6, sel, tw);
    if j < t.len() && x + j < column_end(6) && x + j < tw {
        lemma_listed_column(g, tw, th, s, gz, u, display, now, k, 6, x + j);
    }
    let (x, t, st) = column_of(p, 7, sel, tw);
    if j < t.len() && x + j < column_end(7) && x + j < tw {
        lemma_listed_column(g, tw, th, s, gz, u, display, now, k, 7, x + j);
    }
    let (x, t, st) = column_of(p, 8, sel, tw);
    if j < t.len() && x + j < column_end(8) && x + j < tw {
        lemma_listed_column(g, tw, th, s, gz, u, display, now, k, 8, x + j);
    }
}


/// The header tells, in this order, the host, the temperature where it is
/// known, the clock rate, how long the system has been up, the load of the last
/// one, five and fifteen minutes, how many processes there are, and whether
/// they are shown as a tree.
pub proof fn law_header_tells(
    g: Seq<Seq<Cell>>,
    tw: int,
    th: int,
    s: State,
    gz: Gauges,
    u: UiModel,
    display: Seq<usize>,
    now: int,
)
    requires
        large_enough(tw, th),
        tw <= 0xffff,
        has_size(g, tw, th),
    ensures
        ({
            let warmth = match s.temp {
                Some(t) => " "@ + t@ + "°C"@,
                None => ""@,
            };
            let tree = if u.tree_view {
                " [TREE]"@
            } else {
                ""@
            };
            let told = " ◈ SYSMON  "@ + s.hostname@ + warmth + "  "@ + decimal_of(
                mean_of(s.freqs@),
            ) + " MHz  ↑ "@ + up_text(s.uptime as nat) + "  load "@ + s.load1@ + " "@ + s.load5@
                + " "@ + s.load15@ + "  "@ + decimal_of(s.proc_count as nat) + " procs"@ + tree;
            row_shows(
                rendered(g, tw, th, s, gz, u, display, now)[0],
                told,
                Style { fg: Color::Cyan, bold: true, dim: false, rev: false },
            )
        }),
{
    law_header_is_shown(g, tw, th, s, gz, u, display, now);
}

/// The footer tells what can be done: the text of a search while it is typed,
/// in yellow; the keys, in cyan, while help is asked for; the question about the
/// selected process and the choice of a signal, in red. In the list it shows a
/// message in green for less than three seconds, and otherwise the keys, in
/// grey.
pub proof fn law_footer_tells(
    g: Seq<Seq<Cell>>,
    tw: int,
    th: int,
    s: State,
    gz: Gauges,
    u: UiModel,
    display: Seq<usize>,
    now: int,
)
    requires
        large_enough(tw, th),
        tw <= 0xffff,
        has_size(g, tw, th),
        u.selected >= 0,
    ensures
        ({
            let row = rendered(g, tw, th, s, gz, u, display, now)[th - 1];
            let bold = |c: Color| Style { fg: c, bold: true, dim: false, rev: false };
            let told = u.status_msg.len() > 0 && now < u.status_ts + 3_000_000_000;
            let pid = if u.selected < display.len() {
                s.all_procs@[display[u.selected] as int].pid
            } else {
                0
            };
            &&& u.mode == UiMode::Search ==> row_shows(
                row,
                " Search: "@ + u.search + "_  [Enter] confirm  [Esc] cancel"@,
                bold(Color::Yellow),
            )
            &&& u.mode == UiMode::Help ==> row_shows(
                row,
                " [/]search [k]kill [F9]signal [t]tree [g]graphs [r]reverse [c/m/p/n/u]sort [?]help [q]quit"@,
                bold(Color::Cyan),
            )
            &&& u.mode == UiMode::Kill ==> row_shows(
                row,
                " Kill PID "@ + decimal_of(pid as nat)
                    + " with SIGTERM? [y]yes  [n]cancel  [F9]choose signal"@,
                bold(Color::Red),
            )
            &&& u.mode == UiMode::Signal ==> row_shows(
                row,
                " Signal: [1]HUP [2]INT [3]QUIT [9]KILL [15]TERM — type number then Enter"@,
                bold(Color::Red),
            )
            &&& u.mode == UiMode::Normal && told ==> row_shows(
                row,
                " ✓ "@ + u.status_msg,
                bold(Color::Green),
            )
            &&& u.mode == UiMode::Normal && !told ==> row_shows(
                row,
                " [/]search  [k]kill  [F9]sig  [t]tree  [g]graphs  [↑↓]scroll  [?]help  [q]quit"@,
                bold(Color::DarkGrey),
            )
        }),
{
    law_footer_is_shown(g, tw, th, s, gz, u, display, now);
}

/// A row that shows a text has its characters in their order, and spaces where
/// the text ends before the screen.
pub proof fn law_row_shows_the_characters(row: Seq<Cell>, t: Seq<char>, st: Style, c: int)
    requires
        row_shows(row, t, st),
        0 <= c < row.len(),
    ensures
        c < t.len() ==> row[c].ch == t[c],
        c >= t.len() ==> row[c].ch == ' ',
        row[c].fg == st.fg,
        row[c].bold == st.bold,
        row[c].dim == st.dim,
        row[c].rev == st.rev,
{
    assert(row[c] == styled(boxed(t, row.len() as int)[c], st));
}

proof fn lemma_table_top(
    g: Seq<Seq<Cell>>,
    tw: int,
    th: int,
    procs: Seq<Proc>,
    u: UiModel,
    display: Seq<usize>,
    f: Frame,
    r: int,
)
    requires
        has_size(g, tw, th),
        f.bot_y >= 1,
        f.bot_h >= 4,
        f.bot_y + f.bot_h == th - 1,
        f.bot_y <= r < f.bot_y + 3,
    ensures
        table_on(g, tw, procs, u, display, f)[r] == table_base(
            g,
            tw,
            u,
            display.len() as int,
            f,
        )[r],
{
    let len = display.len() as int;
    let n = row_count(u, len, f);
    let y = f.bot_y + 3;
    let base = table_base(g, tw, u, len, f);
    lemma_table_base(g, tw, u, len, f);
    lemma_rows(base, tw, procs, u, display, y, n);
}

proof fn lemma_drawn_top(
    g: Seq<Seq<Cell>>,
    tw: int,
    th: int,
    s: State,
    gz: Gauges,
    u: UiModel,
    display: Seq<usize>,
    now: int,
    r: int,
)
    requires
        large_enough(tw, th),
        has_size(g, tw, th),
        frame_of(tw, th, s, u).bot_y <= r < frame_of(tw, th, s, u).bot_y + 3,
    ensures
        has_size(upper_of(g, tw, th, s, gz, u), tw, th),
        rendered(g, tw, th, s, gz, u, display, now)[r] == table_base(
            upper_of(g, tw, th, s, gz, u),
            tw,
            u,
            display.len() as int,
            frame_of(tw, th, s, u),
        )[r],
{
    let f = frame_of(tw, th, s, u);
    law_parts_fill_the_screen(tw, th, u.show_graphs, s.gpu is Some, s.cores@.len() as int);
    lemma_upper(g, tw, th, s, gz, u);
    let g2 = upper_of(g, tw, th, s, gz, u);
    lemma_table_top(g2, tw, th, s.all_procs@, u, display, f, r);
}

proof fn lemma_title_row(
    g: Seq<Seq<Cell>>,
    tw: int,
    th: int,
    u: UiModel,
    len: int,
    f: Frame,
    i: int,
)
    requires
        has_size(g, tw, th),
        40 <= tw <= 0xffff,
        f.bot_y >= 1,
        f.bot_h >= 4,
        f.bot_y + f.bot_h == th - 1,
        0 <= i < list_title(u, len).len(),
        i < tw - 5,
    ensures
        table_base(g, tw, u, len, f)[f.bot_y][3 + i] == styled(
            list_title(u, len)[i],
            bright(Color::Magenta),
        ),
{
    let title = list_title(u, len);
    let y = f.bot_y;
    let framed = paint(g, 0, y, tw, f.bot_h, border(tw, f.bot_h));
    let t = title_of(title, tw);
    let g3 = print(framed, 2, y, t, bright(Color::Magenta));
    assert(g[y].len() == tw);
    let full = seq![' '] + title + seq![' '];
    assert(full[i + 1] == title[i]);
    assert(t[i + 1] == title[i]);
    assert(shown(t.len() as int, i + 1) == i + 1);
    assert(g3[y][3 + i] == styled(title[i], bright(Color::Magenta)));
    assert(headings_on(g3, y + 1, u)[y] == g3[y]) by {
        reveal(headings_on);
    }
}

/// The title of the list tells what is searched for, by what the list is sorted
/// and in which direction, and how many processes it has.
pub proof fn law_list_title_tells(
    g: Seq<Seq<Cell>>,
    tw: int,
    th: int,
    s: State,
    gz: Gauges,
    u: UiModel,
    display: Seq<usize>,
    now: int,
    label: Seq<char>,
    i: int,
)
    requires
        large_enough(tw, th),
        tw <= 0xffff,
        has_size(g, tw, th),
        u.sort_col == SortCol::Cpu ==> label == "CPU"@,
        u.sort_col == SortCol::Mem ==> label == "MEM"@,
        u.sort_col == SortCol::Pid ==> label == "PID"@,
        u.sort_col == SortCol::Name ==> label == "NAME"@,
        u.sort_col == SortCol::User ==> label == "USER"@,
        u.sort_col == SortCol::State ==> label == "ST"@,
        u.sort_col == SortCol::Threads ==> label == "THR"@,
        u.sort_col == SortCol::Virt ==> label == "VIRT"@,
        0 <= i,
    ensures
        ({
            let search = if u.search.len() > 0 {
                " [/"@ + u.search + "]"@
            } else {
                ""@
            };
            let arrow = if u.sort_asc {
                "▲"@
            } else {
                "▼"@
            };
            let title = "PROCESSES"@ + search + "  "@ + label + arrow + "  "@ + decimal_of(
                display.len(),
            ) + " shown"@;
            let row = rendered(g, tw, th, s, gz, u, display, now)[frame_of(tw, th, s, u).bot_y];
            i < title.len() && i < tw - 5 ==> row[3 + i] == (Cell {
                ch: title[i],
                fg: Color::Magenta,
                bold: true,
                dim: false,
                rev: false,
            })
        }),
{
    let f = frame_of(tw, th, s, u);
    law_parts_fill_the_screen(tw, th, u.show_graphs, s.gpu is Some, s.cores@.len() as int);
    lemma_drawn_top(g, tw, th, s, gz, u, display, now, f.bot_y);
    let g2 = upper_of(g, tw, th, s, gz, u);
    assert(label_of(u.sort_col) == label);
    if i < list_title(u, display.len() as int).len() && i < tw - 5 {
        lemma_title_row(g2, tw, th, u, display.len() as int, f, i);
    }
}

proof fn lemma_headings_row(
    g: Seq<Seq<Cell>>,
    tw: int,
    th: int,
    u: UiModel,
    len: int,
    f: Frame,
    col: SortCol,
    c: int,
)
    requires
        has_size(g, tw, th),
        f.bot_y >= 1,
        f.bot_h >= 4,
        f.bot_y + f.bot_h == th - 1,
        heading_at(c) == Some(col),
        heading_place(col).0 <= c < tw,
    ensures
        table_base(g, tw, u, len, f)[f.bot_y + 1][c] == styled(
            heading_text(col, u)[c - heading_place(col).0],
            heading_style(col, u),
        ),
{
    let y = f.bot_y;
    let title = list_title(u, len);
    lemma_box_below(g, 0, y, tw, f.bot_h, title, Color::Magenta);
    let g3 = box_on(g, 0, y, tw, f.bot_h, title, Color::Magenta);
    assert(g3[y + 1].len() == g[y + 1].len());
    law_headings_are_where_clicks_find_them(g3, y + 1, u, c);
}

proof fn lemma_headings_end(
    g: Seq<Seq<Cell>>,
    tw: int,
    th: int,
    u: UiModel,
    len: int,
    f: Frame,
    i: int,
)
    requires
        has_size(g, tw, th),
        tw <= 0xffff,
        f.bot_y >= 1,
        f.bot_h >= 4,
        f.bot_y + f.bot_h == th - 1,
        0 <= i,
    ensures
        i < "COMMAND"@.len() && 81 + i < tw ==> table_base(g, tw, u, len, f)[f.bot_y + 1][81 + i]
            == styled("COMMAND"@[i], dimmed()),
        1 <= i < tw - 1 ==> table_base(g, tw, u, len, f)[f.bot_y + 2][i] == styled('─', dimmed()),
{
    let y = f.bot_y;
    let title = list_title(u, len);
    lemma_box_below(g, 0, y, tw, f.bot_h, title, Color::Magenta);
    let g3 = box_on(g, 0, y, tw, f.bot_h, title, Color::Magenta);
    assert(g3[y + 1].len() == g[y + 1].len());
    assert(g3[y + 2].len() == g[y + 2].len());
    lemma_headings_below(g3, y + 1, u);
    let g4 = headings_on(g3, y + 1, u);
    assert(g4[y + 2].len() == g3[y + 2].len());
    reveal_strlit("COMMAND");
    if i < "COMMAND"@.len() && 81 + i < tw {
        assert(g4[y + 1][81 + i] == styled("COMMAND"@[i], dimmed())) by {
            reveal(headings_on);
        }
    }
}

proof fn lemma_heading_chars(col: SortCol, u: UiModel, i: int)
    requires
        0 <= i < heading_place(col).1 - 1,
    ensures
        ({
            let label = heading_place(col).2;
            let t = heading_text(col, u);
            &&& u.sort_col == col && u.sort_asc ==> t[0] == '▲'
            &&& u.sort_col == col && !u.sort_asc ==> t[0] == '▼'
            &&& u.sort_col != col ==> t[0] == ' '
            &&& i < label.len() ==> t[1 + i] == label[i]
            &&& i >= label.len() ==> t[1 + i] == ' '
        }),
{
    lemma_heading_len(col, u);
    reveal_strlit(" ");
    reveal_strlit("▲");
    reveal_strlit("▼");
}

/// A column of the list, with where its heading stands, how wide that is, and
/// the label.
pub open spec fn is_heading(col: SortCol, x: int, w: int, label: Seq<char>) -> bool {
    &&& col == SortCol::Pid ==> x == 2 && w == 7 && label == "PID"@
    &&& col == SortCol::Name ==> x == 10 && w == 17 && label == "NAME"@
    &&& col == SortCol::User ==> x == 28 && w == 12 && label == "USER"@
    &&& col == SortCol::State ==> x == 41 && w == 5 && label == "ST"@
    &&& col == SortCol::Cpu ==> x == 47 && w == 7 && label == "CPU%"@
    &&& col == SortCol::Mem ==> x == 55 && w == 10 && label == "MEM"@
    &&& col == SortCol::Virt ==> x == 66 && w == 8 && label == "VIRT"@
    &&& col == SortCol::Threads ==> x == 75 && w == 5 && label == "THR"@
}

/// Each column of the list has its heading above it, and the one that the list
/// is sorted by stands out and has an arrow in front: up where it ascends, down
/// where it descends.
pub proof fn law_headings_are_shown(
    g: Seq<Seq<Cell>>,
    tw: int,
    th: int,
    s: State,
    gz: Gauges,
    u: UiModel,
    display: Seq<usize>,
    now: int,
    col: SortCol,
    x: int,
    w: int,
    label: Seq<char>,
    i: int,
)
    requires
        large_enough(tw, th),
        tw <= 0xffff,
        has_size(g, tw, th),
        is_heading(col, x, w, label),
        0 <= i < w - 1,
    ensures
        ({
            let row = rendered(g, tw, th, s, gz, u, display, now)[frame_of(tw, th, s, u).bot_y
                + 1];
            let sorts = u.sort_col == col;
            &&& x < tw ==> {
                &&& sorts && u.sort_asc ==> row[x].ch == '▲'
                &&& sorts && !u.sort_asc ==> row[x].ch == '▼'
                &&& !sorts ==> row[x].ch == ' '
            }
            &&& x + 1 + i < tw ==> {
                let cell = row[x + 1 + i];
                &&& i < label.len() ==> cell.ch == label[i]
                &&& i >= label.len() ==> cell.ch == ' '
                &&& cell.fg == Color::White
                &&& cell.bold == sorts
                &&& cell.dim != sorts
                &&& !cell.rev
            }
        }),
{
    let f = frame_of(tw, th, s, u);
    let y = f.bot_y;
    law_parts_fill_the_screen(tw, th, u.show_graphs, s.gpu is Some, s.cores@.len() as int);
    lemma_drawn_top(g, tw, th, s, gz, u, display, now, y + 1);
    let g2 = upper_of(g, tw, th, s, gz, u);
    let len = display.len() as int;
    assert(heading_place(col) == (x, w, label));
    lemma_heading_chars(col, u, i);
    if x < tw {
        lemma_headings_row(g2, tw, th, u, len, f, col, x);
    }
    if x + 1 + i < tw {
        lemma_headings_row(g2, tw, th, u, len, f, col, x + 1 + i);
    }
}

/// The commands have a heading that is never sorted by, and a line separates
/// the headings from the rows.
pub proof fn law_headings_end_in_a_line(
    g: Seq<Seq<Cell>>,
    tw: int,
    th: int,
    s: State,
    gz: Gauges,
    u: UiModel,
    display: Seq<usize>,
    now: int,
    i: int,
)
    requires
        large_enough(tw, th),
        tw <= 0xffff,
        has_size(g, tw, th),
        0 <= i,
    ensures
        ({
            let y = frame_of(tw, th, s, u).bot_y;
            let drawn = rendered(g, tw, th, s, gz, u, display, now);
            &&& i < "COMMAND"@.len() && 81 + i < tw ==> drawn[y + 1][81 + i] == (Cell {
                ch: "COMMAND"@[i],
                fg: Color::White,
                bold: false,
                dim: true,
                rev: false,
            })
            &&& 1 <= i < tw - 1 ==> drawn[y + 2][i] == (Cell {
                ch: '─',
                fg: Color::White,
                bold: false,
                dim: true,
                rev: false,
            })
        }),
{
    let f = frame_of(tw, th, s, u);
    let y = f.bot_y;
    law_parts_fill_the_screen(tw, th, u.show_graphs, s.gpu is Some, s.cores@.len() as int);
    lemma_drawn_top(g, tw, th, s, gz, u, display, now, y + 1);
    lemma_drawn_top(g, tw, th, s, gz, u, display, now, y + 2);
    let g2 = upper_of(g, tw, th, s, gz, u);
    lemma_headings_end(g2, tw, th, u, display.len() as int, f, i);
}


/// A frame takes 40 columns and 15 rows.
pub proof fn law_room_for_a_frame(tw: int, th: int)
    ensures
        large_enough(tw, th) <==> tw >= 40 && th >= 15,
{
}

/// After a frame was drawn it is known where the list stands: below the boxes,
/// and down to the footer. Nothing else is changed by drawing.
pub proof fn law_place_of_the_list_is_known(u: UiModel, tw: int, th: int, s: State)
    requires
        tw >= 40,
        th >= 15,
    ensures
        ({
            let v = placed(u, tw, th, s);
            let f = frame_of(tw, th, s, u);
            &&& v == (UiModel {
                proc_table_y: v.proc_table_y,
                proc_table_h: v.proc_table_h,
                ..u
            })
            &&& v.proc_table_y == 1 + f.top_h + f.mid_h
            &&& v.proc_table_y + v.proc_table_h == th - 1
        }),
{
    law_parts_fill_the_screen(tw, th, u.show_graphs, s.gpu is Some, s.cores@.len() as int);
}

proof fn lemma_row_gaps(g: Seq<Seq<Cell>>, p: Proc, y: int, sel: bool, tw: int, c: int)
    requires
        0 <= y < g.len(),
        c < g[y].len(),
        tw <= 0xffff,
        c < tw - 1,
        c == 1 || c == 27 || c == 40 || c == 46,
    ensures
        row_on(g, p, y, sel, tw)[y][c] == styled(' ', colored(Color::Reset)),
{
    reveal(row_on);
    reveal_strlit("RUN");
    reveal_strlit("SLP");
    reveal_strlit("DSK");
    reveal_strlit("ZMB");
    reveal_strlit("STP");
    reveal_strlit("???");
    number::lemma_decimal_len(p.pid as nat);
    assert(shown((tw - 2) as int, c - 1) == c - 1);
}

proof fn lemma_table_gap(
    g: Seq<Seq<Cell>>,
    tw: int,
    th: int,
    procs: Seq<Proc>,
    u: UiModel,
    display: Seq<usize>,
    f: Frame,
    i: int,
    c: int,
)
    requires
        has_size(g, tw, th),
        tw <= 0xffff,
        f.bot_y >= 1,
        f.bot_h >= 4,
        f.bot_y + f.bot_h == th - 1,
        0 <= i < row_count(u, display.len() as int, f),
        c < tw - 1,
        c == 1 || c == 27 || c == 40 || c == 46,
    ensures
        table_on(g, tw, procs, u, display, f)[f.bot_y + 3 + i][c] == styled(
            ' ',
            colored(Color::Reset),
        ),
{
    let len = display.len() as int;
    let n = row_count(u, len, f);
    let y = f.bot_y + 3;
    let base = table_base(g, tw, u, len, f);
    lemma_table_base(g, tw, u, len, f);
    lemma_rows_keep(base, tw, procs, u, display, y, n, i);
    lemma_rows(base, tw, procs, u, display, y, i);
    let before = rows_on(base, tw, procs, u, display, y, i);
    assert(before[y + i].len() == tw) by {
        assert(base[y + i].len() == g[y + i].len());
    }
    let k = u.scroll + i;
    lemma_row_gaps(before, procs[display[k] as int], y + i, k == u.selected, tw, c);
}

/// Between the columns of the list stand spaces, also in the selected row.
pub proof fn law_columns_are_apart(
    g: Seq<Seq<Cell>>,
    tw: int,
    th: int,
    s: State,
    gz: Gauges,
    u: UiModel,
    display: Seq<usize>,
    now: int,
    k: int,
    c: int,
)
    requires
        large_enough(tw, th),
        tw <= 0xffff,
        has_size(g, tw, th),
        0 <= u.scroll <= k < display.len(),
        k < u.scroll + visible_rows(th, u.show_graphs),
        c < tw - 1,
        c == 1 || c == 27 || c == 40 || c == 46,
    ensures
        rendered(g, tw, th, s, gz, u, display, now)[frame_of(tw, th, s, u).bot_y + 3 + k
            - u.scroll][c] == (Cell {
            ch: ' ',
            fg: Color::Reset,
            bold: false,
            dim: false,
            rev: false,
        }),
{
    let f = frame_of(tw, th, s, u);
    law_parts_fill_the_screen(tw, th, u.show_graphs, s.gpu is Some, s.cores@.len() as int);
    law_list_has_the_visible_rows(tw, th, u.show_graphs, s.gpu is Some, s.cores@.len() as int);
    lemma_upper(g, tw, th, s, gz, u);
    let g2 = upper_of(g, tw, th, s, gz, u);
    lemma_table_gap(g2, tw, th, s.all_procs@, u, display, f, k - u.scroll, c);
}

/// Where the list has no more processes, its rows stay as they were.
pub proof fn law_rows_without_processes(
    g: Seq<Seq<Cell>>,
    tw: int,
    th: int,
    s: State,
    gz: Gauges,
    u: UiModel,
    display: Seq<usize>,
    now: int,
    r: int,
    c: int,
)
    requires
        large_enough(tw, th),
        has_size(g, tw, th),
        !u.show_graphs,
        u.scroll >= 0,
        4 <= r < th - 2,
        r - 4 >= display.len() - u.scroll,
        1 <= c < tw - 1,
    ensures
        rendered(g, tw, th, s, gz, u, display, now)[r][c] == g[r][c],
{
    let f = frame_of(tw, th, s, u);
    law_parts_fill_the_screen(tw, th, u.show_graphs, s.gpu is Some, s.cores@.len() as int);
    lemma_upper(g, tw, th, s, gz, u);
    let g2 = upper_of(g, tw, th, s, gz, u);
    assert(g[r].len() == tw);
    assert(g2[r] == g[r]);
    let len = display.len() as int;
    let n = row_count(u, len, f);
    let base = table_base(g2, tw, u, len, f);
    lemma_table_base(g2, tw, u, len, f);
    lemma_rows(base, tw, s.all_procs@, u, display, f.bot_y + 3, n);
    let title = list_title(u, len);
    let framed = paint(g2, 0, f.bot_y, tw, f.bot_h, border(tw, f.bot_h));
    assert(framed[r][c] == g2[r][c]);
    let g3 = box_on(g2, 0, f.bot_y, tw, f.bot_h, title, Color::Magenta);
    assert(g3[r][c] == g2[r][c]);
    let g4 = headings_on(g3, f.bot_y + 1, u);
    assert(g4[r] == g3[r]) by {
        reveal(headings_on);
    }
    assert(base[r] == g4[r]);
}

} // verus!
