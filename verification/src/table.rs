//! The list of processes on the screen.
use vstd::prelude::*;

use crate::buffer::{print, Style};
use crate::buffer::{Buffer, Canvas, Cell, Color};
use crate::draw::{box_on, bright, colored, dimmed};
use crate::draw::{bold_on, dim, draw_box_buf, on, put_text};
use crate::layout::smaller;
use crate::layout::{Frame, Layout};
use crate::notation;
use crate::notation::{mem_text, state_color, state_text};
use crate::number;
use crate::number::{decimal_of, rest};
use crate::process::{label_of, within};
use crate::process::{Proc, SortCol};
use crate::reading;
use crate::reading::load_color;
use crate::state::short;
use crate::text;
use crate::text::{left_of, right_of, run, take_of};
use crate::ui::{Ui, UiModel};

verus! {

/// The arrow that shows the direction of the order.
pub open spec fn arrow_text(asc: bool) -> Seq<char> {
    if asc {
        "▲"@
    } else {
        "▼"@
    }
}

fn arrow(asc: bool) -> (s: &'static str)
    ensures
        s@ == arrow_text(asc),
        s@.len() == 1,
{
    proof {
        reveal_strlit("▲");
        reveal_strlit("▼");
    }
    if asc {
        "▲"
    } else {
        "▼"
    }
}

/// The title of the list: what is searched for, the column and the direction
/// of the order, and how many processes there are.
pub open spec fn list_title(u: UiModel, len: int) -> Seq<char> {
    "PROCESSES"@ + (if u.search.len() > 0 {
        " [/"@ + u.search + "]"@
    } else {
        ""@
    }) + "  "@ + label_of(u.sort_col) + arrow_text(u.sort_asc) + "  "@ + decimal_of(len as nat)
        + " shown"@
}

fn title(ui: &Ui, len: usize) -> (t: String)
    ensures
        t@ == list_title(ui@, len as int),
{
    let mut t: String = "PROCESSES".to_owned();
    if !ui.search.as_str().is_empty() {
        let mut si: String = " [/".to_owned();
        si.append(ui.search.as_str());
        si.append("]");
        t.append(si.as_str());
    } else {
        t.append("");
    }
    t.append("  ");
    t.append(ui.sort_col.label());
    t.append(arrow(ui.sort_asc));
    t.append("  ");
    t.append(number::decimal(len as u64).as_str());
    t.append(" shown");
    t
}

/// Where the heading of a column stands, how wide it is, and its label.
pub open spec fn heading_place(col: SortCol) -> (int, int, Seq<char>) {
    match col {
        SortCol::Pid => (2, 7, "PID"@),
        SortCol::Name => (10, 17, "NAME"@),
        SortCol::User => (28, 12, "USER"@),
        SortCol::State => (41, 5, "ST"@),
        SortCol::Cpu => (47, 7, "CPU%"@),
        SortCol::Mem => (55, 10, "MEM"@),
        SortCol::Virt => (66, 8, "VIRT"@),
        SortCol::Threads => (75, 5, "THR"@),
    }
}

fn heading_spot(col: SortCol) -> (r: (u16, u16, &'static str))
    ensures
        (r.0 as int, r.1 as int, r.2@) == heading_place(col),
{
    match col {
        SortCol::Pid => (2, 7, "PID"),
        SortCol::Name => (10, 17, "NAME"),
        SortCol::User => (28, 12, "USER"),
        SortCol::State => (41, 5, "ST"),
        SortCol::Cpu => (47, 7, "CPU%"),
        SortCol::Mem => (55, 10, "MEM"),
        SortCol::Virt => (66, 8, "VIRT"),
        SortCol::Threads => (75, 5, "THR"),
    }
}

/// The heading of a column: that by which the list is sorted has an arrow.
pub open spec fn heading_text(col: SortCol, u: UiModel) -> Seq<char> {
    let (x, w, label) = heading_place(col);
    (if u.sort_col == col {
        arrow_text(u.sort_asc)
    } else {
        " "@
    }) + left_of(label, w - 1)
}

/// The style of a heading: that by which the list is sorted stands out.
pub open spec fn heading_style(col: SortCol, u: UiModel) -> Style {
    if u.sort_col == col {
        bright(Color::White)
    } else {
        dimmed()
    }
}

/// A heading is as wide as its place.
pub proof fn lemma_heading_len(col: SortCol, u: UiModel)
    ensures
        heading_text(col, u).len() == heading_place(col).1,
{
    reveal_strlit("PID");
    reveal_strlit("NAME");
    reveal_strlit("USER");
    reveal_strlit("ST");
    reveal_strlit("CPU%");
    reveal_strlit("MEM");
    reveal_strlit("VIRT");
    reveal_strlit("THR");
    reveal_strlit(" ");
    reveal_strlit("▲");
    reveal_strlit("▼");
}

/// A grid with the heading of a column.
pub open spec fn heading_on(g: Seq<Seq<Cell>>, col: SortCol, y: int, u: UiModel) -> Seq<Seq<Cell>> {
    print(g, heading_place(col).0, y, heading_text(col, u), heading_style(col, u))
}

fn draw_heading(buf: &mut Buffer, col: SortCol, y: u16, ui: &Ui)
    requires
        old(buf).wf(),
    ensures
        final(buf).wf(),
        final(buf).w == old(buf).w,
        final(buf).h == old(buf).h,
        final(buf)@ == heading_on(old(buf)@, col, y as int, ui@),
{
    let (x, w, label) = heading_spot(col);
    let chosen = ui.sort_col == col;
    let mut t: String = (if chosen { arrow(ui.sort_asc) } else { " " }).to_owned();
    t.append(text::left(label, (w - 1) as usize).as_str());
    proof {
        lemma_heading_len(col, ui@);
    }
    put_text(buf, x, y, t.as_str(), if chosen { bold_on(Color::White) } else { dim() });
}

/// A grid with the headings of all columns.
#[verifier::opaque]
pub open spec fn headings_on(g: Seq<Seq<Cell>>, y: int, u: UiModel) -> Seq<Seq<Cell>> {
    let g1 = heading_on(g, SortCol::Pid, y, u);
    let g2 = heading_on(g1, SortCol::Name, y, u);
    let g3 = heading_on(g2, SortCol::User, y, u);
    let g4 = heading_on(g3, SortCol::State, y, u);
    let g5 = heading_on(g4, SortCol::Cpu, y, u);
    let g6 = heading_on(g5, SortCol::Mem, y, u);
    let g7 = heading_on(g6, SortCol::Virt, y, u);
    let g8 = heading_on(g7, SortCol::Threads, y, u);
    print(g8, 81, y, "COMMAND"@, dimmed())
}

fn draw_headings(buf: &mut Buffer, y: u16, ui: &Ui)
    requires
        old(buf).wf(),
    ensures
        final(buf).wf(),
        final(buf).w == old(buf).w,
        final(buf).h == old(buf).h,
        final(buf)@ == headings_on(old(buf)@, y as int, ui@),
{
    draw_heading(buf, SortCol::Pid, y, ui);
    draw_heading(buf, SortCol::Name, y, ui);
    draw_heading(buf, SortCol::User, y, ui);
    draw_heading(buf, SortCol::State, y, ui);
    draw_heading(buf, SortCol::Cpu, y, ui);
    draw_heading(buf, SortCol::Mem, y, ui);
    draw_heading(buf, SortCol::Virt, y, ui);
    draw_heading(buf, SortCol::Threads, y, ui);
    proof {
        reveal(headings_on);
        reveal_strlit("COMMAND");
    }
    put_text(buf, 81, y, "COMMAND", dim());
}

/// A style, with the two colours exchanged in the selected row.
pub open spec fn in_row(st: Style, sel: bool) -> Style {
    Style { rev: st.rev || sel, ..st }
}

/// A colour, or white in the selected row.
pub open spec fn unless_selected(c: Color, sel: bool) -> Color {
    if sel {
        Color::White
    } else {
        c
    }
}

fn row_style(st: Style, sel: bool) -> (r: Style)
    ensures
        r == in_row(st, sel),
{
    Style { fg: st.fg, bold: st.bold, dim: st.dim, rev: st.rev || sel }
}

fn row_color(c: Color, sel: bool) -> (r: Color)
    ensures
        r == unless_selected(c, sel),
{
    if sel {
        Color::White
    } else {
        c
    }
}

/// A grid of `tw` columns with a process in row `y`.
#[verifier::opaque]
pub open spec fn row_on(g: Seq<Seq<Cell>>, p: Proc, y: int, sel: bool, tw: int) -> Seq<Seq<Cell>> {
    let g0 = print(g, 1, y, run(' ', tw - 2), colored(Color::Reset));
    let g1 = print(g0, 2, y, left_of(decimal_of(p.pid as nat), 7), in_row(dimmed(), sel));
    let g2 = print(
        g1,
        10,
        y,
        left_of(take_of(p.name@, 16), 17),
        in_row(bright(Color::White), sel),
    );
    let g3 = print(
        g2,
        28,
        y,
        left_of(take_of(p.user@, 11), 12),
        in_row(colored(unless_selected(Color::Cyan, sel)), sel),
    );
    let g4 = print(
        g3,
        41,
        y,
        left_of(state_text(p.state), 5),
        in_row(colored(unless_selected(state_color(p.state), sel)), sel),
    );
    let g5 = print(
        g4,
        47,
        y,
        right_of(p.cpu.text@, 6) + "%"@,
        in_row(colored(unless_selected(load_color(p.cpu.bits), sel)), sel),
    );
    let g6 = print(
        g5,
        55,
        y,
        right_of(mem_text(p.mem_kb as nat), 9),
        in_row(colored(unless_selected(Color::Reset, sel)), sel),
    );
    let g7 = print(g6, 66, y, right_of(mem_text(p.virt_kb as nat), 7), in_row(dimmed(), sel));
    let g8 = print(g7, 75, y, right_of(decimal_of(p.threads as nat), 4), in_row(dimmed(), sel));
    print(g8, 81, y, take_of(p.cmd@, rest(tw, 83)), in_row(dimmed(), sel))
}

fn draw_row(buf: &mut Buffer, p: &Proc, y: u16, sel: bool)
    requires
        old(buf).wf(),
        old(buf).w >= 2,
        short(p.cpu.text@),
    ensures
        final(buf).wf(),
        final(buf).w == old(buf).w,
        final(buf).h == old(buf).h,
        final(buf)@ == row_on(old(buf)@, *p, y as int, sel, old(buf).w as int),
{
    let w: u16 = buf.w;
    let cmd_w: usize = if w < 83 {
        0
    } else {
        (w - 83) as usize
    };
    proof {
        reveal(row_on);
        number::lemma_decimal_len(p.pid as nat);
        number::lemma_decimal_len(p.threads as nat);
        crate::notation::lemma_mem_len(p.mem_kb as nat);
        crate::notation::lemma_mem_len(p.virt_kb as nat);
        reveal_strlit("%");
        reveal_strlit("RUN");
        reveal_strlit("SLP");
        reveal_strlit("DSK");
        reveal_strlit("ZMB");
        reveal_strlit("STP");
        reveal_strlit("???");
    }
    Canvas::new(buf).fg(Color::Reset).fill_line(1, y, w - 2, ' ');
    let faint = row_style(dim(), sel);
    let pid = text::left(number::decimal(p.pid as u64).as_str(), 7);
    put_text(buf, 2, y, pid.as_str(), faint);
    let name = text::left(text::take(p.name.as_str(), 16).as_str(), 17);
    put_text(buf, 10, y, name.as_str(), row_style(bold_on(Color::White), sel));
    let user = text::left(text::take(p.user.as_str(), 11).as_str(), 12);
    put_text(buf, 28, y, user.as_str(), row_style(on(row_color(Color::Cyan, sel)), sel));
    let state = text::left(notation::state_lbl(p.state), 5);
    let c = row_color(notation::state_col(p.state), sel);
    put_text(buf, 41, y, state.as_str(), row_style(on(c), sel));
    let mut cpu = text::right(p.cpu.text.as_str(), 6);
    cpu.append("%");
    let c = row_color(reading::clr(p.cpu.bits), sel);
    put_text(buf, 47, y, cpu.as_str(), row_style(on(c), sel));
    let mem = text::right(notation::fmt_mem(p.mem_kb).as_str(), 9);
    put_text(buf, 55, y, mem.as_str(), row_style(on(row_color(Color::Reset, sel)), sel));
    let virt = text::right(notation::fmt_mem(p.virt_kb).as_str(), 7);
    put_text(buf, 66, y, virt.as_str(), faint);
    let threads = text::right(number::decimal(p.threads as u64).as_str(), 4);
    put_text(buf, 75, y, threads.as_str(), faint);
    let cmd = text::take(p.cmd.as_str(), cmd_w);
    put_text(buf, 81, y, cmd.as_str(), faint);
}

/// A grid with the first `n` rows of the list, from the place on that it is
/// scrolled to.
pub open spec fn rows_on(
    g: Seq<Seq<Cell>>,
    tw: int,
    procs: Seq<Proc>,
    u: UiModel,
    display: Seq<usize>,
    y: int,
    n: int,
) -> Seq<Seq<Cell>>
    decreases n,
{
    if n <= 0 {
        g
    } else {
        let k = u.scroll + n - 1;
        row_on(
            rows_on(g, tw, procs, u, display, y, n - 1),
            procs[display[k] as int],
            y + n - 1,
            k == u.selected,
            tw,
        )
    }
}

/// How many processes are on the screen.
pub open spec fn row_count(u: UiModel, len: int, f: Frame) -> int {
    smaller(rest(f.bot_h, 4), rest(len, u.scroll))
}

/// A grid with the list of processes.
pub open spec fn table_on(
    g: Seq<Seq<Cell>>,
    tw: int,
    procs: Seq<Proc>,
    u: UiModel,
    display: Seq<usize>,
    f: Frame,
) -> Seq<Seq<Cell>> {
    if f.bot_h < 4 {
        g
    } else {
        let y = f.bot_y;
        let len = display.len() as int;
        let g1 = box_on(g, 0, y, tw, f.bot_h, list_title(u, len), Color::Magenta);
        let g2 = headings_on(g1, y + 1, u);
        let g3 = print(g2, 1, y + 2, run('─', tw - 2), dimmed());
        rows_on(g3, tw, procs, u, display, y + 3, row_count(u, len, f))
    }
}

pub(crate) fn draw_table(
    buf: &mut Buffer,
    procs: &Vec<Proc>,
    ui: &Ui,
    display: &Vec<usize>,
    l: &Layout,
)
    requires
        old(buf).wf(),
        old(buf).w >= 2,
        l.bot_y + l.bot_h <= 0xffff,
        within(display@, procs@.len()),
        forall|i: int| 0 <= i < procs@.len() ==> short((#[trigger] procs@[i]).cpu.text@),
    ensures
        final(buf).wf(),
        final(buf).w == old(buf).w,
        final(buf).h == old(buf).h,
        final(buf)@ == table_on(old(buf)@, old(buf).w as int, procs@, ui@, display@, l@),
{
    if l.bot_h < 4 {
        return ;
    }
    let w: u16 = buf.w;
    let y: u16 = l.bot_y;
    draw_box_buf(
        buf,
        0,
        y,
        w,
        l.bot_h,
        title(ui, display.len()).as_str(),
        Color::Magenta,
    );
    draw_headings(buf, y + 1, ui);
    Canvas::new(buf).dim().fill_line(1, y + 2, w - 2, '─');
    let vis: usize = (l.bot_h - 4) as usize;
    let below: usize = if display.len() < ui.scroll {
        0
    } else {
        display.len() - ui.scroll
    };
    let n: usize = if below < vis {
        below
    } else {
        vis
    };
    let ghost g = buf@;
    for k in 0..n
        invariant
            buf.wf(),
            buf.w == old(buf).w,
            buf.h == old(buf).h,
            w == buf.w,
            w >= 2,
            y == l.bot_y,
            y + l.bot_h <= 0xffff,
            n <= l.bot_h - 4,
            n > 0 ==> ui.scroll + n <= display.len(),
            within(display@, procs@.len()),
            forall|i: int| 0 <= i < procs@.len() ==> short((#[trigger] procs@[i]).cpu.text@),
            buf@ == rows_on(g, w as int, procs@, ui@, display@, y + 3, k as int),
    {
        let i: usize = ui.scroll + k;
        assert(display@[i as int] < procs@.len());
        draw_row(buf, &procs[display[i]], y + 3 + k as u16, i == ui.selected);
    }
}

} // verus!
