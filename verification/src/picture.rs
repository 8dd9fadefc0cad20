//! What a frame shows, told place by place.
use vstd::prelude::*;

use crate::buffer::{boxed, print, shown, styled};
use crate::buffer::{Cell, Color, Style};
use crate::draw::{bar_cells, bar_on, border, box_on, bright, colored, column_cell, dimmed};
use crate::draw::Column;
use crate::draw::{graph_cells, graph_on, paint, title_of};
use crate::layout::half_of;
use crate::layout::{law_parts_fill_the_screen, Frame, TOP_Y};
use crate::notation::mem_text;
use crate::number::{decimal_of, lemma_decimal_len};
use crate::panels::Gauges;
use crate::panels::{core_on, cores_on, detail_of, detail_place, details_on, flows_on, percent};
use crate::panels::{cpu_on, disk_on, gpu_on, header_on, net_on, ram_on, temp_text};
use crate::process::Proc;
use crate::reading::{load_color, Reading};
use crate::render::{boxes_on, frame_of, has_size, large_enough, rendered};
use crate::state::{short, used_of, GpuInfo, State};
use crate::stats::MemInfo;
use crate::table::{headings_on, list_title, row_count, row_on, rows_on, table_on};
use crate::text::{left_of, right_of, run};
use crate::ui::UiModel;

verus! {

/// A grid has a cell at column `c` of row `r`.
spec fn at(g: Seq<Seq<Cell>>, r: int, c: int, k: Cell) -> bool {
    0 <= r < g.len() && 0 <= c < g[r].len() && g[r][c] == k
}

/// A cell that is not shown in reverse.
pub open spec fn glyph(ch: char, fg: Color, bold: bool, dim: bool) -> Cell {
    Cell { ch, fg, bold, dim, rev: false }
}

/// A cell shows its part of a column of a graph in a colour: `below` rows of
/// the graph are below it. Full rows are solid; the row above them shows the
/// eighths, as one of the eight blocks from U+2581 on; the other rows are empty,
/// but for a line at the bottom.
pub open spec fn shows_column(cell: Cell, c: Column, below: int, color: Color) -> bool {
    &&& below < c.full ==> cell == glyph('█', color, false, false)
    &&& below == c.full && c.part is Some ==> {
        &&& cell == glyph(cell.ch, color, false, false)
        &&& c.part->0 <= 7 ==> cell.ch as int == 0x2581 + c.part->0
        &&& c.part->0 > 7 ==> cell.ch == '█'
    }
    &&& below > c.full || (below == c.full && c.part is None) ==> {
        &&& below == 0 ==> cell == glyph('▁', Color::White, false, true)
        &&& below > 0 ==> cell == glyph(' ', Color::White, false, true)
    }
}

proof fn lemma_column_shown(c: Column, h: int, j: int, color: Color)
    requires
        0 <= j < h,
    ensures
        shows_column(column_cell(c, h, j, color), c, h - 1 - j, color),
{
    assert('▁' as int == 0x2581);
    assert('▂' as int == 0x2582);
    assert('▃' as int == 0x2583);
    assert('▄' as int == 0x2584);
    assert('▅' as int == 0x2585);
    assert('▆' as int == 0x2586);
    assert('▇' as int == 0x2587);
    assert('█' as int == 0x2588);
}

/// A cell shows its part of a bar: the first `filled` of its cells are full.
pub open spec fn shows_bar(cell: Cell, i: int, filled: int, color: Color) -> bool {
    &&& i < filled ==> cell == glyph('█', color, false, false)
    &&& i >= filled ==> cell == glyph('░', Color::White, false, true)
}

proof fn lemma_print_keeps(
    g: Seq<Seq<Cell>>,
    x: int,
    y: int,
    t: Seq<char>,
    st: Style,
    r: int,
    c: int,
    k: Cell,
)
    requires
        at(g, r, c, k),
        r != y || c < x || c >= x + t.len(),
    ensures
        at(print(g, x, y, t, st), r, c, k),
{
}

proof fn lemma_print_sets(
    g: Seq<Seq<Cell>>,
    x: int,
    y: int,
    t: Seq<char>,
    st: Style,
    c: int,
    k: Cell,
)
    requires
        at(g, y, c, k),
        x <= c < x + t.len(),
        t.len() <= 0x1_0000,
    ensures
        at(print(g, x, y, t, st), y, c, styled(t[c - x], st)),
{
    assert(shown(t.len() as int, c - x) == c - x);
}

proof fn lemma_paint_keeps(
    g: Seq<Seq<Cell>>,
    x: int,
    y: int,
    w: int,
    h: int,
    f: spec_fn(int, int) -> Option<Cell>,
    r: int,
    c: int,
    k: Cell,
)
    requires
        at(g, r, c, k),
        r < y || r >= y + h || c < x || c >= x + w,
    ensures
        at(paint(g, x, y, w, h, f), r, c, k),
{
}

proof fn lemma_paint_sets(
    g: Seq<Seq<Cell>>,
    x: int,
    y: int,
    w: int,
    h: int,
    f: spec_fn(int, int) -> Option<Cell>,
    r: int,
    c: int,
    k: Cell,
)
    requires
        at(g, r, c, k),
        y <= r < y + h,
        x <= c < x + w,
        f(c - x, r - y) is Some,
    ensures
        at(paint(g, x, y, w, h, f), r, c, f(c - x, r - y)->0),
{
}

/// A box changes nothing but its frame and its title.
proof fn lemma_box_keeps(
    g: Seq<Seq<Cell>>,
    x: int,
    y: int,
    w: int,
    h: int,
    title: Seq<char>,
    tc: Color,
    r: int,
    c: int,
    k: Cell,
)
    requires
        at(g, r, c, k),
        r < y || r >= y + h || c < x || c >= x + w || (x < c < x + w - 1 && y < r < y + h - 1),
    ensures
        at(box_on(g, x, y, w, h, title, tc), r, c, k),
{
    if w >= 4 && h >= 2 {
        let framed = paint(g, x, y, w, h, border(w, h));
        assert(at(framed, r, c, k));
        if title.len() > 0 && w > 6 {
            assert(title_of(title, w).len() <= w - 4);
            lemma_print_keeps(framed, x + 2, y, title_of(title, w), bright(tc), r, c, k);
        }
    }
}

/// A place of the grid is still one after a box was drawn.
proof fn lemma_box_size(
    g: Seq<Seq<Cell>>,
    x: int,
    y: int,
    w: int,
    h: int,
    title: Seq<char>,
    tc: Color,
    r: int,
    c: int,
)
    requires
        at(g, r, c, g[r][c]),
    ensures
        at(
            box_on(g, x, y, w, h, title, tc),
            r,
            c,
            box_on(g, x, y, w, h, title, tc)[r][c],
        ),
{
}

/// The title of a box stands behind a space, three columns from its left edge.
proof fn lemma_box_title(
    g: Seq<Seq<Cell>>,
    x: int,
    y: int,
    w: int,
    h: int,
    title: Seq<char>,
    tc: Color,
    i: int,
)
    requires
        w > 6,
        h >= 2,
        w <= 0xffff,
        0 <= i < title.len(),
        i + 1 < w - 4,
        at(g, y, x + 3 + i, g[y][x + 3 + i]),
    ensures
        at(
            box_on(g, x, y, w, h, title, tc),
            y,
            x + 3 + i,
            glyph(title[i], tc, true, false),
        ),
{
    let framed = paint(g, x, y, w, h, border(w, h));
    let t = title_of(title, w);
    let full = seq![' '] + title + seq![' '];
    assert(full[i + 1] == title[i]);
    assert(t[i + 1] == title[i]);
    lemma_print_sets(framed, x + 2, y, t, bright(tc), x + 3 + i, framed[y][x + 3 + i]);
}

/// The boxes of two flows change nothing above or below them, nor to the left.
proof fn lemma_flows_keep(
    g: Seq<Seq<Cell>>,
    x: int,
    w: int,
    title: Seq<char>,
    tc: Color,
    a: (Seq<char>, int, Seq<Column>, Color),
    b: (Seq<char>, int, Seq<Column>, Color),
    f: Frame,
    r: int,
    c: int,
    k: Cell,
)
    requires
        at(g, r, c, k),
        f.mid_h >= 8,
        f.flow_h == f.mid_h - 3,
        a.1 >= 0,
        r < f.mid_y || r >= f.mid_y + f.mid_h || c < x,
    ensures
        at(flows_on(g, x, w, title, tc, a, b, f), r, c, k),
{
    let y = f.mid_y;
    lemma_box_keeps(g, x, y, w, f.mid_h, title, tc, r, c, k);
    let g1 = box_on(g, x, y, w, f.mid_h, title, tc);
    lemma_print_keeps(g1, x + 2, y + 1, a.0, colored(a.3), r, c, k);
    let g2 = print(g1, x + 2, y + 1, a.0, colored(a.3));
    lemma_print_keeps(g2, x + 3 + a.1, y + 1, b.0, colored(b.3), r, c, k);
    let g3 = print(g2, x + 3 + a.1, y + 1, b.0, colored(b.3));
    lemma_paint_keeps(g3, x + 1, y + 2, a.1, f.flow_h, graph_cells(a.2, f.flow_h, a.3), r, c, k);
    let g4 = graph_on(g3, x + 1, y + 2, a.1, f.flow_h, a.2, a.3);
    lemma_paint_keeps(
        g4,
        x + 2 + a.1,
        y + 2,
        b.1,
        f.flow_h,
        graph_cells(b.2, f.flow_h, b.3),
        r,
        c,
        k,
    );
}

/// The graphs of two flows.
proof fn lemma_flows_graphs(
    g: Seq<Seq<Cell>>,
    x: int,
    w: int,
    title: Seq<char>,
    tc: Color,
    a: (Seq<char>, int, Seq<Column>, Color),
    b: (Seq<char>, int, Seq<Column>, Color),
    f: Frame,
    i: int,
    j: int,
)
    requires
        f.mid_h >= 8,
        f.flow_h == f.mid_h - 3,
        0 <= i,
        0 <= j < f.flow_h,
        x >= 0,
        a.1 >= 0,
    ensures
        ({
            let h = flows_on(g, x, w, title, tc, a, b, f);
            let y = f.mid_y + 2 + j;
            &&& i < a.1 && at(g, y, x + 1 + i, g[y][x + 1 + i]) ==> at(
                h,
                y,
                x + 1 + i,
                column_cell(a.2[i], f.flow_h, j, a.3),
            )
            &&& i < b.1 && at(g, y, x + 2 + a.1 + i, g[y][x + 2 + a.1 + i]) ==> at(
                h,
                y,
                x + 2 + a.1 + i,
                column_cell(b.2[i], f.flow_h, j, b.3),
            )
        }),
{
    let y = f.mid_y;
    let g1 = box_on(g, x, y, w, f.mid_h, title, tc);
    let g2 = print(g1, x + 2, y + 1, a.0, colored(a.3));
    let g3 = print(g2, x + 3 + a.1, y + 1, b.0, colored(b.3));
    let g4 = graph_on(g3, x + 1, y + 2, a.1, f.flow_h, a.2, a.3);
    let r = y + 2 + j;
    if i < a.1 && at(g, r, x + 1 + i, g[r][x + 1 + i]) {
        lemma_box_size(g, x, y, w, f.mid_h, title, tc, r, x + 1 + i);
        lemma_paint_sets(
            g3,
            x + 1,
            y + 2,
            a.1,
            f.flow_h,
            graph_cells(a.2, f.flow_h, a.3),
            r,
            x + 1 + i,
            g3[r][x + 1 + i],
        );
        lemma_paint_keeps(
            g4,
            x + 2 + a.1,
            y + 2,
            b.1,
            f.flow_h,
            graph_cells(b.2, f.flow_h, b.3),
            r,
            x + 1 + i,
            column_cell(a.2[i], f.flow_h, j, a.3),
        );
    }
    let c = x + 2 + a.1 + i;
    if i < b.1 && at(g, r, c, g[r][c]) {
        lemma_box_size(g, x, y, w, f.mid_h, title, tc, r, c);
        lemma_paint_sets(
            g4,
            x + 2 + a.1,
            y + 2,
            b.1,
            f.flow_h,
            graph_cells(b.2, f.flow_h, b.3),
            r,
            c,
            g4[r][c],
        );
    }
}

/// The title and the labels of two flows.
proof fn lemma_flows_texts(
    g: Seq<Seq<Cell>>,
    x: int,
    w: int,
    title: Seq<char>,
    tc: Color,
    a: (Seq<char>, int, Seq<Column>, Color),
    b: (Seq<char>, int, Seq<Column>, Color),
    f: Frame,
    i: int,
)
    requires
        f.mid_h >= 8,
        f.flow_h == f.mid_h - 3,
        0 <= i,
        x >= 0,
        a.1 >= 0,
        6 < w <= 0xffff,
        a.0.len() <= 0x1_0000,
        b.0.len() <= 0x1_0000,
    ensures
        ({
            let h = flows_on(g, x, w, title, tc, a, b, f);
            let y = f.mid_y;
            &&& i < title.len() && i + 1 < w - 4 && at(g, y, x + 3 + i, g[y][x + 3 + i]) ==> at(
                h,
                y,
                x + 3 + i,
                glyph(title[i], tc, true, false),
            )
            &&& i < a.0.len() && i < a.1 + 1 && at(g, y + 1, x + 2 + i, g[y + 1][x + 2 + i]) ==> at(
                h,
                y + 1,
                x + 2 + i,
                glyph(a.0[i], a.3, false, false),
            )
            &&& i < b.0.len() && at(
                g,
                y + 1,
                x + 3 + a.1 + i,
                g[y + 1][x + 3 + a.1 + i],
            ) ==> at(h, y + 1, x + 3 + a.1 + i, glyph(b.0[i], b.3, false, false))
        }),
{
    let y = f.mid_y;
    let g1 = box_on(g, x, y, w, f.mid_h, title, tc);
    let g2 = print(g1, x + 2, y + 1, a.0, colored(a.3));
    let g3 = print(g2, x + 3 + a.1, y + 1, b.0, colored(b.3));
    let g4 = graph_on(g3, x + 1, y + 2, a.1, f.flow_h, a.2, a.3);
    if i < title.len() && i + 1 < w - 4 && at(g, y, x + 3 + i, g[y][x + 3 + i]) {
        lemma_box_title(g, x, y, w, f.mid_h, title, tc, i);
        let (c, k) = (x + 3 + i, glyph(title[i], tc, true, false));
        lemma_print_keeps(g1, x + 2, y + 1, a.0, colored(a.3), y, c, k);
        lemma_print_keeps(g2, x + 3 + a.1, y + 1, b.0, colored(b.3), y, c, k);
        assert(at(g3, y, c, k));
        assert(at(g4, y, c, k));
    }
    if i < a.0.len() && i < a.1 + 1 && at(g, y + 1, x + 2 + i, g[y + 1][x + 2 + i]) {
        let (c, k) = (x + 2 + i, glyph(a.0[i], a.3, false, false));
        lemma_box_size(g, x, y, w, f.mid_h, title, tc, y + 1, c);
        lemma_print_sets(g1, x + 2, y + 1, a.0, colored(a.3), c, g1[y + 1][c]);
        lemma_print_keeps(g2, x + 3 + a.1, y + 1, b.0, colored(b.3), y + 1, c, k);
        assert(at(g3, y + 1, c, k));
        assert(at(g4, y + 1, c, k));
    }
    let c = x + 3 + a.1 + i;
    if i < b.0.len() && at(g, y + 1, c, g[y + 1][c]) {
        let k = glyph(b.0[i], b.3, false, false);
        lemma_box_size(g, x, y, w, f.mid_h, title, tc, y + 1, c);
        assert(at(g1, y + 1, c, g1[y + 1][c]));
        assert(at(g2, y + 1, c, g2[y + 1][c]));
        lemma_print_sets(g2, x + 3 + a.1, y + 1, b.0, colored(b.3), c, g2[y + 1][c]);
        assert(at(g3, y + 1, c, k));
        assert(at(g4, y + 1, c, k));
    }
}

/// The box of the graphics processor changes nothing above or below it, nor to
/// the left.
proof fn lemma_gpu_keeps(
    g: Seq<Seq<Cell>>,
    gpu: GpuInfo,
    fill: int,
    columns: Seq<Column>,
    f: Frame,
    r: int,
    c: int,
    k: Cell,
)
    requires
        at(g, r, c, k),
        f.mid_h >= 8,
        f.gpu_graph_h == f.mid_h - 6,
        r < f.mid_y || r >= f.mid_y + f.mid_h || c < f.gpu_x,
    ensures
        at(gpu_on(g, gpu, fill, columns, f), r, c, k),
{
    let cl = load_color(gpu.pct.bits);
    let (x, y) = (f.gpu_x + 2, f.mid_y);
    let title = "GPU "@ + percent(gpu.pct.text@);
    lemma_box_keeps(g, f.gpu_x, y, f.gpu_w, f.mid_h, title, cl, r, c, k);
    let g1 = box_on(g, f.gpu_x, y, f.gpu_w, f.mid_h, title, cl);
    let g2 = print(g1, x, y + 1, boxed(gpu.name@, f.gpu_bar_w), dimmed());
    assert(at(g2, r, c, k));
    let g3 = bar_on(g2, x, y + 2, f.gpu_bar_w, fill, cl);
    assert(at(g3, r, c, k));
}

/// The list changes nothing above it.
proof fn lemma_table_keeps(
    g: Seq<Seq<Cell>>,
    tw: int,
    procs: Seq<Proc>,
    u: UiModel,
    display: Seq<usize>,
    f: Frame,
    r: int,
    c: int,
    k: Cell,
)
    requires
        at(g, r, c, k),
        r < f.bot_y,
    ensures
        at(table_on(g, tw, procs, u, display, f), r, c, k),
{
    if f.bot_h >= 4 {
        let y = f.bot_y;
        let len = display.len() as int;
        let title = list_title(u, len);
        lemma_box_keeps(g, 0, y, tw, f.bot_h, title, Color::Magenta, r, c, k);
        let g1 = box_on(g, 0, y, tw, f.bot_h, title, Color::Magenta);
        let g2 = headings_on(g1, y + 1, u);
        assert(at(g2, r, c, k)) by {
            reveal(headings_on);
        }
        let g3 = print(g2, 1, y + 2, run('─', tw - 2), dimmed());
        assert(at(g3, r, c, k));
        lemma_rows_keep_above(g3, tw, procs, u, display, y + 3, row_count(u, len, f), r, c, k);
    }
}

proof fn lemma_rows_keep_above(
    g: Seq<Seq<Cell>>,
    tw: int,
    procs: Seq<Proc>,
    u: UiModel,
    display: Seq<usize>,
    y: int,
    n: int,
    r: int,
    c: int,
    k: Cell,
)
    requires
        at(g, r, c, k),
        r < y,
    ensures
        at(rows_on(g, tw, procs, u, display, y, n), r, c, k),
    decreases n,
{
    if n > 0 {
        lemma_rows_keep_above(g, tw, procs, u, display, y, n - 1, r, c, k);
        reveal(row_on);
    }
}

/// The grid with the header.
spec fn headed(g: Seq<Seq<Cell>>, tw: int, s: State, u: UiModel) -> Seq<Seq<Cell>> {
    header_on(g, tw, s, u.tree_view)
}

/// What stands above the list after the boxes are drawn stands in the frame.
proof fn lemma_boxes_stay(
    g: Seq<Seq<Cell>>,
    tw: int,
    th: int,
    s: State,
    gz: Gauges,
    u: UiModel,
    display: Seq<usize>,
    now: int,
    r: int,
    c: int,
    k: Cell,
)
    requires
        large_enough(tw, th),
        u.show_graphs,
        r < frame_of(tw, th, s, u).bot_y,
        at(boxes_on(headed(g, tw, s, u), s, gz, frame_of(tw, th, s, u)), r, c, k),
    ensures
        at(rendered(g, tw, th, s, gz, u, display, now), r, c, k),
{
    let f = frame_of(tw, th, s, u);
    law_parts_fill_the_screen(tw, th, u.show_graphs, s.gpu is Some, s.cores@.len() as int);
    let g2 = boxes_on(headed(g, tw, s, u), s, gz, f);
    lemma_table_keeps(g2, tw, s.all_procs@, u, display, f, r, c, k);
}

/// The middle boxes change nothing above them.
proof fn lemma_upper_boxes_stay(
    g: Seq<Seq<Cell>>,
    s: State,
    gz: Gauges,
    f: Frame,
    r: int,
    c: int,
    k: Cell,
)
    requires
        f.mid_h >= 8,
        f.flow_h == f.mid_h - 3,
        f.gpu_graph_h == f.mid_h - 6,
        f.rx_w >= 0,
        f.read_w >= 0,
        r < f.mid_y,
        at(ram_on(cpu_on(g, s, gz, f), s, gz, f), r, c, k),
    ensures
        at(boxes_on(g, s, gz, f), r, c, k),
{
    reveal(boxes_on);
    let g2 = ram_on(cpu_on(g, s, gz, f), s, gz, f);
    let g3 = net_on(g2, s, gz, f);
    assert(at(g3, r, c, k)) by {
        lemma_flows_keep(
            g2,
            0,
            f.net_w,
            "NET  ▼ "@ + s.net_rx@ + "  ▲ "@ + s.net_tx@,
            Color::Cyan,
            ("▼ RX  "@ + s.net_rx@, f.rx_w, gz.rx@, Color::Green),
            ("▲ TX  "@ + s.net_tx@, f.tx_w, gz.tx@, Color::Yellow),
            f,
            r,
            c,
            k,
        );
    }
    lemma_disk_keeps(g3, s, gz, f, r, c, k);
    let g4 = disk_on(g3, s, gz, f);
    if let Some(gpu) = s.gpu {
        lemma_gpu_keeps(g4, gpu, gz.gpu as int, gz.gpu_graph@, f, r, c, k);
    }
}

proof fn lemma_disk_keeps(
    g: Seq<Seq<Cell>>,
    s: State,
    gz: Gauges,
    f: Frame,
    r: int,
    c: int,
    k: Cell,
)
    requires
        f.mid_h >= 8,
        f.flow_h == f.mid_h - 3,
        f.read_w >= 0,
        r < f.mid_y || c < f.net_w,
        at(g, r, c, k),
    ensures
        at(disk_on(g, s, gz, f), r, c, k),
{
    lemma_flows_keep(
        g,
        f.net_w,
        f.disk_w,
        "DISK  R "@ + s.disk_r@ + "  W "@ + s.disk_w@,
        Color::Yellow,
        ("● Read  "@ + s.disk_r@, f.read_w, gz.read@, Color::Cyan),
        ("● Write "@ + s.disk_w@, f.write_w, gz.write@, Color::Magenta),
        f,
        r,
        c,
        k,
    );
}

/// What stands in the box of the network stays there.
proof fn lemma_net_stays(
    g: Seq<Seq<Cell>>,
    s: State,
    gz: Gauges,
    f: Frame,
    r: int,
    c: int,
    k: Cell,
)
    requires
        f.mid_h >= 8,
        f.flow_h == f.mid_h - 3,
        f.gpu_graph_h == f.mid_h - 6,
        f.read_w >= 0,
        c < f.net_w <= f.gpu_x,
        at(net_on(ram_on(cpu_on(g, s, gz, f), s, gz, f), s, gz, f), r, c, k),
    ensures
        at(boxes_on(g, s, gz, f), r, c, k),
{
    reveal(boxes_on);
    let g3 = net_on(ram_on(cpu_on(g, s, gz, f), s, gz, f), s, gz, f);
    lemma_disk_keeps(g3, s, gz, f, r, c, k);
    let g4 = disk_on(g3, s, gz, f);
    if let Some(gpu) = s.gpu {
        lemma_gpu_keeps(g4, gpu, gz.gpu as int, gz.gpu_graph@, f, r, c, k);
    }
}

/// What stands in the box of the disks stays there.
proof fn lemma_disk_stays(
    g: Seq<Seq<Cell>>,
    s: State,
    gz: Gauges,
    f: Frame,
    r: int,
    c: int,
    k: Cell,
)
    requires
        f.mid_h >= 8,
        f.gpu_graph_h == f.mid_h - 6,
        c < f.gpu_x,
        at(
            disk_on(net_on(ram_on(cpu_on(g, s, gz, f), s, gz, f), s, gz, f), s, gz, f),
            r,
            c,
            k,
        ),
    ensures
        at(boxes_on(g, s, gz, f), r, c, k),
{
    reveal(boxes_on);
    let g4 = disk_on(net_on(ram_on(cpu_on(g, s, gz, f), s, gz, f), s, gz, f), s, gz, f);
    if let Some(gpu) = s.gpu {
        lemma_gpu_keeps(g4, gpu, gz.gpu as int, gz.gpu_graph@, f, r, c, k);
    }
}


proof fn lemma_cores_size(
    g: Seq<Seq<Cell>>,
    cores: Seq<Reading>,
    fills: Seq<u16>,
    f: Frame,
    n: int,
    tw: int,
    th: int,
)
    requires
        has_size(g, tw, th),
    ensures
        has_size(cores_on(g, cores, fills, f, n), tw, th),
    decreases n,
{
    if n > 0 {
        lemma_cores_size(g, cores, fills, f, n - 1, tw, th);
    }
}

proof fn lemma_details_size(
    g: Seq<Seq<Cell>>,
    m: MemInfo,
    mc: Color,
    sc: Color,
    f: Frame,
    i: int,
    tw: int,
    th: int,
)
    requires
        has_size(g, tw, th),
    ensures
        has_size(details_on(g, m, mc, sc, f, i), tw, th),
    decreases 7 - i,
{
    let (x, y) = detail_place(f, i);
    if i < 7 && y < TOP_Y + f.top_h - 1 {
        let (label, kb, c) = detail_of(m, mc, sc, i);
        let g1 = print(g, x, y, left_of(label, 6), dimmed());
        assert(has_size(g1, tw, th));
        let g2 = print(g1, x + 6, y, mem_text(kb as nat), colored(c));
        assert(has_size(g2, tw, th));
        lemma_details_size(g2, m, mc, sc, f, i + 1, tw, th);
    }
}

proof fn lemma_cpu_size(g: Seq<Seq<Cell>>, s: State, gz: Gauges, f: Frame, tw: int, th: int)
    requires
        has_size(g, tw, th),
    ensures
        has_size(cpu_on(g, s, gz, f), tw, th),
{
    let c = load_color(s.avg.bits);
    let title = "CPU  "@ + percent(s.avg.text@) + temp_text(s.temp);
    let y = TOP_Y + 1 + f.core_rows;
    let g1 = box_on(g, 0, TOP_Y as int, f.cpu_w, f.top_h, title, c);
    assert(has_size(g1, tw, th));
    lemma_cores_size(g1, s.cores@, gz.cores@, f, s.cores@.len() as int, tw, th);
}

/// The grid of the memory's box before the amounts are listed.
spec fn ram_bars(g: Seq<Seq<Cell>>, s: State, gz: Gauges, f: Frame) -> Seq<Seq<Cell>> {
    let mc = load_color(s.mem_pct.bits);
    let sc = load_color(s.swap_pct.bits);
    let title = "RAM  "@ + mem_text(used_of(s.mem) as nat) + " / "@ + mem_text(s.mem.total as nat);
    let x = f.cpu_w + 2;
    let g1 = box_on(g, f.cpu_w, 1, f.ram_w, f.top_h, title, mc);
    let g2 = print(g1, x, 3, "RAM  "@, dimmed());
    let g3 = bar_on(g2, x + 5, 3, f.mem_bar_w, gz.mem as int, mc);
    let t = percent(right_of(s.mem_pct.text@, 5));
    let g4 = print(g3, x + 6 + f.mem_bar_w, 3, t, colored(mc));
    let g5 = print(g4, x, 5, "SWAP "@, dimmed());
    if s.mem.swap_total > 0 {
        let g6 = bar_on(g5, x + 5, 5, f.mem_bar_w, gz.swap as int, sc);
        let t = percent(right_of(s.swap_pct.text@, 5));
        print(g6, x + 6 + f.mem_bar_w, 5, t, colored(sc))
    } else {
        print(g5, x + 5, 5, "─── none ───"@, dimmed())
    }
}

proof fn lemma_ram_size(g: Seq<Seq<Cell>>, s: State, gz: Gauges, f: Frame, tw: int, th: int)
    requires
        has_size(g, tw, th),
    ensures
        has_size(ram_bars(g, s, gz, f), tw, th),
        ram_on(g, s, gz, f) == details_on(
            ram_bars(g, s, gz, f),
            s.mem,
            load_color(s.mem_pct.bits),
            load_color(s.swap_pct.bits),
            f,
            0,
        ),
        has_size(ram_on(g, s, gz, f), tw, th),
{
    let mc = load_color(s.mem_pct.bits);
    let sc = load_color(s.swap_pct.bits);
    lemma_details_size(ram_bars(g, s, gz, f), s.mem, mc, sc, f, 0, tw, th);
}

proof fn lemma_net_size(g: Seq<Seq<Cell>>, s: State, gz: Gauges, f: Frame, tw: int, th: int)
    requires
        has_size(g, tw, th),
    ensures
        has_size(net_on(g, s, gz, f), tw, th),
        has_size(disk_on(g, s, gz, f), tw, th),
{
}

/// A frame with graphs is drawn over a grid of its size.
pub open spec fn with_graphs(
    g: Seq<Seq<Cell>>,
    tw: int,
    th: int,
    s: State,
    gz: Gauges,
    u: UiModel,
) -> bool {
    &&& 40 <= tw <= 0xffff
    &&& 15 <= th <= 0xffff
    &&& has_size(g, tw, th)
    &&& u.show_graphs
    &&& s.wf()
    &&& gz.fills(frame_of(tw, th, s, u), s.cores@.len() as int, s.gpu is Some)
}

proof fn lemma_frame(tw: int, th: int, s: State, u: UiModel)
    requires
        40 <= tw <= 0xffff,
        15 <= th <= 0xffff,
        u.show_graphs,
    ensures
        large_enough(tw, th),
        ({
            let f = frame_of(tw, th, s, u);
            &&& f.mid_h >= 8
            &&& f.flow_h == f.mid_h - 3
            &&& f.gpu_graph_h == f.mid_h - 6
            &&& f.bot_y == f.mid_y + f.mid_h
            &&& f.bot_y + f.bot_h == th - 1
            &&& f.bot_h >= 5
            &&& f.mid_y == 1 + f.top_h
            &&& f.top_h >= 0
            &&& f.core_rows >= 0
            &&& f.cpu_w + f.ram_w == tw
            &&& f.cpu_w >= 24
            &&& f.ram_w >= 16
            &&& f.mem_bar_w >= 4
            &&& f.avg_w == f.cpu_w - 2
            &&& f.net_w >= 13
            &&& f.disk_w >= 13
            &&& f.rx_w >= 5
            &&& f.tx_w == f.rx_w
            &&& 3 + f.rx_w + f.tx_w <= f.net_w
            &&& f.read_w >= 5
            &&& f.write_w == f.read_w
            &&& 3 + f.read_w + f.write_w <= f.disk_w
            &&& f.gpu_x == f.net_w + f.disk_w
            &&& f.gpu_x + f.gpu_w == tw
            &&& s.gpu is Some ==> f.gpu_w >= 13 && f.gpu_graph_w == f.gpu_w - 2 && f.gpu_bar_w
                == f.gpu_w - 4
        }),
{
    law_parts_fill_the_screen(tw, th, u.show_graphs, s.gpu is Some, s.cores@.len() as int);
}

/// The left graph of the network is that of what is received, in green, and the
/// right one that of what is sent, in yellow: the columns of each history stand
/// from left to right below its label.
pub proof fn law_network_graphs(
    g: Seq<Seq<Cell>>,
    tw: int,
    th: int,
    s: State,
    gz: Gauges,
    u: UiModel,
    display: Seq<usize>,
    now: int,
    i: int,
    j: int,
)
    requires
        with_graphs(g, tw, th, s, gz, u),
        0 <= i,
        0 <= j < frame_of(tw, th, s, u).flow_h,
    ensures
        ({
            let f = frame_of(tw, th, s, u);
            let row = rendered(g, tw, th, s, gz, u, display, now)[f.mid_y + 2 + j];
            &&& i < f.rx_w ==> shows_column(
                row[1 + i],
                gz.rx@[i],
                f.flow_h - 1 - j,
                Color::Green,
            )
            &&& i < f.tx_w ==> shows_column(
                row[2 + f.rx_w + i],
                gz.tx@[i],
                f.flow_h - 1 - j,
                Color::Yellow,
            )
        }),
{
    let f = frame_of(tw, th, s, u);
    lemma_frame(tw, th, s, u);
    let g0 = headed(g, tw, s, u);
    assert(has_size(g0, tw, th));
    lemma_cpu_size(g0, s, gz, f, tw, th);
    let g1 = cpu_on(g0, s, gz, f);
    lemma_ram_size(g1, s, gz, f, tw, th);
    let g2 = ram_on(g1, s, gz, f);
    let r = f.mid_y + 2 + j;
    lemma_flows_graphs(
        g2,
        0,
        f.net_w,
        "NET  ▼ "@ + s.net_rx@ + "  ▲ "@ + s.net_tx@,
        Color::Cyan,
        ("▼ RX  "@ + s.net_rx@, f.rx_w, gz.rx@, Color::Green),
        ("▲ TX  "@ + s.net_tx@, f.tx_w, gz.tx@, Color::Yellow),
        f,
        i,
        j,
    );
    assert(g2[r].len() == tw);
    if i < f.rx_w {
        let k = column_cell(gz.rx@[i], f.flow_h, j, Color::Green);
        assert(at(net_on(g2, s, gz, f), r, 1 + i, k));
        lemma_net_stays(g0, s, gz, f, r, 1 + i, k);
        lemma_boxes_stay(g, tw, th, s, gz, u, display, now, r, 1 + i, k);
        lemma_column_shown(gz.rx@[i], f.flow_h, j, Color::Green);
    }
    if i < f.tx_w {
        let c = 2 + f.rx_w + i;
        let k = column_cell(gz.tx@[i], f.flow_h, j, Color::Yellow);
        assert(at(net_on(g2, s, gz, f), r, c, k));
        lemma_net_stays(g0, s, gz, f, r, c, k);
        lemma_boxes_stay(g, tw, th, s, gz, u, display, now, r, c, k);
        lemma_column_shown(gz.tx@[i], f.flow_h, j, Color::Yellow);
    }
}

/// The left graph of the disks is that of what is read, in cyan, and the right
/// one that of what is written, in magenta.
pub proof fn law_disk_graphs(
    g: Seq<Seq<Cell>>,
    tw: int,
    th: int,
    s: State,
    gz: Gauges,
    u: UiModel,
    display: Seq<usize>,
    now: int,
    i: int,
    j: int,
)
    requires
        with_graphs(g, tw, th, s, gz, u),
        0 <= i,
        0 <= j < frame_of(tw, th, s, u).flow_h,
    ensures
        ({
            let f = frame_of(tw, th, s, u);
            let row = rendered(g, tw, th, s, gz, u, display, now)[f.mid_y + 2 + j];
            &&& i < f.read_w ==> shows_column(
                row[f.net_w + 1 + i],
                gz.read@[i],
                f.flow_h - 1 - j,
                Color::Cyan,
            )
            &&& i < f.write_w ==> shows_column(
                row[f.net_w + 2 + f.read_w + i],
                gz.write@[i],
                f.flow_h - 1 - j,
                Color::Magenta,
            )
        }),
{
    let f = frame_of(tw, th, s, u);
    lemma_frame(tw, th, s, u);
    let g0 = headed(g, tw, s, u);
    assert(has_size(g0, tw, th));
    lemma_cpu_size(g0, s, gz, f, tw, th);
    let g1 = cpu_on(g0, s, gz, f);
    lemma_ram_size(g1, s, gz, f, tw, th);
    let g2 = ram_on(g1, s, gz, f);
    lemma_net_size(g2, s, gz, f, tw, th);
    let g3 = net_on(g2, s, gz, f);
    let r = f.mid_y + 2 + j;
    lemma_flows_graphs(
        g3,
        f.net_w,
        f.disk_w,
        "DISK  R "@ + s.disk_r@ + "  W "@ + s.disk_w@,
        Color::Yellow,
        ("● Read  "@ + s.disk_r@, f.read_w, gz.read@, Color::Cyan),
        ("● Write "@ + s.disk_w@, f.write_w, gz.write@, Color::Magenta),
        f,
        i,
        j,
    );
    assert(g3[r].len() == tw);
    if i < f.read_w {
        let c = f.net_w + 1 + i;
        let k = column_cell(gz.read@[i], f.flow_h, j, Color::Cyan);
        assert(at(disk_on(g3, s, gz, f), r, c, k));
        lemma_disk_stays(g0, s, gz, f, r, c, k);
        lemma_boxes_stay(g, tw, th, s, gz, u, display, now, r, c, k);
        lemma_column_shown(gz.read@[i], f.flow_h, j, Color::Cyan);
    }
    if i < f.write_w {
        let c = f.net_w + 2 + f.read_w + i;
        let k = column_cell(gz.write@[i], f.flow_h, j, Color::Magenta);
        assert(at(disk_on(g3, s, gz, f), r, c, k));
        lemma_disk_stays(g0, s, gz, f, r, c, k);
        lemma_boxes_stay(g, tw, th, s, gz, u, display, now, r, c, k);
        lemma_column_shown(gz.write@[i], f.flow_h, j, Color::Magenta);
    }
}

/// Each flow of the network is named and told as a rate above its graph, as far
/// as there is room, and both rates stand in the title of the box.
pub proof fn law_network_texts(
    g: Seq<Seq<Cell>>,
    tw: int,
    th: int,
    s: State,
    gz: Gauges,
    u: UiModel,
    display: Seq<usize>,
    now: int,
    i: int,
)
    requires
        with_graphs(g, tw, th, s, gz, u),
        0 <= i,
    ensures
        ({
            let f = frame_of(tw, th, s, u);
            let drawn = rendered(g, tw, th, s, gz, u, display, now);
            let title = "NET  ▼ "@ + s.net_rx@ + "  ▲ "@ + s.net_tx@;
            let received = "▼ RX  "@ + s.net_rx@;
            let sent = "▲ TX  "@ + s.net_tx@;
            &&& i < title.len() && i < f.net_w - 5 ==> drawn[f.mid_y][3 + i] == glyph(
                title[i],
                Color::Cyan,
                true,
                false,
            )
            &&& i < received.len() && i <= f.rx_w ==> drawn[f.mid_y + 1][2 + i] == glyph(
                received[i],
                Color::Green,
                false,
                false,
            )
            &&& i < sent.len() && 3 + f.rx_w + i < f.net_w ==> drawn[f.mid_y + 1][3 + f.rx_w + i]
                == glyph(sent[i], Color::Yellow, false, false)
        }),
{
    let f = frame_of(tw, th, s, u);
    lemma_frame(tw, th, s, u);
    let g0 = headed(g, tw, s, u);
    assert(has_size(g0, tw, th));
    lemma_cpu_size(g0, s, gz, f, tw, th);
    let g1 = cpu_on(g0, s, gz, f);
    lemma_ram_size(g1, s, gz, f, tw, th);
    let g2 = ram_on(g1, s, gz, f);
    let title = "NET  ▼ "@ + s.net_rx@ + "  ▲ "@ + s.net_tx@;
    let a = "▼ RX  "@ + s.net_rx@;
    let b = "▲ TX  "@ + s.net_tx@;
    reveal_strlit("▼ RX  ");
    reveal_strlit("▲ TX  ");
    lemma_flows_texts(
        g2,
        0,
        f.net_w,
        title,
        Color::Cyan,
        (a, f.rx_w, gz.rx@, Color::Green),
        (b, f.tx_w, gz.tx@, Color::Yellow),
        f,
        i,
    );
    let (y, g3) = (f.mid_y, net_on(g2, s, gz, f));
    assert(g2[y].len() == tw && g2[y + 1].len() == tw);
    if i < title.len() && i < f.net_w - 5 {
        let k = glyph(title[i], Color::Cyan, true, false);
        assert(at(g3, y, 3 + i, k));
        lemma_net_stays(g0, s, gz, f, y, 3 + i, k);
        lemma_boxes_stay(g, tw, th, s, gz, u, display, now, y, 3 + i, k);
    }
    if i < a.len() && i <= f.rx_w {
        let k = glyph(a[i], Color::Green, false, false);
        assert(at(g3, y + 1, 2 + i, k));
        lemma_net_stays(g0, s, gz, f, y + 1, 2 + i, k);
        lemma_boxes_stay(g, tw, th, s, gz, u, display, now, y + 1, 2 + i, k);
    }
    let c = 3 + f.rx_w + i;
    if i < b.len() && c < f.net_w {
        let k = glyph(b[i], Color::Yellow, false, false);
        assert(at(g3, y + 1, c, k));
        lemma_net_stays(g0, s, gz, f, y + 1, c, k);
        lemma_boxes_stay(g, tw, th, s, gz, u, display, now, y + 1, c, k);
    }
}

/// Each flow of the disks is named and told as a rate above its graph, as far
/// as there is room, and both rates stand in the title of the box.
pub proof fn law_disk_texts(
    g: Seq<Seq<Cell>>,
    tw: int,
    th: int,
    s: State,
    gz: Gauges,
    u: UiModel,
    display: Seq<usize>,
    now: int,
    i: int,
)
    requires
        with_graphs(g, tw, th, s, gz, u),
        0 <= i,
    ensures
        ({
            let f = frame_of(tw, th, s, u);
            let drawn = rendered(g, tw, th, s, gz, u, display, now);
            let title = "DISK  R "@ + s.disk_r@ + "  W "@ + s.disk_w@;
            let read = "● Read  "@ + s.disk_r@;
            let written = "● Write "@ + s.disk_w@;
            let x = f.net_w;
            &&& i < title.len() && i < f.disk_w - 5 ==> drawn[f.mid_y][x + 3 + i] == glyph(
                title[i],
                Color::Yellow,
                true,
                false,
            )
            &&& i < read.len() && i <= f.read_w ==> drawn[f.mid_y + 1][x + 2 + i] == glyph(
                read[i],
                Color::Cyan,
                false,
                false,
            )
            &&& i < written.len() && 3 + f.read_w + i < f.disk_w ==> drawn[f.mid_y + 1][x + 3
                + f.read_w + i] == glyph(written[i], Color::Magenta, false, false)
        }),
{
    let f = frame_of(tw, th, s, u);
    lemma_frame(tw, th, s, u);
    let g0 = headed(g, tw, s, u);
    assert(has_size(g0, tw, th));
    lemma_cpu_size(g0, s, gz, f, tw, th);
    let g1 = cpu_on(g0, s, gz, f);
    lemma_ram_size(g1, s, gz, f, tw, th);
    let g2 = ram_on(g1, s, gz, f);
    lemma_net_size(g2, s, gz, f, tw, th);
    let g3 = net_on(g2, s, gz, f);
    let title = "DISK  R "@ + s.disk_r@ + "  W "@ + s.disk_w@;
    let a = "● Read  "@ + s.disk_r@;
    let b = "● Write "@ + s.disk_w@;
    reveal_strlit("● Read  ");
    reveal_strlit("● Write ");
    let x = f.net_w;
    lemma_flows_texts(
        g3,
        x,
        f.disk_w,
        title,
        Color::Yellow,
        (a, f.read_w, gz.read@, Color::Cyan),
        (b, f.write_w, gz.write@, Color::Magenta),
        f,
        i,
    );
    let (y, g4) = (f.mid_y, disk_on(g3, s, gz, f));
    assert(g3[y].len() == tw && g3[y + 1].len() == tw);
    if i < title.len() && i < f.disk_w - 5 {
        let k = glyph(title[i], Color::Yellow, true, false);
        assert(at(g4, y, x + 3 + i, k));
        lemma_disk_stays(g0, s, gz, f, y, x + 3 + i, k);
        lemma_boxes_stay(g, tw, th, s, gz, u, display, now, y, x + 3 + i, k);
    }
    if i < a.len() && i <= f.read_w {
        let k = glyph(a[i], Color::Cyan, false, false);
        assert(at(g4, y + 1, x + 2 + i, k));
        lemma_disk_stays(g0, s, gz, f, y + 1, x + 2 + i, k);
        lemma_boxes_stay(g, tw, th, s, gz, u, display, now, y + 1, x + 2 + i, k);
    }
    let c = x + 3 + f.read_w + i;
    if i < b.len() && 3 + f.read_w + i < f.disk_w {
        let k = glyph(b[i], Color::Magenta, false, false);
        assert(at(g4, y + 1, c, k));
        lemma_disk_stays(g0, s, gz, f, y + 1, c, k);
        lemma_boxes_stay(g, tw, th, s, gz, u, display, now, y + 1, c, k);
    }
}


/// The memory's box changes nothing to the left of it.
proof fn lemma_ram_keeps(
    g: Seq<Seq<Cell>>,
    s: State,
    gz: Gauges,
    f: Frame,
    tw: int,
    th: int,
    r: int,
    c: int,
    k: Cell,
)
    requires
        has_size(g, tw, th),
        f.ram_w >= 0,
        f.mem_bar_w >= 0,
        c < f.cpu_w,
        at(g, r, c, k),
    ensures
        at(ram_on(g, s, gz, f), r, c, k),
{
    let mc = load_color(s.mem_pct.bits);
    let sc = load_color(s.swap_pct.bits);
    lemma_ram_size(g, s, gz, f, tw, th);
    let title = "RAM  "@ + mem_text(used_of(s.mem) as nat) + " / "@ + mem_text(s.mem.total as nat);
    let x = f.cpu_w + 2;
    lemma_box_keeps(g, f.cpu_w, 1, f.ram_w, f.top_h, title, mc, r, c, k);
    let g1 = box_on(g, f.cpu_w, 1, f.ram_w, f.top_h, title, mc);
    let g2 = print(g1, x, 3, "RAM  "@, dimmed());
    assert(at(g2, r, c, k));
    let g3 = bar_on(g2, x + 5, 3, f.mem_bar_w, gz.mem as int, mc);
    assert(at(g3, r, c, k));
    assert(at(ram_bars(g, s, gz, f), r, c, k));
    lemma_details_keep(ram_bars(g, s, gz, f), s.mem, mc, sc, f, 0, r, c, k);
}

/// The amounts of memory change nothing but to the right of their places.
proof fn lemma_details_keep(
    g: Seq<Seq<Cell>>,
    m: MemInfo,
    mc: Color,
    sc: Color,
    f: Frame,
    from: int,
    r: int,
    c: int,
    k: Cell,
)
    requires
        at(g, r, c, k),
        forall|i: int|
            from <= i < 7 ==> r != (#[trigger] detail_place(f, i)).1 || c < detail_place(f, i).0,
    ensures
        at(details_on(g, m, mc, sc, f, from), r, c, k),
    decreases 7 - from,
{
    let (x, y) = detail_place(f, from);
    if from < 7 && y < TOP_Y + f.top_h - 1 {
        let (label, kb, cl) = detail_of(m, mc, sc, from);
        lemma_print_keeps(g, x, y, left_of(label, 6), dimmed(), r, c, k);
        let g1 = print(g, x, y, left_of(label, 6), dimmed());
        lemma_print_keeps(g1, x + 6, y, mem_text(kb as nat), colored(cl), r, c, k);
        let g2 = print(g1, x + 6, y, mem_text(kb as nat), colored(cl));
        lemma_details_keep(g2, m, mc, sc, f, from + 1, r, c, k);
    }
}

/// The mean load of the processors has its graph below their bars, in the
/// colour of the present load.
pub proof fn law_mean_load_graph(
    g: Seq<Seq<Cell>>,
    tw: int,
    th: int,
    s: State,
    gz: Gauges,
    u: UiModel,
    display: Seq<usize>,
    now: int,
    i: int,
    j: int,
)
    requires
        with_graphs(g, tw, th, s, gz, u),
        0 <= i < frame_of(tw, th, s, u).avg_w,
        0 <= j < frame_of(tw, th, s, u).avg_h,
        3 + frame_of(tw, th, s, u).core_rows + j < frame_of(tw, th, s, u).mid_y,
    ensures
        ({
            let f = frame_of(tw, th, s, u);
            let row = rendered(g, tw, th, s, gz, u, display, now)[3 + f.core_rows + j];
            shows_column(row[1 + i], gz.avg@[i], f.avg_h - 1 - j, load_color(s.avg.bits))
        }),
{
    let f = frame_of(tw, th, s, u);
    lemma_frame(tw, th, s, u);
    let g0 = headed(g, tw, s, u);
    assert(has_size(g0, tw, th));
    lemma_cpu_size(g0, s, gz, f, tw, th);
    let g1 = cpu_on(g0, s, gz, f);
    let cl = load_color(s.avg.bits);
    let k = column_cell(gz.avg@[i], f.avg_h, j, cl);
    let r = 3 + f.core_rows + j;
    assert(g1[r].len() == tw);
    assert(at(g1, r, 1 + i, k));
    lemma_ram_keeps(g1, s, gz, f, tw, th, r, 1 + i, k);
    lemma_upper_boxes_stay(g0, s, gz, f, r, 1 + i, k);
    lemma_boxes_stay(g, tw, th, s, gz, u, display, now, r, 1 + i, k);
    lemma_column_shown(gz.avg@[i], f.avg_h, j, cl);
}

/// The load of the graphics processor has its graph in its box, from the sixth
/// row on, in the colour of the present load.
pub proof fn law_graphics_graph(
    g: Seq<Seq<Cell>>,
    tw: int,
    th: int,
    s: State,
    gz: Gauges,
    u: UiModel,
    display: Seq<usize>,
    now: int,
    gpu: GpuInfo,
    i: int,
    j: int,
)
    requires
        with_graphs(g, tw, th, s, gz, u),
        s.gpu == Some(gpu),
        0 <= i < frame_of(tw, th, s, u).gpu_w - 2,
        0 <= j < frame_of(tw, th, s, u).mid_h - 6,
    ensures
        ({
            let f = frame_of(tw, th, s, u);
            let row = rendered(g, tw, th, s, gz, u, display, now)[f.mid_y + 5 + j];
            shows_column(
                row[tw - f.gpu_w + 1 + i],
                gz.gpu_graph@[i],
                f.mid_h - 7 - j,
                load_color(gpu.pct.bits),
            )
        }),
{
    let f = frame_of(tw, th, s, u);
    lemma_frame(tw, th, s, u);
    let g4 = lemma_before_gpu(g, tw, th, s, gz, u, gpu);
    let columns = gz.gpu_graph@;
    lemma_gpu_graph(g4, gpu, gz.gpu as int, columns, f, tw, th, i, j);
    let k = column_cell(columns[i], f.mid_h - 6, j, load_color(gpu.pct.bits));
    let (r, c) = (f.mid_y + 5 + j, f.gpu_x + 1 + i);
    lemma_boxes_stay(g, tw, th, s, gz, u, display, now, r, c, k);
    lemma_column_shown(columns[i], f.mid_h - 6, j, load_color(gpu.pct.bits));
}

/// The grid that the box of the graphics processor is drawn on.
proof fn lemma_before_gpu(
    g: Seq<Seq<Cell>>,
    tw: int,
    th: int,
    s: State,
    gz: Gauges,
    u: UiModel,
    gpu: GpuInfo,
) -> (g4: Seq<Seq<Cell>>)
    requires
        with_graphs(g, tw, th, s, gz, u),
        s.gpu == Some(gpu),
    ensures
        has_size(g4, tw, th),
        boxes_on(headed(g, tw, s, u), s, gz, frame_of(tw, th, s, u)) == gpu_on(
            g4,
            gpu,
            gz.gpu as int,
            gz.gpu_graph@,
            frame_of(tw, th, s, u),
        ),
{
    reveal(boxes_on);
    let f = frame_of(tw, th, s, u);
    lemma_frame(tw, th, s, u);
    let g0 = headed(g, tw, s, u);
    assert(has_size(g0, tw, th));
    lemma_cpu_size(g0, s, gz, f, tw, th);
    let g1 = cpu_on(g0, s, gz, f);
    lemma_ram_size(g1, s, gz, f, tw, th);
    let g2 = ram_on(g1, s, gz, f);
    lemma_net_size(g2, s, gz, f, tw, th);
    let g3 = net_on(g2, s, gz, f);
    lemma_net_size(g3, s, gz, f, tw, th);
    disk_on(g3, s, gz, f)
}

/// The graph in the box of the graphics processor.
proof fn lemma_gpu_graph(
    g: Seq<Seq<Cell>>,
    gpu: GpuInfo,
    fill: int,
    columns: Seq<Column>,
    f: Frame,
    tw: int,
    th: int,
    i: int,
    j: int,
)
    requires
        has_size(g, tw, th),
        f.mid_h >= 8,
        f.gpu_graph_h == f.mid_h - 6,
        f.gpu_graph_w == f.gpu_w - 2,
        f.gpu_x >= 0,
        f.gpu_x + f.gpu_w == tw,
        f.mid_y >= 0,
        f.mid_y + f.mid_h <= th,
        0 <= i < f.gpu_w - 2,
        0 <= j < f.mid_h - 6,
    ensures
        at(
            gpu_on(g, gpu, fill, columns, f),
            f.mid_y + 5 + j,
            f.gpu_x + 1 + i,
            column_cell(columns[i], f.mid_h - 6, j, load_color(gpu.pct.bits)),
        ),
{
    assert(g[f.mid_y + 5 + j].len() == tw);
}

/// The texts and the bar in the box of the graphics processor.
proof fn lemma_gpu_texts(
    g: Seq<Seq<Cell>>,
    gpu: GpuInfo,
    fill: int,
    columns: Seq<Column>,
    f: Frame,
    tw: int,
    th: int,
    i: int,
)
    requires
        has_size(g, tw, th),
        gpu.wf(),
        tw <= 0xffff,
        f.mid_h >= 8,
        f.gpu_graph_h == f.mid_h - 6,
        f.gpu_w >= 13,
        f.gpu_bar_w == f.gpu_w - 4,
        f.gpu_x >= 0,
        f.gpu_x + f.gpu_w == tw,
        f.mid_y >= 0,
        f.mid_y + f.mid_h <= th,
        0 <= i,
    ensures
        ({
            let h = gpu_on(g, gpu, fill, columns, f);
            let (x, y) = (f.gpu_x, f.mid_y);
            let color = load_color(gpu.pct.bits);
            let title = "GPU "@ + gpu.pct.text@ + "%"@;
            let name = boxed(gpu.name@, f.gpu_w - 4);
            let memory = mem_text((1024 * gpu.mem_used) as nat) + "/"@ + mem_text(
                (1024 * gpu.mem_total) as nat,
            );
            &&& i < title.len() && i < f.gpu_w - 5 ==> at(
                h,
                y,
                x + 3 + i,
                glyph(title[i], color, true, false),
            )
            &&& i < f.gpu_w - 4 ==> at(
                h,
                y + 1,
                x + 2 + i,
                glyph(name[i], Color::White, false, true),
            )
            &&& i < f.gpu_w - 4 ==> at(h, y + 2, x + 2 + i, h[y + 2][x + 2 + i]) && shows_bar(
                h[y + 2][x + 2 + i],
                i,
                fill,
                color,
            )
            &&& i < memory.len() && i < f.gpu_w - 2 ==> at(
                h,
                y + 3,
                x + 2 + i,
                glyph(memory[i], Color::Cyan, false, false),
            )
            &&& gpu.temp matches Some(t) ==> {
                let warmth = t.text@ + "°C"@;
                i < warmth.len() && i < f.gpu_w - 2 ==> at(
                    h,
                    y + 4,
                    x + 2 + i,
                    glyph(warmth[i], load_color(t.bits), false, false),
                )
            }
        }),
{
    let h = gpu_on(g, gpu, fill, columns, f);
    let (x, y) = (f.gpu_x, f.mid_y);
    let cl = load_color(gpu.pct.bits);
    let title = "GPU "@ + percent(gpu.pct.text@);
    assert("GPU "@ + gpu.pct.text@ + "%"@ =~= title);
    let memory = mem_text((gpu.mem_used * 1024) as nat) + "/"@ + mem_text(
        (gpu.mem_total * 1024) as nat,
    );
    crate::notation::lemma_mem_len((gpu.mem_used * 1024) as nat);
    crate::notation::lemma_mem_len((gpu.mem_total * 1024) as nat);
    reveal_strlit("/");
    reveal_strlit("°C");
    let h1 = box_on(g, x, y, f.gpu_w, f.mid_h, title, cl);
    let name = boxed(gpu.name@, f.gpu_bar_w);
    let h2 = print(h1, x + 2, y + 1, name, dimmed());
    let h3 = bar_on(h2, x + 2, y + 2, f.gpu_bar_w, fill, cl);
    let h4 = print(h3, x + 2, y + 3, memory, colored(Color::Cyan));
    let h5 = match gpu.temp {
        Some(t) => print(h4, x + 2, y + 4, t.text@ + "°C"@, colored(load_color(t.bits))),
        None => h4,
    };
    let cells = graph_cells(columns, f.gpu_graph_h, cl);
    let gy = y + f.mid_h - f.gpu_graph_h - 1;
    assert(h == paint(h5, x + 1, gy, f.gpu_graph_w, f.gpu_graph_h, cells));
    assert(g[y].len() == tw && g[y + 1].len() == tw && g[y + 2].len() == tw);
    assert(g[y + 3].len() == tw && g[y + 4].len() == tw);
    let c = x + 2 + i;
    if i < title.len() && i < f.gpu_w - 5 {
        let k = glyph(title[i], cl, true, false);
        lemma_box_title(g, x, y, f.gpu_w, f.mid_h, title, cl, i);
        assert(at(h1, y, c + 1, k));
        assert(at(h2, y, c + 1, k));
        assert(at(h3, y, c + 1, k));
        assert(at(h5, y, c + 1, k));
        lemma_paint_keeps(h5, x + 1, gy, f.gpu_graph_w, f.gpu_graph_h, cells, y, c + 1, k);
    }
    if i < f.gpu_w - 4 {
        let k = glyph(name[i], Color::White, false, true);
        lemma_box_size(g, x, y, f.gpu_w, f.mid_h, title, cl, y + 1, c);
        lemma_print_sets(h1, x + 2, y + 1, name, dimmed(), c, h1[y + 1][c]);
        assert(at(h2, y + 1, c, k));
        assert(at(h3, y + 1, c, k));
        assert(at(h5, y + 1, c, k));
        lemma_paint_keeps(h5, x + 1, gy, f.gpu_graph_w, f.gpu_graph_h, cells, y + 1, c, k);
        let b = bar_cells(fill, cl);
        lemma_box_size(g, x, y, f.gpu_w, f.mid_h, title, cl, y + 2, c);
        assert(at(h2, y + 2, c, h2[y + 2][c]));
        lemma_paint_sets(h2, x + 2, y + 2, f.gpu_bar_w, 1, b, y + 2, c, h2[y + 2][c]);
        let k = b(i, 0)->0;
        assert(at(h3, y + 2, c, k));
        assert(at(h5, y + 2, c, k));
        lemma_paint_keeps(h5, x + 1, gy, f.gpu_graph_w, f.gpu_graph_h, cells, y + 2, c, k);
    }
    if i < memory.len() && i < f.gpu_w - 2 {
        let k = glyph(memory[i], Color::Cyan, false, false);
        lemma_box_size(g, x, y, f.gpu_w, f.mid_h, title, cl, y + 3, c);
        assert(at(h3, y + 3, c, h3[y + 3][c]));
        lemma_print_sets(h3, x + 2, y + 3, memory, colored(Color::Cyan), c, h3[y + 3][c]);
        assert(at(h5, y + 3, c, k));
        lemma_paint_keeps(h5, x + 1, gy, f.gpu_graph_w, f.gpu_graph_h, cells, y + 3, c, k);
    }
    if let Some(t) = gpu.temp {
        let warmth = t.text@ + "°C"@;
        if i < warmth.len() && i < f.gpu_w - 2 {
            let k = glyph(warmth[i], load_color(t.bits), false, false);
            let st = colored(load_color(t.bits));
            lemma_box_size(g, x, y, f.gpu_w, f.mid_h, title, cl, y + 4, c);
            assert(at(h4, y + 4, c, h4[y + 4][c]));
            lemma_print_sets(h4, x + 2, y + 4, warmth, st, c, h4[y + 4][c]);
            assert(at(h5, y + 4, c, k));
            lemma_paint_keeps(h5, x + 1, gy, f.gpu_graph_w, f.gpu_graph_h, cells, y + 4, c, k);
        }
    }
}

/// The box of the graphics processor shows its load in the title, and below one
/// another its name, a bar of its load, how much of its memory is used, and its
/// temperature, where that is known.
pub proof fn law_graphics_texts(
    g: Seq<Seq<Cell>>,
    tw: int,
    th: int,
    s: State,
    gz: Gauges,
    u: UiModel,
    display: Seq<usize>,
    now: int,
    gpu: GpuInfo,
    i: int,
)
    requires
        with_graphs(g, tw, th, s, gz, u),
        s.gpu == Some(gpu),
        0 <= i,
    ensures
        ({
            let f = frame_of(tw, th, s, u);
            let drawn = rendered(g, tw, th, s, gz, u, display, now);
            let (x, y) = (tw - f.gpu_w, f.mid_y);
            let color = load_color(gpu.pct.bits);
            let title = "GPU "@ + gpu.pct.text@ + "%"@;
            let memory = mem_text((1024 * gpu.mem_used) as nat) + "/"@ + mem_text(
                (1024 * gpu.mem_total) as nat,
            );
            &&& i < title.len() && i < f.gpu_w - 5 ==> drawn[y][x + 3 + i] == glyph(
                title[i],
                color,
                true,
                false,
            )
            &&& i < f.gpu_w - 4 && i < gpu.name@.len() ==> drawn[y + 1][x + 2 + i] == glyph(
                gpu.name@[i],
                Color::White,
                false,
                true,
            )
            &&& i < f.gpu_w - 4 && i >= gpu.name@.len() ==> drawn[y + 1][x + 2 + i] == glyph(
                ' ',
                Color::White,
                false,
                true,
            )
            &&& i < f.gpu_w - 4 ==> shows_bar(drawn[y + 2][x + 2 + i], i, gz.gpu as int, color)
            &&& i < memory.len() && i < f.gpu_w - 2 ==> drawn[y + 3][x + 2 + i] == glyph(
                memory[i],
                Color::Cyan,
                false,
                false,
            )
            &&& gpu.temp matches Some(t) ==> {
                let warmth = t.text@ + "°C"@;
                i < warmth.len() && i < f.gpu_w - 2 ==> drawn[y + 4][x + 2 + i] == glyph(
                    warmth[i],
                    load_color(t.bits),
                    false,
                    false,
                )
            }
        }),
{
    let f = frame_of(tw, th, s, u);
    lemma_frame(tw, th, s, u);
    let g4 = lemma_before_gpu(g, tw, th, s, gz, u, gpu);
    lemma_gpu_texts(g4, gpu, gz.gpu as int, gz.gpu_graph@, f, tw, th, i);
    let h = gpu_on(g4, gpu, gz.gpu as int, gz.gpu_graph@, f);
    let (x, y) = (f.gpu_x, f.mid_y);
    let color = load_color(gpu.pct.bits);
    let title = "GPU "@ + gpu.pct.text@ + "%"@;
    let name = boxed(gpu.name@, f.gpu_w - 4);
    let memory = mem_text((1024 * gpu.mem_used) as nat) + "/"@ + mem_text(
        (1024 * gpu.mem_total) as nat,
    );
    if i < title.len() && i < f.gpu_w - 5 {
        let k = glyph(title[i], color, true, false);
        lemma_boxes_stay(g, tw, th, s, gz, u, display, now, y, x + 3 + i, k);
    }
    if i < f.gpu_w - 4 {
        let k = glyph(name[i], Color::White, false, true);
        lemma_boxes_stay(g, tw, th, s, gz, u, display, now, y + 1, x + 2 + i, k);
        let k = h[y + 2][x + 2 + i];
        lemma_boxes_stay(g, tw, th, s, gz, u, display, now, y + 2, x + 2 + i, k);
    }
    if i < memory.len() && i < f.gpu_w - 2 {
        let k = glyph(memory[i], Color::Cyan, false, false);
        lemma_boxes_stay(g, tw, th, s, gz, u, display, now, y + 3, x + 2 + i, k);
    }
    if let Some(t) = gpu.temp {
        let warmth = t.text@ + "°C"@;
        if i < warmth.len() && i < f.gpu_w - 2 {
            let k = glyph(warmth[i], load_color(t.bits), false, false);
            lemma_boxes_stay(g, tw, th, s, gz, u, display, now, y + 4, x + 2 + i, k);
        }
    }
}


/// What stands in the box of the processors, above the middle boxes, stands in
/// the frame.
proof fn lemma_cpu_stays(
    g: Seq<Seq<Cell>>,
    tw: int,
    th: int,
    s: State,
    gz: Gauges,
    u: UiModel,
    display: Seq<usize>,
    now: int,
    r: int,
    c: int,
    k: Cell,
)
    requires
        with_graphs(g, tw, th, s, gz, u),
        r < frame_of(tw, th, s, u).mid_y,
        c < frame_of(tw, th, s, u).cpu_w,
        at(cpu_on(headed(g, tw, s, u), s, gz, frame_of(tw, th, s, u)), r, c, k),
    ensures
        at(rendered(g, tw, th, s, gz, u, display, now), r, c, k),
{
    let f = frame_of(tw, th, s, u);
    lemma_frame(tw, th, s, u);
    let g0 = headed(g, tw, s, u);
    assert(has_size(g0, tw, th));
    lemma_cpu_size(g0, s, gz, f, tw, th);
    let g1 = cpu_on(g0, s, gz, f);
    lemma_ram_keeps(g1, s, gz, f, tw, th, r, c, k);
    lemma_upper_boxes_stay(g0, s, gz, f, r, c, k);
    lemma_boxes_stay(g, tw, th, s, gz, u, display, now, r, c, k);
}

/// The bar of a processor changes nothing but to the right of its place, in its
/// row.
proof fn lemma_core_keeps(
    g: Seq<Seq<Cell>>,
    usage: Reading,
    fill: int,
    i: int,
    ncores: int,
    f: Frame,
    r: int,
    c: int,
    k: Cell,
)
    requires
        at(g, r, c, k),
        0 <= i < ncores <= 0x1_0000,
        f.core_bar_w >= 0,
        i < half_of(ncores) ==> r != 2 + i || c < 1,
        i >= half_of(ncores) ==> r != 2 + i - half_of(ncores) || c < 1 + f.core_w,
    ensures
        at(core_on(g, usage, fill, i, ncores, f), r, c, k),
{
    let half = half_of(ncores);
    let (bx, row) = if i < half {
        (1, i)
    } else {
        (1 + f.core_w, i - half)
    };
    if row < f.core_rows {
        let y = 2 + row;
        let cl = load_color(usage.bits);
        let g1 = print(g, bx, y, right_of(decimal_of(i as nat), 2) + " "@, dimmed());
        assert(at(g1, r, c, k));
        let g2 = bar_on(g1, bx + 3, y, f.core_bar_w, fill, cl);
        assert(at(g2, r, c, k));
    }
}

/// The number, the bar and the load of a processor.
proof fn lemma_core_shown(
    g: Seq<Seq<Cell>>,
    usage: Reading,
    fill: int,
    i: int,
    ncores: int,
    f: Frame,
    bx: int,
    y: int,
    j: int,
)
    requires
        0 <= i < ncores <= 0x1_0000,
        i < half_of(ncores) ==> bx == 1 && y == 2 + i,
        i >= half_of(ncores) ==> bx == 1 + f.core_w && y == 2 + i - half_of(ncores),
        y < 2 + f.core_rows,
        f.core_bar_w >= 4,
        f.core_w >= 0,
        short(usage.text@),
        0 <= j,
    ensures
        ({
            let h = core_on(g, usage, fill, i, ncores, f);
            let number = right_of(decimal_of(i as nat), 2);
            let load = right_of(usage.text@, 5) + "%"@;
            let color = load_color(usage.bits);
            let b = f.core_bar_w;
            &&& j < number.len() && j < 3 && at(g, y, bx + j, g[y][bx + j]) ==> at(
                h,
                y,
                bx + j,
                glyph(number[j], Color::White, false, true),
            )
            &&& j < b && at(g, y, bx + 3 + j, g[y][bx + 3 + j]) ==> at(
                h,
                y,
                bx + 3 + j,
                h[y][bx + 3 + j],
            ) && shows_bar(h[y][bx + 3 + j], j, fill, color)
            &&& j < load.len() && at(g, y, bx + 4 + b + j, g[y][bx + 4 + b + j]) ==> at(
                h,
                y,
                bx + 4 + b + j,
                glyph(load[j], color, false, false),
            )
        }),
{
    let cl = load_color(usage.bits);
    let t = right_of(decimal_of(i as nat), 2) + " "@;
    let number = right_of(decimal_of(i as nat), 2);
    let load = right_of(usage.text@, 5) + "%"@;
    lemma_decimal_len(i as nat);
    reveal_strlit(" ");
    reveal_strlit("%");
    let b = f.core_bar_w;
    let g1 = print(g, bx, y, t, dimmed());
    let g2 = bar_on(g1, bx + 3, y, b, fill, cl);
    let cells = bar_cells(fill, cl);
    if j < number.len() && j < 3 && at(g, y, bx + j, g[y][bx + j]) {
        let k = glyph(number[j], Color::White, false, true);
        lemma_print_sets(g, bx, y, t, dimmed(), bx + j, g[y][bx + j]);
        assert(t[j] == number[j]);
        lemma_paint_keeps(g1, bx + 3, y, b, 1, cells, y, bx + j, k);
        lemma_print_keeps(g2, bx + 4 + b, y, load, colored(cl), y, bx + j, k);
    }
    let c = bx + 3 + j;
    if j < b && at(g, y, c, g[y][c]) {
        assert(at(g1, y, c, g1[y][c]));
        lemma_paint_sets(g1, bx + 3, y, b, 1, cells, y, c, g1[y][c]);
        lemma_print_keeps(g2, bx + 4 + b, y, load, colored(cl), y, c, cells(j, 0)->0);
    }
    let c = bx + 4 + b + j;
    if j < load.len() && at(g, y, c, g[y][c]) {
        assert(at(g1, y, c, g1[y][c]));
        assert(at(g2, y, c, g2[y][c]));
        lemma_print_sets(g2, bx + 4 + b, y, load, colored(cl), c, g2[y][c]);
    }
}

/// What the bar of one processor shows is not overdrawn by those of the others,
/// as far as the next column of bars.
proof fn lemma_cores_keep(
    g: Seq<Seq<Cell>>,
    cores: Seq<Reading>,
    fills: Seq<u16>,
    f: Frame,
    i: int,
    n: int,
    r: int,
    c: int,
    k: Cell,
)
    requires
        0 <= i < n <= cores.len() <= 0x1_0000,
        f.core_bar_w >= 0,
        i < half_of(cores.len() as int) ==> r == 2 + i && c < 1 + f.core_w,
        i >= half_of(cores.len() as int) ==> r == 2 + i - half_of(cores.len() as int),
        at(cores_on(g, cores, fills, f, i + 1), r, c, k),
    ensures
        at(cores_on(g, cores, fills, f, n), r, c, k),
    decreases n,
{
    if n > i + 1 {
        lemma_cores_keep(g, cores, fills, f, i, n - 1, r, c, k);
        lemma_core_keeps(
            cores_on(g, cores, fills, f, n - 1),
            cores[n - 1],
            fills[n - 1] as int,
            n - 1,
            cores.len() as int,
            f,
            r,
            c,
            k,
        );
    }
}

/// What is drawn below the bars of the processors changes none of them.
proof fn lemma_cores_stay(
    g: Seq<Seq<Cell>>,
    s: State,
    gz: Gauges,
    f: Frame,
    r: int,
    c: int,
    k: Cell,
)
    requires
        r < 2 + f.core_rows,
        at(
            cores_on(
                box_on(
                    g,
                    0,
                    1,
                    f.cpu_w,
                    f.top_h,
                    "CPU  "@ + percent(s.avg.text@) + temp_text(s.temp),
                    load_color(s.avg.bits),
                ),
                s.cores@,
                gz.cores@,
                f,
                s.cores@.len() as int,
            ),
            r,
            c,
            k,
        ),
    ensures
        at(cpu_on(g, s, gz, f), r, c, k),
{
    let cl = load_color(s.avg.bits);
    let title = "CPU  "@ + percent(s.avg.text@) + temp_text(s.temp);
    let y = 2 + f.core_rows;
    let g1 = box_on(g, 0, 1, f.cpu_w, f.top_h, title, cl);
    let g2 = cores_on(g1, s.cores@, gz.cores@, f, s.cores@.len() as int);
    let g3 = print(g2, 2, y, "avg "@, dimmed());
    assert(at(g3, r, c, k));
    let g4 = print(g3, 6, y, percent(s.avg.text@), bright(cl));
    assert(at(g4, r, c, k));
    let g5 = print(g4, 14, y, "peak "@ + s.peak@ + "%  200s history"@, dimmed());
    assert(at(g5, r, c, k));
    lemma_paint_keeps(
        g5,
        1,
        y + 1,
        f.avg_w,
        f.avg_h,
        graph_cells(gz.avg@, f.avg_h, cl),
        r,
        c,
        k,
    );
}

/// Every processor that has a row shows its own number, bar and load: the first
/// half of them below one another on the left, the others beside them.
pub proof fn law_processor_bars(
    g: Seq<Seq<Cell>>,
    tw: int,
    th: int,
    s: State,
    gz: Gauges,
    u: UiModel,
    display: Seq<usize>,
    now: int,
    i: int,
    j: int,
)
    requires
        with_graphs(g, tw, th, s, gz, u),
        s.cores@.len() <= 0x1_0000,
        0 <= i < s.cores@.len(),
        0 <= j,
    ensures
        ({
            let f = frame_of(tw, th, s, u);
            let drawn = rendered(g, tw, th, s, gz, u, display, now);
            let half = (s.cores@.len() + 1) / 2;
            let left = i < half;
            let x = if left {
                1
            } else {
                1 + f.core_w
            };
            let end = if left {
                1 + f.core_w
            } else {
                f.cpu_w
            };
            let row = if left {
                i
            } else {
                i - half
            };
            let core = s.cores@[i];
            let number = right_of(decimal_of(i as nat), 2);
            let load = right_of(core.text@, 5) + "%"@;
            let color = load_color(core.bits);
            let b = f.core_bar_w;
            row < f.core_rows ==> {
                &&& j < number.len() && j < 3 ==> drawn[2 + row][x + j] == glyph(
                    number[j],
                    Color::White,
                    false,
                    true,
                )
                &&& j < b ==> shows_bar(drawn[2 + row][x + 3 + j], j, gz.cores@[i] as int, color)
                &&& j < load.len() && x + 4 + b + j < end ==> drawn[2 + row][x + 4 + b + j]
                    == glyph(load[j], color, false, false)
            }
        }),
{
    let f = frame_of(tw, th, s, u);
    lemma_frame(tw, th, s, u);
    lemma_core_frame(tw, th, s, u);
    let g0 = headed(g, tw, s, u);
    assert(has_size(g0, tw, th));
    let title = "CPU  "@ + percent(s.avg.text@) + temp_text(s.temp);
    let g1 = box_on(g0, 0, 1, f.cpu_w, f.top_h, title, load_color(s.avg.bits));
    assert(has_size(g1, tw, th));
    let n = s.cores@.len() as int;
    let half = half_of(n);
    let (x, row) = if i < half {
        (1, i)
    } else {
        (1 + f.core_w, i - half)
    };
    let y = 2 + row;
    let core = s.cores@[i];
    let (cores, fills) = (s.cores@, gz.cores@);
    if row < f.core_rows {
        lemma_cores_size(g1, cores, fills, f, i, tw, th);
        let before = cores_on(g1, cores, fills, f, i);
        assert(before[y].len() == tw);
        lemma_core_shown(before, core, fills[i] as int, i, n, f, x, y, j);
        let h = cores_on(g1, cores, fills, f, i + 1);
        assert(h == core_on(before, core, fills[i] as int, i, n, f));
        let number = right_of(decimal_of(i as nat), 2);
        let load = right_of(core.text@, 5) + "%"@;
        let color = load_color(core.bits);
        let b = f.core_bar_w;
        if j < number.len() && j < 3 {
            let k = glyph(number[j], Color::White, false, true);
            lemma_cores_keep(g1, cores, fills, f, i, n, y, x + j, k);
            lemma_cores_stay(g0, s, gz, f, y, x + j, k);
            lemma_cpu_stays(g, tw, th, s, gz, u, display, now, y, x + j, k);
        }
        if j < b {
            let k = h[y][x + 3 + j];
            lemma_cores_keep(g1, cores, fills, f, i, n, y, x + 3 + j, k);
            lemma_cores_stay(g0, s, gz, f, y, x + 3 + j, k);
            lemma_cpu_stays(g, tw, th, s, gz, u, display, now, y, x + 3 + j, k);
        }
        let c = x + 4 + b + j;
        if j < load.len() && c < (if i < half { 1 + f.core_w } else { f.cpu_w }) {
            let k = glyph(load[j], color, false, false);
            lemma_cores_keep(g1, cores, fills, f, i, n, y, c, k);
            lemma_cores_stay(g0, s, gz, f, y, c, k);
            lemma_cpu_stays(g, tw, th, s, gz, u, display, now, y, c, k);
        }
    }
}

proof fn lemma_core_frame(tw: int, th: int, s: State, u: UiModel)
    requires
        40 <= tw <= 0xffff,
        15 <= th <= 0xffff,
        u.show_graphs,
    ensures
        ({
            let f = frame_of(tw, th, s, u);
            &&& f.core_w >= 11
            &&& f.core_bar_w >= 4
            &&& 3 + f.core_bar_w <= f.core_w
            &&& 2 * f.core_w + 2 <= f.cpu_w
            &&& f.core_rows > 0 ==> f.core_rows + 7 <= f.top_h
            &&& f.core_rows >= 0
        }),
{
}

/// The box of the processors tells the mean load in its title, with the
/// temperature behind it, and again below the bars, with the peak behind it.
pub proof fn law_processor_texts(
    g: Seq<Seq<Cell>>,
    tw: int,
    th: int,
    s: State,
    gz: Gauges,
    u: UiModel,
    display: Seq<usize>,
    now: int,
    i: int,
)
    requires
        with_graphs(g, tw, th, s, gz, u),
        0 <= i,
        frame_of(tw, th, s, u).top_h >= 2,
    ensures
        ({
            let f = frame_of(tw, th, s, u);
            let drawn = rendered(g, tw, th, s, gz, u, display, now);
            let color = load_color(s.avg.bits);
            let warmth = match s.temp {
                Some(t) => " "@ + t@ + "°C"@,
                None => Seq::<char>::empty(),
            };
            let title = "CPU  "@ + s.avg.text@ + "%"@ + warmth;
            let mean = s.avg.text@ + "%"@;
            let peak = "peak "@ + s.peak@ + "%  200s history"@;
            let row = drawn[2 + f.core_rows];
            &&& i < title.len() && i < f.cpu_w - 5 ==> drawn[1][3 + i] == glyph(
                title[i],
                color,
                true,
                false,
            )
            &&& i < 4 ==> row[2 + i] == glyph("avg "@[i], Color::White, false, true)
            &&& i < mean.len() && i < 8 ==> row[6 + i] == glyph(mean[i], color, true, false)
            &&& i < peak.len() && 14 + i < f.cpu_w ==> row[14 + i] == glyph(
                peak[i],
                Color::White,
                false,
                true,
            )
        }),
{
    let f = frame_of(tw, th, s, u);
    lemma_frame(tw, th, s, u);
    lemma_core_frame(tw, th, s, u);
    let g0 = headed(g, tw, s, u);
    assert(has_size(g0, tw, th));
    lemma_cpu_texts(g0, s, gz, f, tw, th, i);
    let color = load_color(s.avg.bits);
    let title = "CPU  "@ + percent(s.avg.text@) + temp_text(s.temp);
    reveal_strlit("");
    let warmth = match s.temp {
        Some(t) => " "@ + t@ + "°C"@,
        None => Seq::<char>::empty(),
    };
    assert("CPU  "@ + s.avg.text@ + "%"@ + warmth =~= title);
    let mean = s.avg.text@ + "%"@;
    let peak = "peak "@ + s.peak@ + "%  200s history"@;
    let y = 2 + f.core_rows;
    if i < title.len() && i < f.cpu_w - 5 {
        let k = glyph(title[i], color, true, false);
        lemma_cpu_stays(g, tw, th, s, gz, u, display, now, 1, 3 + i, k);
    }
    if i < 4 {
        let k = glyph("avg "@[i], Color::White, false, true);
        lemma_cpu_stays(g, tw, th, s, gz, u, display, now, y, 2 + i, k);
    }
    if i < mean.len() && i < 8 {
        let k = glyph(mean[i], color, true, false);
        lemma_cpu_stays(g, tw, th, s, gz, u, display, now, y, 6 + i, k);
    }
    if i < peak.len() && 14 + i < f.cpu_w {
        let k = glyph(peak[i], Color::White, false, true);
        lemma_cpu_stays(g, tw, th, s, gz, u, display, now, y, 14 + i, k);
    }
}

/// The cores change nothing in the frame above them.
proof fn lemma_cores_keep_title(
    g: Seq<Seq<Cell>>,
    cores: Seq<Reading>,
    fills: Seq<u16>,
    f: Frame,
    n: int,
    c: int,
    k: Cell,
)
    requires
        at(g, 1, c, k),
        n <= cores.len(),
        f.core_bar_w >= 0,
    ensures
        at(cores_on(g, cores, fills, f, n), 1, c, k),
    decreases n,
{
    if n > 0 {
        lemma_cores_keep_title(g, cores, fills, f, n - 1, c, k);
        let h = cores_on(g, cores, fills, f, n - 1);
        let i = n - 1;
        let half = half_of(cores.len() as int);
        let (bx, row) = if i < half {
            (1, i % 0x1_0000)
        } else {
            (1 + f.core_w, (i - half) % 0x1_0000)
        };
        if row < f.core_rows {
            let y = 2 + row;
            let g1 = print(h, bx, y, right_of(decimal_of(i as nat), 2) + " "@, dimmed());
            assert(at(g1, 1, c, k));
        }
    }
}

proof fn lemma_cpu_texts(
    g: Seq<Seq<Cell>>,
    s: State,
    gz: Gauges,
    f: Frame,
    tw: int,
    th: int,
    i: int,
)
    requires
        has_size(g, tw, th),
        s.wf(),
        24 <= f.cpu_w <= tw <= 0xffff,
        2 <= f.top_h,
        0 <= f.core_rows,
        f.core_bar_w >= 0,
        2 + f.core_rows < th,
        0 <= i,
    ensures
        ({
            let h = cpu_on(g, s, gz, f);
            let color = load_color(s.avg.bits);
            let title = "CPU  "@ + percent(s.avg.text@) + temp_text(s.temp);
            let mean = s.avg.text@ + "%"@;
            let peak = "peak "@ + s.peak@ + "%  200s history"@;
            let y = 2 + f.core_rows;
            &&& i < title.len() && i < f.cpu_w - 5 ==> at(
                h,
                1,
                3 + i,
                glyph(title[i], color, true, false),
            )
            &&& i < 4 ==> at(h, y, 2 + i, glyph("avg "@[i], Color::White, false, true))
            &&& i < mean.len() && i < 8 ==> at(h, y, 6 + i, glyph(mean[i], color, true, false))
            &&& i < peak.len() && 14 + i < f.cpu_w ==> at(
                h,
                y,
                14 + i,
                glyph(peak[i], Color::White, false, true),
            )
        }),
{
    let cl = load_color(s.avg.bits);
    let title = "CPU  "@ + percent(s.avg.text@) + temp_text(s.temp);
    let mean = percent(s.avg.text@);
    let peak = "peak "@ + s.peak@ + "%  200s history"@;
    reveal_strlit("avg ");
    reveal_strlit("%");
    reveal_strlit("peak ");
    reveal_strlit("%  200s history");
    let y = 2 + f.core_rows;
    let n = s.cores@.len() as int;
    let g1 = box_on(g, 0, 1, f.cpu_w, f.top_h, title, cl);
    assert(has_size(g1, tw, th));
    lemma_cores_size(g1, s.cores@, gz.cores@, f, n, tw, th);
    let g2 = cores_on(g1, s.cores@, gz.cores@, f, n);
    let g3 = print(g2, 2, y, "avg "@, dimmed());
    let g4 = print(g3, 6, y, mean, bright(cl));
    let g5 = print(g4, 14, y, peak, dimmed());
    let cells = graph_cells(gz.avg@, f.avg_h, cl);
    assert(cpu_on(g, s, gz, f) == paint(g5, 1, y + 1, f.avg_w, f.avg_h, cells));
    assert(g[1].len() == tw);
    assert(g2[y].len() == tw);
    if i < title.len() && i < f.cpu_w - 5 {
        let (c, k) = (3 + i, glyph(title[i], cl, true, false));
        lemma_box_title(g, 0, 1, f.cpu_w, f.top_h, title, cl, i);
        lemma_cores_keep_title(g1, s.cores@, gz.cores@, f, n, c, k);
        assert(at(g3, 1, c, k));
        assert(at(g4, 1, c, k));
        assert(at(g5, 1, c, k));
        lemma_paint_keeps(g5, 1, y + 1, f.avg_w, f.avg_h, cells, 1, c, k);
    }
    if i < 4 {
        let (c, k) = (2 + i, glyph("avg "@[i], Color::White, false, true));
        lemma_print_sets(g2, 2, y, "avg "@, dimmed(), c, g2[y][c]);
        assert(at(g4, y, c, k));
        assert(at(g5, y, c, k));
        lemma_paint_keeps(g5, 1, y + 1, f.avg_w, f.avg_h, cells, y, c, k);
    }
    if i < mean.len() && i < 8 {
        let (c, k) = (6 + i, glyph(mean[i], cl, true, false));
        assert(at(g3, y, c, g3[y][c]));
        lemma_print_sets(g3, 6, y, mean, bright(cl), c, g3[y][c]);
        assert(at(g5, y, c, k));
        lemma_paint_keeps(g5, 1, y + 1, f.avg_w, f.avg_h, cells, y, c, k);
    }
    if i < peak.len() && 14 + i < f.cpu_w {
        let (c, k) = (14 + i, glyph(peak[i], Color::White, false, true));
        assert(at(g3, y, c, g3[y][c]));
        assert(at(g4, y, c, g4[y][c]));
        lemma_print_sets(g4, 14, y, peak, dimmed(), c, g4[y][c]);
        lemma_paint_keeps(g5, 1, y + 1, f.avg_w, f.avg_h, cells, y, c, k);
    }
}


/// What stands in the box of the memory, above the middle boxes, stands in the
/// frame.
proof fn lemma_ram_stays(
    g: Seq<Seq<Cell>>,
    tw: int,
    th: int,
    s: State,
    gz: Gauges,
    u: UiModel,
    display: Seq<usize>,
    now: int,
    r: int,
    c: int,
    k: Cell,
)
    requires
        with_graphs(g, tw, th, s, gz, u),
        r < frame_of(tw, th, s, u).mid_y,
        at(
            ram_on(
                cpu_on(headed(g, tw, s, u), s, gz, frame_of(tw, th, s, u)),
                s,
                gz,
                frame_of(tw, th, s, u),
            ),
            r,
            c,
            k,
        ),
    ensures
        at(rendered(g, tw, th, s, gz, u, display, now), r, c, k),
{
    let f = frame_of(tw, th, s, u);
    lemma_frame(tw, th, s, u);
    let g0 = headed(g, tw, s, u);
    lemma_upper_boxes_stay(g0, s, gz, f, r, c, k);
    lemma_boxes_stay(g, tw, th, s, gz, u, display, now, r, c, k);
}

/// The title, the bars and the percentages in the box of the memory.
proof fn lemma_ram_texts(
    g: Seq<Seq<Cell>>,
    s: State,
    gz: Gauges,
    f: Frame,
    tw: int,
    th: int,
    i: int,
)
    requires
        has_size(g, tw, th),
        s.wf(),
        16 <= f.ram_w,
        f.cpu_w >= 0,
        f.cpu_w + f.ram_w == tw <= 0xffff,
        f.mem_bar_w >= 4,
        f.cpu_w + 7 + f.mem_bar_w <= tw,
        5 <= f.top_h,
        5 < th,
        0 <= i,
    ensures
        ({
            let h = ram_on(g, s, gz, f);
            let (mc, sc) = (load_color(s.mem_pct.bits), load_color(s.swap_pct.bits));
            let title = "RAM  "@ + mem_text(used_of(s.mem) as nat) + " / "@ + mem_text(
                s.mem.total as nat,
            );
            let x = f.cpu_w;
            let b = f.mem_bar_w;
            let used = right_of(s.mem_pct.text@, 5) + "%"@;
            let swapped = right_of(s.swap_pct.text@, 5) + "%"@;
            let none = "─── none ───"@;
            &&& i < title.len() && i < f.ram_w - 5 ==> at(
                h,
                1,
                x + 3 + i,
                glyph(title[i], mc, true, false),
            )
            &&& i < 5 ==> at(h, 3, x + 2 + i, glyph("RAM  "@[i], Color::White, false, true))
            &&& i < b ==> at(h, 3, x + 7 + i, h[3][x + 7 + i]) && shows_bar(
                h[3][x + 7 + i],
                i,
                gz.mem as int,
                mc,
            )
            &&& i < used.len() && x + 8 + b + i < tw ==> at(
                h,
                3,
                x + 8 + b + i,
                glyph(used[i], mc, false, false),
            )
            &&& i < 5 ==> at(h, 5, x + 2 + i, glyph("SWAP "@[i], Color::White, false, true))
            &&& s.mem.swap_total > 0 && i < b ==> at(h, 5, x + 7 + i, h[5][x + 7 + i])
                && shows_bar(h[5][x + 7 + i], i, gz.swap as int, sc)
            &&& s.mem.swap_total > 0 && i < swapped.len() && x + 8 + b + i < tw ==> at(
                h,
                5,
                x + 8 + b + i,
                glyph(swapped[i], sc, false, false),
            )
            &&& s.mem.swap_total == 0 && i < none.len() && x + 7 + i < tw ==> at(
                h,
                5,
                x + 7 + i,
                glyph(none[i], Color::White, false, true),
            )
        }),
{
    let (mc, sc) = (load_color(s.mem_pct.bits), load_color(s.swap_pct.bits));
    let title = "RAM  "@ + mem_text(used_of(s.mem) as nat) + " / "@ + mem_text(s.mem.total as nat);
    let x = f.cpu_w + 2;
    let b = f.mem_bar_w;
    let used = percent(right_of(s.mem_pct.text@, 5));
    let swapped = percent(right_of(s.swap_pct.text@, 5));
    reveal_strlit("RAM  ");
    reveal_strlit("SWAP ");
    reveal_strlit("%");
    reveal_strlit("─── none ───");
    lemma_ram_size(g, s, gz, f, tw, th);
    let g1 = box_on(g, f.cpu_w, 1, f.ram_w, f.top_h, title, mc);
    let g2 = print(g1, x, 3, "RAM  "@, dimmed());
    let mb = bar_cells(gz.mem as int, mc);
    let g3 = paint(g2, x + 5, 3, b, 1, mb);
    let g4 = print(g3, x + 6 + b, 3, used, colored(mc));
    let g5 = print(g4, x, 5, "SWAP "@, dimmed());
    let sb = bar_cells(gz.swap as int, sc);
    let g6 = paint(g5, x + 5, 5, b, 1, sb);
    let g7 = print(g6, x + 6 + b, 5, swapped, colored(sc));
    let g8 = print(g5, x + 5, 5, "─── none ───"@, dimmed());
    let h = ram_bars(g, s, gz, f);
    assert(h == if s.mem.swap_total > 0 { g7 } else { g8 });
    assert(g[1].len() == tw && g[3].len() == tw && g[5].len() == tw);
    if i < title.len() && i < f.ram_w - 5 {
        let (c, k) = (x + 1 + i, glyph(title[i], mc, true, false));
        lemma_box_title(g, f.cpu_w, 1, f.ram_w, f.top_h, title, mc, i);
        assert(at(g2, 1, c, k));
        assert(at(g3, 1, c, k));
        assert(at(g4, 1, c, k));
        assert(at(g5, 1, c, k));
        assert(at(h, 1, c, k));
        lemma_details_keep(h, s.mem, mc, sc, f, 0, 1, c, k);
    }
    if i < 5 {
        let (c, k) = (x + i, glyph("RAM  "@[i], Color::White, false, true));
        lemma_box_size(g, f.cpu_w, 1, f.ram_w, f.top_h, title, mc, 3, c);
        lemma_print_sets(g1, x, 3, "RAM  "@, dimmed(), c, g1[3][c]);
        assert(at(g3, 3, c, k));
        assert(at(g4, 3, c, k));
        assert(at(g5, 3, c, k));
        assert(at(h, 3, c, k));
        lemma_details_keep(h, s.mem, mc, sc, f, 0, 3, c, k);
        let k = glyph("SWAP "@[i], Color::White, false, true);
        lemma_box_size(g, f.cpu_w, 1, f.ram_w, f.top_h, title, mc, 5, c);
        assert(at(g2, 5, c, g2[5][c]));
        assert(at(g3, 5, c, g3[5][c]));
        assert(at(g4, 5, c, g4[5][c]));
        lemma_print_sets(g4, x, 5, "SWAP "@, dimmed(), c, g4[5][c]);
        assert(at(g5, 5, c, k));
        assert(at(g6, 5, c, k));
        assert(at(h, 5, c, k));
        lemma_details_keep(h, s.mem, mc, sc, f, 0, 5, c, k);
    }
    if i < b {
        let c = x + 5 + i;
        let k = mb(i, 0)->0;
        lemma_box_size(g, f.cpu_w, 1, f.ram_w, f.top_h, title, mc, 3, c);
        assert(at(g2, 3, c, g2[3][c]));
        lemma_paint_sets(g2, x + 5, 3, b, 1, mb, 3, c, g2[3][c]);
        assert(at(g4, 3, c, k));
        assert(at(g5, 3, c, k));
        assert(at(h, 3, c, k));
        lemma_details_keep(h, s.mem, mc, sc, f, 0, 3, c, k);
        if s.mem.swap_total > 0 {
            let k = sb(i, 0)->0;
            lemma_box_size(g, f.cpu_w, 1, f.ram_w, f.top_h, title, mc, 5, c);
            assert(at(g2, 5, c, g2[5][c]));
            assert(at(g3, 5, c, g3[5][c]));
            assert(at(g5, 5, c, g5[5][c]));
            lemma_paint_sets(g5, x + 5, 5, b, 1, sb, 5, c, g5[5][c]);
            assert(at(h, 5, c, k));
            lemma_details_keep(h, s.mem, mc, sc, f, 0, 5, c, k);
        }
    }
    let c = x + 6 + b + i;
    if i < used.len() && c < tw {
        let k = glyph(used[i], mc, false, false);
        lemma_box_size(g, f.cpu_w, 1, f.ram_w, f.top_h, title, mc, 3, c);
        assert(at(g2, 3, c, g2[3][c]));
        assert(at(g3, 3, c, g3[3][c]));
        lemma_print_sets(g3, x + 6 + b, 3, used, colored(mc), c, g3[3][c]);
        assert(at(g5, 3, c, k));
        assert(at(h, 3, c, k));
        lemma_details_keep(h, s.mem, mc, sc, f, 0, 3, c, k);
    }
    if s.mem.swap_total > 0 && i < swapped.len() && c < tw {
        let k = glyph(swapped[i], sc, false, false);
        lemma_box_size(g, f.cpu_w, 1, f.ram_w, f.top_h, title, mc, 5, c);
        assert(at(g2, 5, c, g2[5][c]));
        assert(at(g3, 5, c, g3[5][c]));
        assert(at(g5, 5, c, g5[5][c]));
        assert(at(g6, 5, c, g6[5][c]));
        lemma_print_sets(g6, x + 6 + b, 5, swapped, colored(sc), c, g6[5][c]);
        assert(at(h, 5, c, k));
        lemma_details_keep(h, s.mem, mc, sc, f, 0, 5, c, k);
    }
    let c = x + 5 + i;
    let none = "─── none ───"@;
    if s.mem.swap_total == 0 && i < none.len() && c < tw {
        let k = glyph(none[i], Color::White, false, true);
        lemma_box_size(g, f.cpu_w, 1, f.ram_w, f.top_h, title, mc, 5, c);
        assert(at(g2, 5, c, g2[5][c]));
        assert(at(g3, 5, c, g3[5][c]));
        assert(at(g5, 5, c, g5[5][c]));
        lemma_print_sets(g5, x + 5, 5, none, dimmed(), c, g5[5][c]);
        assert(at(h, 5, c, k));
        lemma_details_keep(h, s.mem, mc, sc, f, 0, 5, c, k);
    }
}

/// The box of the memory tells in its title how much of how much is used, and
/// shows a bar and a percentage of the memory and, below them, of the swap
/// space, where there is any.
pub proof fn law_memory_bars(
    g: Seq<Seq<Cell>>,
    tw: int,
    th: int,
    s: State,
    gz: Gauges,
    u: UiModel,
    display: Seq<usize>,
    now: int,
    i: int,
)
    requires
        with_graphs(g, tw, th, s, gz, u),
        0 <= i,
        frame_of(tw, th, s, u).top_h >= 5,
    ensures
        ({
            let f = frame_of(tw, th, s, u);
            let drawn = rendered(g, tw, th, s, gz, u, display, now);
            let (mc, sc) = (load_color(s.mem_pct.bits), load_color(s.swap_pct.bits));
            let spent = if s.mem.total >= s.mem.available {
                s.mem.total - s.mem.available
            } else {
                0
            };
            let title = "RAM  "@ + mem_text(spent as nat) + " / "@ + mem_text(s.mem.total as nat);
            let x = tw - f.ram_w;
            let b = f.mem_bar_w;
            let used = right_of(s.mem_pct.text@, 5) + "%"@;
            let swapped = right_of(s.swap_pct.text@, 5) + "%"@;
            let none = "─── none ───"@;
            &&& i < title.len() && i < f.ram_w - 5 ==> drawn[1][x + 3 + i] == glyph(
                title[i],
                mc,
                true,
                false,
            )
            &&& i < 5 ==> drawn[3][x + 2 + i] == glyph("RAM  "@[i], Color::White, false, true)
            &&& i < b ==> shows_bar(drawn[3][x + 7 + i], i, gz.mem as int, mc)
            &&& i < used.len() && x + 8 + b + i < tw ==> drawn[3][x + 8 + b + i] == glyph(
                used[i],
                mc,
                false,
                false,
            )
            &&& i < 5 ==> drawn[5][x + 2 + i] == glyph("SWAP "@[i], Color::White, false, true)
            &&& s.mem.swap_total > 0 && i < b ==> shows_bar(
                drawn[5][x + 7 + i],
                i,
                gz.swap as int,
                sc,
            )
            &&& s.mem.swap_total > 0 && i < swapped.len() && x + 8 + b + i < tw ==> drawn[5][x + 8
                + b + i] == glyph(swapped[i], sc, false, false)
            &&& s.mem.swap_total == 0 && i < none.len() && x + 7 + i < tw ==> drawn[5][x + 7 + i]
                == glyph(none[i], Color::White, false, true)
        }),
{
    let f = frame_of(tw, th, s, u);
    lemma_frame(tw, th, s, u);
    let g0 = headed(g, tw, s, u);
    assert(has_size(g0, tw, th));
    lemma_cpu_size(g0, s, gz, f, tw, th);
    let g1 = cpu_on(g0, s, gz, f);
    lemma_ram_texts(g1, s, gz, f, tw, th, i);
    let h = ram_on(g1, s, gz, f);
    let (mc, sc) = (load_color(s.mem_pct.bits), load_color(s.swap_pct.bits));
    let title = "RAM  "@ + mem_text(used_of(s.mem) as nat) + " / "@ + mem_text(s.mem.total as nat);
    let x = f.cpu_w;
    let b = f.mem_bar_w;
    let used = right_of(s.mem_pct.text@, 5) + "%"@;
    let swapped = right_of(s.swap_pct.text@, 5) + "%"@;
    let none = "─── none ───"@;
    if i < title.len() && i < f.ram_w - 5 {
        let k = glyph(title[i], mc, true, false);
        lemma_ram_stays(g, tw, th, s, gz, u, display, now, 1, x + 3 + i, k);
    }
    if i < 5 {
        let k = glyph("RAM  "@[i], Color::White, false, true);
        lemma_ram_stays(g, tw, th, s, gz, u, display, now, 3, x + 2 + i, k);
        let k = glyph("SWAP "@[i], Color::White, false, true);
        lemma_ram_stays(g, tw, th, s, gz, u, display, now, 5, x + 2 + i, k);
    }
    if i < b {
        lemma_ram_stays(g, tw, th, s, gz, u, display, now, 3, x + 7 + i, h[3][x + 7 + i]);
        if s.mem.swap_total > 0 {
            lemma_ram_stays(g, tw, th, s, gz, u, display, now, 5, x + 7 + i, h[5][x + 7 + i]);
        }
    }
    let c = x + 8 + b + i;
    if i < used.len() && c < tw {
        let k = glyph(used[i], mc, false, false);
        lemma_ram_stays(g, tw, th, s, gz, u, display, now, 3, c, k);
    }
    if s.mem.swap_total > 0 && i < swapped.len() && c < tw {
        let k = glyph(swapped[i], sc, false, false);
        lemma_ram_stays(g, tw, th, s, gz, u, display, now, 5, c, k);
    }
    if s.mem.swap_total == 0 && i < none.len() && x + 7 + i < tw {
        let k = glyph(none[i], Color::White, false, true);
        lemma_ram_stays(g, tw, th, s, gz, u, display, now, 5, x + 7 + i, k);
    }
}

/// The label and the amount of one of the amounts of memory.
proof fn lemma_details_show(
    g: Seq<Seq<Cell>>,
    m: MemInfo,
    mc: Color,
    sc: Color,
    f: Frame,
    from: int,
    n: int,
    tw: int,
    th: int,
    j: int,
)
    requires
        has_size(g, tw, th),
        0 <= from <= n < 7,
        0 <= j,
        f.cpu_w >= 0,
        f.ram_w >= 0,
        f.top_h < th,
        forall|i: int| from <= i <= n ==> (#[trigger] detail_place(f, i)).1 < f.top_h,
    ensures
        ({
            let h = details_on(g, m, mc, sc, f, from);
            let (x, y) = detail_place(f, n);
            let (label, kb, color) = detail_of(m, mc, sc, n);
            let amount = mem_text(kb as nat);
            let end = if f.ram_w > 30 && n < 4 {
                detail_place(f, 4).0
            } else {
                tw
            };
            &&& j < 6 && x + j < end && x + j < tw ==> at(
                h,
                y,
                x + j,
                glyph(left_of(label, 6)[j], Color::White, false, true),
            )
            &&& j < amount.len() && x + 6 + j < end && x + 6 + j < tw ==> at(
                h,
                y,
                x + 6 + j,
                glyph(amount[j], color, false, false),
            )
        }),
    decreases n - from,
{
    let (x, y) = detail_place(f, from);
    let (label, kb, color) = detail_of(m, mc, sc, from);
    let amount = mem_text(kb as nat);
    reveal_strlit("Total");
    reveal_strlit("Used");
    reveal_strlit("Free");
    reveal_strlit("Bufs");
    reveal_strlit("Cache");
    reveal_strlit("SwpT");
    reveal_strlit("SwpU");
    assert(left_of(label, 6).len() == 6);
    crate::notation::lemma_mem_len(kb as nat);
    let g1 = print(g, x, y, left_of(label, 6), dimmed());
    let g2 = print(g1, x + 6, y, amount, colored(color));
    assert(has_size(g1, tw, th));
    assert(has_size(g2, tw, th));
    assert(details_on(g, m, mc, sc, f, from) == details_on(g2, m, mc, sc, f, from + 1));
    if from < n {
        lemma_details_show(g2, m, mc, sc, f, from + 1, n, tw, th, j);
    } else {
        let end = if f.ram_w > 30 && n < 4 {
            detail_place(f, 4).0
        } else {
            tw
        };
        assert(g[y].len() == tw);
        if j < 6 && x + j < end && x + j < tw {
            let k = glyph(left_of(label, 6)[j], Color::White, false, true);
            lemma_print_sets(g, x, y, left_of(label, 6), dimmed(), x + j, g[y][x + j]);
            lemma_print_keeps(g1, x + 6, y, amount, colored(color), y, x + j, k);
            lemma_details_keep(g2, m, mc, sc, f, n + 1, y, x + j, k);
        }
        let c = x + 6 + j;
        if j < amount.len() && c < end && c < tw {
            let k = glyph(amount[j], color, false, false);
            assert(at(g1, y, c, g1[y][c]));
            lemma_print_sets(g1, x + 6, y, amount, colored(color), c, g1[y][c]);
            lemma_details_keep(g2, m, mc, sc, f, n + 1, y, c, k);
        }
    }
}

proof fn lemma_amount_shown(
    g: Seq<Seq<Cell>>,
    tw: int,
    th: int,
    s: State,
    gz: Gauges,
    u: UiModel,
    display: Seq<usize>,
    now: int,
    n: int,
    j: int,
    end: int,
)
    requires
        with_graphs(g, tw, th, s, gz, u),
        0 <= n < 7,
        0 <= j,
        7 + n < frame_of(tw, th, s, u).top_h,
        end <= tw,
        frame_of(tw, th, s, u).ram_w > 30 && n < 4 ==> end <= detail_place(
            frame_of(tw, th, s, u),
            4,
        ).0,
    ensures
        ({
            let f = frame_of(tw, th, s, u);
            let drawn = rendered(g, tw, th, s, gz, u, display, now);
            let (mc, sc) = (load_color(s.mem_pct.bits), load_color(s.swap_pct.bits));
            let (x, y) = detail_place(f, n);
            let (label, kb, color) = detail_of(s.mem, mc, sc, n);
            let amount = mem_text(kb as nat);
            &&& j < 6 && x + j < end ==> drawn[y][x + j] == glyph(
                left_of(label, 6)[j],
                Color::White,
                false,
                true,
            )
            &&& j < amount.len() && x + 6 + j < end ==> drawn[y][x + 6 + j] == glyph(
                amount[j],
                color,
                false,
                false,
            )
        }),
{
    let f = frame_of(tw, th, s, u);
    lemma_frame(tw, th, s, u);
    let g0 = headed(g, tw, s, u);
    assert(has_size(g0, tw, th));
    lemma_cpu_size(g0, s, gz, f, tw, th);
    let g1 = cpu_on(g0, s, gz, f);
    lemma_ram_size(g1, s, gz, f, tw, th);
    let (mc, sc) = (load_color(s.mem_pct.bits), load_color(s.swap_pct.bits));
    lemma_details_show(ram_bars(g1, s, gz, f), s.mem, mc, sc, f, 0, n, tw, th, j);
    let (x, y) = detail_place(f, n);
    let (label, kb, color) = detail_of(s.mem, mc, sc, n);
    if j < 6 && x + j < end {
        let k = glyph(left_of(label, 6)[j], Color::White, false, true);
        lemma_ram_stays(g, tw, th, s, gz, u, display, now, y, x + j, k);
    }
    let amount = mem_text(kb as nat);
    if j < amount.len() && x + 6 + j < end {
        let k = glyph(amount[j], color, false, false);
        lemma_ram_stays(g, tw, th, s, gz, u, display, now, y, x + 6 + j, k);
    }
}

/// An amount of memory, under its label, and the colour that it is told in:
/// all, used, free, buffers, cache, swap space and used swap space.
pub open spec fn is_amount(s: State, n: int, label: Seq<char>, kb: int, color: Color) -> bool {
    let m = s.mem;
    &&& n == 0 ==> label == "Total"@ && kb == m.total && color == Color::White
    &&& n == 1 ==> label == "Used"@ && color == load_color(s.mem_pct.bits)
    &&& n == 1 && m.total >= m.available ==> kb == m.total - m.available
    &&& n == 1 && m.total < m.available ==> kb == 0
    &&& n == 2 ==> label == "Free"@ && kb == m.available && color == Color::Green
    &&& n == 3 ==> label == "Bufs"@ && kb == m.buffers && color == Color::DarkGrey
    &&& n == 4 ==> label == "Cache"@ && kb == m.cached && color == Color::DarkGrey
    &&& n == 5 ==> label == "SwpT"@ && kb == m.swap_total && color == Color::DarkGrey
    &&& n == 6 ==> label == "SwpU"@ && color == load_color(s.swap_pct.bits)
    &&& n == 6 && m.swap_total >= m.swap_free ==> kb == m.swap_total - m.swap_free
    &&& n == 6 && m.swap_total < m.swap_free ==> kb == 0
}

/// The amounts of memory are listed below the bars, each with its own label. On
/// a wide screen the last three stand in a second column.
pub proof fn law_memory_amounts(
    g: Seq<Seq<Cell>>,
    tw: int,
    th: int,
    s: State,
    gz: Gauges,
    u: UiModel,
    display: Seq<usize>,
    now: int,
    n: int,
    j: int,
    label: Seq<char>,
    kb: int,
    color: Color,
)
    requires
        with_graphs(g, tw, th, s, gz, u),
        0 <= n < 7,
        0 <= j,
        7 + n < frame_of(tw, th, s, u).top_h,
        is_amount(s, n, label, kb, color),
    ensures
        ({
            let f = frame_of(tw, th, s, u);
            let drawn = rendered(g, tw, th, s, gz, u, display, now);
            let wide = f.ram_w > 30;
            let first = tw - f.ram_w + 2;
            let second = first + f.ram_w / 2;
            let amount = mem_text(kb as nat);
            &&& !wide && j < 6 && first + j < tw ==> drawn[7 + n][first + j] == glyph(
                left_of(label, 6)[j],
                Color::White,
                false,
                true,
            )
            &&& !wide && j < amount.len() && first + 6 + j < tw ==> drawn[7 + n][first + 6 + j]
                == glyph(amount[j], color, false, false)
            &&& wide && n < 4 && j < 6 ==> drawn[7 + n][first + j] == glyph(
                left_of(label, 6)[j],
                Color::White,
                false,
                true,
            )
            &&& wide && n < 4 && j < amount.len() && first + 6 + j < second ==> drawn[7 + n][first
                + 6 + j] == glyph(amount[j], color, false, false)
            &&& wide && n >= 4 && j < 6 ==> drawn[3 + n][second + j] == glyph(
                left_of(label, 6)[j],
                Color::White,
                false,
                true,
            )
            &&& wide && n >= 4 && j < amount.len() && second + 6 + j < tw ==> drawn[3 + n][second
                + 6 + j] == glyph(amount[j], color, false, false)
        }),
{
    let f = frame_of(tw, th, s, u);
    lemma_frame(tw, th, s, u);
    let end = if f.ram_w > 30 && n < 4 {
        detail_place(f, 4).0
    } else {
        tw
    };
    lemma_amount_shown(g, tw, th, s, gz, u, display, now, n, j, end);
    let (mc, sc) = (load_color(s.mem_pct.bits), load_color(s.swap_pct.bits));
    assert(detail_of(s.mem, mc, sc, n) == (label, kb, color));
}


/// A cell shows the frame of a box of `w` columns and `h` rows: at its left, or
/// at its bottom, `i` columns and `j` rows from its upper left corner.
pub open spec fn shows_frame(cell: Cell, i: int, j: int, w: int, h: int) -> bool {
    &&& i == 0 && j == h - 1 ==> cell == glyph('└', Color::White, false, true)
    &&& i == w - 1 && j == h - 1 ==> cell == glyph('┘', Color::White, false, true)
    &&& 0 < i < w - 1 && j == h - 1 ==> cell == glyph('─', Color::White, false, true)
    &&& i == 0 && 0 < j < h - 1 ==> cell == glyph('│', Color::White, false, true)
    &&& i == 0 && j == 0 ==> cell == glyph('┌', Color::White, false, true)
}

/// A place of the frame of a box, at its left or at its bottom.
pub open spec fn in_frame(i: int, j: int, w: int, h: int) -> bool {
    0 <= i < w && 0 <= j < h && (i == 0 || j == h - 1)
}

/// The left and the bottom of a box.
proof fn lemma_box_frame(
    g: Seq<Seq<Cell>>,
    x: int,
    y: int,
    w: int,
    h: int,
    title: Seq<char>,
    tc: Color,
    i: int,
    j: int,
)
    requires
        w >= 4,
        h >= 2,
        in_frame(i, j, w, h),
        at(g, y + j, x + i, g[y + j][x + i]),
    ensures
        ({
            let b = box_on(g, x, y, w, h, title, tc);
            at(b, y + j, x + i, b[y + j][x + i]) && shows_frame(b[y + j][x + i], i, j, w, h)
        }),
{
    let framed = paint(g, x, y, w, h, border(w, h));
    let k = (border(w, h))(i, j)->0;
    lemma_paint_sets(g, x, y, w, h, border(w, h), y + j, x + i, g[y + j][x + i]);
    assert(at(framed, y + j, x + i, k));
    if title.len() > 0 && w > 6 {
        lemma_print_keeps(framed, x + 2, y, title_of(title, w), bright(tc), y + j, x + i, k);
    }
}

proof fn lemma_flows_frame(
    g: Seq<Seq<Cell>>,
    x: int,
    w: int,
    title: Seq<char>,
    tc: Color,
    a: (Seq<char>, int, Seq<Column>, Color),
    b: (Seq<char>, int, Seq<Column>, Color),
    f: Frame,
    i: int,
    j: int,
)
    requires
        f.mid_h >= 8,
        f.flow_h == f.mid_h - 3,
        w >= 4,
        a.1 >= 0,
        in_frame(i, j, w, f.mid_h),
        at(g, f.mid_y + j, x + i, g[f.mid_y + j][x + i]),
    ensures
        ({
            let h = flows_on(g, x, w, title, tc, a, b, f);
            let (r, c) = (f.mid_y + j, x + i);
            at(h, r, c, h[r][c]) && shows_frame(h[r][c], i, j, w, f.mid_h)
        }),
{
    let y = f.mid_y;
    let (r, c) = (y + j, x + i);
    lemma_box_frame(g, x, y, w, f.mid_h, title, tc, i, j);
    let g1 = box_on(g, x, y, w, f.mid_h, title, tc);
    let k = g1[r][c];
    lemma_print_keeps(g1, x + 2, y + 1, a.0, colored(a.3), r, c, k);
    let g2 = print(g1, x + 2, y + 1, a.0, colored(a.3));
    lemma_print_keeps(g2, x + 3 + a.1, y + 1, b.0, colored(b.3), r, c, k);
    let g3 = print(g2, x + 3 + a.1, y + 1, b.0, colored(b.3));
    lemma_paint_keeps(g3, x + 1, y + 2, a.1, f.flow_h, graph_cells(a.2, f.flow_h, a.3), r, c, k);
    let g4 = graph_on(g3, x + 1, y + 2, a.1, f.flow_h, a.2, a.3);
    lemma_paint_keeps(
        g4,
        x + 2 + a.1,
        y + 2,
        b.1,
        f.flow_h,
        graph_cells(b.2, f.flow_h, b.3),
        r,
        c,
        k,
    );
}

/// The boxes of the network and of the disks stand side by side below the upper
/// ones, each with a frame.
pub proof fn law_frames_of_the_flows(
    g: Seq<Seq<Cell>>,
    tw: int,
    th: int,
    s: State,
    gz: Gauges,
    u: UiModel,
    display: Seq<usize>,
    now: int,
    i: int,
    j: int,
)
    requires
        with_graphs(g, tw, th, s, gz, u),
    ensures
        ({
            let f = frame_of(tw, th, s, u);
            let row = rendered(g, tw, th, s, gz, u, display, now)[f.mid_y + j];
            &&& in_frame(i, j, f.net_w, f.mid_h) ==> shows_frame(
                row[i],
                i,
                j,
                f.net_w,
                f.mid_h,
            )
            &&& in_frame(i, j, f.disk_w, f.mid_h) ==> shows_frame(
                row[f.net_w + i],
                i,
                j,
                f.disk_w,
                f.mid_h,
            )
        }),
{
    let f = frame_of(tw, th, s, u);
    lemma_frame(tw, th, s, u);
    let g0 = headed(g, tw, s, u);
    assert(has_size(g0, tw, th));
    lemma_cpu_size(g0, s, gz, f, tw, th);
    let g1 = cpu_on(g0, s, gz, f);
    lemma_ram_size(g1, s, gz, f, tw, th);
    let g2 = ram_on(g1, s, gz, f);
    lemma_net_size(g2, s, gz, f, tw, th);
    let g3 = net_on(g2, s, gz, f);
    let g4 = disk_on(g3, s, gz, f);
    let r = f.mid_y + j;
    if in_frame(i, j, f.net_w, f.mid_h) {
        assert(g2[r].len() == tw);
        lemma_flows_frame(
            g2,
            0,
            f.net_w,
            "NET  ▼ "@ + s.net_rx@ + "  ▲ "@ + s.net_tx@,
            Color::Cyan,
            ("▼ RX  "@ + s.net_rx@, f.rx_w, gz.rx@, Color::Green),
            ("▲ TX  "@ + s.net_tx@, f.tx_w, gz.tx@, Color::Yellow),
            f,
            i,
            j,
        );
        let k = g3[r][i];
        assert(at(g3, r, i, k));
        lemma_net_stays(g0, s, gz, f, r, i, k);
        lemma_boxes_stay(g, tw, th, s, gz, u, display, now, r, i, k);
    }
    if in_frame(i, j, f.disk_w, f.mid_h) {
        assert(g3[r].len() == tw);
        lemma_flows_frame(
            g3,
            f.net_w,
            f.disk_w,
            "DISK  R "@ + s.disk_r@ + "  W "@ + s.disk_w@,
            Color::Yellow,
            ("● Read  "@ + s.disk_r@, f.read_w, gz.read@, Color::Cyan),
            ("● Write "@ + s.disk_w@, f.write_w, gz.write@, Color::Magenta),
            f,
            i,
            j,
        );
        let k = g4[r][f.net_w + i];
        assert(at(g4, r, f.net_w + i, k));
        lemma_disk_stays(g0, s, gz, f, r, f.net_w + i, k);
        lemma_boxes_stay(g, tw, th, s, gz, u, display, now, r, f.net_w + i, k);
    }
}

proof fn lemma_gpu_frame(
    g: Seq<Seq<Cell>>,
    gpu: GpuInfo,
    fill: int,
    columns: Seq<Column>,
    f: Frame,
    i: int,
    j: int,
)
    requires
        f.mid_h >= 8,
        f.gpu_graph_h == f.mid_h - 6,
        f.gpu_w >= 13,
        in_frame(i, j, f.gpu_w, f.mid_h),
        at(g, f.mid_y + j, f.gpu_x + i, g[f.mid_y + j][f.gpu_x + i]),
    ensures
        ({
            let h = gpu_on(g, gpu, fill, columns, f);
            let (r, c) = (f.mid_y + j, f.gpu_x + i);
            at(h, r, c, h[r][c]) && shows_frame(h[r][c], i, j, f.gpu_w, f.mid_h)
        }),
{
    let cl = load_color(gpu.pct.bits);
    let (x, y) = (f.gpu_x + 2, f.mid_y);
    let (r, c) = (y + j, f.gpu_x + i);
    let title = "GPU "@ + percent(gpu.pct.text@);
    lemma_box_frame(g, f.gpu_x, y, f.gpu_w, f.mid_h, title, cl, i, j);
    let g1 = box_on(g, f.gpu_x, y, f.gpu_w, f.mid_h, title, cl);
    let k = g1[r][c];
    let g2 = print(g1, x, y + 1, boxed(gpu.name@, f.gpu_bar_w), dimmed());
    assert(at(g2, r, c, k));
    let g3 = bar_on(g2, x, y + 2, f.gpu_bar_w, fill, cl);
    assert(at(g3, r, c, k));
    let h = gpu_on(g, gpu, fill, columns, f);
    assert(at(h, r, c, k));
}

/// The box of a graphics processor stands at the right of them.
pub proof fn law_frame_of_the_graphics(
    g: Seq<Seq<Cell>>,
    tw: int,
    th: int,
    s: State,
    gz: Gauges,
    u: UiModel,
    display: Seq<usize>,
    now: int,
    gpu: GpuInfo,
    i: int,
    j: int,
)
    requires
        with_graphs(g, tw, th, s, gz, u),
        s.gpu == Some(gpu),
        in_frame(i, j, frame_of(tw, th, s, u).gpu_w, frame_of(tw, th, s, u).mid_h),
    ensures
        ({
            let f = frame_of(tw, th, s, u);
            let row = rendered(g, tw, th, s, gz, u, display, now)[f.mid_y + j];
            shows_frame(row[tw - f.gpu_w + i], i, j, f.gpu_w, f.mid_h)
        }),
{
    let f = frame_of(tw, th, s, u);
    lemma_frame(tw, th, s, u);
    let g4 = lemma_before_gpu(g, tw, th, s, gz, u, gpu);
    let (r, c) = (f.mid_y + j, f.gpu_x + i);
    assert(g4[r].len() == tw);
    lemma_gpu_frame(g4, gpu, gz.gpu as int, gz.gpu_graph@, f, i, j);
    let h = gpu_on(g4, gpu, gz.gpu as int, gz.gpu_graph@, f);
    lemma_boxes_stay(g, tw, th, s, gz, u, display, now, r, c, h[r][c]);
}

/// The box of the memory stands at the right of that of the processors, with a
/// frame.
pub proof fn law_frame_of_the_memory(
    g: Seq<Seq<Cell>>,
    tw: int,
    th: int,
    s: State,
    gz: Gauges,
    u: UiModel,
    display: Seq<usize>,
    now: int,
    i: int,
    j: int,
)
    requires
        with_graphs(g, tw, th, s, gz, u),
        frame_of(tw, th, s, u).top_h >= 6,
        in_frame(i, j, frame_of(tw, th, s, u).ram_w, frame_of(tw, th, s, u).top_h),
    ensures
        ({
            let f = frame_of(tw, th, s, u);
            let row = rendered(g, tw, th, s, gz, u, display, now)[1 + j];
            shows_frame(row[tw - f.ram_w + i], i, j, f.ram_w, f.top_h)
        }),
{
    let f = frame_of(tw, th, s, u);
    lemma_frame(tw, th, s, u);
    let g0 = headed(g, tw, s, u);
    assert(has_size(g0, tw, th));
    lemma_cpu_size(g0, s, gz, f, tw, th);
    let g1 = cpu_on(g0, s, gz, f);
    lemma_ram_size(g1, s, gz, f, tw, th);
    let (r, c) = (1 + j, f.cpu_w + i);
    assert(g1[r].len() == tw);
    lemma_ram_frame(g1, s, gz, f, tw, th, i, j);
    let h = ram_on(g1, s, gz, f);
    lemma_ram_stays(g, tw, th, s, gz, u, display, now, r, c, h[r][c]);
}

proof fn lemma_ram_frame(
    g: Seq<Seq<Cell>>,
    s: State,
    gz: Gauges,
    f: Frame,
    tw: int,
    th: int,
    i: int,
    j: int,
)
    requires
        has_size(g, tw, th),
        f.top_h >= 6,
        f.ram_w >= 16,
        f.mem_bar_w >= 4,
        in_frame(i, j, f.ram_w, f.top_h),
        at(g, 1 + j, f.cpu_w + i, g[1 + j][f.cpu_w + i]),
    ensures
        ({
            let h = ram_on(g, s, gz, f);
            let (r, c) = (1 + j, f.cpu_w + i);
            at(h, r, c, h[r][c]) && shows_frame(h[r][c], i, j, f.ram_w, f.top_h)
        }),
{
    let (mc, sc) = (load_color(s.mem_pct.bits), load_color(s.swap_pct.bits));
    let title = "RAM  "@ + mem_text(used_of(s.mem) as nat) + " / "@ + mem_text(s.mem.total as nat);
    let x = f.cpu_w + 2;
    let (r, c) = (1 + j, f.cpu_w + i);
    lemma_ram_size(g, s, gz, f, tw, th);
    lemma_box_frame(g, f.cpu_w, 1, f.ram_w, f.top_h, title, mc, i, j);
    let g1 = box_on(g, f.cpu_w, 1, f.ram_w, f.top_h, title, mc);
    let k = g1[r][c];
    let g2 = print(g1, x, 3, "RAM  "@, dimmed());
    assert(at(g2, r, c, k));
    let g3 = bar_on(g2, x + 5, 3, f.mem_bar_w, gz.mem as int, mc);
    assert(at(g3, r, c, k));
    let g4 = print(g3, x + 6 + f.mem_bar_w, 3, percent(right_of(s.mem_pct.text@, 5)), colored(mc));
    assert(at(g4, r, c, k));
    let h = ram_bars(g, s, gz, f);
    assert(at(h, r, c, k));
    lemma_details_end(h, s.mem, mc, sc, f, 0, r, c, k);
}

/// The amounts of memory are listed above the bottom of the box, and not on its
/// left.
proof fn lemma_details_end(
    g: Seq<Seq<Cell>>,
    m: MemInfo,
    mc: Color,
    sc: Color,
    f: Frame,
    from: int,
    r: int,
    c: int,
    k: Cell,
)
    requires
        at(g, r, c, k),
        r >= f.top_h || c < f.cpu_w + 2,
        f.ram_w >= 0,
    ensures
        at(details_on(g, m, mc, sc, f, from), r, c, k),
    decreases 7 - from,
{
    let (x, y) = detail_place(f, from);
    if from < 7 && y < TOP_Y + f.top_h - 1 {
        let (label, kb, cl) = detail_of(m, mc, sc, from);
        lemma_print_keeps(g, x, y, left_of(label, 6), dimmed(), r, c, k);
        let g1 = print(g, x, y, left_of(label, 6), dimmed());
        lemma_print_keeps(g1, x + 6, y, mem_text(kb as nat), colored(cl), r, c, k);
        let g2 = print(g1, x + 6, y, mem_text(kb as nat), colored(cl));
        lemma_details_end(g2, m, mc, sc, f, from + 1, r, c, k);
    }
}

/// The bars of the processors stand within their rows, and not on the left of
/// the box.
proof fn lemma_cores_keep_frame(
    g: Seq<Seq<Cell>>,
    cores: Seq<Reading>,
    fills: Seq<u16>,
    f: Frame,
    n: int,
    r: int,
    c: int,
    k: Cell,
)
    requires
        at(g, r, c, k),
        n <= cores.len(),
        f.core_w >= 0,
        f.core_bar_w >= 0,
        c < 1 || r >= 2 + f.core_rows,
    ensures
        at(cores_on(g, cores, fills, f, n), r, c, k),
    decreases n,
{
    if n > 0 {
        lemma_cores_keep_frame(g, cores, fills, f, n - 1, r, c, k);
        let h = cores_on(g, cores, fills, f, n - 1);
        let i = n - 1;
        let half = half_of(cores.len() as int);
        let (bx, row) = if i < half {
            (1, i % 0x1_0000)
        } else {
            (1 + f.core_w, (i - half) % 0x1_0000)
        };
        if row < f.core_rows {
            let y = 2 + row;
            let g1 = print(h, bx, y, right_of(decimal_of(i as nat), 2) + " "@, dimmed());
            assert(at(g1, r, c, k));
        }
    }
}

/// The box of the processors stands at the upper left, below the header, with a
/// frame.
pub proof fn law_frame_of_the_processors(
    g: Seq<Seq<Cell>>,
    tw: int,
    th: int,
    s: State,
    gz: Gauges,
    u: UiModel,
    display: Seq<usize>,
    now: int,
    i: int,
    j: int,
)
    requires
        with_graphs(g, tw, th, s, gz, u),
        frame_of(tw, th, s, u).top_h >= 7,
        in_frame(i, j, frame_of(tw, th, s, u).cpu_w, frame_of(tw, th, s, u).top_h),
    ensures
        ({
            let f = frame_of(tw, th, s, u);
            let row = rendered(g, tw, th, s, gz, u, display, now)[1 + j];
            shows_frame(row[i], i, j, f.cpu_w, f.top_h)
        }),
{
    let f = frame_of(tw, th, s, u);
    lemma_frame(tw, th, s, u);
    lemma_core_frame(tw, th, s, u);
    let g0 = headed(g, tw, s, u);
    assert(has_size(g0, tw, th));
    let cl = load_color(s.avg.bits);
    let title = "CPU  "@ + percent(s.avg.text@) + temp_text(s.temp);
    let y = 2 + f.core_rows;
    let (r, c) = (1 + j, i);
    let n = s.cores@.len() as int;
    assert(g0[r].len() == tw);
    lemma_box_frame(g0, 0, 1, f.cpu_w, f.top_h, title, cl, i, j);
    let g1 = box_on(g0, 0, 1, f.cpu_w, f.top_h, title, cl);
    let k = g1[r][c];
    lemma_cores_keep_frame(g1, s.cores@, gz.cores@, f, n, r, c, k);
    let g2 = cores_on(g1, s.cores@, gz.cores@, f, n);
    let g3 = print(g2, 2, y, "avg "@, dimmed());
    assert(at(g3, r, c, k));
    let g4 = print(g3, 6, y, percent(s.avg.text@), bright(cl));
    assert(at(g4, r, c, k));
    let g5 = print(g4, 14, y, "peak "@ + s.peak@ + "%  200s history"@, dimmed());
    assert(at(g5, r, c, k));
    let cells = graph_cells(gz.avg@, f.avg_h, cl);
    lemma_paint_keeps(g5, 1, y + 1, f.avg_w, f.avg_h, cells, r, c, k);
    assert(cpu_on(g0, s, gz, f) == paint(g5, 1, y + 1, f.avg_w, f.avg_h, cells));
    lemma_cpu_stays(g, tw, th, s, gz, u, display, now, r, c, k);
}

} // verus!
