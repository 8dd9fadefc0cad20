//! The header and the boxes with bars and graphs.
use vstd::prelude::*;

use crate::buffer::{boxed, print};
use crate::buffer::{Buffer, Canvas, Cell, Color};
use crate::draw::{bar_on, box_on, bright, colored, dimmed, graph_on};
use crate::draw::{bold_on, dim, draw_box_buf, draw_graph_buf, draw_hbar_buf, on, put_text, Column};
use crate::notation;
use crate::notation::{mem_text, up_text};
use crate::layout;
use crate::layout::{frame, half_of};
use crate::layout::{Frame, Layout, MIN_H, MIN_W, TOP_Y};
use crate::number;
use crate::number::decimal_of;
use crate::reading;
use crate::reading::load_color;
use crate::reading::Reading;
use crate::sensors;
use crate::sensors::mean_of;
use crate::state::{mem_used, swap_used};
use crate::state::{short, swap_used_of, used_of};
use crate::state::{GpuInfo, State};
use crate::stats::MemInfo;
use crate::text;
use crate::text::right_of;

verus! {

/// The bars and graphs of a frame: how many columns of each bar are full, and
/// the columns of each graph.
pub struct Gauges {
    pub cores: Vec<u16>,
    pub mem: u16,
    pub swap: u16,
    pub gpu: u16,
    pub avg: Vec<Column>,
    pub rx: Vec<Column>,
    pub tx: Vec<Column>,
    pub read: Vec<Column>,
    pub write: Vec<Column>,
    pub gpu_graph: Vec<Column>,
}

impl Gauges {
    /// There is a bar for each processor, and the graphs are as wide as their
    /// places.
    pub open spec fn fills(self, f: Frame, ncores: int, gpu: bool) -> bool {
        &&& self.cores@.len() == ncores
        &&& self.avg@.len() == f.avg_w
        &&& self.rx@.len() == f.rx_w
        &&& self.tx@.len() == f.tx_w
        &&& self.read@.len() == f.read_w
        &&& self.write@.len() == f.write_w
        &&& gpu ==> self.gpu_graph@.len() == f.gpu_graph_w
    }

    /// Tells whether the bars and graphs are those of a frame.
    pub fn matches(&self, l: &Layout, ncores: usize, gpu: bool) -> (r: bool)
        ensures
            r == self.fills(l@, ncores as int, gpu),
    {
        self.cores.len() == ncores && self.avg.len() == l.avg_w as usize && self.rx.len()
            == l.rx_w as usize && self.tx.len() == l.tx_w as usize && self.read.len()
            == l.read_w as usize && self.write.len() == l.write_w as usize && (!gpu
            || self.gpu_graph.len() == l.gpu_graph_w as usize)
    }
}

/// The temperature behind a space, where it is known.
pub open spec fn temp_text(temp: Option<String>) -> Seq<char> {
    match temp {
        Some(t) => " "@ + t@ + "°C"@,
        None => ""@,
    }
}

fn push_temp(s: &mut String, temp: &Option<String>)
    ensures
        final(s)@ == old(s)@ + temp_text(*temp),
{
    match temp {
        Some(t) => {
            s.append(" ");
            s.append(t.as_str());
            s.append("°C");
            assert(s@ =~= old(s)@ + temp_text(*temp));
        },
        None => {
            s.append("");
        },
    }
}

/// The text of the header: host, temperature, clock rate, time since the
/// start, load and number of processes, and whether the tree is shown.
pub open spec fn header_text(s: State, tree: bool) -> Seq<char> {
    " ◈ SYSMON  "@ + s.hostname@ + temp_text(s.temp) + "  "@ + decimal_of(mean_of(s.freqs@))
        + " MHz  ↑ "@ + up_text(s.uptime as nat) + "  load "@ + s.load1@ + " "@ + s.load5@ + " "@
        + s.load15@ + "  "@ + decimal_of(s.proc_count as nat) + " procs"@ + if tree {
        " [TREE]"@
    } else {
        ""@
    }
}

/// A grid of `tw` columns with the header in its first row.
pub open spec fn header_on(g: Seq<Seq<Cell>>, tw: int, s: State, tree: bool) -> Seq<Seq<Cell>> {
    print(g, 0, 0, boxed(header_text(s, tree), tw), bright(Color::Cyan))
}

pub(crate) fn draw_header(buf: &mut Buffer, s: &State, tree: bool)
    requires
        old(buf).wf(),
        s.wf(),
    ensures
        final(buf).wf(),
        final(buf).w == old(buf).w,
        final(buf).h == old(buf).h,
        final(buf)@ == header_on(old(buf)@, old(buf).w as int, *s, tree),
{
    let mut t: String = " ◈ SYSMON  ".to_owned();
    t.append(s.hostname.as_str());
    push_temp(&mut t, &s.temp);
    t.append("  ");
    t.append(number::decimal(sensors::mean(&s.freqs)).as_str());
    t.append(" MHz  ↑ ");
    t.append(notation::fmt_up(s.uptime).as_str());
    t.append("  load ");
    t.append(s.load1.as_str());
    t.append(" ");
    t.append(s.load5.as_str());
    t.append(" ");
    t.append(s.load15.as_str());
    t.append("  ");
    t.append(number::decimal(s.proc_count as u64).as_str());
    t.append(" procs");
    t.append(if tree { " [TREE]" } else { "" });
    let w: u16 = buf.w;
    Canvas::new(buf).fg(Color::Cyan).bold().print_truncated(0, 0, t.as_str(), w);
}

/// A text and a percent sign.
pub open spec fn percent(s: Seq<char>) -> Seq<char> {
    s + "%"@
}

fn with_percent(s: &str) -> (r: String)
    ensures
        r@ == percent(s@),
{
    let mut r = s.to_owned();
    r.append("%");
    r
}

/// A grid with the bar of one processor, in the first or the second of two
/// columns; one that has no row is not drawn.
pub open spec fn core_on(
    g: Seq<Seq<Cell>>,
    usage: Reading,
    fill: int,
    i: int,
    ncores: int,
    f: Frame,
) -> Seq<Seq<Cell>> {
    let half = half_of(ncores);
    let (bx, row) = if i < half {
        (1, i % 0x1_0000)
    } else {
        (1 + f.core_w, (i - half) % 0x1_0000)
    };
    if row >= f.core_rows {
        g
    } else {
        let y = TOP_Y + 1 + row;
        let c = load_color(usage.bits);
        let g1 = print(g, bx, y, right_of(decimal_of(i as nat), 2) + " "@, dimmed());
        let g2 = bar_on(g1, bx + 3, y, f.core_bar_w, fill, c);
        print(g2, bx + 4 + f.core_bar_w, y, percent(right_of(usage.text@, 5)), colored(c))
    }
}

/// A grid with the bars of the first `n` processors.
pub open spec fn cores_on(
    g: Seq<Seq<Cell>>,
    cores: Seq<Reading>,
    fills: Seq<u16>,
    f: Frame,
    n: int,
) -> Seq<Seq<Cell>>
    decreases n,
{
    if n <= 0 {
        g
    } else {
        core_on(
            cores_on(g, cores, fills, f, n - 1),
            cores[n - 1],
            fills[n - 1] as int,
            n - 1,
            cores.len() as int,
            f,
        )
    }
}

fn draw_core(buf: &mut Buffer, usage: &Reading, fill: u16, i: usize, ncores: usize, l: &Layout)
    requires
        old(buf).wf(),
        i < ncores,
        short(usage.text@),
        l.core_w <= 0x8000,
        l.core_bar_w <= 0x5000,
        l.core_rows <= 0x8000,
        l.core_w + l.core_bar_w <= 0xf000,
    ensures
        final(buf).wf(),
        final(buf).w == old(buf).w,
        final(buf).h == old(buf).h,
        final(buf)@ == core_on(old(buf)@, *usage, fill as int, i as int, ncores as int, l@),
{
    let half: usize = layout::half(ncores);
    let (bx, row): (u16, usize) = if i < half {
        (1, i % 0x1_0000)
    } else {
        (1 + l.core_w, (i - half) % 0x1_0000)
    };
    if row >= l.core_rows as usize {
        return ;
    }
    let y: u16 = TOP_Y + 1 + row as u16;
    let c = reading::clr(usage.bits);
    proof {
        number::lemma_decimal_len(i as nat);
        reveal_strlit(" ");
        reveal_strlit("%");
    }
    let mut t = text::right(number::decimal(i as u64).as_str(), 2);
    t.append(" ");
    put_text(buf, bx, y, t.as_str(), dim());
    draw_hbar_buf(buf, bx + 3, y, l.core_bar_w, fill, c);
    let t = with_percent(text::right(usage.text.as_str(), 5).as_str());
    put_text(buf, bx + 4 + l.core_bar_w, y, t.as_str(), on(c));
}

/// A grid with the box of the processors: their bars, the mean load and its
/// peak, and the graph of the mean load.
pub open spec fn cpu_on(g: Seq<Seq<Cell>>, s: State, gz: Gauges, f: Frame) -> Seq<Seq<Cell>> {
    let c = load_color(s.avg.bits);
    let title = "CPU  "@ + percent(s.avg.text@) + temp_text(s.temp);
    let y = TOP_Y + 1 + f.core_rows;
    let g1 = box_on(g, 0, TOP_Y as int, f.cpu_w, f.top_h, title, c);
    let g2 = cores_on(g1, s.cores@, gz.cores@, f, s.cores@.len() as int);
    let g3 = print(g2, 2, y, "avg "@, dimmed());
    let g4 = print(g3, 6, y, percent(s.avg.text@), bright(c));
    let g5 = print(g4, 14, y, "peak "@ + s.peak@ + "%  200s history"@, dimmed());
    graph_on(g5, 1, y + 1, f.avg_w, f.avg_h, gz.avg@, c)
}

/// The layout is that of the whole buffer, with graphs, and the bars and graphs
/// are made for it.
pub open spec fn laid_out(buf: Buffer, s: State, gz: Gauges, l: Layout) -> bool {
    &&& buf.wf()
    &&& buf.w >= MIN_W
    &&& buf.h >= MIN_H
    &&& s.wf()
    &&& l@ == frame(buf.w as int, buf.h as int, true, s.gpu is Some, s.cores@.len() as int)
    &&& gz.fills(l@, s.cores@.len() as int, s.gpu is Some)
}

pub(crate) fn draw_cpu(buf: &mut Buffer, s: &State, gz: &Gauges, l: &Layout)
    requires
        laid_out(*old(buf), *s, *gz, *l),
    ensures
        final(buf).wf(),
        final(buf).w == old(buf).w,
        final(buf).h == old(buf).h,
        final(buf)@ == cpu_on(old(buf)@, *s, *gz, l@),
{
    let c = reading::clr(s.avg.bits);
    let avg = with_percent(s.avg.text.as_str());
    let mut title: String = "CPU  ".to_owned();
    title.append(avg.as_str());
    push_temp(&mut title, &s.temp);
    draw_box_buf(buf, 0, TOP_Y, l.cpu_w, l.top_h, title.as_str(), c);
    let ghost g = buf@;
    let n: usize = s.cores.len();
    for i in 0..n
        invariant
            buf.wf(),
            buf.w == old(buf).w,
            buf.h == old(buf).h,
            n == s.cores@.len(),
            laid_out(*old(buf), *s, *gz, *l),
            buf@ == cores_on(g, s.cores@, gz.cores@, l@, i as int),
    {
        draw_core(buf, &s.cores[i], gz.cores[i], i, n, l);
    }
    let y: u16 = TOP_Y + 1 + l.core_rows;
    proof {
        reveal_strlit("avg ");
        reveal_strlit("%");
        reveal_strlit("peak ");
        reveal_strlit("%  200s history");
    }
    put_text(buf, 2, y, "avg ", dim());
    put_text(buf, 6, y, avg.as_str(), bold_on(c));
    let mut t: String = "peak ".to_owned();
    t.append(s.peak.as_str());
    t.append("%  200s history");
    put_text(buf, 14, y, t.as_str(), dim());
    draw_graph_buf(buf, 1, y + 1, l.avg_w, l.avg_h, &gz.avg, c);
}

/// The amounts of memory that are listed: label, kibibytes and colour.
pub open spec fn detail_of(m: MemInfo, mc: Color, sc: Color, i: int) -> (Seq<char>, int, Color) {
    if i == 0 {
        ("Total"@, m.total as int, Color::White)
    } else if i == 1 {
        ("Used"@, used_of(m), mc)
    } else if i == 2 {
        ("Free"@, m.available as int, Color::Green)
    } else if i == 3 {
        ("Bufs"@, m.buffers as int, Color::DarkGrey)
    } else if i == 4 {
        ("Cache"@, m.cached as int, Color::DarkGrey)
    } else if i == 5 {
        ("SwpT"@, m.swap_total as int, Color::DarkGrey)
    } else {
        ("SwpU"@, swap_used_of(m), sc)
    }
}

/// Where an amount of memory is listed: in two columns where there is room for
/// them.
pub open spec fn detail_place(f: Frame, i: int) -> (int, int) {
    if f.ram_w > 30 && i >= 4 {
        (f.cpu_w + 2 + f.ram_w / 2, TOP_Y + 6 + i - 4)
    } else {
        (f.cpu_w + 2, TOP_Y + 6 + i)
    }
}

/// A grid with the amounts of memory from the `i`th on, up to the first that
/// would fall on the frame of the box.
pub open spec fn details_on(
    g: Seq<Seq<Cell>>,
    m: MemInfo,
    mc: Color,
    sc: Color,
    f: Frame,
    i: int,
) -> Seq<Seq<Cell>>
    decreases 7 - i,
{
    let (x, y) = detail_place(f, i);
    if i >= 7 || y >= TOP_Y + f.top_h - 1 {
        g
    } else {
        let (label, kb, c) = detail_of(m, mc, sc, i);
        let g1 = print(g, x, y, text::left_of(label, 6), dimmed());
        let g2 = print(g1, x + 6, y, mem_text(kb as nat), colored(c));
        details_on(g2, m, mc, sc, f, i + 1)
    }
}

fn detail(m: &MemInfo, mc: Color, sc: Color, i: u16) -> (r: (&'static str, u64, Color))
    ensures
        (r.0@, r.1 as int, r.2) == detail_of(*m, mc, sc, i as int),
        r.0@.len() <= 5,
{
    proof {
        reveal_strlit("Total");
        reveal_strlit("Used");
        reveal_strlit("Free");
        reveal_strlit("Bufs");
        reveal_strlit("Cache");
        reveal_strlit("SwpT");
        reveal_strlit("SwpU");
    }
    if i == 0 {
        ("Total", m.total, Color::White)
    } else if i == 1 {
        ("Used", mem_used(m), mc)
    } else if i == 2 {
        ("Free", m.available, Color::Green)
    } else if i == 3 {
        ("Bufs", m.buffers, Color::DarkGrey)
    } else if i == 4 {
        ("Cache", m.cached, Color::DarkGrey)
    } else if i == 5 {
        ("SwpT", m.swap_total, Color::DarkGrey)
    } else {
        ("SwpU", swap_used(m), sc)
    }
}

fn draw_details(buf: &mut Buffer, m: &MemInfo, mc: Color, sc: Color, l: &Layout, i: u16)
    requires
        old(buf).wf(),
        i <= 7,
        l.cpu_w + l.ram_w <= 0xffff,
        l.cpu_w + l.ram_w / 2 <= 0xf000,
        l.top_h <= 0xf000,
    ensures
        final(buf).wf(),
        final(buf).w == old(buf).w,
        final(buf).h == old(buf).h,
        final(buf)@ == details_on(old(buf)@, *m, mc, sc, l@, i as int),
    decreases 7 - i,
{
    let (x, y): (u16, u16) = if l.ram_w > 30 && i >= 4 {
        (l.cpu_w + 2 + l.ram_w / 2, TOP_Y + 6 + (i - 4))
    } else {
        (l.cpu_w + 2, TOP_Y + 6 + i)
    };
    if i >= 7 || y >= TOP_Y + l.top_h - 1 {
        return ;
    }
    let (label, kb, c) = detail(m, mc, sc, i);
    proof {
        crate::notation::lemma_mem_len(kb as nat);
    }
    put_text(buf, x, y, text::left(label, 6).as_str(), dim());
    put_text(buf, x + 6, y, notation::fmt_mem(kb).as_str(), on(c));
    draw_details(buf, m, mc, sc, l, i + 1);
}

/// A grid with the box of the memory: the bars of memory and swap space, and
/// the amounts.
pub open spec fn ram_on(g: Seq<Seq<Cell>>, s: State, gz: Gauges, f: Frame) -> Seq<Seq<Cell>> {
    let mc = load_color(s.mem_pct.bits);
    let sc = load_color(s.swap_pct.bits);
    let title = "RAM  "@ + mem_text(used_of(s.mem) as nat) + " / "@ + mem_text(s.mem.total as nat);
    let x = f.cpu_w + 2;
    let (y1, y2) = (TOP_Y + 2, TOP_Y + 4);
    let g1 = box_on(g, f.cpu_w, TOP_Y as int, f.ram_w, f.top_h, title, mc);
    let g2 = print(g1, x, y1, "RAM  "@, dimmed());
    let g3 = bar_on(g2, x + 5, y1, f.mem_bar_w, gz.mem as int, mc);
    let g4 = print(
        g3,
        x + 6 + f.mem_bar_w,
        y1,
        percent(right_of(s.mem_pct.text@, 5)),
        colored(mc),
    );
    let g5 = print(g4, x, y2, "SWAP "@, dimmed());
    let g6 = if s.mem.swap_total > 0 {
        print(
            bar_on(g5, x + 5, y2, f.mem_bar_w, gz.swap as int, sc),
            x + 6 + f.mem_bar_w,
            y2,
            percent(right_of(s.swap_pct.text@, 5)),
            colored(sc),
        )
    } else {
        print(g5, x + 5, y2, "─── none ───"@, dimmed())
    };
    details_on(g6, s.mem, mc, sc, f, 0)
}

pub(crate) fn draw_ram(buf: &mut Buffer, s: &State, gz: &Gauges, l: &Layout)
    requires
        laid_out(*old(buf), *s, *gz, *l),
    ensures
        final(buf).wf(),
        final(buf).w == old(buf).w,
        final(buf).h == old(buf).h,
        final(buf)@ == ram_on(old(buf)@, *s, *gz, l@),
{
    let mc = reading::clr(s.mem_pct.bits);
    let sc = reading::clr(s.swap_pct.bits);
    let mut title: String = "RAM  ".to_owned();
    title.append(notation::fmt_mem(mem_used(&s.mem)).as_str());
    title.append(" / ");
    title.append(notation::fmt_mem(s.mem.total).as_str());
    draw_box_buf(buf, l.cpu_w, TOP_Y, l.ram_w, l.top_h, title.as_str(), mc);
    let x: u16 = l.cpu_w + 2;
    let y1: u16 = TOP_Y + 2;
    let y2: u16 = TOP_Y + 4;
    proof {
        reveal_strlit("RAM  ");
        reveal_strlit("SWAP ");
        reveal_strlit("%");
        reveal_strlit("─── none ───");
    }
    put_text(buf, x, y1, "RAM  ", dim());
    draw_hbar_buf(buf, x + 5, y1, l.mem_bar_w, gz.mem, mc);
    let t = with_percent(text::right(s.mem_pct.text.as_str(), 5).as_str());
    put_text(buf, x + 6 + l.mem_bar_w, y1, t.as_str(), on(mc));
    put_text(buf, x, y2, "SWAP ", dim());
    if s.mem.swap_total > 0 {
        draw_hbar_buf(buf, x + 5, y2, l.mem_bar_w, gz.swap, sc);
        let t = with_percent(text::right(s.swap_pct.text.as_str(), 5).as_str());
        put_text(buf, x + 6 + l.mem_bar_w, y2, t.as_str(), on(sc));
    } else {
        put_text(buf, x + 5, y2, "─── none ───", dim());
    }
    draw_details(buf, &s.mem, mc, sc, l, 0);
}

/// A grid with a box of two flows: their rates and their graphs side by side.
pub open spec fn flows_on(
    g: Seq<Seq<Cell>>,
    x: int,
    w: int,
    title: Seq<char>,
    tc: Color,
    a: (Seq<char>, int, Seq<Column>, Color),
    b: (Seq<char>, int, Seq<Column>, Color),
    f: Frame,
) -> Seq<Seq<Cell>> {
    let y = f.mid_y;
    let g1 = box_on(g, x, y, w, f.mid_h, title, tc);
    let g2 = print(g1, x + 2, y + 1, a.0, colored(a.3));
    let g3 = print(g2, x + 3 + a.1, y + 1, b.0, colored(b.3));
    let g4 = graph_on(g3, x + 1, y + 2, a.1, f.flow_h, a.2, a.3);
    graph_on(g4, x + 2 + a.1, y + 2, b.1, f.flow_h, b.2, b.3)
}

/// A grid with the box of the network.
pub open spec fn net_on(g: Seq<Seq<Cell>>, s: State, gz: Gauges, f: Frame) -> Seq<Seq<Cell>> {
    flows_on(
        g,
        0,
        f.net_w,
        "NET  ▼ "@ + s.net_rx@ + "  ▲ "@ + s.net_tx@,
        Color::Cyan,
        ("▼ RX  "@ + s.net_rx@, f.rx_w, gz.rx@, Color::Green),
        ("▲ TX  "@ + s.net_tx@, f.tx_w, gz.tx@, Color::Yellow),
        f,
    )
}

/// A grid with the box of the disks.
pub open spec fn disk_on(g: Seq<Seq<Cell>>, s: State, gz: Gauges, f: Frame) -> Seq<Seq<Cell>> {
    flows_on(
        g,
        f.net_w,
        f.disk_w,
        "DISK  R "@ + s.disk_r@ + "  W "@ + s.disk_w@,
        Color::Yellow,
        ("● Read  "@ + s.disk_r@, f.read_w, gz.read@, Color::Cyan),
        ("● Write "@ + s.disk_w@, f.write_w, gz.write@, Color::Magenta),
        f,
    )
}

/// One of the two flows of a box.
struct Flow<'a> {
    label: &'static str,
    rate: &'a String,
    w: u16,
    columns: &'a Vec<Column>,
    color: Color,
}

impl<'a> Flow<'a> {
    spec fn model(self) -> (Seq<char>, int, Seq<Column>, Color) {
        (self.label@ + self.rate@, self.w as int, self.columns@, self.color)
    }
}

fn draw_flows(
    buf: &mut Buffer,
    x: u16,
    w: u16,
    title: &str,
    tc: Color,
    a: Flow,
    b: Flow,
    l: &Layout,
)
    requires
        old(buf).wf(),
        x + w <= 0xffff,
        x + a.w <= 0xe000,
        x + 2 + a.w + b.w <= 0xffff,
        l.mid_y + l.mid_h <= 0xffff,
        l.mid_h >= 8,
        l.flow_h == l.mid_h - 3,
        a.label@.len() <= 8,
        b.label@.len() <= 8,
        short(a.rate@),
        short(b.rate@),
        a.columns@.len() == a.w,
        b.columns@.len() == b.w,
    ensures
        final(buf).wf(),
        final(buf).w == old(buf).w,
        final(buf).h == old(buf).h,
        final(buf)@ == flows_on(
            old(buf)@,
            x as int,
            w as int,
            title@,
            tc,
            a.model(),
            b.model(),
            l@,
        ),
{
    let y: u16 = l.mid_y;
    draw_box_buf(buf, x, y, w, l.mid_h, title, tc);
    let mut t: String = a.label.to_owned();
    t.append(a.rate.as_str());
    put_text(buf, x + 2, y + 1, t.as_str(), on(a.color));
    let mut t: String = b.label.to_owned();
    t.append(b.rate.as_str());
    put_text(buf, x + 3 + a.w, y + 1, t.as_str(), on(b.color));
    draw_graph_buf(buf, x + 1, y + 2, a.w, l.flow_h, a.columns, a.color);
    draw_graph_buf(buf, x + 2 + a.w, y + 2, b.w, l.flow_h, b.columns, b.color);
}

pub(crate) fn draw_net(buf: &mut Buffer, s: &State, gz: &Gauges, l: &Layout)
    requires
        laid_out(*old(buf), *s, *gz, *l),
    ensures
        final(buf).wf(),
        final(buf).w == old(buf).w,
        final(buf).h == old(buf).h,
        final(buf)@ == net_on(old(buf)@, *s, *gz, l@),
{
    proof {
        reveal_strlit("▼ RX  ");
        reveal_strlit("▲ TX  ");
    }
    let mut title: String = "NET  ▼ ".to_owned();
    title.append(s.net_rx.as_str());
    title.append("  ▲ ");
    title.append(s.net_tx.as_str());
    let a = Flow {
        label: "▼ RX  ",
        rate: &s.net_rx,
        w: l.rx_w,
        columns: &gz.rx,
        color: Color::Green,
    };
    let b = Flow {
        label: "▲ TX  ",
        rate: &s.net_tx,
        w: l.tx_w,
        columns: &gz.tx,
        color: Color::Yellow,
    };
    draw_flows(buf, 0, l.net_w, title.as_str(), Color::Cyan, a, b, l);
}

pub(crate) fn draw_disk(buf: &mut Buffer, s: &State, gz: &Gauges, l: &Layout)
    requires
        laid_out(*old(buf), *s, *gz, *l),
    ensures
        final(buf).wf(),
        final(buf).w == old(buf).w,
        final(buf).h == old(buf).h,
        final(buf)@ == disk_on(old(buf)@, *s, *gz, l@),
{
    proof {
        reveal_strlit("● Read  ");
        reveal_strlit("● Write ");
    }
    let mut title: String = "DISK  R ".to_owned();
    title.append(s.disk_r.as_str());
    title.append("  W ");
    title.append(s.disk_w.as_str());
    let a = Flow {
        label: "● Read  ",
        rate: &s.disk_r,
        w: l.read_w,
        columns: &gz.read,
        color: Color::Cyan,
    };
    let b = Flow {
        label: "● Write ",
        rate: &s.disk_w,
        w: l.write_w,
        columns: &gz.write,
        color: Color::Magenta,
    };
    draw_flows(buf, l.net_w, l.disk_w, title.as_str(), Color::Yellow, a, b, l);
}

/// A grid with the box of the graphics processor: its name, load, memory and
/// temperature, and the graph of its load.
pub open spec fn gpu_on(
    g: Seq<Seq<Cell>>,
    gpu: GpuInfo,
    fill: int,
    columns: Seq<Column>,
    f: Frame,
) -> Seq<Seq<Cell>> {
    let c = load_color(gpu.pct.bits);
    let (x, y) = (f.gpu_x + 2, f.mid_y);
    let g1 = box_on(g, f.gpu_x, y, f.gpu_w, f.mid_h, "GPU "@ + percent(gpu.pct.text@), c);
    let g2 = print(g1, x, y + 1, boxed(gpu.name@, f.gpu_bar_w), dimmed());
    let g3 = bar_on(g2, x, y + 2, f.gpu_bar_w, fill, c);
    let g4 = print(
        g3,
        x,
        y + 3,
        mem_text((gpu.mem_used * 1024) as nat) + "/"@ + mem_text((gpu.mem_total * 1024) as nat),
        colored(Color::Cyan),
    );
    let g5 = match gpu.temp {
        Some(t) => print(g4, x, y + 4, t.text@ + "°C"@, colored(load_color(t.bits))),
        None => g4,
    };
    graph_on(
        g5,
        f.gpu_x + 1,
        y + f.mid_h - f.gpu_graph_h - 1,
        f.gpu_graph_w,
        f.gpu_graph_h,
        columns,
        c,
    )
}

pub(crate) fn draw_gpu(buf: &mut Buffer, gpu: &GpuInfo, s: &State, gz: &Gauges, l: &Layout)
    requires
        laid_out(*old(buf), *s, *gz, *l),
        s.gpu is Some,
        gpu.wf(),
    ensures
        final(buf).wf(),
        final(buf).w == old(buf).w,
        final(buf).h == old(buf).h,
        final(buf)@ == gpu_on(old(buf)@, *gpu, gz.gpu as int, gz.gpu_graph@, l@),
{
    let c = reading::clr(gpu.pct.bits);
    let x: u16 = l.gpu_x + 2;
    let y: u16 = l.mid_y;
    let mut title: String = "GPU ".to_owned();
    title.append(with_percent(gpu.pct.text.as_str()).as_str());
    draw_box_buf(buf, l.gpu_x, y, l.gpu_w, l.mid_h, title.as_str(), c);
    Canvas::new(buf).dim().print_truncated(x, y + 1, gpu.name.as_str(), l.gpu_bar_w);
    draw_hbar_buf(buf, x, y + 2, l.gpu_bar_w, gz.gpu, c);
    proof {
        reveal_strlit("/");
        reveal_strlit("°C");
        crate::notation::lemma_mem_len((gpu.mem_used * 1024) as nat);
        crate::notation::lemma_mem_len((gpu.mem_total * 1024) as nat);
    }
    let mut t = notation::fmt_mem(gpu.mem_used * 1024);
    t.append("/");
    t.append(notation::fmt_mem(gpu.mem_total * 1024).as_str());
    put_text(buf, x, y + 3, t.as_str(), on(Color::Cyan));
    if let Some(temp) = &gpu.temp {
        let mut t: String = temp.text.as_str().to_owned();
        t.append("°C");
        put_text(buf, x, y + 4, t.as_str(), on(reading::clr(temp.bits)));
    }
    draw_graph_buf(
        buf,
        l.gpu_x + 1,
        y + l.mid_h - l.gpu_graph_h - 1,
        l.gpu_graph_w,
        l.gpu_graph_h,
        &gz.gpu_graph,
        c,
    );
}

} // verus!
