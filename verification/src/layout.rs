//! Where the parts of a frame stand.
use vstd::prelude::*;

use crate::number::rest;

verus! {

/// The row at which the boxes begin, below the header.
pub const TOP_Y: u16 = 1;

/// Nothing is drawn on a screen with fewer columns.
pub const MIN_W: u16 = 40;

/// Nothing is drawn on a screen with fewer rows.
pub const MIN_H: u16 = 15;

/// The larger of two numbers.
pub open spec fn larger(a: int, b: int) -> int {
    if a < b {
        b
    } else {
        a
    }
}

/// The smaller of two numbers.
pub open spec fn smaller(a: int, b: int) -> int {
    if b < a {
        b
    } else {
        a
    }
}

fn minus(a: u16, b: u16) -> (r: u16)
    ensures
        r == rest(a as int, b as int),
{
    if a < b {
        0
    } else {
        a - b
    }
}

fn high(a: u16, b: u16) -> (r: u16)
    ensures
        r == larger(a as int, b as int),
{
    if a < b {
        b
    } else {
        a
    }
}

fn low(a: u16, b: u16) -> (r: u16)
    ensures
        r == smaller(a as int, b as int),
{
    if b < a {
        b
    } else {
        a
    }
}

/// The height of the upper boxes: two fifths of the rows between header and
/// footer, at least 12, but leaving 14 to the rest.
pub open spec fn top_height(body: int) -> int {
    smaller(larger(body * 2 / 5, 12), rest(body, 14))
}

/// The height of the middle boxes: a quarter of the rows between header and
/// footer, at least 8, but leaving 5 to the list.
pub open spec fn mid_height(body: int, top_h: int) -> int {
    smaller(larger(body / 4, 8), rest(body, top_h + 5))
}

/// The heights of the upper and the middle boxes.
pub open spec fn heights(body: int, graphs: bool) -> (int, int) {
    if graphs {
        (top_height(body), mid_height(body, top_height(body)))
    } else {
        (0, 0)
    }
}

fn box_heights(body: u16, graphs: bool) -> (r: (u16, u16))
    ensures
        (r.0 as int, r.1 as int) == heights(body as int, graphs),
        r.0 + r.1 <= body,
{
    if graphs {
        let share: u32 = body as u32 * 2 / 5;
        let t: u16 = low(high(share as u16, 12), minus(body, 14));
        let m: u16 = low(high(body / 4, 8), minus(body, t + 5));
        (t, m)
    } else {
        (0, 0)
    }
}

/// How many processes fit into the list: its height without frame, heading and
/// separator.
pub open spec fn visible_rows(th: int, graphs: bool) -> int {
    let body = rest(th, 2);
    let (top_h, mid_h) = heights(body, graphs);
    rest(rest(body, top_h + mid_h), 4)
}

/// How many processes fit into the list on a screen of `th` rows.
pub fn compute_vis(th: u16, show_graphs: bool) -> (n: usize)
    ensures
        n == visible_rows(th as int, show_graphs),
{
    let body: u16 = minus(th, 2);
    let (top_h, mid_h) = box_heights(body, show_graphs);
    minus(minus(body, top_h + mid_h), 4) as usize
}

/// Where the parts of a frame stand and how large they are.
pub struct Frame {
    /// The heights of the upper boxes, the middle boxes and the list.
    pub top_h: int,
    pub mid_h: int,
    pub bot_h: int,
    /// The first rows of the middle boxes and of the list.
    pub mid_y: int,
    pub bot_y: int,
    /// The widths of the upper boxes.
    pub cpu_w: int,
    pub ram_w: int,
    /// The widths of the middle boxes, and where the last of them begins.
    pub net_w: int,
    pub disk_w: int,
    pub gpu_w: int,
    pub gpu_x: int,
    /// The two columns of processor bars: their width, that of a bar, and how
    /// many rows they have.
    pub core_w: int,
    pub core_bar_w: int,
    pub core_rows: int,
    /// The graph of the processors' mean load.
    pub avg_w: int,
    pub avg_h: int,
    /// The bars of the memory.
    pub mem_bar_w: int,
    /// The graphs of the network and of the disks.
    pub flow_h: int,
    pub rx_w: int,
    pub tx_w: int,
    pub read_w: int,
    pub write_w: int,
    /// The bar and the graph of the graphics processor.
    pub gpu_bar_w: int,
    pub gpu_graph_w: int,
    pub gpu_graph_h: int,
}

/// How many processors stand in the first of the two columns.
pub open spec fn half_of(ncores: int) -> int {
    (ncores + 1) / 2
}

/// The parts of a frame of `tw` columns and `th` rows, with or without graphs,
/// with or without a graphics processor, for `ncores` processors.
pub open spec fn frame(tw: int, th: int, graphs: bool, gpu: bool, ncores: int) -> Frame {
    let body = rest(th, 2);
    let (top_h, mid_h) = heights(body, graphs);
    let cpu_w = tw * 3 / 5;
    let ram_w = tw - cpu_w;
    let gpu_w = if gpu {
        smaller(larger(tw / 5, 22), tw / 3)
    } else {
        0
    };
    let net_w = (tw - gpu_w) / 2;
    let disk_w = tw - net_w - gpu_w;
    let inner_h = rest(top_h, 2);
    let core_w = rest(cpu_w, 2) / 2;
    let core_rows = smaller(half_of(ncores) % 0x1_0000, rest(inner_h, 5));
    Frame {
        top_h,
        mid_h,
        bot_h: rest(body, top_h + mid_h),
        mid_y: TOP_Y + top_h,
        bot_y: TOP_Y + top_h + mid_h,
        cpu_w,
        ram_w,
        net_w,
        disk_w,
        gpu_w,
        gpu_x: net_w + disk_w,
        core_w,
        core_bar_w: larger(rest(core_w, 12), 4),
        core_rows,
        avg_w: rest(cpu_w, 2),
        avg_h: larger(rest(inner_h, core_rows + 1), 4),
        mem_bar_w: larger(rest(ram_w, 16), 4),
        flow_h: rest(mid_h, 3),
        rx_w: rest(net_w, 3) / 2,
        tx_w: larger(rest(net_w, 3) / 2, 1),
        read_w: rest(disk_w, 3) / 2,
        write_w: larger(rest(disk_w, 3) / 2, 1),
        gpu_bar_w: larger(rest(gpu_w, 4), 1),
        gpu_graph_w: rest(gpu_w, 2),
        gpu_graph_h: larger(rest(mid_h, 6), 2),
    }
}

/// The parts of a frame.
pub struct Layout {
    pub top_h: u16,
    pub mid_h: u16,
    pub bot_h: u16,
    pub mid_y: u16,
    pub bot_y: u16,
    pub cpu_w: u16,
    pub ram_w: u16,
    pub net_w: u16,
    pub disk_w: u16,
    pub gpu_w: u16,
    pub gpu_x: u16,
    pub core_w: u16,
    pub core_bar_w: u16,
    pub core_rows: u16,
    pub avg_w: u16,
    pub avg_h: u16,
    pub mem_bar_w: u16,
    pub flow_h: u16,
    pub rx_w: u16,
    pub tx_w: u16,
    pub read_w: u16,
    pub write_w: u16,
    pub gpu_bar_w: u16,
    pub gpu_graph_w: u16,
    pub gpu_graph_h: u16,
}

impl View for Layout {
    type V = Frame;

    open spec fn view(&self) -> Frame {
        Frame {
            top_h: self.top_h as int,
            mid_h: self.mid_h as int,
            bot_h: self.bot_h as int,
            mid_y: self.mid_y as int,
            bot_y: self.bot_y as int,
            cpu_w: self.cpu_w as int,
            ram_w: self.ram_w as int,
            net_w: self.net_w as int,
            disk_w: self.disk_w as int,
            gpu_w: self.gpu_w as int,
            gpu_x: self.gpu_x as int,
            core_w: self.core_w as int,
            core_bar_w: self.core_bar_w as int,
            core_rows: self.core_rows as int,
            avg_w: self.avg_w as int,
            avg_h: self.avg_h as int,
            mem_bar_w: self.mem_bar_w as int,
            flow_h: self.flow_h as int,
            rx_w: self.rx_w as int,
            tx_w: self.tx_w as int,
            read_w: self.read_w as int,
            write_w: self.write_w as int,
            gpu_bar_w: self.gpu_bar_w as int,
            gpu_graph_w: self.gpu_graph_w as int,
            gpu_graph_h: self.gpu_graph_h as int,
        }
    }
}

/// How many processors stand in the first of the two columns.
pub fn half(ncores: usize) -> (n: usize)
    ensures
        n == half_of(ncores as int),
{
    ncores / 2 + ncores % 2
}

/// Lays out a frame of `tw` columns and `th` rows.
pub fn layout(tw: u16, th: u16, graphs: bool, gpu: bool, ncores: usize) -> (l: Layout)
    ensures
        l@ == frame(tw as int, th as int, graphs, gpu, ncores as int),
{
    let body: u16 = minus(th, 2);
    let (top_h, mid_h) = box_heights(body, graphs);
    let share: u32 = tw as u32 * 3 / 5;
    let cpu_w: u16 = share as u16;
    let ram_w: u16 = tw - cpu_w;
    let gpu_w: u16 = if gpu {
        low(high(tw / 5, 22), tw / 3)
    } else {
        0
    };
    let net_w: u16 = (tw - gpu_w) / 2;
    let disk_w: u16 = tw - net_w - gpu_w;
    let inner_h: u16 = minus(top_h, 2);
    let core_w: u16 = minus(cpu_w, 2) / 2;
    let halves: usize = half(ncores) % 0x1_0000;
    let core_rows: u16 = low(halves as u16, minus(inner_h, 5));
    Layout {
        top_h,
        mid_h,
        bot_h: minus(body, top_h + mid_h),
        mid_y: TOP_Y + top_h,
        bot_y: TOP_Y + top_h + mid_h,
        cpu_w,
        ram_w,
        net_w,
        disk_w,
        gpu_w,
        gpu_x: net_w + disk_w,
        core_w,
        core_bar_w: high(minus(core_w, 12), 4),
        core_rows,
        avg_w: minus(cpu_w, 2),
        avg_h: high(minus(inner_h, core_rows + 1), 4),
        mem_bar_w: high(minus(ram_w, 16), 4),
        flow_h: minus(mid_h, 3),
        rx_w: minus(net_w, 3) / 2,
        tx_w: high(minus(net_w, 3) / 2, 1),
        read_w: minus(disk_w, 3) / 2,
        write_w: high(minus(disk_w, 3) / 2, 1),
        gpu_bar_w: high(minus(gpu_w, 4), 1),
        gpu_graph_w: minus(gpu_w, 2),
        gpu_graph_h: high(minus(mid_h, 6), 2),
    }
}

/// The parts of a frame fill the screen: header, upper boxes, middle boxes,
/// list and footer from top to bottom, and the boxes of one row side by side.
pub proof fn law_parts_fill_the_screen(tw: int, th: int, graphs: bool, gpu: bool, ncores: int)
    requires
        tw >= MIN_W,
        th >= MIN_H,
        ncores >= 0,
    ensures
        ({
            let f = frame(tw, th, graphs, gpu, ncores);
            &&& f.mid_y == TOP_Y + f.top_h
            &&& f.bot_y == f.mid_y + f.mid_h
            &&& f.bot_y + f.bot_h == th - 1
            &&& f.bot_h >= 5
            &&& f.cpu_w + f.ram_w == tw
            &&& f.net_w + f.disk_w + f.gpu_w == tw
            &&& f.gpu_x + f.gpu_w == tw
            &&& f.top_h >= 0
            &&& graphs ==> f.mid_h >= 8
        }),
{
}

/// The list has room for as many processes as the selection is scrolled by.
pub proof fn law_list_has_the_visible_rows(tw: int, th: int, graphs: bool, gpu: bool, ncores: int)
    requires
        ncores >= 0,
        th >= 0,
    ensures
        visible_rows(th, graphs) == rest(frame(tw, th, graphs, gpu, ncores).bot_h, 4),
{
}


/// The heights of the boxes on a screen of `th` rows: of the rows between header
/// and footer, the upper boxes get what is beyond 14, at most 12, and two fifths
/// from 30 rows on; the middle boxes get a quarter, but at least 8; the list gets
/// the rest. Without graphs the list gets all.
pub proof fn law_heights(tw: int, th: int, gpu: bool, ncores: int)
    requires
        tw >= 40,
        th >= 15,
        ncores >= 0,
    ensures
        ({
            let f = frame(tw, th, true, gpu, ncores);
            let body = th - 2;
            &&& body <= 14 ==> f.top_h == 0
            &&& 14 <= body <= 26 ==> f.top_h == body - 14
            &&& 26 <= body <= 30 ==> f.top_h == 12
            &&& body >= 30 ==> 5 * f.top_h <= 2 * body < 5 * f.top_h + 5
            &&& body <= 32 ==> f.mid_h == 8
            &&& body >= 32 ==> 4 * f.mid_h <= body < 4 * f.mid_h + 4
            &&& f.mid_y == f.top_h + 1
            &&& f.bot_y == f.top_h + f.mid_h + 1
            &&& f.bot_h == body - f.top_h - f.mid_h
        }),
        ({
            let f = frame(tw, th, false, gpu, ncores);
            f.top_h == 0 && f.mid_h == 0 && f.bot_y == 1 && f.bot_h == th - 2
        }),
{
}

/// The widths of the boxes on a screen of `tw` columns: three fifths are for the
/// processors and the rest for the memory. A graphics processor gets a third of
/// a narrow screen, 22 columns, or a fifth of a wide one; what is left is halved
/// between network and disks, which get the odd column.
pub proof fn law_widths(tw: int, th: int, graphs: bool, gpu: bool, ncores: int)
    requires
        tw >= 40,
        th >= 15,
        ncores >= 0,
    ensures
        ({
            let f = frame(tw, th, graphs, gpu, ncores);
            &&& 5 * f.cpu_w <= 3 * tw < 5 * f.cpu_w + 5
            &&& f.ram_w == tw - f.cpu_w
            &&& !gpu ==> f.gpu_w == 0
            &&& gpu && tw <= 66 ==> 3 * f.gpu_w <= tw < 3 * f.gpu_w + 3
            &&& gpu && 66 <= tw <= 110 ==> f.gpu_w == 22
            &&& gpu && 110 <= tw ==> 5 * f.gpu_w <= tw < 5 * f.gpu_w + 5
            &&& f.net_w + f.disk_w + f.gpu_w == tw
            &&& f.net_w <= f.disk_w <= f.net_w + 1
            &&& f.gpu_x == tw - f.gpu_w
        }),
{
}

/// What is inside of the boxes: two columns of processors between the frames,
/// with bars that leave room for number and percentage; the mean load below
/// them; bars of the memory; two graphs side by side in the boxes of the flows.
pub proof fn law_insides(tw: int, th: int, gpu: bool, ncores: int)
    requires
        tw >= 40,
        th >= 15,
        0 <= ncores <= 0x1_0000,
    ensures
        ({
            let f = frame(tw, th, true, gpu, ncores);
            let half = (ncores + 1) / 2;
            &&& f.core_w == (f.cpu_w - 2) / 2
            &&& f.core_w >= 16 ==> f.core_bar_w == f.core_w - 12
            &&& f.core_w <= 16 ==> f.core_bar_w == 4
            &&& f.top_h <= 7 ==> f.core_rows == 0
            &&& f.top_h >= 7 && half <= f.top_h - 7 ==> f.core_rows == half
            &&& f.top_h >= 7 && half >= f.top_h - 7 ==> f.core_rows == f.top_h - 7
            &&& f.avg_w == f.cpu_w - 2
            &&& f.top_h >= f.core_rows + 7 ==> f.avg_h == f.top_h - 3 - f.core_rows
            &&& f.top_h <= f.core_rows + 7 ==> f.avg_h == 4
            &&& f.ram_w >= 20 ==> f.mem_bar_w == f.ram_w - 16
            &&& f.ram_w <= 20 ==> f.mem_bar_w == 4
            &&& f.flow_h == f.mid_h - 3
            &&& f.rx_w == (f.net_w - 3) / 2
            &&& f.tx_w == (f.net_w - 3) / 2
            &&& f.read_w == (f.disk_w - 3) / 2
            &&& f.write_w == (f.disk_w - 3) / 2
            &&& gpu ==> f.gpu_bar_w == f.gpu_w - 4
            &&& gpu ==> f.gpu_graph_w == f.gpu_w - 2
            &&& f.gpu_graph_h == f.mid_h - 6
        }),
{
}

/// The list has as many rows for processes as lie between its heading and its
/// frame: four fewer than its height.
pub proof fn law_visible_rows(tw: int, th: int, graphs: bool, gpu: bool, ncores: int)
    requires
        tw >= 40,
        th >= 15,
        ncores >= 0,
    ensures
        visible_rows(th, graphs) == frame(tw, th, graphs, gpu, ncores).bot_h - 4,
        visible_rows(th, false) == th - 6,
{
    law_parts_fill_the_screen(tw, th, graphs, gpu, ncores);
}

} // verus!
