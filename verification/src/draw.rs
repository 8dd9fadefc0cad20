//! Boxes, bars and graphs.
use vstd::prelude::*;

use crate::buffer::{fits, plain, print, put, styled};
use crate::buffer::{Buffer, Canvas, Cell, Color, Style};
use crate::text;
use crate::text::take_of;

verus! {

/// Dimmed, in the canvas's own colour.
pub open spec fn dimmed() -> Style {
    Style { dim: true, ..plain() }
}

/// In a colour.
pub open spec fn colored(c: Color) -> Style {
    Style { fg: c, ..plain() }
}

/// Bold, in a colour.
pub open spec fn bright(c: Color) -> Style {
    Style { fg: c, bold: true, ..plain() }
}

/// A grid in which the cells of a rectangle are replaced by those that `f`
/// gives for their places in it; where it gives none, the cell stays.
pub open spec fn paint(
    g: Seq<Seq<Cell>>,
    x: int,
    y: int,
    w: int,
    h: int,
    f: spec_fn(int, int) -> Option<Cell>,
) -> Seq<Seq<Cell>> {
    Seq::new(
        g.len(),
        |r: int|
            Seq::new(
                g[r].len(),
                |c: int|
                    if x <= c < x + w && y <= r < y + h {
                        match f(c - x, r - y) {
                            Some(k) => k,
                            None => g[r][c],
                        }
                    } else {
                        g[r][c]
                    },
            ),
    )
}

/// The frame of a box of `w` columns and `h` rows.
pub open spec fn border(w: int, h: int) -> spec_fn(int, int) -> Option<Cell> {
    |i: int, j: int|
        {
            let (left, right) = (i == 0, i == w - 1);
            let (top, bottom) = (j == 0, j == h - 1);
            if top && left {
                Some(styled('┌', dimmed()))
            } else if top && right {
                Some(styled('┐', dimmed()))
            } else if bottom && left {
                Some(styled('└', dimmed()))
            } else if bottom && right {
                Some(styled('┘', dimmed()))
            } else if top || bottom {
                Some(styled('─', dimmed()))
            } else if left || right {
                Some(styled('│', dimmed()))
            } else {
                None
            }
        }
}

/// The title of a box as it is shown: between two spaces, and cut to the width
/// that the corners leave.
pub open spec fn title_of(title: Seq<char>, w: int) -> Seq<char> {
    take_of(seq![' '] + title + seq![' '], w - 4)
}

/// A grid with a box; one that is too small is not drawn, and neither is a
/// title in a narrow one.
pub open spec fn box_on(
    g: Seq<Seq<Cell>>,
    x: int,
    y: int,
    w: int,
    h: int,
    title: Seq<char>,
    tc: Color,
) -> Seq<Seq<Cell>> {
    if w < 4 || h < 2 {
        g
    } else {
        let framed = paint(g, x, y, w, h, border(w, h));
        if title.len() > 0 && w > 6 {
            print(framed, x + 2, y, title_of(title, w), bright(tc))
        } else {
            framed
        }
    }
}

/// Draws a box.
pub fn draw_box_buf(
    buf: &mut Buffer,
    x: u16,
    y: u16,
    w: u16,
    h: u16,
    title: &str,
    tc: Color,
)
    requires
        old(buf).wf(),
        w >= 4 && h >= 2 ==> x + w <= 0xffff && y + h <= 0xffff,
    ensures
        final(buf).wf(),
        final(buf).w == old(buf).w,
        final(buf).h == old(buf).h,
        final(buf)@ == box_on(
            old(buf)@,
            x as int,
            y as int,
            w as int,
            h as int,
            title@,
            tc,
        ),
{
    if w < 4 || h < 2 {
        return ;
    }
    draw_frame(buf, x, y, w, h);
    if !title.is_empty() && w > 6 {
        let mut t: String = String::new();
        t.push(' ');
        assert(t@ =~= seq![' ']);
        t.append(title);
        t.push(' ');
        assert(t@ =~= seq![' '] + title@ + seq![' ']);
        let t = text::take(t.as_str(), (w - 4) as usize);
        Canvas::new(buf).fg(tc).bold().print(x + 2, y, t.as_str());
    }
}

pub(crate) fn dim() -> (st: Style)
    ensures
        st == dimmed(),
{
    Style { fg: Color::White, bold: false, dim: true, rev: false }
}

pub(crate) fn on(c: Color) -> (st: Style)
    ensures
        st == colored(c),
{
    Style { fg: c, bold: false, dim: false, rev: false }
}

pub(crate) fn bold_on(c: Color) -> (st: Style)
    ensures
        st == bright(c),
{
    Style { fg: c, bold: true, dim: false, rev: false }
}

/// Draws a text in a style.
pub(crate) fn put_text(buf: &mut Buffer, x: u16, y: u16, s: &str, st: Style)
    requires
        old(buf).wf(),
        fits(x as int, s@.len() as int),
    ensures
        final(buf).wf(),
        final(buf).w == old(buf).w,
        final(buf).h == old(buf).h,
        final(buf)@ == print(old(buf)@, x as int, y as int, s@, st),
{
    let mut c = Canvas { buf, fg: st.fg, bold: st.bold, dim: st.dim, rev: st.rev };
    c.print(x, y, s);
}

/// Draws one character.
fn mark(buf: &mut Buffer, x: u16, y: u16, ch: char, st: Style)
    requires
        old(buf).wf(),
    ensures
        final(buf).wf(),
        final(buf).w == old(buf).w,
        final(buf).h == old(buf).h,
        final(buf)@ == put(old(buf)@, x as int, y as int, styled(ch, st)),
{
    buf.set(x, y, ch, st.fg, st.bold, st.dim, st.rev);
}

fn draw_frame(buf: &mut Buffer, x: u16, y: u16, w: u16, h: u16)
    requires
        old(buf).wf(),
        w >= 4,
        h >= 2,
        x + w <= 0x1_0000,
        y + h <= 0x1_0000,
    ensures
        final(buf).wf(),
        final(buf).w == old(buf).w,
        final(buf).h == old(buf).h,
        final(buf)@ == paint(
            old(buf)@,
            x as int,
            y as int,
            w as int,
            h as int,
            border(w as int, h as int),
        ),
{
    let ghost g = buf@;
    let ghost f = border(w as int, h as int);
    mark(buf, x, y, '┌', dim());
    Canvas::new(buf).dim().fill_line(x + 1, y, w - 2, '─');
    mark(buf, x + (w - 1), y, '┐', dim());
    assert(buf@ =~~= paint(g, x as int, y as int, w as int, 1, f));
    for row in 1..h - 1
        invariant
            w >= 4,
            h >= 2,
            x + w <= 0x1_0000,
            y + h <= 0x1_0000,
            buf.wf(),
            buf.w == old(buf).w,
            buf.h == old(buf).h,
            f == border(w as int, h as int),
            buf@ == paint(g, x as int, y as int, w as int, row as int, f),
    {
        mark(buf, x, y + row, '│', dim());
        mark(buf, x + (w - 1), y + row, '│', dim());
        assert(buf@ =~~= paint(g, x as int, y as int, w as int, row + 1, f));
    }
    mark(buf, x, y + (h - 1), '└', dim());
    Canvas::new(buf).dim().fill_line(x + 1, y + (h - 1), w - 2, '─');
    mark(buf, x + (w - 1), y + (h - 1), '┘', dim());
    assert(buf@ =~~= paint(g, x as int, y as int, w as int, h as int, f));
}

/// The cells of a bar, of which the first `filled` are full.
pub open spec fn bar_cells(filled: int, color: Color) -> spec_fn(int, int) -> Option<Cell> {
    |i: int, j: int|
        if i < filled {
            Some(styled('█', colored(color)))
        } else {
            Some(styled('░', dimmed()))
        }
}

/// A grid with a bar of `w` columns.
pub open spec fn bar_on(
    g: Seq<Seq<Cell>>,
    x: int,
    y: int,
    w: int,
    filled: int,
    color: Color,
) -> Seq<Seq<Cell>> {
    paint(g, x, y, w, 1, bar_cells(filled, color))
}

/// Draws a bar whose first `filled` columns are full.
pub fn draw_hbar_buf(buf: &mut Buffer, x: u16, y: u16, w: u16, filled: u16, color: Color)
    requires
        old(buf).wf(),
        x + w <= 0x1_0000,
    ensures
        final(buf).wf(),
        final(buf).w == old(buf).w,
        final(buf).h == old(buf).h,
        final(buf)@ == bar_on(
            old(buf)@,
            x as int,
            y as int,
            w as int,
            filled as int,
            color,
        ),
{
    let ghost g = buf@;
    let ghost f = bar_cells(filled as int, color);
    assert(buf@ =~~= paint(g, x as int, y as int, 0, 1, f));
    for i in 0..w
        invariant
            buf.wf(),
            buf.w == old(buf).w,
            buf.h == old(buf).h,
            x + w <= 0x1_0000,
            f == bar_cells(filled as int, color),
            buf@ == paint(g, x as int, y as int, i as int, 1, f),
    {
        if i < filled {
            mark(buf, x + i, y, '█', on(color));
        } else {
            mark(buf, x + i, y, '░', dim());
        }
        assert(buf@ =~~= paint(g, x as int, y as int, i + 1, 1, f));
    }
}

/// One column of a graph: how many rows are full, counted from the bottom, and
/// how many further eighths of a row, less one, are filled above them.
#[derive(Clone, Copy, Debug, PartialEq, Eq, Structural)]
pub struct Column {
    pub full: u16,
    pub part: Option<usize>,
}

/// The block that fills a number of eighths of a row; the number is one less,
/// and at most seven.
pub open spec fn block_of(eighths: int) -> char {
    if eighths <= 0 {
        '▁'
    } else if eighths == 1 {
        '▂'
    } else if eighths == 2 {
        '▃'
    } else if eighths == 3 {
        '▄'
    } else if eighths == 4 {
        '▅'
    } else if eighths == 5 {
        '▆'
    } else if eighths == 6 {
        '▇'
    } else {
        '█'
    }
}

fn block(eighths: usize) -> (c: char)
    ensures
        c == block_of(eighths as int),
{
    if eighths == 0 {
        '▁'
    } else if eighths == 1 {
        '▂'
    } else if eighths == 2 {
        '▃'
    } else if eighths == 3 {
        '▄'
    } else if eighths == 4 {
        '▅'
    } else if eighths == 5 {
        '▆'
    } else if eighths == 6 {
        '▇'
    } else {
        '█'
    }
}

/// The cell in row `j` of a column of `h` rows: full, partly filled, or empty;
/// the lowest row shows a line where it is empty.
pub open spec fn column_cell(c: Column, h: int, j: int, color: Color) -> Cell {
    if j + c.full >= h {
        styled('█', colored(color))
    } else if c.part is Some && j + c.full + 1 == h {
        styled(block_of(c.part->0 as int), colored(color))
    } else if j == h - 1 {
        styled('▁', dimmed())
    } else {
        styled(' ', dimmed())
    }
}

/// The cells of a graph.
pub open spec fn graph_cells(columns: Seq<Column>, h: int, color: Color) -> spec_fn(
    int,
    int,
) -> Option<Cell> {
    |i: int, j: int| Some(column_cell(columns[i], h, j, color))
}

/// A grid with a graph of `w` columns and `h` rows.
pub open spec fn graph_on(
    g: Seq<Seq<Cell>>,
    x: int,
    y: int,
    w: int,
    h: int,
    columns: Seq<Column>,
    color: Color,
) -> Seq<Seq<Cell>> {
    paint(g, x, y, w, h, graph_cells(columns, h, color))
}

/// Draws a column of a graph.
fn draw_column(buf: &mut Buffer, x: u16, y: u16, h: u16, c: Column, color: Color)
    requires
        old(buf).wf(),
        y + h <= 0x1_0000,
    ensures
        final(buf).wf(),
        final(buf).w == old(buf).w,
        final(buf).h == old(buf).h,
        final(buf)@ == paint(
            old(buf)@,
            x as int,
            y as int,
            1,
            h as int,
            graph_cells(seq![c], h as int, color),
        ),
{
    let ghost g = buf@;
    let ghost f = graph_cells(seq![c], h as int, color);
    assert(buf@ =~~= paint(g, x as int, y as int, 1, 0, f));
    let lit = on(color);
    for row in 0..h
        invariant
            buf.wf(),
            buf.w == old(buf).w,
            buf.h == old(buf).h,
            y + h <= 0x1_0000,
            lit == colored(color),
            f == graph_cells(seq![c], h as int, color),
            buf@ == paint(g, x as int, y as int, 1, row as int, f),
    {
        let filled: u32 = row as u32 + c.full as u32;
        let (ch, st) = if filled >= h as u32 {
            ('█', lit)
        } else if filled + 1 == h as u32 && c.part.is_some() {
            match c.part {
                Some(e) => (block(e), lit),
                None => (' ', lit),
            }
        } else if row == h - 1 {
            ('▁', dim())
        } else {
            (' ', dim())
        };
        assert(styled(ch, st) == column_cell(c, h as int, row as int, color));
        mark(buf, x, y + row, ch, st);
        assert(buf@ =~~= paint(g, x as int, y as int, 1, row + 1, f));
    }
}

/// Draws a graph, one value to a column.
pub fn draw_graph_buf(
    buf: &mut Buffer,
    x: u16,
    y: u16,
    w: u16,
    h: u16,
    columns: &Vec<Column>,
    color: Color,
)
    requires
        old(buf).wf(),
        w > 0 && h > 0 ==> x + w <= 0x1_0000 && y + h <= 0x1_0000 && columns@.len() == w,
    ensures
        final(buf).wf(),
        final(buf).w == old(buf).w,
        final(buf).h == old(buf).h,
        final(buf)@ == graph_on(
            old(buf)@,
            x as int,
            y as int,
            w as int,
            h as int,
            columns@,
            color,
        ),
{
    let ghost g = buf@;
    let ghost f = graph_cells(columns@, h as int, color);
    assert(buf@ =~~= paint(g, x as int, y as int, 0, h as int, f));
    if w == 0 || h == 0 {
        assert(buf@ =~~= paint(g, x as int, y as int, w as int, h as int, f));
        return ;
    }
    for col in 0..w
        invariant
            buf.wf(),
            buf.w == old(buf).w,
            buf.h == old(buf).h,
            x + w <= 0x1_0000,
            y + h <= 0x1_0000,
            columns@.len() == w,
            f == graph_cells(columns@, h as int, color),
            buf@ == paint(g, x as int, y as int, col as int, h as int, f),
    {
        draw_column(buf, x + col, y, h, columns[col as usize], color);
        assert(buf@ =~~= paint(g, x as int, y as int, col + 1, h as int, f));
    }
}


/// A box has corners, lines between them and nothing inside: what was there
/// before stays. What is outside of it stays too.
pub proof fn law_boxes_have_frames(
    g: Seq<Seq<Cell>>,
    x: int,
    y: int,
    w: int,
    h: int,
    tc: Color,
    r: int,
    c: int,
)
    requires
        0 <= r < g.len(),
        0 <= c < g[r].len(),
        w >= 4,
        h >= 2,
    ensures
        ({
            let cell = box_on(g, x, y, w, h, seq![], tc)[r][c];
            let line = |ch: char|
                Cell { ch, fg: Color::White, bold: false, dim: true, rev: false };
            let (right, bottom) = (x + w - 1, y + h - 1);
            &&& r == y && c == x ==> cell == line('┌')
            &&& r == y && c == right ==> cell == line('┐')
            &&& r == bottom && c == x ==> cell == line('└')
            &&& r == bottom && c == right ==> cell == line('┘')
            &&& (r == y || r == bottom) && x < c < right ==> cell == line('─')
            &&& (c == x || c == right) && y < r < bottom ==> cell == line('│')
            &&& x < c < right && y < r < bottom ==> cell == g[r][c]
            &&& c < x || c > right || r < y || r > bottom ==> cell == g[r][c]
        }),
{
}

/// The title of a box stands in bold in its upper line, with a space before it
/// and behind it, and is cut where the box ends. Small boxes are not drawn.
pub proof fn law_boxes_have_titles(
    g: Seq<Seq<Cell>>,
    x: int,
    y: int,
    w: int,
    h: int,
    title: Seq<char>,
    tc: Color,
    i: int,
)
    requires
        0 <= y < g.len(),
        0 <= x + 2 + i < g[y].len(),
        0 <= i < w - 4,
        6 < w <= 0xffff,
        h >= 2,
        title.len() > 0,
    ensures
        ({
            let cell = box_on(g, x, y, w, h, title, tc)[y][x + 2 + i];
            &&& i == 0 || i == title.len() + 1 ==> cell.ch == ' '
            &&& 1 <= i <= title.len() ==> cell.ch == title[i - 1]
            &&& i <= title.len() + 1 ==> cell.fg == tc && cell.bold && !cell.dim && !cell.rev
            &&& i > title.len() + 1 ==> cell.ch == '─'
        }),
        box_on(g, x, y, 3, h, title, tc) == g,
        box_on(g, x, y, w, 1, title, tc) == g,
{
    let t = title_of(title, w);
    let full = seq![' '] + title + seq![' '];
    if i < t.len() {
        assert(crate::buffer::shown(t.len() as int, i) == i);
        assert(t[i] == full[i]);
    }
}

} // verus!
