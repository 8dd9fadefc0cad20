//! The grid of character cells that a frame is drawn into.
use vstd::prelude::*;

use crate::text;

verus! {

/// The foreground colours that the monitor draws with.
#[derive(Clone, Copy, Debug, PartialEq, Eq, Structural)]
pub enum Color {
    Reset,
    DarkGrey,
    Red,
    Green,
    Yellow,
    Magenta,
    Cyan,
    White,
}

/// One character cell of the screen.
#[derive(Clone, Copy, Debug, PartialEq, Eq, Structural)]
pub struct Cell {
    pub ch: char,
    pub fg: Color,
    pub bold: bool,
    pub dim: bool,
    pub rev: bool,
}

impl Default for Cell {
    fn default() -> (c: Self)
        ensures
            c == blank(),
    {
        Cell { ch: ' ', fg: Color::Reset, bold: false, dim: false, rev: false }
    }
}

/// The cell of an empty screen: a space in the terminal's own colour.
pub open spec fn blank() -> Cell {
    Cell { ch: ' ', fg: Color::Reset, bold: false, dim: false, rev: false }
}

/// The cell that stands for a place of which nothing is known.
pub open spec fn unknown() -> Cell {
    Cell { ch: '\0', fg: Color::Reset, bold: false, dim: false, rev: false }
}

/// A grid that holds the same cell everywhere.
pub open spec fn uniform(w: nat, h: nat, c: Cell) -> Seq<Seq<Cell>> {
    Seq::new(h, |y: int| Seq::new(w, |x: int| c))
}

/// How characters are drawn.
#[derive(Clone, Copy, Debug, PartialEq, Eq, Structural)]
pub struct Style {
    pub fg: Color,
    pub bold: bool,
    pub dim: bool,
    pub rev: bool,
}

/// A character in a style.
pub open spec fn styled(ch: char, st: Style) -> Cell {
    Cell { ch, fg: st.fg, bold: st.bold, dim: st.dim, rev: st.rev }
}

/// A grid with one cell replaced; outside of the grid nothing changes.
pub open spec fn put(g: Seq<Seq<Cell>>, x: int, y: int, c: Cell) -> Seq<Seq<Cell>> {
    if 0 <= y < g.len() && 0 <= x < g[y].len() {
        g.update(y, g[y].update(x, c))
    } else {
        g
    }
}

/// Columns are counted in 16 bits: of the characters of a text of `len`
/// characters that fall on the `k`th column from its start, the last one.
pub open spec fn shown(len: int, k: int) -> int {
    k + 0x1_0000 * ((len - 1 - k) / 0x1_0000)
}

/// A grid with a text drawn from column `x` of row `y` on. What falls outside
/// of the grid is dropped.
pub open spec fn print(g: Seq<Seq<Cell>>, x: int, y: int, s: Seq<char>, st: Style) -> Seq<
    Seq<Cell>,
> {
    if 0 <= y < g.len() {
        g.update(
            y,
            Seq::new(
                g[y].len(),
                |c: int|
                    if x <= c < x + s.len() && c < x + 0x1_0000 {
                        styled(s[shown(s.len() as int, c - x)], st)
                    } else {
                        g[y][c]
                    },
            ),
        )
    } else {
        g
    }
}

/// The columns of a text of `len` characters that starts at column `x` can be
/// counted in 16 bits.
pub open spec fn fits(x: int, len: int) -> bool {
    x + (if len < 0x1_0000 { len } else { 0x1_0000 }) <= 0x1_0000
}

/// A grid of cells, held row by row.
pub struct Buffer {
    pub w: u16,
    pub h: u16,
    pub cells: Vec<Cell>,
}

impl View for Buffer {
    type V = Seq<Seq<Cell>>;

    /// The rows of the buffer, from top to bottom.
    open spec fn view(&self) -> Seq<Seq<Cell>> {
        Seq::new(
            self.h as nat,
            |y: int| Seq::new(self.w as nat, |x: int| self.cells@[y * self.w + x]),
        )
    }
}

/// The cell at column `x` of row `y` has a place of its own in the row-by-row
/// order.
pub proof fn lemma_place(w: int, h: int, x: int, y: int)
    requires
        0 <= x < w,
        0 <= y < h,
    ensures
        0 <= y * w + x < w * h,
        forall|a: int, b: int| 0 <= a < w && #[trigger] (b * w + a) == y * w + x ==> a == x && b == y,
{
    assert(0 <= y * w + x < w * h) by (nonlinear_arith)
        requires
            0 <= x < w,
            0 <= y < h,
    ;
    assert forall|a: int, b: int| 0 <= a < w && #[trigger] (b * w + a) == y * w + x implies a == x
        && b == y by {
        assert(b == y) by (nonlinear_arith)
            requires
                0 <= a < w,
                0 <= x < w,
                b * w + a == y * w + x,
        ;
    }
}

impl Buffer {
    /// There is one cell for each place.
    pub open spec fn wf(self) -> bool {
        self.cells@.len() == self.w * self.h
    }

    /// An empty buffer of `w` columns and `h` rows.
    pub fn new(w: u16, h: u16) -> (b: Self)
        ensures
            b.wf(),
            b.w == w,
            b.h == h,
            b@ == uniform(w as nat, h as nat, blank()),
    {
        Buffer::filled(w, h, Cell::default())
    }

    fn filled(w: u16, h: u16, c: Cell) -> (b: Self)
        ensures
            b.wf(),
            b.w == w,
            b.h == h,
            b@ == uniform(w as nat, h as nat, c),
    {
        assert(0 <= w * h <= 0xffff * 0xffff) by (nonlinear_arith)
            requires
                0 <= w <= 0xffff,
                0 <= h <= 0xffff,
        ;
        let n: u32 = w as u32 * h as u32;
        let mut cells: Vec<Cell> = Vec::new();
        for i in 0..n
            invariant
                cells@ == Seq::new(i as nat, |j: int| c),
        {
            cells.push(c);
            assert(cells@ =~= Seq::new((i + 1) as nat, |j: int| c));
        }
        let b = Buffer { w, h, cells };
        assert forall|y: int| 0 <= y < h implies #[trigger] b@[y] == Seq::new(
            w as nat,
            |x: int| c,
        ) by {
            assert forall|x: int| 0 <= x < w implies b@[y][x] == c by {
                lemma_place(w as int, h as int, x, y);
            }
            assert(b@[y] =~= Seq::new(w as nat, |x: int| c));
        }
        assert(b@ =~= uniform(w as nat, h as nat, c));
        b
    }

    /// A buffer none of whose cells can equal one that is drawn: it stands for
    /// a screen of which nothing is known, so that all of the next frame is
    /// painted.
    pub fn unpainted(w: u16, h: u16) -> (b: Self)
        ensures
            b.wf(),
            b.w == w,
            b.h == h,
            b@ == uniform(w as nat, h as nat, unknown()),
    {
        let mut c = Cell::default();
        c.ch = '\0';
        Buffer::filled(w, h, c)
    }

    /// What a screen of `w` columns and `h` rows shows in place of this one: where
    /// the size has changed, nothing is known of it until all of it is painted.
    pub fn resized(&self, w: u16, h: u16) -> (r: Option<Buffer>)
        ensures
            r is None <==> self.w == w && self.h == h,
            r matches Some(b) ==> b.wf() && b.w == w && b.h == h && b@ == uniform(
                w as nat,
                h as nat,
                unknown(),
            ),
    {
        if self.w == w && self.h == h {
            None
        } else {
            Some(Buffer::unpainted(w, h))
        }
    }

    /// The place of the cell at column `x` of row `y`.
    pub fn idx(&self, x: u16, y: u16) -> (i: Option<usize>)
        requires
            self.wf(),
        ensures
            i == if x < self.w && y < self.h {
                Some((y * self.w + x) as usize)
            } else {
                None
            },
            i matches Some(j) ==> j == y * self.w + x && j < self.cells@.len(),
    {
        if x >= self.w || y >= self.h {
            return None;
        }
        proof {
            lemma_place(self.w as int, self.h as int, x as int, y as int);
            assert(self.cells.len() == self.w * self.h);
            assert(0 <= y * self.w <= y * self.w + x);
        }
        Some(y as usize * self.w as usize + x as usize)
    }

    /// Draws one cell; outside of the buffer nothing happens.
    pub fn set(&mut self, x: u16, y: u16, ch: char, fg: Color, bold: bool, dim: bool, rev: bool)
        requires
            old(self).wf(),
        ensures
            final(self).wf(),
            final(self).w == old(self).w,
            final(self).h == old(self).h,
            final(self)@ == put(old(self)@, x as int, y as int, Cell { ch, fg, bold, dim, rev }),
    {
        let ghost c = Cell { ch, fg, bold, dim, rev };
        let ghost before = self@;
        let ghost cells = self.cells@;
        if let Some(i) = self.idx(x, y) {
            self.cells[i] = Cell { ch, fg, bold, dim, rev };
            proof {
                let w = self.w as int;
                lemma_place(w, self.h as int, x as int, y as int);
                let after = put(before, x as int, y as int, c);
                assert forall|b: int| 0 <= b < self.h implies self@[b] =~= #[trigger] after[b] by {
                    assert forall|a: int| 0 <= a < w implies self@[b][a] == #[trigger] after[b][a] by {
                        lemma_place(w, self.h as int, a, b);
                        assert(self.cells@[b * w + a] == if a == x && b == y {
                            c
                        } else {
                            cells[b * w + a]
                        });
                    }
                }
                assert(self@ =~= after);
            }
        }
    }

    /// Draws a text from column `x` of row `y` on.
    pub fn set_str(&mut self, x: u16, y: u16, s: &str, fg: Color, bold: bool, dim: bool, rev: bool)
        requires
            old(self).wf(),
            fits(x as int, s@.len() as int),
        ensures
            final(self).wf(),
            final(self).w == old(self).w,
            final(self).h == old(self).h,
            final(self)@ == print(
                old(self)@,
                x as int,
                y as int,
                s@,
                (Style { fg, bold, dim, rev }),
            ),
    {
        let ghost st = Style { fg, bold, dim, rev };
        let ghost g = self@;
        let mut i: u32 = 0;
        let ghost mut n: int = 0;
        assert(s@.take(0) =~= seq![]);
        assert(print(g, x as int, y as int, seq![], st) =~~= g);
        for c in it: s.chars()
            invariant
                self.wf(),
                self.w == old(self).w,
                self.h == old(self).h,
                it.seq() == s@,
                n == it.index(),
                i == n % 0x1_0000,
                fits(x as int, s@.len() as int),
                st == (Style { fg, bold, dim, rev }),
                self@ == print(g, x as int, y as int, s@.take(n), st),
        {
            self.set(x + i as u16, y, c, fg, bold, dim, rev);
            proof {
                lemma_print_step(g, x as int, y as int, s@, n, st);
                n = n + 1;
            }
            i = if i == 0xffff { 0 } else { i + 1 };
        }
        assert(s@.take(s@.len() as int) =~= s@);
    }
}

/// Drawing a text is drawing its characters one after the other.
pub proof fn lemma_print_step(
    g: Seq<Seq<Cell>>,
    x: int,
    y: int,
    s: Seq<char>,
    n: int,
    st: Style,
)
    requires
        0 <= n < s.len(),
        x >= 0,
    ensures
        put(print(g, x, y, s.take(n), st), x + n % 0x1_0000, y, styled(s[n], st)) == print(
            g,
            x,
            y,
            s.take(n + 1),
            st,
        ),
{
    let a = put(print(g, x, y, s.take(n), st), x + n % 0x1_0000, y, styled(s[n], st));
    let b = print(g, x, y, s.take(n + 1), st);
    if 0 <= y < g.len() {
        assert(a[y].len() == b[y].len());
        assert forall|c: int| 0 <= c < g[y].len() implies #[trigger] a[y][c] == b[y][c] by {
            let k = c - x;
            if 0 <= k < 0x1_0000 {
                if k == n % 0x1_0000 {
                    assert(shown(n + 1, k) == n);
                } else if k < n {
                    assert(shown(n + 1, k) == shown(n, k));
                    assert(0 <= shown(n, k) < n);
                }
            }
        }
        assert(a[y] =~= b[y]);
        assert(a =~= b);
    }
}

/// Draws into a buffer in a style that is set beforehand.
pub struct Canvas<'a> {
    pub buf: &'a mut Buffer,
    pub fg: Color,
    pub bold: bool,
    pub dim: bool,
    pub rev: bool,
}

/// The style that a canvas starts with.
pub open spec fn plain() -> Style {
    Style { fg: Color::White, bold: false, dim: false, rev: false }
}

impl<'a> Canvas<'a> {
    /// The style that the canvas draws in.
    pub open spec fn style(self) -> Style {
        Style { fg: self.fg, bold: self.bold, dim: self.dim, rev: self.rev }
    }

    /// A canvas that draws into `buf`, in plain white.
    pub fn new(buf: &'a mut Buffer) -> (c: Self)
        ensures
            c.style() == plain(),
            *c.buf == *old(buf),
            *final(c.buf) == *final(buf),
    {
        Canvas { buf, fg: Color::White, bold: false, dim: false, rev: false }
    }

    /// The same canvas, drawing in another colour.
    pub fn fg(self, c: Color) -> (r: Self)
        ensures
            r.style() == (Style { fg: c, ..self.style() }),
            *r.buf == *old(self.buf),
            *final(r.buf) == *final(self.buf),
    {
        Canvas { buf: self.buf, fg: c, bold: self.bold, dim: self.dim, rev: self.rev }
    }

    /// The same canvas, drawing in bold.
    pub fn bold(self) -> (r: Self)
        ensures
            r.style() == (Style { bold: true, ..self.style() }),
            *r.buf == *old(self.buf),
            *final(r.buf) == *final(self.buf),
    {
        Canvas { buf: self.buf, fg: self.fg, bold: true, dim: self.dim, rev: self.rev }
    }

    /// The same canvas, drawing dimmed.
    pub fn dim(self) -> (r: Self)
        ensures
            r.style() == (Style { dim: true, ..self.style() }),
            *r.buf == *old(self.buf),
            *final(r.buf) == *final(self.buf),
    {
        Canvas { buf: self.buf, fg: self.fg, bold: self.bold, dim: true, rev: self.rev }
    }

    /// The same canvas, drawing with the two colours exchanged.
    pub fn rev(self) -> (r: Self)
        ensures
            r.style() == (Style { rev: true, ..self.style() }),
            *r.buf == *old(self.buf),
            *final(r.buf) == *final(self.buf),
    {
        Canvas { buf: self.buf, fg: self.fg, bold: self.bold, dim: self.dim, rev: true }
    }

    /// As `rev` where `cond` holds; else the same canvas.
    pub fn rev_if(self, cond: bool) -> (r: Self)
        ensures
            r.style() == (Style { rev: self.style().rev || cond, ..self.style() }),
            *r.buf == *old(self.buf),
            *final(r.buf) == *final(self.buf),
    {
        if cond {
            self.rev()
        } else {
            self
        }
    }

    /// Draws a text from column `x` of row `y` on.
    pub fn print(&mut self, x: u16, y: u16, s: &str)
        requires
            old(self).buf.wf(),
            fits(x as int, s@.len() as int),
        ensures
            final(self).style() == old(self).style(),
            final(self).buf.wf(),
            final(self).buf.w == old(self).buf.w,
            final(self).buf.h == old(self).buf.h,
            final(self).buf@ == print(old(self).buf@, x as int, y as int, s@, old(self).style()),
            *final(final(self).buf) == *final(old(self).buf),
    {
        self.buf.set_str(x, y, s, self.fg, self.bold, self.dim, self.rev);
    }

    /// Draws a text that is cut or filled up with spaces to `max_w` characters.
    pub fn print_truncated(&mut self, x: u16, y: u16, s: &str, max_w: u16)
        requires
            old(self).buf.wf(),
            x + max_w <= 0x1_0000,
        ensures
            final(self).style() == old(self).style(),
            final(self).buf.wf(),
            final(self).buf.w == old(self).buf.w,
            final(self).buf.h == old(self).buf.h,
            final(self).buf@ == print(
                old(self).buf@,
                x as int,
                y as int,
                boxed(s@, max_w as int),
                old(self).style(),
            ),
            *final(final(self).buf) == *final(old(self).buf),
    {
        let t = text::take(s, max_w as usize);
        let padded = text::left(t.as_str(), max_w as usize);
        self.buf.set_str(x, y, padded.as_str(), self.fg, self.bold, self.dim, self.rev);
    }

    /// Draws `w` times the same character.
    pub fn fill_line(&mut self, x: u16, y: u16, w: u16, ch: char)
        requires
            old(self).buf.wf(),
            x + w <= 0x1_0000,
        ensures
            final(self).style() == old(self).style(),
            final(self).buf.wf(),
            final(self).buf.w == old(self).buf.w,
            final(self).buf.h == old(self).buf.h,
            final(self).buf@ == print(
                old(self).buf@,
                x as int,
                y as int,
                text::run(ch, w as int),
                old(self).style(),
            ),
            *final(final(self).buf) == *final(old(self).buf),
    {
        let ghost g = self.buf@;
        let ghost st = self.style();
        let ghost s = text::run(ch, w as int);
        assert(s.take(0) =~= seq![]);
        assert(print(g, x as int, y as int, seq![], st) =~~= g);
        for i in 0..w
            invariant
                self.style() == st,
                self.buf.wf(),
                self.buf.w == old(self).buf.w,
                self.buf.h == old(self).buf.h,
                *final(self.buf) == *final(old(self).buf),
                x + w <= 0x1_0000,
                s == text::run(ch, w as int),
                self.buf@ == print(g, x as int, y as int, s.take(i as int), st),
        {
            self.buf.set(x + i, y, ch, self.fg, self.bold, self.dim, self.rev);
            proof {
                lemma_print_step(g, x as int, y as int, s, i as int, st);
            }
        }
        assert(s.take(w as int) =~= s);
    }
}

/// A text cut or filled up with spaces to `n` characters.
pub open spec fn boxed(s: Seq<char>, n: int) -> Seq<char> {
    text::left_of(text::take_of(s, n), n)
}


/// A text is drawn one character to a cell, from left to right, in one row and
/// in one style, and changes nothing else.
pub proof fn law_texts_are_drawn_in_place(
    g: Seq<Seq<Cell>>,
    x: int,
    y: int,
    s: Seq<char>,
    st: Style,
    r: int,
    c: int,
)
    requires
        0 <= r < g.len(),
        0 <= c < g[r].len(),
        s.len() <= 0x1_0000,
    ensures
        print(g, x, y, s, st).len() == g.len(),
        print(g, x, y, s, st)[r].len() == g[r].len(),
        r == y && x <= c < x + s.len() ==> print(g, x, y, s, st)[r][c] == (Cell {
            ch: s[c - x],
            fg: st.fg,
            bold: st.bold,
            dim: st.dim,
            rev: st.rev,
        }),
        r != y || c < x || c >= x + s.len() ==> print(g, x, y, s, st)[r][c] == g[r][c],
{
    if x <= c < x + s.len() {
        assert(shown(s.len() as int, c - x) == c - x);
    }
}

/// A cell is drawn in its place, and no other is changed; outside of the grid
/// nothing is.
pub proof fn law_cells_are_drawn_in_place(
    g: Seq<Seq<Cell>>,
    x: int,
    y: int,
    k: Cell,
    r: int,
    c: int,
)
    requires
        0 <= r < g.len(),
        0 <= c < g[r].len(),
    ensures
        put(g, x, y, k).len() == g.len(),
        put(g, x, y, k)[r].len() == g[r].len(),
        r == y && c == x ==> put(g, x, y, k)[r][c] == k,
        r != y || c != x ==> put(g, x, y, k)[r][c] == g[r][c],
{
}

/// A text in a field has as many characters as the field: its own first ones,
/// and spaces behind them.
pub proof fn law_fields_are_filled(s: Seq<char>, n: int, i: int)
    requires
        0 <= i < n,
    ensures
        boxed(s, n).len() == n,
        i < s.len() ==> boxed(s, n)[i] == s[i],
        i >= s.len() ==> boxed(s, n)[i] == ' ',
{
}

} // verus!
