//! What is sent to the terminal to turn one frame into the next.
use vstd::prelude::*;

use crossterm::cursor::MoveTo;
use crossterm::style::{Attribute, ResetColor, SetAttribute, SetForegroundColor};
use crossterm::Command;

use crate::buffer::{Buffer, Cell, Color};
use crate::buffer::{blank, put, styled, uniform, unknown, Style};
use crate::number;

verus! {

/// The text attributes that the monitor uses.
#[derive(Clone, Copy, Debug, PartialEq, Eq, Structural)]
pub enum Attr {
    Reset,
    Bold,
    Dim,
    Reverse,
}

/// One command to the terminal.
#[derive(Clone, Copy, Debug, PartialEq, Eq, Structural)]
pub enum TermOp {
    MoveTo(u16, u16),
    Attribute(Attr),
    Foreground(Color),
    ResetColor,
    Print(char),
}

/// A cell of the new frame that differs from the one on the screen.
#[derive(Clone, Copy, Debug, PartialEq, Eq, Structural)]
pub struct Change {
    pub x: u16,
    pub y: u16,
    pub cell: Cell,
}

/// The changes in the first `n` cells of a row, from left to right.
pub open spec fn row_changes(cur: Seq<Cell>, prev: Seq<Cell>, y: int, n: int) -> Seq<Change>
    decreases n,
{
    if n <= 0 {
        seq![]
    } else {
        let before = row_changes(cur, prev, y, n - 1);
        if cur[n - 1] == prev[n - 1] {
            before
        } else {
            before.push(Change { x: (n - 1) as u16, y: y as u16, cell: cur[n - 1] })
        }
    }
}

/// The changes in the first `n` rows, from top to bottom.
pub open spec fn changes(cur: Seq<Seq<Cell>>, prev: Seq<Seq<Cell>>, n: int) -> Seq<Change>
    decreases n,
{
    if n <= 0 {
        seq![]
    } else {
        changes(cur, prev, n - 1) + row_changes(
            cur[n - 1],
            prev[n - 1],
            n - 1,
            cur[n - 1].len() as int,
        )
    }
}

/// Two cells that are drawn with the same attributes.
pub open spec fn same_attrs(a: Cell, b: Cell) -> bool {
    a.bold == b.bold && a.dim == b.dim && a.rev == b.rev
}

/// The last cell drawn; before the first one the terminal draws as in a blank
/// cell.
pub open spec fn drawn_before(last: Option<Change>) -> Cell {
    match last {
        Some(c) => c.cell,
        None => blank(),
    }
}

/// A command where a condition holds, and nothing where it does not.
pub open spec fn op_if(cond: bool, op: TermOp) -> Seq<TermOp> {
    if cond {
        seq![op]
    } else {
        seq![]
    }
}

/// The cursor is moved unless the last cell drawn was the left neighbour.
pub open spec fn move_ops(last: Option<Change>, c: Change) -> Seq<TermOp> {
    op_if(
        !(last matches Some(l) && l.y == c.y && l.x + 1 == c.x),
        TermOp::MoveTo(c.x, c.y),
    )
}

/// Where an attribute changes, all are reset and those of the cell are set.
pub open spec fn attr_ops(last: Option<Change>, c: Change) -> Seq<TermOp> {
    if same_attrs(drawn_before(last), c.cell) {
        seq![]
    } else {
        seq![TermOp::Attribute(Attr::Reset)] + op_if(c.cell.bold, TermOp::Attribute(Attr::Bold))
            + op_if(c.cell.dim, TermOp::Attribute(Attr::Dim)) + op_if(
            c.cell.rev,
            TermOp::Attribute(Attr::Reverse),
        )
    }
}

/// The colour is set where it is not the one in force.
pub open spec fn color_ops(last: Option<Change>, c: Change) -> Seq<TermOp> {
    let in_force = if same_attrs(drawn_before(last), c.cell) {
        drawn_before(last).fg
    } else {
        Color::Reset
    };
    op_if(
        c.cell.fg != in_force,
        if c.cell.fg == Color::Reset {
            TermOp::ResetColor
        } else {
            TermOp::Foreground(c.cell.fg)
        },
    )
}

/// What draws one cell, after the last one drawn.
pub open spec fn cell_ops(last: Option<Change>, c: Change) -> Seq<TermOp> {
    move_ops(last, c) + attr_ops(last, c) + color_ops(last, c) + seq![TermOp::Print(c.cell.ch)]
}

/// The last of a list of changes.
pub open spec fn last_of(cs: Seq<Change>) -> Option<Change> {
    if cs.len() == 0 {
        None
    } else {
        Some(cs.last())
    }
}

/// What draws a list of cells, one after the other.
pub open spec fn paint_ops(cs: Seq<Change>) -> Seq<TermOp>
    decreases cs.len(),
{
    if cs.len() == 0 {
        seq![]
    } else {
        paint_ops(cs.drop_last()) + cell_ops(last_of(cs.drop_last()), cs.last())
    }
}

/// What turns the frame `prev` on the screen into the frame `cur`.
pub open spec fn diff_of(cur: Seq<Seq<Cell>>, prev: Seq<Seq<Cell>>) -> Seq<TermOp> {
    paint_ops(changes(cur, prev, cur.len() as int)) + seq![
        TermOp::Attribute(Attr::Reset),
        TermOp::ResetColor,
    ]
}

/// The rows of `w` cells each that a sequence of cells holds, as far as `h`
/// rows go.
pub open spec fn rows(cells: Seq<Cell>, w: int, h: int) -> Seq<Seq<Cell>> {
    Seq::new(h as nat, |y: int| Seq::new(w as nat, |x: int| cells[y * w + x]))
}

fn push_if(ops: &mut Vec<TermOp>, cond: bool, op: TermOp)
    ensures
        final(ops)@ == old(ops)@ + op_if(cond, op),
{
    if cond {
        ops.push(op);
    }
    assert(ops@ =~= old(ops)@ + op_if(cond, op));
}

proof fn lemma_assoc(a: Seq<TermOp>, b: Seq<TermOp>, c: Seq<TermOp>)
    ensures
        (a + b) + c == a + (b + c),
{
    assert((a + b) + c =~= a + (b + c));
}

/// Appends what sets the attributes of one cell.
fn push_attrs(ops: &mut Vec<TermOp>, cell: Cell)
    ensures
        final(ops)@ == old(ops)@ + (seq![TermOp::Attribute(Attr::Reset)] + op_if(
            cell.bold,
            TermOp::Attribute(Attr::Bold),
        ) + op_if(cell.dim, TermOp::Attribute(Attr::Dim)) + op_if(
            cell.rev,
            TermOp::Attribute(Attr::Reverse),
        )),
{
    let ghost o = ops@;
    let ghost r = seq![TermOp::Attribute(Attr::Reset)];
    let ghost b = op_if(cell.bold, TermOp::Attribute(Attr::Bold));
    let ghost d = op_if(cell.dim, TermOp::Attribute(Attr::Dim));
    let ghost v = op_if(cell.rev, TermOp::Attribute(Attr::Reverse));
    ops.push(TermOp::Attribute(Attr::Reset));
    assert(ops@ =~= o + r);
    push_if(ops, cell.bold, TermOp::Attribute(Attr::Bold));
    push_if(ops, cell.dim, TermOp::Attribute(Attr::Dim));
    push_if(ops, cell.rev, TermOp::Attribute(Attr::Reverse));
    proof {
        lemma_assoc(o, r, b);
        lemma_assoc(o, r + b, d);
        lemma_assoc(o, r + b + d, v);
    }
}

/// Appends what draws one cell.
fn push_cell(ops: &mut Vec<TermOp>, last: Option<Change>, c: Change)
    ensures
        final(ops)@ == old(ops)@ + cell_ops(last, c),
{
    let ghost o = ops@;
    let cell = c.cell;
    let (joined, before): (bool, Cell) = match last {
        Some(l) => (l.y == c.y && l.x < 0xffff && l.x + 1 == c.x, l.cell),
        None => (false, Cell::default()),
    };
    push_if(ops, !joined, TermOp::MoveTo(c.x, c.y));
    let mut in_force: Color = before.fg;
    if cell.bold != before.bold || cell.dim != before.dim || cell.rev != before.rev {
        push_attrs(ops, cell);
        in_force = Color::Reset;
    } else {
        assert(ops@ =~= ops@ + attr_ops(last, c));
    }
    let op: TermOp = if cell.fg == Color::Reset {
        TermOp::ResetColor
    } else {
        TermOp::Foreground(cell.fg)
    };
    push_if(ops, cell.fg != in_force, op);
    let ghost print = seq![TermOp::Print(cell.ch)];
    push_if(ops, true, TermOp::Print(cell.ch));
    proof {
        let m = move_ops(last, c);
        let t = attr_ops(last, c);
        let k = color_ops(last, c);
        lemma_assoc(o, m, t);
        lemma_assoc(o, m + t, k);
        lemma_assoc(o, m + t + k, print);
    }
}

impl Buffer {
    /// The commands that turn the frame `prev` on the screen into this one:
    /// only the cells that changed are drawn.
    pub fn diff(&self, prev: &Buffer) -> (ops: Vec<TermOp>)
        requires
            self.wf(),
            self.cells@.len() <= prev.cells@.len(),
        ensures
            ops@ == diff_of(self@, rows(prev.cells@, self.w as int, self.h as int)),
            prev.w == self.w && prev.h == self.h ==> ops@ == diff_of(self@, prev@),
    {
        let ghost cur = self@;
        let ghost old = rows(prev.cells@, self.w as int, self.h as int);
        let ghost mut cs: Seq<Change> = seq![];
        let mut ops: Vec<TermOp> = Vec::new();
        let mut last: Option<Change> = None;
        for y in 0..self.h
            invariant
                self.wf(),
                self.cells@.len() <= prev.cells@.len(),
                cur == self@,
                old == rows(prev.cells@, self.w as int, self.h as int),
                cs == changes(cur, old, y as int),
                ops@ == paint_ops(cs),
                last == last_of(cs),
        {
            let ghost above = cs;
            assert(above + row_changes(cur[y as int], old[y as int], y as int, 0) =~= above);
            for x in 0..self.w
                invariant
                    self.wf(),
                    self.cells@.len() <= prev.cells@.len(),
                    cur == self@,
                    old == rows(prev.cells@, self.w as int, self.h as int),
                    y < self.h,
                    cs == above + row_changes(cur[y as int], old[y as int], y as int, x as int),
                    ops@ == paint_ops(cs),
                    last == last_of(cs),
            {
                if let Some(i) = self.idx(x, y) {
                    assert(cur[y as int][x as int] == self.cells@[i as int]);
                    assert(old[y as int][x as int] == prev.cells@[i as int]);
                    let c: Cell = self.cells[i];
                    if c != prev.cells[i] {
                        let ghost ch = Change { x, y, cell: c };
                        push_cell(&mut ops, last, Change { x, y, cell: c });
                        last = Some(Change { x, y, cell: c });
                        proof {
                            let next = cs.push(ch);
                            assert(next.drop_last() =~= cs);
                            assert(above + row_changes(
                                cur[y as int],
                                old[y as int],
                                y as int,
                                x + 1,
                            ) =~= next);
                            cs = next;
                        }
                    }
                }
            }
        }
        ops.push(TermOp::Attribute(Attr::Reset));
        ops.push(TermOp::ResetColor);
        assert(ops@ =~= diff_of(cur, old));
        proof {
            if prev.w == self.w && prev.h == self.h {
                assert(old =~~= prev@);
            }
        }
        ops
    }
}

/// A control sequence: an escape character, an opening bracket and its body.
pub open spec fn csi(body: Seq<char>) -> Seq<char> {
    seq!['\u{1b}', '['] + body
}

/// The body of the sequence that sets a foreground colour, without its end.
pub open spec fn color_code(c: Color) -> Seq<char> {
    match c {
        Color::Reset => seq!['3', '9'],
        Color::DarkGrey => seq!['3', '8', ';', '5', ';', '8'],
        Color::Red => seq!['3', '8', ';', '5', ';', '9'],
        Color::Green => seq!['3', '8', ';', '5', ';', '1', '0'],
        Color::Yellow => seq!['3', '8', ';', '5', ';', '1', '1'],
        Color::Magenta => seq!['3', '8', ';', '5', ';', '1', '3'],
        Color::Cyan => seq!['3', '8', ';', '5', ';', '1', '4'],
        Color::White => seq!['3', '8', ';', '5', ';', '1', '5'],
    }
}

/// The number that sets an attribute.
pub open spec fn attr_code(a: Attr) -> char {
    match a {
        Attr::Reset => '0',
        Attr::Bold => '1',
        Attr::Dim => '2',
        Attr::Reverse => '7',
    }
}

/// `s` is how a command is sent. Of a colour the code is left out where the
/// user's environment asks for no colours.
pub open spec fn is_code(op: TermOp, s: Seq<char>) -> bool {
    match op {
        TermOp::MoveTo(x, y) => s == csi(
            number::decimal_of((y + 1) as nat) + seq![';'] + number::decimal_of((x + 1) as nat)
                + seq!['H'],
        ),
        TermOp::Attribute(a) => s == csi(seq![attr_code(a), 'm']),
        TermOp::Foreground(c) => s == csi(color_code(c) + seq!['m']) || s == csi(seq!['m']),
        TermOp::ResetColor => s == csi(seq!['0', 'm']),
        TermOp::Print(c) => s == seq![c],
    }
}

/// The places that a command names can be counted from one in 16 bits.
pub open spec fn in_range(op: TermOp) -> bool {
    op matches TermOp::MoveTo(x, y) ==> x < 0xffff && y < 0xffff
}

/// `MoveTo::write_ansi` of crossterm: writes the control sequence that puts the
/// cursor at a column and a row, both of which the terminal counts from one.
#[verifier::external_body]
fn move_to(x: u16, y: u16) -> (s: String)
    requires
        x < 0xffff,
        y < 0xffff,
    ensures
        is_code(TermOp::MoveTo(x, y), s@),
{
    let mut s = String::new();
    let _ = MoveTo(x, y).write_ansi(&mut s);
    s
}

/// `SetAttribute::write_ansi` of crossterm: writes the control sequence that
/// resets all attributes or sets one.
#[verifier::external_body]
fn set_attribute(a: Attr) -> (s: String)
    ensures
        is_code(TermOp::Attribute(a), s@),
{
    let attribute = match a {
        Attr::Reset => Attribute::Reset,
        Attr::Bold => Attribute::Bold,
        Attr::Dim => Attribute::Dim,
        Attr::Reverse => Attribute::Reverse,
    };
    let mut s = String::new();
    let _ = SetAttribute(attribute).write_ansi(&mut s);
    s
}

/// `SetForegroundColor::write_ansi` of crossterm: writes the control sequence
/// that sets the colour, with an empty body where the environment variable
/// `NO_COLOR` asks for no colours. Which of the two it is cannot be stated.
#[verifier::external_body]
fn set_foreground(c: Color) -> (s: String)
    ensures
        is_code(TermOp::Foreground(c), s@),
{
    let color = match c {
        Color::Reset => crossterm::style::Color::Reset,
        Color::DarkGrey => crossterm::style::Color::DarkGrey,
        Color::Red => crossterm::style::Color::Red,
        Color::Green => crossterm::style::Color::Green,
        Color::Yellow => crossterm::style::Color::Yellow,
        Color::Magenta => crossterm::style::Color::Magenta,
        Color::Cyan => crossterm::style::Color::Cyan,
        Color::White => crossterm::style::Color::White,
    };
    let mut s = String::new();
    let _ = SetForegroundColor(color).write_ansi(&mut s);
    s
}

/// `ResetColor::write_ansi` of crossterm: writes the control sequence that
/// resets the colours, which is the one that resets the attributes too.
#[verifier::external_body]
fn reset_color() -> (s: String)
    ensures
        is_code(TermOp::ResetColor, s@),
{
    let mut s = String::new();
    let _ = ResetColor.write_ansi(&mut s);
    s
}

/// The characters that send one command. Which of its two codes a colour gets
/// is up to the environment.
pub fn encode(op: TermOp) -> (s: String)
    requires
        in_range(op),
    ensures
        is_code(op, s@),
{
    let color = match op {
        TermOp::Foreground(c) => set_foreground(c),
        _ => String::new(),
    };
    encode_with(op, color)
}

/// The characters that send one command, where `color` sets its colour.
pub fn encode_with(op: TermOp, color: String) -> (s: String)
    requires
        in_range(op),
    ensures
        if op is Foreground {
            s@ == color@
        } else {
            is_code(op, s@)
        },
{
    match op {
        TermOp::MoveTo(x, y) => move_to(x, y),
        TermOp::Attribute(a) => set_attribute(a),
        TermOp::Foreground(_) => color,
        TermOp::ResetColor => reset_color(),
        TermOp::Print(c) => {
            let mut s: String = String::new();
            s.push(c);
            assert(s@ =~= seq![c]);
            s
        },
    }
}

/// The codes of the commands, in their order.
pub open spec fn are_codes(ops: Seq<TermOp>, codes: Seq<Seq<char>>) -> bool {
    codes.len() == ops.len() && forall|i: int|
        0 <= i < ops.len() ==> is_code(ops[i], #[trigger] codes[i])
}

/// `s` is how the commands are sent, one after the other.
pub open spec fn is_stream(ops: Seq<TermOp>, s: Seq<char>) -> bool {
    exists|codes: Seq<Seq<char>>| #[trigger] are_codes(ops, codes) && s == codes.flatten()
}

/// The characters that send a list of commands.
pub fn encode_all(ops: &Vec<TermOp>) -> (s: String)
    requires
        forall|i: int| 0 <= i < ops@.len() ==> in_range(#[trigger] ops@[i]),
    ensures
        is_stream(ops@, s@),
{
    let mut s: String = String::new();
    let ghost mut codes: Seq<Seq<char>> = seq![];
    for i in 0..ops.len()
        invariant
            forall|j: int| 0 <= j < ops@.len() ==> in_range(#[trigger] ops@[j]),
            are_codes(ops@.take(i as int), codes),
            s@ == codes.flatten(),
    {
        let code = encode(ops[i]);
        s.append(code.as_str());
        proof {
            let next = codes.push(code@);
            codes.lemma_flatten_push(code@);
            assert forall|j: int| 0 <= j <= i implies is_code(
                ops@.take(i + 1)[j],
                #[trigger] next[j],
            ) by {
                if j < i {
                    assert(ops@.take(i as int)[j] == ops@[j]);
                }
            }
            codes = next;
        }
    }
    assert(ops@.take(ops@.len() as int) =~= ops@);
    s
}

/// The commands that draw changes within a grid stay in range.
proof fn lemma_paint_in_range(cs: Seq<Change>)
    requires
        forall|i: int| 0 <= i < cs.len() ==> (#[trigger] cs[i]).x < 0xffff && cs[i].y < 0xffff,
    ensures
        forall|i: int| 0 <= i < paint_ops(cs).len() ==> in_range(#[trigger] paint_ops(cs)[i]),
    decreases cs.len(),
{
    if cs.len() > 0 {
        let front = cs.drop_last();
        assert forall|i: int| 0 <= i < front.len() implies (#[trigger] front[i]).x < 0xffff
            && front[i].y < 0xffff by {
            assert(front[i] == cs[i]);
        }
        lemma_paint_in_range(front);
        let c = cs[cs.len() - 1];
        let ops = cell_ops(last_of(front), c);
        assert forall|i: int| 0 <= i < ops.len() implies in_range(#[trigger] ops[i]) by {
            let m = move_ops(last_of(front), c);
            let a = attr_ops(last_of(front), c);
            if i < m.len() {
                assert(ops[i] == m[i]);
            } else if i < m.len() + a.len() {
                assert(ops[i] == a[i - m.len()]);
            }
        }
        assert forall|i: int| 0 <= i < paint_ops(cs).len() implies in_range(
            #[trigger] paint_ops(cs)[i],
        ) by {
            if i < paint_ops(front).len() {
                assert(paint_ops(cs)[i] == paint_ops(front)[i]);
            } else {
                assert(paint_ops(cs)[i] == ops[i - paint_ops(front).len()]);
            }
        }
    }
}

proof fn lemma_row_changes(cur: Seq<Cell>, prev: Seq<Cell>, y: int, n: int)
    requires
        0 <= n <= cur.len() <= 0xffff,
        0 <= y < 0xffff,
    ensures
        forall|i: int|
            0 <= i < row_changes(cur, prev, y, n).len() ==> {
                let c = #[trigger] row_changes(cur, prev, y, n)[i];
                c.x < n && c.y == y && cur[c.x as int] == c.cell && prev[c.x as int] != c.cell
            },
        forall|x: int|
            0 <= x < n && #[trigger] cur[x] != prev[x] ==> row_changes(cur, prev, y, n).contains(
                Change { x: x as u16, y: y as u16, cell: cur[x] },
            ),
    decreases n,
{
    if n > 0 {
        lemma_row_changes(cur, prev, y, n - 1);
        let before = row_changes(cur, prev, y, n - 1);
        let now = row_changes(cur, prev, y, n);
        assert forall|x: int| 0 <= x < n && #[trigger] cur[x] != prev[x] implies now.contains(
            Change { x: x as u16, y: y as u16, cell: cur[x] },
        ) by {
            let c = Change { x: x as u16, y: y as u16, cell: cur[x] };
            if x == n - 1 {
                assert(now[now.len() - 1] == c);
            } else {
                let i = choose|i: int| 0 <= i < before.len() && before[i] == c;
                assert(now[i] == c);
            }
        }
    }
}

/// Two grids of the same shape, whose places can be counted in 16 bits.
pub open spec fn same_shape(a: Seq<Seq<Cell>>, b: Seq<Seq<Cell>>) -> bool {
    &&& a.len() == b.len() <= 0xffff
    &&& forall|y: int|
        0 <= y < a.len() ==> (#[trigger] a[y]).len() == b[y].len() && a[y].len() <= 0xffff
}

/// The changes are exactly the cells in which the two frames differ.
pub proof fn law_changes_are_the_differences(
    cur: Seq<Seq<Cell>>,
    prev: Seq<Seq<Cell>>,
    n: int,
)
    requires
        same_shape(cur, prev),
        0 <= n <= cur.len(),
    ensures
        forall|i: int|
            0 <= i < changes(cur, prev, n).len() ==> {
                let c = #[trigger] changes(cur, prev, n)[i];
                &&& c.y < n
                &&& c.x < cur[c.y as int].len()
                &&& cur[c.y as int][c.x as int] == c.cell
                &&& prev[c.y as int][c.x as int] != c.cell
            },
        forall|x: int, y: int|
            0 <= y < n && 0 <= x < cur[y].len() && #[trigger] cur[y][x] != prev[y][x] ==> changes(
                cur,
                prev,
                n,
            ).contains(Change { x: x as u16, y: y as u16, cell: cur[y][x] }),
    decreases n,
{
    if n > 0 {
        law_changes_are_the_differences(cur, prev, n - 1);
        let above = changes(cur, prev, n - 1);
        let row = row_changes(cur[n - 1], prev[n - 1], n - 1, cur[n - 1].len() as int);
        lemma_row_changes(cur[n - 1], prev[n - 1], n - 1, cur[n - 1].len() as int);
        let all = changes(cur, prev, n);
        assert forall|i: int| 0 <= i < all.len() implies ({
            let c = #[trigger] all[i];
            &&& c.y < n
            &&& c.x < cur[c.y as int].len()
            &&& cur[c.y as int][c.x as int] == c.cell
            &&& prev[c.y as int][c.x as int] != c.cell
        }) by {
            if i < above.len() {
                assert(all[i] == above[i]);
            } else {
                assert(all[i] == row[i - above.len()]);
            }
        }
        assert forall|x: int, y: int|
            0 <= y < n && 0 <= x < cur[y].len() && #[trigger] cur[y][x] != prev[y][x] implies all.contains(
            Change { x: x as u16, y: y as u16, cell: cur[y][x] }) by {
            let c = Change { x: x as u16, y: y as u16, cell: cur[y][x] };
            if y < n - 1 {
                let i = choose|i: int| 0 <= i < above.len() && above[i] == c;
                assert(all[i] == c);
            } else {
                assert(row.contains(c));
                let i = choose|i: int| 0 <= i < row.len() && row[i] == c;
                assert(all[above.len() + i] == c);
            }
        }
    }
}

impl Buffer {
    /// Appends to `out` what turns the frame `prev` on the screen into this
    /// one.
    pub fn flush_diff(&self, prev: &Buffer, out: &mut String)
        requires
            self.wf(),
            self.cells@.len() <= prev.cells@.len(),
        ensures
            exists|s: Seq<char>|
                #[trigger] is_stream(
                    diff_of(self@, rows(prev.cells@, self.w as int, self.h as int)),
                    s,
                ) && final(out)@ == old(out)@ + s,
            prev.w == self.w && prev.h == self.h ==> exists|s: Seq<char>|
                #[trigger] is_stream(diff_of(self@, prev@), s) && final(out)@ == old(out)@ + s,
    {
        let ops = self.diff(prev);
        proof {
            let old = rows(prev.cells@, self.w as int, self.h as int);
            let cs = changes(self@, old, self@.len() as int);
            law_changes_are_the_differences(self@, old, self@.len() as int);
            lemma_paint_in_range(cs);
            assert forall|i: int| 0 <= i < ops@.len() implies in_range(#[trigger] ops@[i]) by {
                if i < paint_ops(cs).len() {
                    assert(ops@[i] == paint_ops(cs)[i]);
                }
            }
        }
        let s = encode_all(&ops);
        out.append(s.as_str());
        assert(is_stream(ops@, s@));
    }
}

/// A terminal: what it shows, where its cursor is and how it draws.
pub struct Terminal {
    pub grid: Seq<Seq<Cell>>,
    pub x: int,
    pub y: int,
    pub pen: Style,
}

/// How a terminal draws after all its attributes are reset.
pub open spec fn reset_pen() -> Style {
    Style { fg: Color::Reset, bold: false, dim: false, rev: false }
}

/// What a terminal does on a command. Resetting the colours is the same
/// control sequence as resetting the attributes, so both have the effect of
/// both. A printed character takes one column. This is what happens where
/// colours are sent; where the environment asks for no colours, see
/// `obey_uncolored`.
pub open spec fn obey(t: Terminal, op: TermOp) -> Terminal {
    match op {
        TermOp::MoveTo(x, y) => Terminal { x: x as int, y: y as int, ..t },
        TermOp::Attribute(Attr::Reset) => Terminal { pen: reset_pen(), ..t },
        TermOp::Attribute(Attr::Bold) => Terminal { pen: Style { bold: true, ..t.pen }, ..t },
        TermOp::Attribute(Attr::Dim) => Terminal { pen: Style { dim: true, ..t.pen }, ..t },
        TermOp::Attribute(Attr::Reverse) => Terminal { pen: Style { rev: true, ..t.pen }, ..t },
        TermOp::Foreground(c) => Terminal { pen: Style { fg: c, ..t.pen }, ..t },
        TermOp::ResetColor => Terminal { pen: reset_pen(), ..t },
        TermOp::Print(c) => Terminal {
            grid: put(t.grid, t.x, t.y, styled(c, t.pen)),
            x: t.x + 1,
            ..t
        },
    }
}

/// What a terminal does on a list of commands.
#[verifier::opaque]
pub open spec fn replay(t: Terminal, ops: Seq<TermOp>) -> Terminal
    decreases ops.len(),
{
    if ops.len() == 0 {
        t
    } else {
        obey(replay(t, ops.drop_last()), ops.last())
    }
}

/// A cell that is drawn with some attribute.
pub open spec fn has_attrs(c: Cell) -> bool {
    c.bold || c.dim || c.rev
}

/// A cell with attributes does not go back to the terminal's own colour right
/// after a coloured cell with the same attributes: to reset the colour there
/// would reset the attributes as well.
pub open spec fn keeps_attrs(before: Cell, c: Cell) -> bool {
    same_attrs(before, c) && has_attrs(c) && c.fg == Color::Reset ==> before.fg == Color::Reset
}

/// Each change keeps its attributes after the one before it.
pub open spec fn no_lost_attrs(cs: Seq<Change>) -> bool {
    forall|i: int, j: int|
        0 <= i && j == i + 1 && j < cs.len() ==> #[trigger] keeps_attrs(cs[i].cell, cs[j].cell)
}

/// A cell that has attributes has a colour of its own.
pub open spec fn is_colored(c: Cell) -> bool {
    has_attrs(c) ==> c.fg != Color::Reset
}

/// A grid in which every cell that has attributes has a colour of its own.
pub open spec fn all_colored(g: Seq<Seq<Cell>>) -> bool {
    forall|y: int, x: int|
        0 <= y < g.len() && 0 <= x < g[y].len() ==> is_colored(#[trigger] g[y][x])
}

/// Where every cell that has attributes has a colour of its own, none loses
/// its attributes.
pub proof fn law_colored_cells_keep_their_attrs(
    cur: Seq<Seq<Cell>>,
    prev: Seq<Seq<Cell>>,
    n: int,
)
    requires
        same_shape(cur, prev),
        0 <= n <= cur.len(),
        all_colored(cur),
    ensures
        no_lost_attrs(changes(cur, prev, n)),
{
    let cs = changes(cur, prev, n);
    law_changes_are_the_differences(cur, prev, n);
    assert forall|i: int, j: int|
        0 <= i && j == i + 1 && j < cs.len() implies #[trigger] keeps_attrs(
        cs[i].cell,
        cs[j].cell,
    ) by {
        let c = cs[j];
        assert(is_colored(cur[c.y as int][c.x as int]));
    }
}

/// A grid with the cells of a list of changes replaced.
pub open spec fn painted(g: Seq<Seq<Cell>>, cs: Seq<Change>) -> Seq<Seq<Cell>>
    decreases cs.len(),
{
    if cs.len() == 0 {
        g
    } else {
        put(painted(g, cs.drop_last()), cs.last().x as int, cs.last().y as int, cs.last().cell)
    }
}

proof fn lemma_replay_add(t: Terminal, a: Seq<TermOp>, b: Seq<TermOp>)
    ensures
        replay(t, a + b) == replay(replay(t, a), b),
    decreases b.len(),
{
    reveal(replay);
    if b.len() == 0 {
        assert(a + b =~= a);
    } else {
        lemma_replay_add(t, a, b.drop_last());
        assert((a + b).drop_last() =~= a + b.drop_last());
    }
}

proof fn lemma_replay_if(t: Terminal, cond: bool, op: TermOp)
    ensures
        replay(t, op_if(cond, op)) == if cond {
            obey(t, op)
        } else {
            t
        },
{
    reveal(replay);
    if cond {
        assert(seq![op].drop_last() =~= seq![]);
        assert(replay(t, seq![op].drop_last()) == t);
    }
}

/// The terminal is ready to draw after the cell `last`.
spec fn ready(t: Terminal, last: Option<Change>) -> bool {
    &&& t.pen == (Style {
        fg: drawn_before(last).fg,
        bold: drawn_before(last).bold,
        dim: drawn_before(last).dim,
        rev: drawn_before(last).rev,
    })
    &&& last matches Some(l) ==> t.x == l.x + 1 && t.y == l.y
}

proof fn lemma_cell_ops(t: Terminal, last: Option<Change>, c: Change)
    requires
        ready(t, last),
        last matches Some(l) ==> keeps_attrs(l.cell, c.cell),
    ensures
        ready(replay(t, cell_ops(last, c)), Some(c)),
        replay(t, cell_ops(last, c)).grid == put(t.grid, c.x as int, c.y as int, c.cell),
{
    let m = move_ops(last, c);
    let a = attr_ops(last, c);
    let k = color_ops(last, c);
    let p = seq![TermOp::Print(c.cell.ch)];
    let t1 = replay(t, m);
    let t2 = replay(t1, a);
    let t3 = replay(t2, k);
    lemma_replay_add(t, m + a + k, p);
    lemma_replay_add(t, m + a, k);
    lemma_replay_add(t, m, a);
    let joined = last matches Some(l) && l.y == c.y && l.x + 1 == c.x;
    lemma_replay_if(t, !joined, TermOp::MoveTo(c.x, c.y));
    assert(t1.x == c.x && t1.y == c.y && t1.grid == t.grid && t1.pen == t.pen);
    let same = same_attrs(drawn_before(last), c.cell);
    lemma_replay_if(t1, false, TermOp::ResetColor);
    if !same {
        let r = seq![TermOp::Attribute(Attr::Reset)];
        let b = op_if(c.cell.bold, TermOp::Attribute(Attr::Bold));
        let d = op_if(c.cell.dim, TermOp::Attribute(Attr::Dim));
        let v = op_if(c.cell.rev, TermOp::Attribute(Attr::Reverse));
        lemma_replay_add(t1, r + b + d, v);
        lemma_replay_add(t1, r + b, d);
        lemma_replay_add(t1, r, b);
        lemma_replay_if(t1, true, TermOp::Attribute(Attr::Reset));
        let u = replay(t1, r);
        lemma_replay_if(u, c.cell.bold, TermOp::Attribute(Attr::Bold));
        let u1 = replay(u, b);
        lemma_replay_if(u1, c.cell.dim, TermOp::Attribute(Attr::Dim));
        let u2 = replay(u1, d);
        lemma_replay_if(u2, c.cell.rev, TermOp::Attribute(Attr::Reverse));
    }
    assert(t2.x == c.x && t2.y == c.y && t2.grid == t.grid);
    assert(t2.pen.bold == c.cell.bold && t2.pen.dim == c.cell.dim && t2.pen.rev == c.cell.rev);
    let in_force = if same {
        drawn_before(last).fg
    } else {
        Color::Reset
    };
    let op = if c.cell.fg == Color::Reset {
        TermOp::ResetColor
    } else {
        TermOp::Foreground(c.cell.fg)
    };
    lemma_replay_if(t2, c.cell.fg != in_force, op);
    lemma_replay_if(t3, true, TermOp::Print(c.cell.ch));
}

proof fn lemma_paint(t: Terminal, cs: Seq<Change>)
    requires
        t.pen == reset_pen(),
        no_lost_attrs(cs),
    ensures
        ready(replay(t, paint_ops(cs)), last_of(cs)),
        replay(t, paint_ops(cs)).grid == painted(t.grid, cs),
    decreases cs.len(),
{
    lemma_replay_if(t, false, TermOp::ResetColor);
    if cs.len() > 0 {
        let front = cs.drop_last();
        assert(no_lost_attrs(front)) by {
            assert forall|i: int, j: int|
                0 <= i && j == i + 1 && j < front.len() implies #[trigger] keeps_attrs(
                front[i].cell,
                front[j].cell,
            ) by {
                assert(keeps_attrs(cs[i].cell, cs[j].cell));
            }
        }
        lemma_paint(t, front);
        let c = cs[cs.len() - 1];
        assert(last_of(front) matches Some(l) ==> keeps_attrs(l.cell, c.cell)) by {
            if front.len() > 0 {
                assert(keeps_attrs(cs[cs.len() - 2].cell, cs[cs.len() - 1].cell));
            }
        }
        lemma_replay_add(t, paint_ops(front), cell_ops(last_of(front), c));
        lemma_cell_ops(replay(t, paint_ops(front)), last_of(front), c);
    }
}

proof fn lemma_painted_add(g: Seq<Seq<Cell>>, a: Seq<Change>, b: Seq<Change>)
    ensures
        painted(g, a + b) == painted(painted(g, a), b),
    decreases b.len(),
{
    if b.len() == 0 {
        assert(a + b =~= a);
    } else {
        lemma_painted_add(g, a, b.drop_last());
        assert((a + b).drop_last() =~= a + b.drop_last());
    }
}

proof fn lemma_painted_row(g: Seq<Seq<Cell>>, cur: Seq<Cell>, y: int, n: int)
    requires
        0 <= y < g.len() <= 0xffff,
        g[y].len() == cur.len() <= 0xffff,
        0 <= n <= cur.len(),
    ensures
        painted(g, row_changes(cur, g[y], y, n)) == g.update(
            y,
            cur.take(n) + g[y].skip(n),
        ),
    decreases n,
{
    if n == 0 {
        assert(cur.take(0) + g[y].skip(0) =~= g[y]);
        assert(g.update(y, g[y]) =~= g);
    } else {
        lemma_painted_row(g, cur, y, n - 1);
        let before = row_changes(cur, g[y], y, n - 1);
        let row = cur.take(n - 1) + g[y].skip(n - 1);
        let next = cur.take(n) + g[y].skip(n);
        assert(row.update(n - 1, cur[n - 1]) =~= next);
        if cur[n - 1] == g[y][n - 1] {
            assert(row =~= next);
        } else {
            assert(row_changes(cur, g[y], y, n).drop_last() =~= before);
            assert(g.update(y, row).update(y, next) =~= g.update(y, next));
        }
    }
}

proof fn lemma_painted(cur: Seq<Seq<Cell>>, prev: Seq<Seq<Cell>>, n: int)
    requires
        same_shape(cur, prev),
        0 <= n <= cur.len(),
    ensures
        painted(prev, changes(cur, prev, n)) == cur.take(n) + prev.skip(n),
    decreases n,
{
    if n == 0 {
        assert(cur.take(0) + prev.skip(0) =~= prev);
    } else {
        lemma_painted(cur, prev, n - 1);
        let g = cur.take(n - 1) + prev.skip(n - 1);
        let y = n - 1;
        assert(g[y] == prev[y]);
        let row = row_changes(cur[y], prev[y], y, cur[y].len() as int);
        lemma_painted_add(prev, changes(cur, prev, n - 1), row);
        lemma_painted_row(g, cur[y], y, cur[y].len() as int);
        assert(cur[y].take(cur[y].len() as int) + g[y].skip(cur[y].len() as int) =~= cur[y]);
        assert(g.update(y, cur[y]) =~= cur.take(n) + prev.skip(n));
    }
}

/// What a terminal does on a command where the environment asks for no colours:
/// what is sent in place of a colour carries none, and resets the attributes.
pub open spec fn obey_uncolored(t: Terminal, op: TermOp) -> Terminal {
    match op {
        TermOp::Foreground(_) => Terminal { pen: reset_pen(), ..t },
        _ => obey(t, op),
    }
}

/// What a terminal does on a list of commands, each of which is sent with or
/// without its colour.
pub open spec fn replay_either(t: Terminal, ops: Seq<TermOp>, colors: Seq<bool>) -> Terminal
    decreases ops.len(),
{
    if ops.len() == 0 {
        t
    } else {
        let before = replay_either(t, ops.drop_last(), colors.drop_last());
        if colors.last() {
            obey(before, ops.last())
        } else {
            obey_uncolored(before, ops.last())
        }
    }
}

/// Two grids that show the same characters, whatever their styles.
pub open spec fn same_chars(a: Seq<Seq<Cell>>, b: Seq<Seq<Cell>>) -> bool {
    &&& a.len() == b.len()
    &&& forall|y: int| 0 <= y < a.len() ==> (#[trigger] a[y]).len() == b[y].len()
    &&& forall|y: int, x: int|
        0 <= y < a.len() && 0 <= x < a[y].len() ==> (#[trigger] a[y][x]).ch == b[y][x].ch
}

/// With or without colours, a terminal shows the same characters in the same
/// places.
pub proof fn law_characters_do_not_need_colors(t: Terminal, ops: Seq<TermOp>, colors: Seq<bool>)
    requires
        colors.len() == ops.len(),
    ensures
        same_chars(replay(t, ops).grid, replay_either(t, ops, colors).grid),
        replay(t, ops).x == replay_either(t, ops, colors).x,
        replay(t, ops).y == replay_either(t, ops, colors).y,
    decreases ops.len(),
{
    reveal(replay);
    if ops.len() > 0 {
        law_characters_do_not_need_colors(t, ops.drop_last(), colors.drop_last());
        let a = replay(t, ops.drop_last());
        let b = replay_either(t, ops.drop_last(), colors.drop_last());
        let (c, d) = (replay(t, ops).grid, replay_either(t, ops, colors).grid);
        if let TermOp::Print(ch) = ops.last() {
            assert forall|y: int| 0 <= y < c.len() implies (#[trigger] c[y]).len() == d[y].len() by {
                assert(a.grid[y].len() == b.grid[y].len());
            }
            assert forall|y: int, x: int| 0 <= y < c.len() && 0 <= x < c[y].len() implies (
            #[trigger] c[y][x]).ch == d[y][x].ch by {
                assert(a.grid[y].len() == b.grid[y].len());
                assert(a.grid[y][x].ch == b.grid[y][x].ch);
            }
        }
    }
}

/// Double buffering is invisible: a terminal that shows the last frame and
/// draws with no attributes shows the new frame after the commands of the
/// difference, and is left drawing with no attributes. This is where colours
/// are sent; without them the characters are the same, and the styles are not.
pub proof fn law_diff_shows_the_frame(cur: Seq<Seq<Cell>>, t: Terminal)
    requires
        same_shape(cur, t.grid),
        t.pen == reset_pen(),
        no_lost_attrs(changes(cur, t.grid, cur.len() as int)),
    ensures
        replay(t, diff_of(cur, t.grid)).grid == cur,
        replay(t, diff_of(cur, t.grid)).pen == reset_pen(),
{
    let cs = changes(cur, t.grid, cur.len() as int);
    let end = seq![TermOp::Attribute(Attr::Reset), TermOp::ResetColor];
    lemma_paint(t, cs);
    lemma_painted(cur, t.grid, cur.len() as int);
    assert(cur.take(cur.len() as int) + t.grid.skip(cur.len() as int) =~= cur);
    lemma_replay_add(t, paint_ops(cs), end);
    let u = replay(t, paint_ops(cs));
    let reset = seq![TermOp::Attribute(Attr::Reset)];
    assert(end =~= reset + seq![TermOp::ResetColor]);
    lemma_replay_add(u, reset, seq![TermOp::ResetColor]);
    lemma_replay_if(u, true, TermOp::Attribute(Attr::Reset));
    lemma_replay_if(replay(u, reset), true, TermOp::ResetColor);
}

/// A frame that equals the one on the screen draws nothing.
pub proof fn law_same_frame_draws_nothing(cur: Seq<Seq<Cell>>, n: int)
    requires
        0 <= n <= cur.len(),
    ensures
        changes(cur, cur, n).len() == 0,
        diff_of(cur, cur) =~= seq![TermOp::Attribute(Attr::Reset), TermOp::ResetColor],
{
    lemma_no_changes(cur, cur.len() as int);
    lemma_no_changes(cur, n);
}

proof fn lemma_no_changes(cur: Seq<Seq<Cell>>, n: int)
    ensures
        changes(cur, cur, n).len() == 0,
    decreases n,
{
    if n > 0 {
        lemma_no_changes(cur, n - 1);
        lemma_no_row_changes(cur[n - 1], n - 1, cur[n - 1].len() as int);
    }
}

proof fn lemma_no_row_changes(row: Seq<Cell>, y: int, n: int)
    ensures
        row_changes(row, row, y, n).len() == 0,
    decreases n,
{
    if n > 0 {
        lemma_no_row_changes(row, y, n - 1);
    }
}

/// After a screen of which nothing is known every cell of a frame is drawn.
pub proof fn law_unknown_screen_is_repainted(cur: Seq<Seq<Cell>>, w: nat, x: int, y: int)
    requires
        same_shape(cur, uniform(w, cur.len(), unknown())),
        0 <= y < cur.len(),
        0 <= x < w,
        cur[y][x].ch != '\0',
    ensures
        changes(cur, uniform(w, cur.len(), unknown()), cur.len() as int).contains(
            Change { x: x as u16, y: y as u16, cell: cur[y][x] },
        ),
{
    let prev = uniform(w, cur.len(), unknown());
    law_changes_are_the_differences(cur, prev, cur.len() as int);
    assert(prev[y][x] == unknown());
    assert(cur[y].len() == prev[y].len());
    assert(cur[y][x] != prev[y][x]);
}


/// The characters that some commands print, in their order.
pub open spec fn printed(ops: Seq<TermOp>) -> Seq<char>
    decreases ops.len(),
{
    if ops.len() == 0 {
        seq![]
    } else {
        match ops.last() {
            TermOp::Print(c) => printed(ops.drop_last()).push(c),
            _ => printed(ops.drop_last()),
        }
    }
}

proof fn lemma_printed(a: Seq<TermOp>, b: Seq<TermOp>)
    ensures
        printed(a + b) == printed(a) + printed(b),
    decreases b.len(),
{
    if b.len() == 0 {
        assert(a + b =~= a);
        assert(printed(a) + printed(b) =~= printed(a));
    } else {
        lemma_printed(a, b.drop_last());
        assert((a + b).drop_last() =~= a + b.drop_last());
        assert(printed(a + b) =~= printed(a) + printed(b));
    }
}

proof fn lemma_printed_cell(last: Option<Change>, c: Change)
    ensures
        printed(cell_ops(last, c)) == seq![c.cell.ch],
{
    let ops = cell_ops(last, c);
    let front = move_ops(last, c) + attr_ops(last, c) + color_ops(last, c);
    assert(ops.drop_last() =~= front);
    assert forall|i: int| 0 <= i < front.len() implies !((#[trigger] front[i]) is Print) by {
        let (m, a, k) = (move_ops(last, c), attr_ops(last, c), color_ops(last, c));
        if i < m.len() {
            assert(front[i] == m[i]);
        } else if i < m.len() + a.len() {
            assert(front[i] == a[i - m.len()]);
        } else {
            assert(front[i] == k[i - m.len() - a.len()]);
        }
    }
    lemma_prints_nothing(front);
    assert(printed(ops) =~= seq![c.cell.ch]);
}

proof fn lemma_prints_nothing(ops: Seq<TermOp>)
    requires
        forall|i: int| 0 <= i < ops.len() ==> !((#[trigger] ops[i]) is Print),
    ensures
        printed(ops).len() == 0,
    decreases ops.len(),
{
    if ops.len() > 0 {
        let d = ops.drop_last();
        assert forall|i: int| 0 <= i < d.len() implies !((#[trigger] d[i]) is Print) by {
            assert(d[i] == ops[i]);
        }
        lemma_prints_nothing(d);
        assert(!(ops[ops.len() - 1] is Print));
    }
}

proof fn lemma_printed_changes(cs: Seq<Change>)
    ensures
        printed(paint_ops(cs)) == Seq::new(cs.len(), |i: int| cs[i].cell.ch),
    decreases cs.len(),
{
    if cs.len() == 0 {
        assert(printed(paint_ops(cs)) =~= Seq::new(cs.len(), |i: int| cs[i].cell.ch));
    } else {
        let d = cs.drop_last();
        lemma_printed_changes(d);
        lemma_printed(paint_ops(d), cell_ops(last_of(d), cs.last()));
        lemma_printed_cell(last_of(d), cs.last());
        assert(printed(paint_ops(cs)) =~= Seq::new(cs.len(), |i: int| cs[i].cell.ch));
    }
}

/// Every cell that changed is printed once, and nothing else is printed.
pub proof fn law_only_changes_are_printed(cur: Seq<Seq<Cell>>, prev: Seq<Seq<Cell>>)
    ensures
        ({
            let cs = changes(cur, prev, cur.len() as int);
            printed(diff_of(cur, prev)) == Seq::new(cs.len(), |i: int| cs[i].cell.ch)
        }),
{
    let cs = changes(cur, prev, cur.len() as int);
    let end = seq![TermOp::Attribute(Attr::Reset), TermOp::ResetColor];
    lemma_printed(paint_ops(cs), end);
    lemma_printed_changes(cs);
    assert forall|i: int| 0 <= i < end.len() implies !((#[trigger] end[i]) is Print) by {}
    lemma_prints_nothing(end);
    assert(printed(diff_of(cur, prev)) =~= printed(paint_ops(cs)));
}

/// Right behind a cell of the same look nothing but the character is sent.
/// Elsewhere the cursor is moved first. A cell of another colour only gets its
/// colour, and one with other attributes gets all of its look anew.
pub proof fn law_little_is_sent(last: Option<Change>, c: Change)
    ensures
        ({
            let ops = cell_ops(last, c);
            let beside = last matches Some(l) && l.y == c.y && l.x + 1 == c.x;
            let alike = last matches Some(l) && l.cell.bold == c.cell.bold && l.cell.dim
                == c.cell.dim && l.cell.rev == c.cell.rev;
            &&& ops.last() == TermOp::Print(c.cell.ch)
            &&& !beside ==> ops[0] == TermOp::MoveTo(c.x, c.y)
            &&& beside && alike && last->0.cell.fg == c.cell.fg ==> ops.len() == 1
            &&& beside && alike && last->0.cell.fg != c.cell.fg && c.cell.fg != Color::Reset ==> ops
                == seq![TermOp::Foreground(c.cell.fg), TermOp::Print(c.cell.ch)]
            &&& beside && !alike ==> ops[0] == TermOp::Attribute(Attr::Reset)
        }),
{
    let ops = cell_ops(last, c);
    let beside = last matches Some(l) && l.y == c.y && l.x + 1 == c.x;
    let alike = last matches Some(l) && l.cell.bold == c.cell.bold && l.cell.dim == c.cell.dim
        && l.cell.rev == c.cell.rev;
    if beside && alike && last->0.cell.fg != c.cell.fg && c.cell.fg != Color::Reset {
        assert(ops =~= seq![TermOp::Foreground(c.cell.fg), TermOp::Print(c.cell.ch)]);
    }
}

/// A terminal puts the cursor where it is told, takes each attribute and colour
/// for what follows, and writes one character to a column.
pub proof fn law_what_a_terminal_does(t: Terminal, x: u16, y: u16, c: Color, ch: char)
    ensures
        obey(t, TermOp::MoveTo(x, y)) == (Terminal { x: x as int, y: y as int, ..t }),
        obey(t, TermOp::Attribute(Attr::Bold)).pen == (Style { bold: true, ..t.pen }),
        obey(t, TermOp::Attribute(Attr::Dim)).pen == (Style { dim: true, ..t.pen }),
        obey(t, TermOp::Attribute(Attr::Reverse)).pen == (Style { rev: true, ..t.pen }),
        obey(t, TermOp::Foreground(c)).pen == (Style { fg: c, ..t.pen }),
        obey(t, TermOp::Attribute(Attr::Reset)).pen == obey(t, TermOp::ResetColor).pen,
        obey(t, TermOp::ResetColor).pen == (Style {
            fg: Color::Reset,
            bold: false,
            dim: false,
            rev: false,
        }),
        obey(t, TermOp::Print(ch)).x == t.x + 1,
        obey(t, TermOp::Print(ch)).y == t.y,
        obey(t, TermOp::Print(ch)).pen == t.pen,
        0 <= t.y < t.grid.len() && 0 <= t.x < t.grid[t.y].len() ==> obey(
            t,
            TermOp::Print(ch),
        ).grid[t.y][t.x] == (Cell {
            ch,
            fg: t.pen.fg,
            bold: t.pen.bold,
            dim: t.pen.dim,
            rev: t.pen.rev,
        }),
{
}

} // verus!
