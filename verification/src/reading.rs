//! Measured quantities: a floating-point number, held by its bits, and the
//! text that shows it.
use vstd::prelude::*;

use crate::buffer::Color;

verus! {

/// A measured number in IEEE 754 double precision: its bits, by which it is
/// ordered, and its decimal notation with the digits that are shown.
pub struct Reading {
    pub bits: u64,
    pub text: String,
}

/// The bits without the sign.
pub open spec fn magnitude(bits: u64) -> int {
    if bits < 0x8000_0000_0000_0000 {
        bits as int
    } else {
        bits - 0x8000_0000_0000_0000
    }
}

/// The bits stand for no number.
pub open spec fn is_nan(bits: u64) -> bool {
    magnitude(bits) > 0x7ff0_0000_0000_0000
}

/// Tells whether the bits stand for no number.
pub fn not_a_number(bits: u64) -> (r: bool)
    ensures
        r == is_nan(bits),
{
    let top: u64 = 0x8000_0000_0000_0000;
    let m: u64 = if bits < top { bits } else { bits - top };
    m > 0x7ff0_0000_0000_0000
}

/// Numbers are in the order of their ranks; the two zeros have the same rank.
pub open spec fn rank(bits: u64) -> int {
    if bits < 0x8000_0000_0000_0000 {
        magnitude(bits)
    } else {
        -magnitude(bits)
    }
}

/// The bits of the number 60.
pub const SIXTY: u64 = 0x404e_0000_0000_0000;

/// The bits of the number 80.
pub const EIGHTY: u64 = 0x4054_0000_0000_0000;

/// A number is less than another. Nothing is less than what is no number, and
/// what is no number is less than nothing.
pub open spec fn less(a: u64, b: u64) -> bool {
    !is_nan(a) && !is_nan(b) && rank(a) < rank(b)
}

/// Tells whether one number is less than another.
pub fn less_than(a: u64, b: u64) -> (r: bool)
    ensures
        r == less(a, b),
{
    let top: u64 = 0x8000_0000_0000_0000;
    let ma: u64 = if a < top { a } else { a - top };
    let mb: u64 = if b < top { b } else { b - top };
    if not_a_number(a) || not_a_number(b) {
        return false;
    }
    if a < top {
        b < top && ma < mb
    } else if b < top {
        ma > 0 || mb > 0
    } else {
        mb < ma
    }
}

/// The colour of a load in percent: green below 60, yellow below 80, red from
/// there on.
pub open spec fn load_color(bits: u64) -> Color {
    if less(bits, SIXTY) {
        Color::Green
    } else if less(bits, EIGHTY) {
        Color::Yellow
    } else {
        Color::Red
    }
}

/// The colour that a load is shown in.
pub fn clr(p: u64) -> (c: Color)
    ensures
        c == load_color(p),
{
    if less_than(p, SIXTY) {
        Color::Green
    } else if less_than(p, EIGHTY) {
        Color::Yellow
    } else {
        Color::Red
    }
}


/// A load that is not negative is green below 60, yellow from 60 on, and red
/// from 80 on; below zero it is green, and what is no number is red. The limits
/// are 60 and 80 in double precision.
pub proof fn law_load_colors(bits: u64)
    ensures
        bits < 0x404e_0000_0000_0000 ==> load_color(bits) == Color::Green,
        0x404e_0000_0000_0000 <= bits < 0x4054_0000_0000_0000 ==> load_color(bits)
            == Color::Yellow,
        0x4054_0000_0000_0000 <= bits < 0x8000_0000_0000_0000 ==> load_color(bits) == Color::Red,
        0x8000_0000_0000_0000 <= bits <= 0xfff0_0000_0000_0000 ==> load_color(bits)
            == Color::Green,
        0xfff0_0000_0000_0000 < bits ==> load_color(bits) == Color::Red,
{
}

/// The order of numbers: those that are not negative are in the order of their
/// bits, negative ones in the opposite order and before them, and the two zeros
/// are the same.
pub proof fn law_order_of_numbers(a: u64, b: u64)
    requires
        !is_nan(a),
        !is_nan(b),
    ensures
        ({
            let half = 0x8000_0000_0000_0000int;
            &&& a < half && b < half ==> (less(a, b) <==> a < b)
            &&& a >= half && b >= half ==> (less(a, b) <==> b < a)
            &&& a >= half && b < half ==> (less(a, b) <==> a != half || b != 0)
            &&& a < half && b >= half ==> !less(a, b)
        }),
{
}

/// What is no number has all bits of the exponent set and some bit behind them.
pub proof fn law_what_is_no_number(bits: u64)
    ensures
        is_nan(bits) <==> 0x7ff0_0000_0000_0000 < bits < 0x8000_0000_0000_0000
            || 0xfff0_0000_0000_0000 < bits,
{
}

} // verus!
