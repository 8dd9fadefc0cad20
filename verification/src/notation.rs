//! How amounts, durations and process states are written.
use vstd::prelude::*;

use crate::buffer::Color;
use crate::number;
use crate::number::{decimal_of, digit_char};

verus! {

/// The whole number nearest to `a / b`; of two that are equally near, the even
/// one.
pub open spec fn half_even(a: nat, b: nat) -> nat {
    let q = a / b;
    let r = a % b;
    if 2 * r > b || (2 * r == b && q % 2 == 1) {
        q + 1
    } else {
        q
    }
}

/// How far apart the numbers of double precision are at `n`: 53 binary digits
/// are kept.
pub open spec fn spacing(n: nat) -> nat
    decreases n,
{
    if n < 0x20_0000_0000_0000 {
        1
    } else {
        2 * spacing(n / 2)
    }
}

/// The number of double precision that is nearest to `n`.
pub open spec fn as_double(n: nat) -> nat {
    half_even(n, spacing(n)) * spacing(n)
}

/// A number below 100 with two digits.
pub open spec fn two_digits(n: int) -> Seq<char> {
    seq![digit_char(n / 10), digit_char(n % 10)]
}

/// An amount of memory: gigabytes with two decimals, whole megabytes, or
/// kilobytes.
pub open spec fn mem_text(kb: nat) -> Seq<char> {
    if kb >= 1_048_576 {
        let n = half_even(as_double(kb) * 100, 1_048_576);
        decimal_of(n / 100) + "."@ + two_digits((n % 100) as int) + "GB"@
    } else if kb >= 1024 {
        decimal_of(half_even(kb, 1024)) + "MB"@
    } else {
        decimal_of(kb) + "KB"@
    }
}

fn nearest(a: u128, b: u128) -> (n: u128)
    requires
        0 < b <= 0xffff_ffff,
    ensures
        n == half_even(a as nat, b as nat),
        n * b <= a + b,
{
    let q: u128 = a / b;
    let r: u128 = a % b;
    proof {
        vstd::arithmetic::div_mod::lemma_fundamental_div_mod(a as int, b as int);
        assert(b * q == q * b) by (nonlinear_arith);
        assert((q + 1) * b == q * b + b) by (nonlinear_arith);
        assert(q <= a) by (nonlinear_arith)
            requires
                q * b <= a,
                b >= 1,
        ;
        assert(a == u128::MAX && q == a ==> b == 1) by (nonlinear_arith)
            requires
                q * b <= a,
                b >= 1,
                a >= 0,
        ;
        if b == 1 {
            assert(r == 0);
        }
    }
    if 2 * r > b || (2 * r == b && q % 2 == 1) {
        q + 1
    } else {
        q
    }
}

proof fn lemma_spacing(n: nat)
    requires
        n <= u64::MAX,
    ensures
        1 <= spacing(n) <= 0x800,
{
    reveal_with_fuel(spacing, 13);
}

fn double(n: u64) -> (d: u128)
    ensures
        d == as_double(n as nat),
        d <= 0x1_0000_0000_0000_0800,
{
    proof {
        lemma_spacing(n as nat);
    }
    let mut unit: u128 = 1;
    let mut m: u64 = n;
    while m >= 0x20_0000_0000_0000
        invariant
            1 <= unit <= 0x800,
            spacing(n as nat) == unit * spacing(m as nat),
            spacing(n as nat) <= 0x800,
        decreases m,
    {
        proof {
            lemma_spacing(m as nat / 2);
            assert(unit * (2 * spacing(m as nat / 2)) == (unit * 2) * spacing(m as nat / 2))
                by (nonlinear_arith);
            assert(unit * 2 <= (unit * 2) * spacing(m as nat / 2)) by (nonlinear_arith)
                requires
                    spacing(m as nat / 2) >= 1,
                    unit >= 1,
            ;
        }
        unit = unit * 2;
        m = m / 2;
    }
    assert(unit * 1 == unit);
    nearest(n as u128, unit) * unit
}

fn push_two(s: &mut String, n: u64)
    requires
        n < 100,
    ensures
        final(s)@ == old(s)@ + two_digits(n as int),
{
    let hi: u8 = (n / 10) as u8;
    let lo: u8 = (n % 10) as u8;
    let a: char = (48 + hi) as char;
    let b: char = (48 + lo) as char;
    assert(a == digit_char((n / 10) as int));
    assert(b == digit_char((n % 10) as int));
    s.push(a);
    s.push(b);
    assert(s@ =~= old(s)@ + two_digits(n as int));
}

/// Writes an amount of memory that is given in kibibytes.
pub fn fmt_mem(kb: u64) -> (s: String)
    ensures
        s@ == mem_text(kb as nat),
{
    if kb >= 1_048_576 {
        let n: u128 = nearest(double(kb) * 100, 1_048_576);
        let whole: u64 = (n / 100) as u64;
        let part: u64 = (n % 100) as u64;
        let mut s = number::decimal(whole);
        s.append(".");
        push_two(&mut s, part);
        s.append("GB");
        s
    } else if kb >= 1024 {
        let n: u128 = nearest(kb as u128, 1024);
        let mut s = number::decimal(n as u64);
        s.append("MB");
        s
    } else {
        let mut s = number::decimal(kb);
        s.append("KB");
        s
    }
}

/// An amount of memory takes at most 25 characters.
pub proof fn lemma_mem_len(kb: nat)
    requires
        kb <= u64::MAX,
    ensures
        1 <= mem_text(kb).len() <= 25,
{
    reveal_strlit(".");
    reveal_strlit("GB");
    reveal_strlit("MB");
    reveal_strlit("KB");
    if kb >= 1_048_576 {
        let n = half_even(as_double(kb) * 100, 1_048_576);
        lemma_spacing(kb);
        let u = spacing(kb);
        let q = kb / u;
        assert(q * u <= kb) by (nonlinear_arith)
            requires
                q == kb / u,
                u >= 1,
        ;
        assert((q + 1) * u == q * u + u) by (nonlinear_arith);
        assert(as_double(kb) <= kb + u);
        assert(n <= u64::MAX);
        number::lemma_decimal_len(n / 100);
    } else if kb >= 1024 {
        number::lemma_decimal_len(half_even(kb, 1024));
    } else {
        number::lemma_decimal_len(kb);
    }
}

/// How long a system has been up: days, hours and minutes, or hours, minutes
/// and seconds on its first day.
pub open spec fn up_text(s: nat) -> Seq<char> {
    let d = s / 86400;
    let h = two_digits((s % 86400) as int / 3600);
    let m = two_digits((s % 3600) as int / 60);
    if d > 0 {
        decimal_of(d) + "d "@ + h + ":"@ + m
    } else {
        h + ":"@ + m + ":"@ + two_digits((s % 60) as int)
    }
}

/// Writes how long a system has been up, in seconds.
pub fn fmt_up(s: u64) -> (r: String)
    ensures
        r@ == up_text(s as nat),
{
    let d: u64 = s / 86400;
    let h: u64 = (s % 86400) / 3600;
    let m: u64 = (s % 3600) / 60;
    if d > 0 {
        let mut r = number::decimal(d);
        r.append("d ");
        push_two(&mut r, h);
        r.append(":");
        push_two(&mut r, m);
        r
    } else {
        let mut r = String::new();
        push_two(&mut r, h);
        assert(r@ =~= two_digits(h as int));
        r.append(":");
        push_two(&mut r, m);
        r.append(":");
        push_two(&mut r, s % 60);
        r
    }
}

/// The colour of a process state.
pub open spec fn state_color(c: char) -> Color {
    match c {
        'R' => Color::Green,
        'S' => Color::Cyan,
        'D' => Color::Yellow,
        'Z' => Color::Red,
        _ => Color::DarkGrey,
    }
}

/// The colour that a process state is shown in.
pub fn state_col(c: char) -> (r: Color)
    ensures
        r == state_color(c),
{
    match c {
        'R' => Color::Green,
        'S' => Color::Cyan,
        'D' => Color::Yellow,
        'Z' => Color::Red,
        _ => Color::DarkGrey,
    }
}

/// The name of a process state.
pub open spec fn state_text(c: char) -> Seq<char> {
    match c {
        'R' => "RUN"@,
        'S' => "SLP"@,
        'D' => "DSK"@,
        'Z' => "ZMB"@,
        'T' => "STP"@,
        _ => "???"@,
    }
}

/// The name that a process state is shown by.
pub fn state_lbl(c: char) -> (s: &'static str)
    ensures
        s@ == state_text(c),
{
    match c {
        'R' => "RUN",
        'S' => "SLP",
        'D' => "DSK",
        'Z' => "ZMB",
        'T' => "STP",
        _ => "???",
    }
}


/// Less than a megabyte is written in kilobytes, as it is.
pub proof fn law_kilobytes(kb: nat)
    requires
        kb < 1024,
    ensures
        mem_text(kb) == decimal_of(kb) + "KB"@,
{
}

/// Less than a gigabyte is written in whole megabytes, of which none are
/// nearer; halfway between two it is the even one.
pub proof fn law_megabytes(kb: nat) -> (n: nat)
    requires
        1024 <= kb < 1024 * 1024,
    ensures
        mem_text(kb) == decimal_of(n) + "MB"@,
        kb <= 1024 * n + 512,
        1024 * n <= kb + 512,
        kb == 1024 * n + 512 || 1024 * n == kb + 512 ==> n % 2 == 0,
{
    half_even(kb, 1024)
}

/// A gigabyte or more is written in hundredths of a gigabyte, with a point
/// before the last two digits; none are nearer, and halfway between two it is
/// the even one. This holds of amounts that double precision can tell apart.
pub proof fn law_gigabytes(kb: nat) -> (n: nat)
    requires
        1024 * 1024 <= kb < 0x20_0000_0000_0000,
    ensures
        mem_text(kb) == decimal_of(n / 100) + "."@ + seq![
            (48 + n % 100 / 10) as char,
            (48 + n % 10) as char,
        ] + "GB"@,
        200 * kb <= 2_097_152 * n + 1_048_576,
        2_097_152 * n <= 200 * kb + 1_048_576,
        200 * kb == 2_097_152 * n + 1_048_576 || 2_097_152 * n == 200 * kb
            + 1_048_576 ==> n % 2 == 0,
{
    assert(spacing(kb) == 1);
    assert(half_even(kb, 1) == kb) by {
        assert(kb / 1 == kb && kb % 1 == 0);
    }
    assert(as_double(kb) == kb);
    let n = half_even(kb * 100, 1_048_576);
    assert((n % 100) % 10 == n % 10);
    assert(two_digits((n % 100) as int) =~= seq![
        (48 + n % 100 / 10) as char,
        (48 + n % 10) as char,
    ]);
    n
}

/// An even larger amount is first brought to the nearest number of double
/// precision: of 53 binary digits, and the even one halfway between two.
pub proof fn law_double_precision(n: nat) -> (r: (nat, nat))
    requires
        n <= u64::MAX,
    ensures
        as_double(n) == r.0 * r.1,
        n < 0x20_0000_0000_0000 ==> as_double(n) == n,
        n >= 0x20_0000_0000_0000 ==> 0x10_0000_0000_0000 * r.1 <= n < 0x20_0000_0000_0000 * r.1,
        2 * as_double(n) <= 2 * n + r.1,
        2 * n <= 2 * as_double(n) + r.1,
{
    let u = spacing(n);
    lemma_spacing(n);
    if n >= 0x20_0000_0000_0000 {
        lemma_spacing_fits(n);
    }
    let q = n / u;
    let e = n % u;
    vstd::arithmetic::div_mod::lemma_fundamental_div_mod(n as int, u as int);
    assert(u * q == q * u) by (nonlinear_arith);
    assert((q + 1) * u == q * u + u) by (nonlinear_arith);
    let m = half_even(n, u);
    if n < 0x20_0000_0000_0000 {
        assert(u == 1);
        assert(n / 1 == n && n % 1 == 0);
        assert(m * 1 == m);
    }
    (m, u)
}

proof fn lemma_spacing_fits(n: nat)
    requires
        n >= 0x20_0000_0000_0000,
    ensures
        0x10_0000_0000_0000 * spacing(n) <= n < 0x20_0000_0000_0000 * spacing(n),
    decreases n,
{
    let h = n / 2;
    if h >= 0x20_0000_0000_0000 {
        lemma_spacing_fits(h);
    } else {
        assert(spacing(h) == 1);
    }
    assert(spacing(n) == 2 * spacing(h));
}

/// How long a system has been up is written in days, hours and minutes, or on
/// the first day in hours, minutes and seconds, of which each has two digits and
/// is less than a day's, an hour's or a minute's share; together they are the
/// time.
pub proof fn law_time_since_the_start(s: nat) -> (r: (nat, nat, nat, nat))
    ensures
        s == 86400 * r.0 + 3600 * r.1 + 60 * r.2 + r.3,
        r.1 < 24,
        r.2 < 60,
        r.3 < 60,
        ({
            let two = |n: nat| seq![(48 + n / 10) as char, (48 + n % 10) as char];
            &&& r.0 > 0 ==> up_text(s) == decimal_of(r.0) + "d "@ + two(r.1) + ":"@ + two(r.2)
            &&& r.0 == 0 ==> up_text(s) == two(r.1) + ":"@ + two(r.2) + ":"@ + two(r.3)
        }),
{
    let r = (s / 86400, s % 86400 / 3600, s % 3600 / 60, s % 60);
    assert(s % 86400 % 3600 == s % 3600);
    assert(s % 3600 % 60 == s % 60);
    let two = |n: nat| seq![(48 + n / 10) as char, (48 + n % 10) as char];
    assert(two_digits((s % 86400) as int / 3600) =~= two(r.1));
    assert(two_digits((s % 3600) as int / 60) =~= two(r.2));
    assert(two_digits((s % 60) as int) =~= two(r.3));
    r
}

/// Each state of a process has a name of three letters and a colour of its own;
/// a stopped process has only a name.
pub proof fn law_states(c: char)
    ensures
        c == 'R' ==> state_text(c) == "RUN"@ && state_color(c) == Color::Green,
        c == 'S' ==> state_text(c) == "SLP"@ && state_color(c) == Color::Cyan,
        c == 'D' ==> state_text(c) == "DSK"@ && state_color(c) == Color::Yellow,
        c == 'Z' ==> state_text(c) == "ZMB"@ && state_color(c) == Color::Red,
        c == 'T' ==> state_text(c) == "STP"@ && state_color(c) == Color::DarkGrey,
        c != 'R' && c != 'S' && c != 'D' && c != 'Z' && c != 'T' ==> state_text(c) == "???"@
            && state_color(c) == Color::DarkGrey,
{
}

} // verus!
