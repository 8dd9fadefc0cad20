//! Whole numbers in decimal notation.
use vstd::prelude::*;

use crate::text;

verus! {

/// What is left of `a` after taking `b` away, and at least zero.
pub open spec fn rest(a: int, b: int) -> int {
    if a < b {
        0
    } else {
        a - b
    }
}

/// The character that stands for one decimal digit.
pub open spec fn digit_char(d: int) -> char {
    ('0' as int + d) as char
}

/// A decimal digit.
pub open spec fn is_digit(c: char) -> bool {
    '0' <= c <= '9'
}

/// The decimal notation of a number, without leading zeros.
pub open spec fn decimal_of(n: nat) -> Seq<char>
    decreases n,
{
    if n < 10 {
        seq![digit_char(n as int)]
    } else {
        decimal_of(n / 10).push(digit_char((n % 10) as int))
    }
}

/// Every character is a decimal digit.
pub open spec fn all_digits(s: Seq<char>) -> bool {
    forall|i: int| 0 <= i < s.len() ==> is_digit(#[trigger] s[i])
}

/// The number that a row of digits denotes.
pub open spec fn value_of(s: Seq<char>) -> nat
    decreases s.len(),
{
    if s.len() == 0 {
        0
    } else {
        value_of(s.drop_last()) * 10 + (s.last() as int - '0' as int) as nat
    }
}

/// A text without the sign `c` that it may begin with.
pub open spec fn unsigned_part(s: Seq<char>, c: char) -> Seq<char> {
    if s.len() > 0 && s[0] == c {
        s.drop_first()
    } else {
        s
    }
}

/// What a text denotes as an unsigned number of at most `max`: digits only,
/// after an optional plus sign.
pub open spec fn unsigned_of(s: Seq<char>, max: nat) -> Option<nat> {
    let d = unsigned_part(s, '+');
    if d.len() > 0 && all_digits(d) && value_of(d) <= max {
        Some(value_of(d))
    } else {
        None
    }
}

/// What a text denotes as a signed 32-bit number: digits only, after an
/// optional sign.
pub open spec fn signed_of(s: Seq<char>) -> Option<int> {
    if s.len() > 0 && s[0] == '-' {
        let d = s.drop_first();
        if d.len() > 0 && all_digits(d) && value_of(d) <= 0x8000_0000 {
            Some(-(value_of(d) as int))
        } else {
            None
        }
    } else {
        match unsigned_of(s, 0x7fff_ffff) {
            Some(n) => Some(n as int),
            None => None,
        }
    }
}

/// Reads the number that a row of digits denotes, where it is at most `max`.
fn digits(v: &Vec<char>, from: usize, max: u64) -> (r: Option<u64>)
    requires
        from <= v@.len(),
    ensures
        ({
            let d = v@.subrange(from as int, v@.len() as int);
            r == if d.len() > 0 && all_digits(d) && value_of(d) <= max {
                Some(value_of(d) as u64)
            } else {
                None
            }
        }),
{
    if from == v.len() {
        return None;
    }
    let ghost d = v@.subrange(from as int, v@.len() as int);
    let mut n: u64 = 0;
    for i in from..v.len()
        invariant
            from <= v@.len(),
            d == v@.subrange(from as int, v@.len() as int),
            all_digits(d.take(i - from)),
            n == value_of(d.take(i - from)),
            n <= max,
    {
        let c: char = v[i];
        let ghost next = d.take(i + 1 - from);
        proof {
            assert(next.drop_last() =~= d.take(i - from));
            assert(next.last() == c);
            assert(d[i - from] == c);
            lemma_value_grows(d, (i + 1 - from) as nat);
        }
        if !('0' <= c && c <= '9') {
            return None;
        }
        assert(all_digits(next)) by {
            assert forall|j: int| 0 <= j < next.len() implies is_digit(#[trigger] next[j]) by {
                if j < i - from {
                    assert(next[j] == d.take(i - from)[j]);
                }
            }
        }
        let x: u64 = c as u64 - '0' as u64;
        let wide: u128 = n as u128 * 10 + x as u128;
        assert(wide == value_of(next));
        if wide > max as u128 {
            assert(value_of(d) > max || !all_digits(d));
            return None;
        }
        n = wide as u64;
    }
    assert(d.take(d.len() as int) =~= d);
    Some(n)
}

/// A row of digits denotes at least what any beginning of it denotes.
proof fn lemma_value_grows(d: Seq<char>, k: nat)
    requires
        k <= d.len(),
    ensures
        all_digits(d) ==> value_of(d.take(k as int)) <= value_of(d),
    decreases d.len(),
{
    if all_digits(d) {
        if k == d.len() {
            assert(d.take(k as int) =~= d);
        } else {
            let e = d.drop_last();
            assert(all_digits(e)) by {
                assert forall|j: int| 0 <= j < e.len() implies is_digit(#[trigger] e[j]) by {
                    assert(e[j] == d[j]);
                }
            }
            lemma_value_grows(e, k);
            assert(e.take(k as int) =~= d.take(k as int));
            assert(is_digit(d[d.len() - 1]));
        }
    }
}

/// Reads an unsigned 64-bit number.
pub fn parse_u64(s: &str) -> (r: Option<u64>)
    ensures
        r == match unsigned_of(s@, u64::MAX as nat) {
            Some(n) => Some(n as u64),
            None => None,
        },
{
    unsigned(s, u64::MAX)
}

fn unsigned(s: &str, max: u64) -> (r: Option<u64>)
    ensures
        r == match unsigned_of(s@, max as nat) {
            Some(n) => Some(n as u64),
            None => None,
        },
        r matches Some(n) ==> n <= max && unsigned_of(s@, max as nat) == Some(n as nat),
{
    let v = text::chars(s);
    assert(v@.subrange(0, v@.len() as int) =~= v@);
    if v.len() > 0 && v[0] == '+' {
        assert(v@.drop_first() =~= v@.subrange(1, v@.len() as int));
        digits(&v, 1, max)
    } else {
        digits(&v, 0, max)
    }
}

/// Reads an unsigned 32-bit number.
pub fn parse_u32(s: &str) -> (r: Option<u32>)
    ensures
        r == match unsigned_of(s@, u32::MAX as nat) {
            Some(n) => Some(n as u32),
            None => None,
        },
{
    match unsigned(s, 0xffff_ffff) {
        Some(n) => Some(n as u32),
        None => None,
    }
}

/// Reads a signed 32-bit number.
pub fn parse_i32(s: &str) -> (r: Option<i32>)
    ensures
        r == match signed_of(s@) {
            Some(n) => Some(n as i32),
            None => None,
        },
{
    let v = text::chars(s);
    if v.len() > 0 && v[0] == '-' {
        assert(v@.drop_first() =~= v@.subrange(1, v@.len() as int));
        match digits(&v, 1, 0x8000_0000) {
            Some(n) => Some((0i64 - n as i64) as i32),
            None => None,
        }
    } else {
        match unsigned(s, 0x7fff_ffff) {
            Some(n) => Some(n as i32),
            None => None,
        }
    }
}

/// Writes a number in decimal notation.
pub fn decimal(n: u64) -> (s: String)
    ensures
        s@ == decimal_of(n as nat),
    decreases n,
{
    let d: u8 = (n % 10) as u8;
    let c: char = (48 + d) as char;
    assert(c == digit_char((n % 10) as int));
    if n < 10 {
        let mut s: String = String::new();
        s.push(c);
        assert(s@ =~= seq![c]);
        s
    } else {
        let mut s = decimal(n / 10);
        s.push(c);
        s
    }
}

/// The decimal notation of a number that may be negative.
pub open spec fn signed_decimal_of(n: int) -> Seq<char> {
    if n < 0 {
        seq!['-'] + decimal_of((-n) as nat)
    } else {
        decimal_of(n as nat)
    }
}

/// Writes a signed number in decimal notation.
pub fn signed_decimal(n: i32) -> (s: String)
    ensures
        s@ == signed_decimal_of(n as int),
{
    if n < 0 {
        let mut s: String = String::new();
        s.push('-');
        assert(s@ =~= seq!['-']);
        s.append(decimal((0i64 - n as i64) as u64).as_str());
        s
    } else {
        decimal(n as u64)
    }
}

/// Decimal notation loses nothing: reading it back gives the number.
pub proof fn law_decimal_reads_back(n: nat, max: nat)
    requires
        n <= max,
    ensures
        unsigned_of(decimal_of(n), max) == Some(n),
{
    lemma_decimal(n);
    assert(is_digit(decimal_of(n)[0]));
}

proof fn lemma_decimal(n: nat)
    ensures
        decimal_of(n).len() > 0,
        all_digits(decimal_of(n)),
        value_of(decimal_of(n)) == n,
    decreases n,
{
    let s = decimal_of(n);
    if n < 10 {
        assert(s.drop_last() =~= seq![]);
        assert(value_of(s.drop_last()) == 0);
    } else {
        lemma_decimal(n / 10);
        assert(s.drop_last() =~= decimal_of(n / 10));
    }
}

proof fn lemma_digits(n: nat, k: nat)
    requires
        n < vstd::arithmetic::power::pow(10, k),
        k >= 1,
    ensures
        decimal_of(n).len() <= k,
    decreases k,
{
    if n >= 10 {
        reveal_with_fuel(vstd::arithmetic::power::pow, 2);
        if k == 1 {
            assert(vstd::arithmetic::power::pow(10, 0) == 1);
        } else {
            assert(n / 10 < vstd::arithmetic::power::pow(10, (k - 1) as nat));
            lemma_digits(n / 10, (k - 1) as nat);
        }
    }
}

/// A 64-bit number has at most twenty digits.
pub proof fn lemma_decimal_len(n: nat)
    requires
        n <= u64::MAX,
    ensures
        1 <= decimal_of(n).len() <= 20,
{
    reveal_with_fuel(vstd::arithmetic::power::pow, 21);
    assert(vstd::arithmetic::power::pow(10, 20) == 100_000_000_000_000_000_000);
    lemma_digits(n, 20);
}


/// What is left of an amount, or nothing.
pub proof fn law_rest_is_the_difference(a: int, b: int)
    ensures
        b <= a ==> rest(a, b) + b == a,
        a <= b ==> rest(a, b) == 0,
{
}

/// A decimal notation is the notation of the tenths and the digit of the ones.
pub proof fn law_decimal_digits(n: nat)
    ensures
        n < 10 ==> decimal_of(n).len() == 1,
        n >= 10 ==> decimal_of(n).drop_last() == decimal_of(n / 10),
        decimal_of(n).last() as int == 48 + n % 10,
{
    if n >= 10 {
        assert(decimal_of(n).drop_last() =~= decimal_of(n / 10));
    }
}

/// A digit behind a number is worth its ones, and the number ten times as much
/// as before, as long as that is not too large.
pub proof fn law_digits_count_by_tens(s: Seq<char>, c: char, v: nat, max: nat)
    requires
        unsigned_of(s, max) == Some(v),
        48 <= c as int <= 57,
    ensures
        10 * v + (c as int - 48) <= max ==> unsigned_of(s.push(c), max) == Some(
            (10 * v + (c as int - 48)) as nat,
        ),
        10 * v + (c as int - 48) > max ==> unsigned_of(s.push(c), max) is None,
{
    let t = s.push(c);
    let (d, e) = (unsigned_part(s, '+'), unsigned_part(t, '+'));
    assert(e =~= d.push(c));
    assert(e.drop_last() =~= d);
    assert forall|i: int| 0 <= i < e.len() implies is_digit(#[trigger] e[i]) by {
        if i < d.len() {
            assert(is_digit(d[i]));
        }
    }
}

/// One digit denotes itself, with or without a plus sign before it.
pub proof fn law_one_digit(c: char, max: nat)
    requires
        48 <= c as int <= 57,
        max >= 9,
    ensures
        unsigned_of(seq![c], max) == Some((c as int - 48) as nat),
        unsigned_of(seq!['+', c], max) == Some((c as int - 48) as nat),
{
    reveal_with_fuel(value_of, 2);
    assert(unsigned_part(seq![c], '+') =~= seq![c]);
    assert(unsigned_part(seq!['+', c], '+') =~= seq![c]);
    assert(seq![c].drop_last() =~= seq![]);
    assert(value_of(seq![c]) == (c as int - 48) as nat);
    assert(all_digits(seq![c]));
}

/// Nothing but digits, after at most one sign, denotes a number.
pub proof fn law_numbers_are_digits(s: Seq<char>, max: nat, i: int)
    ensures
        s.len() == 0 ==> unsigned_of(s, max) is None && signed_of(s) is None,
        0 < i < s.len() && !(48 <= s[i] as int <= 57) ==> unsigned_of(s, max) is None && signed_of(
            s,
        ) is None,
        s.len() > 0 && !(48 <= s[0] as int <= 57) && s[0] != '+' ==> unsigned_of(s, max) is None,
        s.len() > 0 && !(48 <= s[0] as int <= 57) && s[0] != '+' && s[0] != '-' ==> signed_of(
            s,
        ) is None,
        s.len() == 1 && !(48 <= s[0] as int <= 57) ==> unsigned_of(s, max) is None && signed_of(
            s,
        ) is None,
{
    let d = unsigned_part(s, '+');
    let e = s.drop_first();
    if 0 < i < s.len() && !(48 <= s[i] as int <= 57) {
        assert(e[i - 1] == s[i]);
        if all_digits(e) {
            assert(is_digit(e[i - 1]));
        }
        if all_digits(s) {
            assert(is_digit(s[i]));
        }
    }
    if s.len() > 0 && all_digits(s) {
        assert(is_digit(s[0]));
    }
}

/// A minus sign denotes the negative of what follows it, down to the least
/// number of 32 bits; without one the number is that without a sign.
pub proof fn law_minus_negates(s: Seq<char>, v: nat)
    requires
        s.len() > 0,
        48 <= s[0] as int <= 57,
        unsigned_of(s, 0x8000_0000) == Some(v),
    ensures
        signed_of(seq!['-'] + s) == Some(-(v as int)),
        v <= 0x7fff_ffff ==> signed_of(s) == Some(v as int),
        v > 0x7fff_ffff ==> signed_of(s) is None,
{
    let t = seq!['-'] + s;
    assert(t.drop_first() =~= s);
    assert(unsigned_part(s, '+') == s);
}

/// A negative number is written with a minus sign, every other one without.
pub proof fn law_signed_notation(n: int)
    ensures
        n >= 0 ==> signed_decimal_of(n) == decimal_of(n as nat),
        n < 0 ==> signed_decimal_of(n).len() > 0 && signed_decimal_of(n)[0] == '-'
            && signed_decimal_of(n).drop_first() == decimal_of((-n) as nat),
{
    if n < 0 {
        assert(signed_decimal_of(n).drop_first() =~= decimal_of((-n) as nat));
    }
}

} // verus!
