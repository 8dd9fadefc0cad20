//! Temperatures, clock rates and graphics processors.
use vstd::prelude::*;

use crate::number;
use crate::text;
use crate::text::{pieces, texts, trim_of};

verus! {

/// The number that a text denotes, white space at its ends aside.
pub open spec fn trimmed_number(s: Seq<char>) -> Option<nat> {
    number::unsigned_of(trim_of(s), u64::MAX as nat)
}

fn read_number(s: &str) -> (r: Option<u64>)
    ensures
        r == match trimmed_number(s@) {
            Some(n) => Some(n as u64),
            None => None,
        },
        r is Some ==> trimmed_number(s@)->0 <= u64::MAX,
{
    number::parse_u64(text::trim(s).as_str())
}

/// The temperature that a sensor reports, in thousandths of a degree, if it is
/// between one degree and 120 degrees.
pub open spec fn temp_of(s: Seq<char>) -> Option<u64> {
    match trimmed_number(s) {
        Some(n) => if 1000 < n < 120000 {
            Some(n as u64)
        } else {
            None
        },
        None => None,
    }
}

/// Reads a temperature in thousandths of a degree.
pub fn plausible_temp(s: &str) -> (r: Option<u64>)
    ensures
        r == temp_of(s@),
{
    match read_number(s) {
        Some(n) => if 1000 < n && n < 120000 {
            Some(n)
        } else {
            None
        },
        None => None,
    }
}

/// The first temperature among what some sensors report.
pub open spec fn first_temp_of(s: Seq<Seq<char>>) -> Option<u64>
    decreases s.len(),
{
    if s.len() == 0 {
        None
    } else {
        match first_temp_of(s.drop_last()) {
            Some(t) => Some(t),
            None => temp_of(s.last()),
        }
    }
}

/// Reads the first temperature among what some sensors report.
pub fn first_temp(sensors: &Vec<String>) -> (r: Option<u64>)
    ensures
        r == first_temp_of(texts(sensors@)),
{
    let ghost all = texts(sensors@);
    let mut r: Option<u64> = None;
    for i in 0..sensors.len()
        invariant
            all == texts(sensors@),
            r == first_temp_of(all.take(i as int)),
    {
        proof {
            let next = all.take(i + 1);
            assert(next.drop_last() =~= all.take(i as int));
            assert(next.last() == sensors@[i as int]@);
        }
        if r.is_none() {
            r = plausible_temp(sensors[i].as_str());
        }
    }
    assert(all.take(all.len() as int) =~= all);
    r
}

/// The clock rates in megahertz, up to the first text that denotes none; the
/// texts give them in kilohertz.
pub open spec fn freqs_of(s: Seq<Seq<char>>) -> Seq<u64>
    decreases s.len(),
{
    if s.len() == 0 {
        seq![]
    } else {
        match trimmed_number(s[0]) {
            Some(n) => seq![(n / 1000) as u64] + freqs_of(s.drop_first()),
            None => seq![],
        }
    }
}

/// Reads the clock rates of the processors.
pub fn parse_freqs(s: &Vec<String>) -> (out: Vec<u64>)
    ensures
        out@ == freqs_of(texts(s@)),
{
    let ghost all = texts(s@);
    let mut out: Vec<u64> = Vec::new();
    assert(all.skip(0) =~= all);
    for i in 0..s.len()
        invariant
            all == texts(s@),
            freqs_of(all) == out@ + freqs_of(all.skip(i as int)),
    {
        assert(all.skip(i as int).drop_first() =~= all.skip(i + 1));
        assert(all[i as int] == s@[i as int]@);
        let ghost before = out@;
        match read_number(s[i].as_str()) {
            Some(n) => {
                out.push(n / 1000);
                proof {
                    assert(n == trimmed_number(all[i as int])->0);
                    assert(out@ + freqs_of(all.skip(i + 1)) =~= before + (seq![n / 1000]
                        + freqs_of(all.skip(i + 1))));
                }
            },
            None => {
                assert(out@ + seq![] =~= out@);
                return out;
            },
        }
    }
    assert(out@ + freqs_of(all.skip(all.len() as int)) =~= out@);
    out
}

/// The sum of some numbers.
pub open spec fn sum_of(s: Seq<u64>) -> nat
    decreases s.len(),
{
    if s.len() == 0 {
        0
    } else {
        sum_of(s.drop_last()) + s.last() as nat
    }
}

proof fn lemma_sum_grows(s: Seq<u64>, k: int)
    requires
        0 <= k <= s.len(),
    ensures
        sum_of(s.take(k)) <= sum_of(s),
    decreases s.len(),
{
    if k == s.len() {
        assert(s.take(k) =~= s);
    } else {
        lemma_sum_grows(s.drop_last(), k);
        assert(s.drop_last().take(k) =~= s.take(k));
    }
}

/// The mean of some numbers, rounded down; zero where there is none.
pub open spec fn mean_of(s: Seq<u64>) -> nat {
    if s.len() == 0 {
        0
    } else {
        sum_of(s) / s.len()
    }
}

/// Adds up some numbers, where the sum can be counted in 64 bits.
pub fn sum(s: &Vec<u64>) -> (r: Option<u64>)
    ensures
        r == if sum_of(s@) <= u64::MAX {
            Some(sum_of(s@) as u64)
        } else {
            None
        },
{
    let mut t: u64 = 0;
    for i in 0..s.len()
        invariant
            t == sum_of(s@.take(i as int)),
    {
        proof {
            assert(s@.take(i + 1).drop_last() =~= s@.take(i as int));
            lemma_sum_grows(s@, i + 1);
        }
        match t.checked_add(s[i]) {
            Some(n) => {
                t = n;
            },
            None => {
                return None;
            },
        }
    }
    assert(s@.take(s@.len() as int) =~= s@);
    Some(t)
}

/// The mean of some numbers, rounded down.
pub fn mean(s: &Vec<u64>) -> (r: u64)
    requires
        sum_of(s@) <= u64::MAX,
    ensures
        r == mean_of(s@),
{
    if s.len() == 0 {
        return 0;
    }
    match sum(s) {
        Some(t) => t / (s.len() as u64),
        None => 0,
    }
}

/// What a line of five fields or more says about a graphics processor. Load
/// and temperature are the texts that denote them.
pub struct GpuLine {
    pub name: String,
    pub load: String,
    pub mem_used: u64,
    pub mem_total: u64,
    pub temp: String,
}

/// The fields of a line, which commas part.
pub open spec fn gpu_fields(s: Seq<char>) -> Seq<Seq<char>> {
    let p = pieces(trim_of(s), ',');
    Seq::new(p.len(), |i: int| trim_of(p[i]))
}

/// The number that a text denotes, or zero.
pub open spec fn number_or_zero(s: Seq<char>) -> nat {
    match number::unsigned_of(s, u64::MAX as nat) {
        Some(n) => n,
        None => 0,
    }
}

fn or_zero(r: Option<u64>) -> (n: u64)
    ensures
        n == match r {
            Some(k) => k,
            None => 0,
        },
{
    match r {
        Some(k) => k,
        None => 0,
    }
}

/// A line says something about a graphics processor: it has five fields or more
/// and begins with a name.
pub open spec fn names_gpu(s: Seq<char>) -> bool {
    gpu_fields(s).len() >= 5 && gpu_fields(s)[0].len() > 0
}

impl GpuLine {
    /// The fields are those of a line.
    pub open spec fn is_of(self, s: Seq<char>) -> bool {
        let f = gpu_fields(s);
        &&& self.name@ == f[0]
        &&& self.load@ == f[1]
        &&& self.mem_used == number_or_zero(f[2])
        &&& self.mem_total == number_or_zero(f[3])
        &&& self.temp@ == f[4]
    }
}

/// Reads the line that a driver prints about a graphics processor: its name,
/// its load, the memory in use and in all, and its temperature.
pub fn parse_gpu_line(s: &str) -> (r: Option<GpuLine>)
    ensures
        r is Some <==> names_gpu(s@),
        r matches Some(g) ==> g.is_of(s@),
{
    let t = text::trim(s);
    let p = text::split(t.as_str(), ',');
    let ghost q = texts(p@);
    assert(q.len() == p@.len());
    if p.len() < 5 {
        return None;
    }
    assert(q[0] == p@[0]@ && q[1] == p@[1]@ && q[2] == p@[2]@ && q[3] == p@[3]@ && q[4]
        == p@[4]@);
    let name = text::trim(p[0].as_str());
    if name.as_str().is_empty() {
        return None;
    }
    Some(
        GpuLine {
            name,
            load: text::trim(p[1].as_str()),
            mem_used: or_zero(read_number(p[2].as_str())),
            mem_total: or_zero(read_number(p[3].as_str())),
            temp: text::trim(p[4].as_str()),
        },
    )
}

/// The first card that tells its load.
pub fn first_card(busy: &Vec<Option<String>>) -> (n: Option<usize>)
    ensures
        match n {
            Some(i) => i < busy@.len() && busy@[i as int] is Some && forall|j: int|
                0 <= j < i ==> (#[trigger] busy@[j]) is None,
            None => forall|j: int| 0 <= j < busy@.len() ==> (#[trigger] busy@[j]) is None,
        },
{
    for i in 0..busy.len()
        invariant
            forall|j: int| 0 <= j < i ==> (#[trigger] busy@[j]) is None,
    {
        if busy[i].is_some() {
            return Some(i);
        }
    }
    None
}

/// Where a graphics processor is found.
pub enum GpuSource {
    Driver(GpuLine),
    Card(usize),
    Absent,
}

/// Finds a graphics processor: the one that the driver's line names, where there
/// is such a line, and else the first card that tells its load.
pub fn find_gpu(driver: Option<String>, busy: &Vec<Option<String>>) -> (r: GpuSource)
    ensures
        r is Driver <==> (driver matches Some(s) && names_gpu(s@)),
        r matches GpuSource::Driver(g) ==> g.is_of(driver->0@),
        r matches GpuSource::Card(i) ==> i < busy@.len() && busy@[i as int] is Some && forall|j: int|
            0 <= j < i ==> (#[trigger] busy@[j]) is None,
        r is Absent ==> forall|j: int| 0 <= j < busy@.len() ==> (#[trigger] busy@[j]) is None,
{
    if let Some(s) = &driver {
        if let Some(g) = parse_gpu_line(s.as_str()) {
            return GpuSource::Driver(g);
        }
    }
    match first_card(busy) {
        Some(i) => GpuSource::Card(i),
        None => GpuSource::Absent,
    }
}

/// The mebibytes that a text denotes in bytes; zero where there is no text or
/// it denotes none.
pub open spec fn mebibytes_of(s: Option<String>) -> nat {
    match s {
        Some(t) => match trimmed_number(t@) {
            Some(n) => n / 1_048_576,
            None => 0,
        },
        None => 0,
    }
}

/// Reads an amount of memory in bytes, and gives it in mebibytes.
pub fn mebibytes(s: Option<String>) -> (n: u64)
    ensures
        n == mebibytes_of(s),
{
    match s {
        Some(t) => or_zero(read_number(t.as_str())) / 1_048_576,
        None => 0,
    }
}

/// The name of a graphics processor: what its product name file holds, or its
/// number.
pub open spec fn card_name_of(s: Option<String>, card: u64) -> Seq<char> {
    match s {
        Some(t) => trim_of(t@),
        None => "AMD GPU (card"@ + number::decimal_of(card as nat) + ")"@,
    }
}

/// The name of a graphics processor.
pub fn card_name(s: Option<String>, card: u64) -> (r: String)
    ensures
        r@ == card_name_of(s, card),
{
    match s {
        Some(t) => text::trim(t.as_str()),
        None => {
            let mut r: String = "AMD GPU (card".to_owned();
            r.append(number::decimal(card).as_str());
            r.append(")");
            r
        },
    }
}


/// A temperature is a number of thousandths of a degree between one degree and
/// 120 degrees, both excluded; anything else is none.
pub proof fn law_plausible_temperatures(s: Seq<char>, n: nat)
    ensures
        number::unsigned_of(trim_of(s), u64::MAX as nat) == Some(n) && 1001 <= n <= 119_999
            ==> temp_of(s) == Some(n as u64),
        number::unsigned_of(trim_of(s), u64::MAX as nat) == Some(n) && (n <= 1000 || n >= 120_000)
            ==> temp_of(s) is None,
        number::unsigned_of(trim_of(s), u64::MAX as nat) is None ==> temp_of(s) is None,
{
}

/// The temperature is that of the first sensor that reports one.
pub proof fn law_first_sensor_counts(s: Seq<Seq<char>>, i: int)
    requires
        0 <= i <= s.len(),
        forall|j: int| 0 <= j < i ==> temp_of(#[trigger] s[j]) is None,
        i < s.len() ==> temp_of(s[i]) is Some,
    ensures
        i < s.len() ==> first_temp_of(s) == temp_of(s[i]),
        i == s.len() ==> first_temp_of(s) is None,
    decreases s.len(),
{
    if s.len() > 0 {
        let d = s.drop_last();
        assert forall|j: int| 0 <= j < i && j < d.len() implies temp_of(#[trigger] d[j]) is None by {
            assert(d[j] == s[j]);
        }
        if i < d.len() {
            assert(d[i] == s[i]);
            law_first_sensor_counts(d, i);
        } else {
            law_first_sensor_counts(d, d.len() as int);
            if i == s.len() {
                assert(temp_of(s[s.len() - 1]) is None);
            }
        }
    }
}

/// The clock rates are those of the processors up to the first that tells none,
/// in thousands of what they tell, rounded down.
pub proof fn law_clock_rates(s: Seq<Seq<char>>, k: int)
    requires
        0 <= k <= s.len(),
        forall|i: int|
            0 <= i < k ==> number::unsigned_of(trim_of(#[trigger] s[i]), u64::MAX as nat) is Some,
        k < s.len() ==> number::unsigned_of(trim_of(s[k]), u64::MAX as nat) is None,
    ensures
        freqs_of(s).len() == k,
        forall|i: int|
            0 <= i < k ==> {
                let n = number::unsigned_of(trim_of(s[i]), u64::MAX as nat)->0;
                1000 * (#[trigger] freqs_of(s)[i]) <= n < 1000 * freqs_of(s)[i] + 1000
            },
    decreases k,
{
    if k > 0 {
        let t = s.drop_first();
        assert(number::unsigned_of(trim_of(s[0]), u64::MAX as nat) is Some);
        assert forall|i: int| 0 <= i < k - 1 implies number::unsigned_of(
            trim_of(#[trigger] t[i]),
            u64::MAX as nat,
        ) is Some by {
            assert(t[i] == s[i + 1]);
        }
        law_clock_rates(t, k - 1);
        assert forall|i: int| 0 <= i < k implies ({
            let n = number::unsigned_of(trim_of(s[i]), u64::MAX as nat)->0;
            1000 * (#[trigger] freqs_of(s)[i]) <= n < 1000 * freqs_of(s)[i] + 1000
        }) by {
            if i > 0 {
                assert(freqs_of(s)[i] == freqs_of(t)[i - 1]);
                assert(s[i] == t[i - 1]);
            }
        }
    }
}

/// The mean of some numbers, taken as often as there are numbers, is what they
/// add up to, but for less than their count.
pub proof fn law_mean_is_in_the_middle(s: Seq<u64>, v: u64)
    ensures
        s.len() > 0 ==> mean_of(s) * s.len() <= sum_of(s) < (mean_of(s) + 1) * s.len(),
        s.len() == 0 ==> mean_of(s) == 0 && sum_of(s) == 0,
        sum_of(s.push(v)) == sum_of(s) + v,
{
    if s.len() > 0 {
        let (a, n, q) = (sum_of(s) as int, s.len() as int, mean_of(s) as int);
        vstd::arithmetic::div_mod::lemma_fundamental_div_mod(a, n);
        assert(q * n <= a < (q + 1) * n) by (nonlinear_arith)
            requires
                a == n * q + a % n,
                0 <= a % n < n,
        ;
    }
    assert(s.push(v).drop_last() =~= s);
}

/// The line of a driver gives, between commas, the name, the load, the memory in
/// use, all the memory, and the temperature.
pub proof fn law_driver_line(g: GpuLine, s: Seq<char>, f: Seq<Seq<char>>)
    requires
        f == pieces(trim_of(s), ','),
        f.len() >= 5,
        g.is_of(s),
    ensures
        g.name@ == trim_of(f[0]),
        g.load@ == trim_of(f[1]),
        number::unsigned_of(trim_of(f[2]), u64::MAX as nat) matches Some(n) ==> g.mem_used == n,
        number::unsigned_of(trim_of(f[2]), u64::MAX as nat) is None ==> g.mem_used == 0,
        number::unsigned_of(trim_of(f[3]), u64::MAX as nat) matches Some(n) ==> g.mem_total == n,
        number::unsigned_of(trim_of(f[3]), u64::MAX as nat) is None ==> g.mem_total == 0,
        g.temp@ == trim_of(f[4]),
{
}

/// The driver names a graphics processor where its line has five fields and the
/// first is not blank.
pub proof fn law_driver_names_a_processor(s: Seq<char>)
    ensures
        names_gpu(s) <==> pieces(trim_of(s), ',').len() >= 5 && trim_of(
            pieces(trim_of(s), ',')[0],
        ).len() > 0,
{
}

/// Bytes are counted in mebibytes, rounded down; what is not told is nothing.
pub proof fn law_mebibytes(s: Option<String>)
    ensures
        s is None ==> mebibytes_of(s) == 0,
        s matches Some(t) ==> match number::unsigned_of(trim_of(t@), u64::MAX as nat) {
            Some(n) => 1_048_576 * mebibytes_of(s) <= n < 1_048_576 * mebibytes_of(s) + 1_048_576,
            None => mebibytes_of(s) == 0,
        },
{
}

/// A card is called by its product name, or by its number.
pub proof fn law_card_names(s: Option<String>, card: u64)
    ensures
        s matches Some(t) ==> card_name_of(s, card) == trim_of(t@),
        s is None ==> card_name_of(s, card) == "AMD GPU (card"@ + number::decimal_of(card as nat)
            + ")"@,
{
}

} // verus!
