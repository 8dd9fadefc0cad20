//! The counters of the system: processors, memory, network and disks.
use vstd::prelude::*;

use crate::number;
use crate::number::rest;
use crate::text;
use crate::text::{has_prefix, lines_of, texts, trim_end_of, words_of};

verus! {

/// The number that a word denotes; zero where there is no such word or it
/// denotes none.
pub open spec fn number_at(ws: Seq<Seq<char>>, i: int) -> u64 {
    if 0 <= i < ws.len() {
        match number::unsigned_of(ws[i], u64::MAX as nat) {
            Some(n) => n as u64,
            None => 0,
        }
    } else {
        0
    }
}

/// Reads the number that a word denotes, or zero.
pub(crate) fn word_number(ws: &Vec<String>, i: usize) -> (n: u64)
    ensures
        n == number_at(texts(ws@), i as int),
{
    if i < ws.len() {
        assert(texts(ws@)[i as int] == ws@[i as int]@);
        match number::parse_u64(ws[i].as_str()) {
            Some(n) => n,
            None => 0,
        }
    } else {
        0
    }
}

/// The time that a processor has spent, by what it was spent on.
#[derive(Clone, Copy, Debug, PartialEq, Eq, Structural)]
pub struct CpuStat {
    pub user: u64,
    pub nice: u64,
    pub system: u64,
    pub idle: u64,
    pub iowait: u64,
    pub irq: u64,
    pub softirq: u64,
}

impl Default for CpuStat {
    fn default() -> (c: Self)
        ensures
            c == (CpuStat {
                user: 0,
                nice: 0,
                system: 0,
                idle: 0,
                iowait: 0,
                irq: 0,
                softirq: 0,
            }),
    {
        CpuStat { user: 0, nice: 0, system: 0, idle: 0, iowait: 0, irq: 0, softirq: 0 }
    }
}

impl CpuStat {
    /// All the time.
    pub open spec fn sum(self) -> int {
        self.user + self.nice + self.system + self.idle + self.iowait + self.irq + self.softirq
    }

    /// The time that was spent on nothing.
    pub open spec fn idle_sum(self) -> int {
        self.idle + self.iowait
    }

    /// Tells whether all the time can be counted in 64 bits.
    pub fn countable(&self) -> (r: bool)
        ensures
            r == (self.sum() <= u64::MAX),
    {
        let n: u128 = self.user as u128 + self.nice as u128 + self.system as u128
            + self.idle as u128 + self.iowait as u128 + self.irq as u128 + self.softirq as u128;
        n <= u64::MAX as u128
    }

    /// All the time.
    pub fn total(&self) -> (n: u64)
        requires
            self.sum() <= u64::MAX,
        ensures
            n == self.sum(),
    {
        self.user + self.nice + self.system + self.idle + self.iowait + self.irq + self.softirq
    }

    /// The time that was spent on nothing.
    pub fn idle_total(&self) -> (n: u64)
        requires
            self.idle_sum() <= u64::MAX,
        ensures
            n == self.idle_sum(),
    {
        self.idle + self.iowait
    }
}

/// The numbers among some words, in order; other words are dropped.
pub open spec fn numbers_of(ws: Seq<Seq<char>>) -> Seq<u64>
    decreases ws.len(),
{
    if ws.len() == 0 {
        seq![]
    } else {
        let before = numbers_of(ws.drop_last());
        match number::unsigned_of(ws.last(), u64::MAX as nat) {
            Some(n) => before.push(n as u64),
            None => before,
        }
    }
}

/// What a line says about a processor: it begins with `cpu`, and at least
/// seven of the words after the first are numbers.
pub open spec fn cpu_line(line: Seq<char>) -> Option<CpuStat> {
    let ws = words_of(line);
    let p = numbers_of(if ws.len() > 0 {
        ws.drop_first()
    } else {
        ws
    });
    if has_prefix(line, "cpu"@) && p.len() >= 7 {
        Some(
            CpuStat {
                user: p[0],
                nice: p[1],
                system: p[2],
                idle: p[3],
                iowait: p[4],
                irq: p[5],
                softirq: p[6],
            },
        )
    } else {
        None
    }
}

/// What some lines say about the processors.
pub open spec fn cpu_stats_of(lines: Seq<Seq<char>>) -> Seq<CpuStat>
    decreases lines.len(),
{
    if lines.len() == 0 {
        seq![]
    } else {
        let before = cpu_stats_of(lines.drop_last());
        match cpu_line(lines.last()) {
            Some(c) => before.push(c),
            None => before,
        }
    }
}

fn line_cpu(line: &str) -> (r: Option<CpuStat>)
    ensures
        r == cpu_line(line@),
{
    if !text::starts_with(line, "cpu") {
        return None;
    }
    let ws = text::words(line);
    let ghost all = texts(ws@);
    let ghost tail = if all.len() > 0 {
        all.drop_first()
    } else {
        all
    };
    let mut p: Vec<u64> = Vec::new();
    let start: usize = if ws.len() > 0 { 1 } else { 0 };
    assert(tail.take(0) =~= seq![]);
    for i in start..ws.len()
        invariant
            start <= ws@.len(),
            start == (if ws@.len() > 0 { 1int } else { 0int }),
            all == texts(ws@),
            tail == (if all.len() > 0 {
                all.drop_first()
            } else {
                all
            }),
            p@ == numbers_of(tail.take(i - start)),
    {
        proof {
            let next = tail.take(i + 1 - start);
            assert(next.drop_last() =~= tail.take(i - start));
            assert(next.last() == ws@[i as int]@);
        }
        if let Some(n) = number::parse_u64(ws[i].as_str()) {
            p.push(n);
        }
    }
    assert(tail.take(tail.len() as int) =~= tail);
    if p.len() < 7 {
        return None;
    }
    Some(
        CpuStat {
            user: p[0],
            nice: p[1],
            system: p[2],
            idle: p[3],
            iowait: p[4],
            irq: p[5],
            softirq: p[6],
        },
    )
}

/// Reads the processors' counters: first that of all processors together, then
/// one for each.
pub fn parse_cpu_stats(s: &str) -> (out: Vec<CpuStat>)
    ensures
        out@ == cpu_stats_of(lines_of(s@)),
{
    let ls = text::lines(s);
    let ghost all = lines_of(s@);
    let mut out: Vec<CpuStat> = Vec::new();
    for i in 0..ls.len()
        invariant
            texts(ls@) == all,
            out@ == cpu_stats_of(all.take(i as int)),
    {
        proof {
            let next = all.take(i + 1);
            assert(next.drop_last() =~= all.take(i as int));
            assert(next.last() == texts(ls@)[i as int]);
        }
        if let Some(c) = line_cpu(ls[i].as_str()) {
            out.push(c);
        }
    }
    assert(all.take(all.len() as int) =~= all);
    out
}

fn minus(a: u64, b: u64) -> (r: u64)
    ensures
        r == rest(a as int, b as int),
{
    if a < b {
        0
    } else {
        a - b
    }
}

/// What a counter that does not go back gains adds up over the times at which
/// it is read.
pub proof fn law_gains_add_up(a: int, b: int, c: int)
    requires
        a <= b <= c,
    ensures
        rest(c, a) == rest(b, a) + rest(c, b),
{
}

/// The time that passed between two counts and how much of it was idle.
pub open spec fn cpu_delta_of(prev: CpuStat, curr: CpuStat) -> (int, int) {
    (rest(curr.sum(), prev.sum()), rest(curr.idle_sum(), prev.idle_sum()))
}

/// The time that passed between two counts and how much of it was idle.
pub fn cpu_delta(prev: &CpuStat, curr: &CpuStat) -> (r: (u64, u64))
    requires
        prev.sum() <= u64::MAX,
        curr.sum() <= u64::MAX,
    ensures
        (r.0 as int, r.1 as int) == cpu_delta_of(*prev, *curr),
{
    (minus(curr.total(), prev.total()), minus(curr.idle_total(), prev.idle_total()))
}

/// Where no counter went back, no more time was idle than passed.
pub proof fn law_idle_time_is_part_of_the_time(prev: CpuStat, curr: CpuStat)
    requires
        prev.user <= curr.user,
        prev.nice <= curr.nice,
        prev.system <= curr.system,
        prev.idle <= curr.idle,
        prev.iowait <= curr.iowait,
        prev.irq <= curr.irq,
        prev.softirq <= curr.softirq,
    ensures
        0 <= cpu_delta_of(prev, curr).1 <= cpu_delta_of(prev, curr).0,
{
}

/// Memory in kibibytes.
#[derive(Clone, Copy, Debug, PartialEq, Eq, Structural)]
pub struct MemInfo {
    pub total: u64,
    pub available: u64,
    pub swap_total: u64,
    pub swap_free: u64,
    pub buffers: u64,
    pub cached: u64,
}

/// The value in the last line whose first word is `key`; `default` where there
/// is none.
pub open spec fn entry_of(lines: Seq<Seq<char>>, key: Seq<char>, default: u64) -> u64
    decreases lines.len(),
{
    if lines.len() == 0 {
        default
    } else {
        let ws = words_of(lines.last());
        if ws.len() > 0 && ws[0] == key {
            number_at(ws, 1)
        } else {
            entry_of(lines.drop_last(), key, default)
        }
    }
}

/// What some lines say about the memory.
pub open spec fn meminfo_of(lines: Seq<Seq<char>>) -> MemInfo {
    MemInfo {
        total: entry_of(lines, "MemTotal:"@, 1),
        available: entry_of(lines, "MemAvailable:"@, 0),
        swap_total: entry_of(lines, "SwapTotal:"@, 0),
        swap_free: entry_of(lines, "SwapFree:"@, 0),
        buffers: entry_of(lines, "Buffers:"@, 0),
        cached: entry_of(lines, "Cached:"@, 0),
    }
}

/// Reads how the memory is used.
pub fn parse_meminfo(s: &str) -> (m: MemInfo)
    ensures
        m == meminfo_of(lines_of(s@)),
{
    let ls = text::lines(s);
    let ghost all = lines_of(s@);
    let mut m = MemInfo {
        total: 1,
        available: 0,
        swap_total: 0,
        swap_free: 0,
        buffers: 0,
        cached: 0,
    };
    for i in 0..ls.len()
        invariant
            texts(ls@) == all,
            m == meminfo_of(all.take(i as int)),
    {
        let ws = text::words(ls[i].as_str());
        proof {
            let next = all.take(i + 1);
            assert(next.drop_last() =~= all.take(i as int));
            assert(next.last() == texts(ls@)[i as int]);
            lemma_keys_differ();
        }
        if ws.len() > 0 {
            assert(texts(ws@)[0] == ws@[0]@);
            let k = ws[0].as_str();
            let v: u64 = word_number(&ws, 1);
            if text::same(k, "MemTotal:") {
                m.total = v;
            } else if text::same(k, "MemAvailable:") {
                m.available = v;
            } else if text::same(k, "SwapTotal:") {
                m.swap_total = v;
            } else if text::same(k, "SwapFree:") {
                m.swap_free = v;
            } else if text::same(k, "Buffers:") {
                m.buffers = v;
            } else if text::same(k, "Cached:") {
                m.cached = v;
            }
        }
    }
    assert(all.take(all.len() as int) =~= all);
    m
}

proof fn lemma_keys_differ()
    ensures
        "MemTotal:"@ != "MemAvailable:"@,
        "MemTotal:"@ != "SwapTotal:"@,
        "MemTotal:"@ != "SwapFree:"@,
        "MemTotal:"@ != "Buffers:"@,
        "MemTotal:"@ != "Cached:"@,
        "MemAvailable:"@ != "SwapTotal:"@,
        "MemAvailable:"@ != "SwapFree:"@,
        "MemAvailable:"@ != "Buffers:"@,
        "MemAvailable:"@ != "Cached:"@,
        "SwapTotal:"@ != "SwapFree:"@,
        "SwapTotal:"@ != "Buffers:"@,
        "SwapTotal:"@ != "Cached:"@,
        "SwapFree:"@ != "Buffers:"@,
        "SwapFree:"@ != "Cached:"@,
        "Buffers:"@ != "Cached:"@,
{
    reveal_strlit("MemTotal:");
    reveal_strlit("MemAvailable:");
    reveal_strlit("SwapTotal:");
    reveal_strlit("SwapFree:");
    reveal_strlit("Buffers:");
    reveal_strlit("Cached:");
    assert("MemTotal:"@.len() == 9 && "MemTotal:"@[0] == 'M');
    assert("MemAvailable:"@.len() == 13 && "MemAvailable:"@[0] == 'M');
    assert("SwapTotal:"@.len() == 10 && "SwapTotal:"@[0] == 'S');
    assert("SwapFree:"@.len() == 9 && "SwapFree:"@[0] == 'S');
    assert("Buffers:"@[0] == 'B');
    assert("Cached:"@[0] == 'C');
}

/// Bytes received and sent.
#[derive(Clone, Copy, Debug, PartialEq, Eq, Structural)]
pub struct NetStat {
    pub rx: u64,
    pub tx: u64,
}

impl Default for NetStat {
    fn default() -> (n: Self)
        ensures
            n == (NetStat { rx: 0, tx: 0 }),
    {
        NetStat { rx: 0, tx: 0 }
    }
}

/// The name of the interface that a line is about.
pub open spec fn interface_of(line: Seq<char>) -> Seq<char> {
    let ws = words_of(line);
    trim_end_of(
        if ws.len() > 0 {
            ws[0]
        } else {
            seq![]
        },
        ':',
    )
}

/// The bytes that a line counts, received and sent: none for the interface of
/// the machine to itself.
pub open spec fn net_line(line: Seq<char>) -> (nat, nat) {
    let ws = words_of(line);
    if interface_of(line) == "lo"@ {
        (0, 0)
    } else {
        (number_at(ws, 1) as nat, number_at(ws, 9) as nat)
    }
}

/// The bytes that all lines count together.
pub open spec fn net_sum(lines: Seq<Seq<char>>) -> (nat, nat)
    decreases lines.len(),
{
    if lines.len() == 0 {
        (0, 0)
    } else {
        let before = net_sum(lines.drop_last());
        let last = net_line(lines.last());
        (before.0 + last.0, before.1 + last.1)
    }
}

/// The bytes that a table of interfaces counts: its first two lines are
/// headings.
pub open spec fn net_of(s: Seq<char>) -> (nat, nat) {
    let lines = lines_of(s);
    net_sum(if lines.len() > 2 {
        lines.skip(2)
    } else {
        seq![]
    })
}

proof fn lemma_net_grows(lines: Seq<Seq<char>>, k: int)
    requires
        0 <= k <= lines.len(),
    ensures
        net_sum(lines.take(k)).0 <= net_sum(lines).0,
        net_sum(lines.take(k)).1 <= net_sum(lines).1,
    decreases lines.len(),
{
    if k == lines.len() {
        assert(lines.take(k) =~= lines);
    } else {
        lemma_net_grows(lines.drop_last(), k);
        assert(lines.drop_last().take(k) =~= lines.take(k));
    }
}

/// Reads the bytes that all interfaces have received and sent, where they can
/// be counted in 64 bits.
pub fn checked_net(s: &str) -> (r: Option<NetStat>)
    ensures
        r == if net_of(s@).0 <= u64::MAX && net_of(s@).1 <= u64::MAX {
            Some(NetStat { rx: net_of(s@).0 as u64, tx: net_of(s@).1 as u64 })
        } else {
            None
        },
{
    let ls = text::lines(s);
    let ghost lines = lines_of(s@);
    let ghost all = if lines.len() > 2 {
        lines.skip(2)
    } else {
        seq![]
    };
    let start: usize = if ls.len() > 2 { 2 } else { ls.len() };
    let mut t = NetStat::default();
    assert(texts(ls@).len() == ls@.len());
    assert(all.take(0) =~= seq![]);
    for i in start..ls.len()
        invariant
            texts(ls@) == lines,
            start == (if ls@.len() > 2 { 2int } else { ls@.len() as int }),
            all == (if lines.len() > 2 {
                lines.skip(2)
            } else {
                seq![]
            }),
            net_of(s@) == net_sum(all),
            t.rx == net_sum(all.take(i - start)).0,
            t.tx == net_sum(all.take(i - start)).1,
    {
        let line = ls[i].as_str();
        let ghost next = all.take(i + 1 - start);
        proof {
            assert(next.drop_last() =~= all.take(i - start));
            assert(next.last() == texts(ls@)[i as int]);
            lemma_net_grows(all, i + 1 - start);
        }
        let ws = text::words(line);
        let iface = if ws.len() > 0 {
            assert(texts(ws@)[0] == ws@[0]@);
            text::trim_end(ws[0].as_str(), ':')
        } else {
            text::trim_end("", ':')
        };
        proof {
            reveal_strlit("");
            assert(""@ =~= seq![]);
            assert(iface@ == interface_of(line@));
        }
        if !text::same(iface.as_str(), "lo") {
            let rx: u64 = word_number(&ws, 1);
            let tx: u64 = word_number(&ws, 9);
            if rx > u64::MAX - t.rx || tx > u64::MAX - t.tx {
                return None;
            }
            t.rx = t.rx + rx;
            t.tx = t.tx + tx;
        }
    }
    assert(all.take(all.len() as int) =~= all);
    Some(t)
}

/// Reads the bytes that all interfaces have received and sent.
pub fn parse_net(s: &str) -> (t: NetStat)
    requires
        net_of(s@).0 <= u64::MAX,
        net_of(s@).1 <= u64::MAX,
    ensures
        t.rx == net_of(s@).0,
        t.tx == net_of(s@).1,
{
    match checked_net(s) {
        Some(t) => t,
        None => NetStat::default(),
    }
}

/// Sectors read and written.
#[derive(Clone, Copy, Debug, PartialEq, Eq, Structural)]
pub struct DiskStat {
    pub r: u64,
    pub w: u64,
}

impl Default for DiskStat {
    fn default() -> (d: Self)
        ensures
            d == (DiskStat { r: 0, w: 0 }),
    {
        DiskStat { r: 0, w: 0 }
    }
}

/// A device counts: it is neither a loop device nor a mapped one, and no
/// partition.
pub open spec fn is_disk(name: Seq<char>) -> bool {
    &&& !has_prefix(name, "loop"@)
    &&& !has_prefix(name, "dm-"@)
    &&& !((has_prefix(name, "sd"@) || has_prefix(name, "hd"@)) && text::byte_len(name) > 3)
    &&& !(has_prefix(name, "nvme"@) && name.contains('p'))
}

fn counts_as_disk(name: &str) -> (r: bool)
    ensures
        r == is_disk(name@),
{
    let part = text::starts_with(name, "sd") || text::starts_with(name, "hd");
    !text::starts_with(name, "loop") && !text::starts_with(name, "dm-") && !(part
        && text::utf8_len(name) > 3) && !(text::starts_with(name, "nvme") && text::has_char(
        name,
        'p',
    ))
}

/// The sectors that a line counts, read and written.
pub open spec fn disk_line(line: Seq<char>) -> (nat, nat) {
    let ws = words_of(line);
    if ws.len() >= 14 && is_disk(ws[2]) {
        (number_at(ws, 5) as nat, number_at(ws, 9) as nat)
    } else {
        (0, 0)
    }
}

/// The sectors that all lines count together.
pub open spec fn disk_sum(lines: Seq<Seq<char>>) -> (nat, nat)
    decreases lines.len(),
{
    if lines.len() == 0 {
        (0, 0)
    } else {
        let before = disk_sum(lines.drop_last());
        let last = disk_line(lines.last());
        (before.0 + last.0, before.1 + last.1)
    }
}

/// The sectors that a table of devices counts.
pub open spec fn disk_of(s: Seq<char>) -> (nat, nat) {
    disk_sum(lines_of(s))
}

proof fn lemma_disk_grows(lines: Seq<Seq<char>>, k: int)
    requires
        0 <= k <= lines.len(),
    ensures
        disk_sum(lines.take(k)).0 <= disk_sum(lines).0,
        disk_sum(lines.take(k)).1 <= disk_sum(lines).1,
    decreases lines.len(),
{
    if k == lines.len() {
        assert(lines.take(k) =~= lines);
    } else {
        lemma_disk_grows(lines.drop_last(), k);
        assert(lines.drop_last().take(k) =~= lines.take(k));
    }
}

/// Reads the sectors that all disks have read and written, where they can be
/// counted in 64 bits.
pub fn checked_disk(s: &str) -> (r: Option<DiskStat>)
    ensures
        r == if disk_of(s@).0 <= u64::MAX && disk_of(s@).1 <= u64::MAX {
            Some(DiskStat { r: disk_of(s@).0 as u64, w: disk_of(s@).1 as u64 })
        } else {
            None
        },
{
    let ls = text::lines(s);
    let ghost all = lines_of(s@);
    let mut d = DiskStat::default();
    for i in 0..ls.len()
        invariant
            texts(ls@) == all,
            all == lines_of(s@),
            d.r == disk_sum(all.take(i as int)).0,
            d.w == disk_sum(all.take(i as int)).1,
    {
        let ghost next = all.take(i + 1);
        proof {
            assert(next.drop_last() =~= all.take(i as int));
            assert(next.last() == texts(ls@)[i as int]);
            lemma_disk_grows(all, i + 1);
        }
        let ws = text::words(ls[i].as_str());
        if ws.len() >= 14 {
            assert(texts(ws@)[2] == ws@[2]@);
            if counts_as_disk(ws[2].as_str()) {
                let r: u64 = word_number(&ws, 5);
                let w: u64 = word_number(&ws, 9);
                if r > u64::MAX - d.r || w > u64::MAX - d.w {
                    return None;
                }
                d.r = d.r + r;
                d.w = d.w + w;
            }
        }
    }
    assert(all.take(all.len() as int) =~= all);
    Some(d)
}

/// Reads the sectors that all disks have read and written.
pub fn parse_disk(s: &str) -> (d: DiskStat)
    requires
        disk_of(s@).0 <= u64::MAX,
        disk_of(s@).1 <= u64::MAX,
    ensures
        d.r == disk_of(s@).0,
        d.w == disk_of(s@).1,
{
    match checked_disk(s) {
        Some(d) => d,
        None => DiskStat::default(),
    }
}

/// The counters as they were read last.
pub struct Counters {
    pub cpu: Vec<CpuStat>,
    pub net: NetStat,
    pub disk: DiskStat,
}

/// What the counters have gained.
pub struct Gains {
    /// The time that passed on each processor and how much of it was idle;
    /// nothing where the processors are not counted one by one.
    pub cores: Option<Vec<(u64, u64)>>,
    pub rx: u64,
    pub tx: u64,
    pub read: u64,
    pub written: u64,
}

/// All the time of each processor that is counted both before and now can be
/// counted in 64 bits.
pub open spec fn comparable(prev: Seq<CpuStat>, curr: Seq<CpuStat>) -> bool {
    forall|i: int|
        1 <= i < prev.len() && i < curr.len() ==> (#[trigger] prev[i]).sum() <= u64::MAX
            && curr[i].sum() <= u64::MAX
}

/// How many processors there are, where the first count is that of all of them
/// together; at least one.
pub fn core_count(n: usize) -> (r: usize)
    ensures
        r == if n <= 2 {
            1
        } else {
            n - 1
        },
{
    if n <= 2 {
        1
    } else {
        n - 1
    }
}

/// How many processors are counted both before and now.
pub open spec fn common_cores(prev: int, curr: int) -> int {
    let n = if prev < curr {
        prev
    } else {
        curr
    };
    if n > 0 {
        n - 1
    } else {
        0
    }
}

/// What the counters have gained since they were read last.
pub open spec fn gained(
    before: Counters,
    cpu: Seq<CpuStat>,
    net: NetStat,
    disk: DiskStat,
    g: Gains,
) -> bool {
    &&& g.rx == rest(net.rx as int, before.net.rx as int)
    &&& g.tx == rest(net.tx as int, before.net.tx as int)
    &&& g.read == rest(disk.r as int, before.disk.r as int)
    &&& g.written == rest(disk.w as int, before.disk.w as int)
    &&& g.cores is Some <==> cpu.len() > 1
    &&& g.cores matches Some(cores) ==> {
        &&& cores@.len() == common_cores(before.cpu@.len() as int, cpu.len() as int)
        &&& forall|i: int|
            0 <= i < cores@.len() ==> ((#[trigger] cores@[i]).0 as int, cores@[i].1 as int)
                == cpu_delta_of(before.cpu@[i + 1], cpu[i + 1])
    }
}

impl Counters {
    /// Tells whether new counts can be compared with the last ones.
    pub fn can_refresh(&self, cpu: &Vec<CpuStat>) -> (r: bool)
        ensures
            r == comparable(self.cpu@, cpu@),
    {
        let mut i: usize = 1;
        while i < self.cpu.len() && i < cpu.len()
            invariant
                1 <= i,
                forall|j: int|
                    1 <= j < i && j < self.cpu@.len() && j < cpu@.len() ==> (
                    #[trigger] self.cpu@[j]).sum() <= u64::MAX && cpu@[j].sum() <= u64::MAX,
            decreases self.cpu.len() - i,
        {
            if !self.cpu[i].countable() || !cpu[i].countable() {
                assert(self.cpu@[i as int].sum() > u64::MAX || cpu@[i as int].sum() > u64::MAX);
                return false;
            }
            i = i + 1;
        }
        true
    }

    /// Takes new counts, and tells what has been gained since the last ones.
    pub fn refresh(&mut self, cpu: Vec<CpuStat>, net: NetStat, disk: DiskStat) -> (g: Gains)
        requires
            comparable(old(self).cpu@, cpu@),
        ensures
            final(self).cpu == cpu,
            final(self).net == net,
            final(self).disk == disk,
            g.rx == rest(net.rx as int, old(self).net.rx as int),
            g.tx == rest(net.tx as int, old(self).net.tx as int),
            g.read == rest(disk.r as int, old(self).disk.r as int),
            g.written == rest(disk.w as int, old(self).disk.w as int),
            g.cores is Some <==> cpu@.len() > 1,
            g.cores matches Some(cores) ==> {
                &&& cores@.len() == common_cores(old(self).cpu@.len() as int, cpu@.len() as int)
                &&& forall|i: int|
                    0 <= i < cores@.len() ==> ((#[trigger] cores@[i]).0 as int, cores@[i].1 as int)
                        == cpu_delta_of(old(self).cpu@[i + 1], cpu@[i + 1])
            },
            gained(*old(self), cpu@, net, disk, g),
    {
        let cores = if cpu.len() > 1 {
            let n: usize = if self.cpu.len() < cpu.len() {
                self.cpu.len()
            } else {
                cpu.len()
            };
            let mut v: Vec<(u64, u64)> = Vec::new();
            let mut i: usize = 1;
            while i < n
                invariant
                    1 <= i,
                    i <= n || (n == 0 && i == 1),
                    self.cpu == old(self).cpu,
                    n <= self.cpu@.len(),
                    n <= cpu@.len(),
                    comparable(self.cpu@, cpu@),
                    v@.len() == i - 1,
                    forall|j: int|
                        0 <= j < v@.len() ==> ((#[trigger] v@[j]).0 as int, v@[j].1 as int)
                            == cpu_delta_of(self.cpu@[j + 1], cpu@[j + 1]),
                decreases n - i,
            {
                assert(self.cpu@[i as int].sum() <= u64::MAX);
                v.push(cpu_delta(&self.cpu[i], &cpu[i]));
                i = i + 1;
            }
            Some(v)
        } else {
            None
        };
        let g = Gains {
            cores,
            rx: minus(net.rx, self.net.rx),
            tx: minus(net.tx, self.net.tx),
            read: minus(disk.r, self.disk.r),
            written: minus(disk.w, self.disk.w),
        };
        self.cpu = cpu;
        self.net = net;
        self.disk = disk;
        g
    }
}


proof fn lemma_first_numbers(ws: Seq<Seq<char>>, m: int)
    requires
        0 <= m <= ws.len(),
        forall|i: int|
            0 <= i < m ==> number::unsigned_of(#[trigger] ws[i], u64::MAX as nat) is Some,
    ensures
        numbers_of(ws).len() >= m,
        forall|i: int|
            0 <= i < m ==> Some(#[trigger] numbers_of(ws)[i] as nat) == number::unsigned_of(
                ws[i],
                u64::MAX as nat,
            ),
    decreases ws.len(),
{
    if ws.len() > 0 {
        let d = ws.drop_last();
        if m == ws.len() {
            assert forall|i: int| 0 <= i < m - 1 implies number::unsigned_of(
                #[trigger] d[i],
                u64::MAX as nat,
            ) is Some by {
                assert(d[i] == ws[i]);
            }
            lemma_first_numbers(d, m - 1);
            lemma_no_more_numbers(d);
            assert(number::unsigned_of(ws[m - 1], u64::MAX as nat) is Some);
        } else {
            assert forall|i: int| 0 <= i < m implies number::unsigned_of(
                #[trigger] d[i],
                u64::MAX as nat,
            ) is Some by {
                assert(d[i] == ws[i]);
            }
            lemma_first_numbers(d, m);
        }
    }
}

proof fn lemma_no_more_numbers(ws: Seq<Seq<char>>)
    ensures
        numbers_of(ws).len() <= ws.len(),
    decreases ws.len(),
{
    if ws.len() > 0 {
        lemma_no_more_numbers(ws.drop_last());
    }
}

/// A line of a processor counts, behind its name, the time for users, for nice
/// users, for the system, idle, waiting, and for hard and soft interrupts, in
/// this order. A line that begins with anything else counts nothing.
pub proof fn law_processor_line(line: Seq<char>)
    ensures
        words_of(line).len() >= 8 && has_prefix(line, "cpu"@) && (forall|i: int|
            1 <= i < 8 ==> number::unsigned_of(
                #[trigger] words_of(line)[i],
                u64::MAX as nat,
            ) is Some) ==> {
            let n = |i: int| number::unsigned_of(words_of(line)[i], u64::MAX as nat)->0;
            &&& cpu_line(line) matches Some(c)
            &&& c.user == n(1)
            &&& c.nice == n(2)
            &&& c.system == n(3)
            &&& c.idle == n(4)
            &&& c.iowait == n(5)
            &&& c.irq == n(6)
            &&& c.softirq == n(7)
        },
        !(line.len() >= 3 && line[0] == 'c' && line[1] == 'p' && line[2] == 'u') ==> cpu_line(
            line,
        ) is None,
        words_of(line).len() < 8 ==> cpu_line(line) is None,
{
    let ws = words_of(line);
    reveal_strlit("cpu");
    text::law_prefix_is_the_beginning(line, "cpu"@);
    assert("cpu"@[0] == 'c' && "cpu"@[1] == 'p' && "cpu"@[2] == 'u');
    if ws.len() > 0 {
        lemma_no_more_numbers(ws.drop_first());
    }
    if ws.len() >= 8 && (forall|i: int|
        1 <= i < 8 ==> number::unsigned_of(#[trigger] ws[i], u64::MAX as nat) is Some) {
        let t = ws.drop_first();
        assert forall|i: int| 0 <= i < 7 implies number::unsigned_of(
            #[trigger] t[i],
            u64::MAX as nat,
        ) is Some by {
            assert(t[i] == ws[i + 1]);
        }
        lemma_first_numbers(t, 7);
        let p = numbers_of(t);
        assert(t[0] == ws[1] && t[1] == ws[2] && t[2] == ws[3] && t[3] == ws[4] && t[4] == ws[5]
            && t[5] == ws[6] && t[6] == ws[7]);
        assert(Some(p[0] as nat) == number::unsigned_of(t[0], u64::MAX as nat));
        assert(Some(p[1] as nat) == number::unsigned_of(t[1], u64::MAX as nat));
        assert(Some(p[2] as nat) == number::unsigned_of(t[2], u64::MAX as nat));
        assert(Some(p[3] as nat) == number::unsigned_of(t[3], u64::MAX as nat));
        assert(Some(p[4] as nat) == number::unsigned_of(t[4], u64::MAX as nat));
        assert(Some(p[5] as nat) == number::unsigned_of(t[5], u64::MAX as nat));
        assert(Some(p[6] as nat) == number::unsigned_of(t[6], u64::MAX as nat));
    }
}

/// The lines are read one after the other, and each adds at most one processor.
pub proof fn law_processors_in_order(a: Seq<Seq<char>>, line: Seq<char>, b: Seq<Seq<char>>)
    ensures
        cpu_line(line) is None ==> cpu_stats_of(a.push(line) + b) == cpu_stats_of(a)
            + cpu_stats_of(b),
        cpu_line(line) matches Some(c) ==> cpu_stats_of(a.push(line) + b) == cpu_stats_of(a).push(
            c,
        ) + cpu_stats_of(b),
    decreases b.len(),
{
    let s = a.push(line) + b;
    if b.len() == 0 {
        assert(s =~= a.push(line));
        assert(a.push(line).drop_last() =~= a);
        assert(cpu_stats_of(a) + cpu_stats_of(b) =~= cpu_stats_of(a));
        if let Some(c) = cpu_line(line) {
            assert(cpu_stats_of(a).push(c) + cpu_stats_of(b) =~= cpu_stats_of(a).push(c));
        }
    } else {
        let d = b.drop_last();
        law_processors_in_order(a, line, d);
        assert(s.drop_last() =~= a.push(line) + d);
        let before = match cpu_line(line) {
            Some(c) => cpu_stats_of(a).push(c),
            None => cpu_stats_of(a),
        };
        assert(cpu_stats_of(s) =~= before + cpu_stats_of(b));
    }
}

/// Every kind of time is part of all the time, and of the idle time are what was
/// idle and what was waited.
pub proof fn law_time_that_passed(prev: CpuStat, curr: CpuStat)
    requires
        prev.user <= curr.user,
        prev.nice <= curr.nice,
        prev.system <= curr.system,
        prev.idle <= curr.idle,
        prev.iowait <= curr.iowait,
        prev.irq <= curr.irq,
        prev.softirq <= curr.softirq,
    ensures
        cpu_delta_of(prev, curr).0 == (curr.user - prev.user) + (curr.nice - prev.nice) + (
        curr.system - prev.system) + (curr.idle - prev.idle) + (curr.iowait - prev.iowait) + (
        curr.irq - prev.irq) + (curr.softirq - prev.softirq),
        cpu_delta_of(prev, curr).1 == (curr.idle - prev.idle) + (curr.iowait - prev.iowait),
{
}

/// A line is about a key: that is its first word.
pub open spec fn is_about(line: Seq<char>, key: Seq<char>) -> bool {
    words_of(line).len() > 0 && words_of(line)[0] == key
}

proof fn lemma_last_entry(lines: Seq<Seq<char>>, key: Seq<char>, default: u64, i: int)
    requires
        0 <= i < lines.len(),
        is_about(lines[i], key),
        forall|j: int| i < j < lines.len() ==> !is_about(#[trigger] lines[j], key),
    ensures
        entry_of(lines, key, default) == number_at(words_of(lines[i]), 1),
    decreases lines.len(),
{
    if i < lines.len() - 1 {
        assert(!is_about(lines[lines.len() - 1], key));
        let d = lines.drop_last();
        assert forall|j: int| i < j < d.len() implies !is_about(#[trigger] d[j], key) by {
            assert(d[j] == lines[j]);
        }
        lemma_last_entry(d, key, default, i);
    }
}

proof fn lemma_no_entry(lines: Seq<Seq<char>>, key: Seq<char>, default: u64)
    requires
        forall|j: int| 0 <= j < lines.len() ==> !is_about(#[trigger] lines[j], key),
    ensures
        entry_of(lines, key, default) == default,
    decreases lines.len(),
{
    if lines.len() > 0 {
        assert(!is_about(lines[lines.len() - 1], key));
        let d = lines.drop_last();
        assert forall|j: int| 0 <= j < d.len() implies !is_about(#[trigger] d[j], key) by {
            assert(d[j] == lines[j]);
        }
        lemma_no_entry(d, key, default);
    }
}

/// Each amount of memory is the number behind its own key, in the last line
/// about it.
pub proof fn law_memory_is_read_by_key(lines: Seq<Seq<char>>, key: Seq<char>, i: int, kb: nat)
    requires
        0 <= i < lines.len(),
        words_of(lines[i]).len() >= 2,
        words_of(lines[i])[0] == key,
        number::unsigned_of(words_of(lines[i])[1], u64::MAX as nat) == Some(kb),
        forall|j: int| i < j < lines.len() ==> !is_about(#[trigger] lines[j], key),
    ensures
        key == "MemTotal:"@ ==> meminfo_of(lines).total == kb,
        key == "MemAvailable:"@ ==> meminfo_of(lines).available == kb,
        key == "SwapTotal:"@ ==> meminfo_of(lines).swap_total == kb,
        key == "SwapFree:"@ ==> meminfo_of(lines).swap_free == kb,
        key == "Buffers:"@ ==> meminfo_of(lines).buffers == kb,
        key == "Cached:"@ ==> meminfo_of(lines).cached == kb,
{
    lemma_last_entry(lines, key, 0, i);
    lemma_last_entry(lines, key, 1, i);
}

/// What no line is about is nothing, and all the memory is then one kibibyte, so
/// that it can be divided by.
pub proof fn law_memory_without_a_line(lines: Seq<Seq<char>>, key: Seq<char>)
    requires
        forall|j: int| 0 <= j < lines.len() ==> !is_about(#[trigger] lines[j], key),
    ensures
        key == "MemTotal:"@ ==> meminfo_of(lines).total == 1,
        key == "MemAvailable:"@ ==> meminfo_of(lines).available == 0,
        key == "SwapTotal:"@ ==> meminfo_of(lines).swap_total == 0,
        key == "SwapFree:"@ ==> meminfo_of(lines).swap_free == 0,
        key == "Buffers:"@ ==> meminfo_of(lines).buffers == 0,
        key == "Cached:"@ ==> meminfo_of(lines).cached == 0,
{
    lemma_no_entry(lines, key, 0);
    lemma_no_entry(lines, key, 1);
}

/// The line of an interface, whose name a colon ends, counts the bytes received
/// in its second word and the bytes sent in its tenth; only the interface of the
/// machine to itself does not count.
pub proof fn law_interface_line(line: Seq<char>, name: Seq<char>, rx: nat, tx: nat)
    requires
        words_of(line).len() >= 10,
        words_of(line)[0] == name.push(':'),
        name.len() > 0,
        name.last() != ':',
        number::unsigned_of(words_of(line)[1], u64::MAX as nat) == Some(rx),
        number::unsigned_of(words_of(line)[9], u64::MAX as nat) == Some(tx),
    ensures
        name != seq!['l', 'o'] ==> net_line(line) == (rx, tx),
        name == seq!['l', 'o'] ==> net_line(line) == (0nat, 0nat),
{
    reveal_strlit("lo");
    assert("lo"@ =~= seq!['l', 'o']);
    let w = name.push(':');
    assert(w.drop_last() =~= name);
    reveal_with_fuel(trim_end_of, 2);
    assert(trim_end_of(w, ':') == name);
}

/// The bytes of all interfaces are added up, whatever the order of their lines.
pub proof fn law_interfaces_add_up(a: Seq<Seq<char>>, b: Seq<Seq<char>>, line: Seq<char>)
    ensures
        net_sum(a + b) == (net_sum(a).0 + net_sum(b).0, net_sum(a).1 + net_sum(b).1),
        net_sum(seq![line]) == net_line(line),
        net_sum(seq![]) == (0nat, 0nat),
    decreases b.len(),
{
    reveal_with_fuel(net_sum, 2);
    assert(seq![line].drop_last() =~= seq![]);
    if b.len() == 0 {
        assert(a + b =~= a);
    } else {
        law_interfaces_add_up(a, b.drop_last(), line);
        assert((a + b).drop_last() =~= a + b.drop_last());
    }
}

/// The first two lines of the table of interfaces are not counted, and all the
/// others are.
pub proof fn law_interfaces_have_headings(s: Seq<char>)
    ensures
        lines_of(s).len() <= 2 ==> net_of(s) == (0nat, 0nat),
        lines_of(s).len() > 2 ==> net_of(s) == net_sum(lines_of(s).subrange(
            2,
            lines_of(s).len() as int,
        )),
{
    if lines_of(s).len() > 2 {
        assert(lines_of(s).skip(2) =~= lines_of(s).subrange(2, lines_of(s).len() as int));
    }
}

/// The line of a device, whose name is the third of at least 14 words, counts
/// the sectors read in its sixth word and the sectors written in its tenth, if
/// the device counts.
pub proof fn law_device_line(line: Seq<char>, read: nat, written: nat)
    requires
        words_of(line).len() >= 14,
        number::unsigned_of(words_of(line)[5], u64::MAX as nat) == Some(read),
        number::unsigned_of(words_of(line)[9], u64::MAX as nat) == Some(written),
    ensures
        is_disk(words_of(line)[2]) ==> disk_line(line) == (read, written),
        !is_disk(words_of(line)[2]) ==> disk_line(line) == (0nat, 0nat),
{
}

/// A line that is too short counts nothing.
pub proof fn law_short_device_line(line: Seq<char>)
    requires
        words_of(line).len() < 14,
    ensures
        disk_line(line) == (0nat, 0nat),
{
}

/// The sectors of all devices are added up, whatever the order of their lines.
pub proof fn law_devices_add_up(
    a: Seq<Seq<char>>,
    b: Seq<Seq<char>>,
    line: Seq<char>,
    s: Seq<char>,
)
    ensures
        disk_sum(a + b) == (disk_sum(a).0 + disk_sum(b).0, disk_sum(a).1 + disk_sum(b).1),
        disk_sum(seq![line]) == disk_line(line),
        disk_sum(seq![]) == (0nat, 0nat),
        disk_of(s) == disk_sum(lines_of(s)),
    decreases b.len(),
{
    reveal_with_fuel(disk_sum, 2);
    assert(seq![line].drop_last() =~= seq![]);
    if b.len() == 0 {
        assert(a + b =~= a);
    } else {
        law_devices_add_up(a, b.drop_last(), line, s);
        assert((a + b).drop_last() =~= a + b.drop_last());
    }
}

/// Loop devices and mapped devices do not count, nor do partitions: names that
/// begin with `sd` or `hd` and take more than three bytes, and names that begin
/// with `nvme` and have a `p`. Every other device counts.
pub proof fn law_devices_that_count(name: Seq<char>)
    ensures
        ({
            let begins = |p: Seq<char>|
                p.len() <= name.len() && forall|i: int| 0 <= i < p.len() ==> #[trigger] p[i]
                    == name[i];
            let whole = begins(seq!['l', 'o', 'o', 'p']) || begins(seq!['d', 'm', '-']);
            let part = (begins(seq!['s', 'd']) || begins(seq!['h', 'd'])) && text::byte_len(name)
                > 3;
            let nvme = begins(seq!['n', 'v', 'm', 'e']) && exists|i: int|
                0 <= i < name.len() && name[i] == 'p';
            is_disk(name) <==> !whole && !part && !nvme
        }),
{
    reveal_strlit("loop");
    reveal_strlit("dm-");
    reveal_strlit("sd");
    reveal_strlit("hd");
    reveal_strlit("nvme");
    assert("loop"@ =~= seq!['l', 'o', 'o', 'p']);
    assert("dm-"@ =~= seq!['d', 'm', '-']);
    assert("sd"@ =~= seq!['s', 'd']);
    assert("hd"@ =~= seq!['h', 'd']);
    assert("nvme"@ =~= seq!['n', 'v', 'm', 'e']);
    text::law_prefix_is_the_beginning(name, "loop"@);
    text::law_prefix_is_the_beginning(name, "dm-"@);
    text::law_prefix_is_the_beginning(name, "sd"@);
    text::law_prefix_is_the_beginning(name, "hd"@);
    text::law_prefix_is_the_beginning(name, "nvme"@);
}

/// The processors that are counted both before and now, without the count of
/// all of them together.
pub proof fn law_common_processors(prev: int, curr: int)
    requires
        prev >= 1,
        curr >= 1,
    ensures
        prev <= curr ==> common_cores(prev, curr) + 1 == prev,
        curr <= prev ==> common_cores(prev, curr) + 1 == curr,
{
}


/// Counts can be compared where the time of no processor is beyond 64 bits; the
/// first count, of all processors together, does not matter.
pub proof fn law_counts_can_be_compared(prev: Seq<CpuStat>, curr: Seq<CpuStat>)
    requires
        forall|i: int|
            1 <= i < prev.len() ==> {
                let c = #[trigger] prev[i];
                c.user + c.nice + c.system + c.idle + c.iowait + c.irq + c.softirq
                    <= 0xffff_ffff_ffff_ffff
            },
        forall|i: int|
            1 <= i < curr.len() ==> {
                let c = #[trigger] curr[i];
                c.user + c.nice + c.system + c.idle + c.iowait + c.irq + c.softirq
                    <= 0xffff_ffff_ffff_ffff
            },
    ensures
        comparable(prev, curr),
{
    assert forall|i: int| 1 <= i < prev.len() && i < curr.len() implies (
    #[trigger] prev[i]).sum() <= u64::MAX && curr[i].sum() <= u64::MAX by {
        assert(1 <= i < curr.len());
    }
}


/// Each gain is that of its own counter, where the counter did not go back, and
/// nothing where it did. The time of each processor that is counted both before
/// and now is its own.
pub proof fn law_each_gain_is_its_own(
    before: Counters,
    cpu: Seq<CpuStat>,
    net: NetStat,
    disk: DiskStat,
    g: Gains,
    i: int,
)
    requires
        gained(before, cpu, net, disk, g),
    ensures
        net.rx >= before.net.rx ==> g.rx == net.rx - before.net.rx,
        net.rx < before.net.rx ==> g.rx == 0,
        net.tx >= before.net.tx ==> g.tx == net.tx - before.net.tx,
        net.tx < before.net.tx ==> g.tx == 0,
        disk.r >= before.disk.r ==> g.read == disk.r - before.disk.r,
        disk.r < before.disk.r ==> g.read == 0,
        disk.w >= before.disk.w ==> g.written == disk.w - before.disk.w,
        disk.w < before.disk.w ==> g.written == 0,
        cpu.len() <= 1 ==> g.cores is None,
        cpu.len() > 1 ==> g.cores is Some,
        g.cores matches Some(cores) ==> (1 <= i < before.cpu@.len() && i < cpu.len() ==> {
            &&& i - 1 < cores@.len()
            &&& (cores@[i - 1].0 as int, cores@[i - 1].1 as int) == cpu_delta_of(
                before.cpu@[i],
                cpu[i],
            )
        }),
{
    if let Some(cores) = g.cores {
        if 1 <= i < before.cpu@.len() && i < cpu.len() {
            let c = cores@[i - 1];
        }
    }
}

} // verus!
