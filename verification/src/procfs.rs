//! What the system tells about its processes and users.
use std::collections::HashMap;
use vstd::prelude::*;

use crate::number;
use crate::process::Proc;
use crate::reading::Reading;
use crate::stats::{number_at, word_number};
use crate::text;
use crate::text::{byte_len, has_prefix, lines_of, pieces, take_of, texts, trim_of, words_of};

verus! {

broadcast use vstd::std_specs::hash::group_hash_axioms;

/// A name that is made of digits alone, as the names of process directories
/// are.
pub open spec fn is_pid_name(s: Seq<char>) -> bool {
    forall|i: int| 0 <= i < s.len() ==> number::is_digit(#[trigger] s[i])
}

/// Tells whether a name is made of digits alone.
pub fn pid_name(s: &str) -> (r: bool)
    ensures
        r == is_pid_name(s@),
{
    let v = text::chars(s);
    for i in 0..v.len()
        invariant
            v@ == s@,
            forall|j: int| 0 <= j < i ==> number::is_digit(#[trigger] v@[j]),
    {
        if !('0' <= v[i] && v[i] <= '9') {
            assert(!number::is_digit(s@[i as int]));
            return false;
        }
    }
    true
}

/// How many of some names are made of digits alone.
pub open spec fn pid_names(names: Seq<Seq<char>>) -> nat
    decreases names.len(),
{
    if names.len() == 0 {
        0
    } else {
        pid_names(names.drop_last()) + if is_pid_name(names.last()) {
            1nat
        } else {
            0nat
        }
    }
}

/// Counts the processes among the names of a directory.
pub fn count_procs(names: &Vec<String>) -> (n: usize)
    ensures
        n == pid_names(texts(names@)),
{
    let ghost all = texts(names@);
    let mut n: usize = 0;
    for i in 0..names.len()
        invariant
            all == texts(names@),
            n == pid_names(all.take(i as int)),
            n <= i,
    {
        proof {
            let next = all.take(i + 1);
            assert(next.drop_last() =~= all.take(i as int));
            assert(next.last() == names@[i as int]@);
        }
        if pid_name(names[i].as_str()) {
            n = n + 1;
        }
    }
    assert(all.take(all.len() as int) =~= all);
    n
}

/// The user that a line names: at least three fields, of which the third is a
/// number.
pub open spec fn user_entry(line: Seq<char>) -> Option<(u32, Seq<char>)> {
    let p = pieces(line, ':');
    if p.len() >= 3 {
        match number::unsigned_of(p[2], u32::MAX as nat) {
            Some(uid) => Some((uid as u32, p[0])),
            None => None,
        }
    } else {
        None
    }
}

/// The name that the last line about a user gives.
pub open spec fn user_name(lines: Seq<Seq<char>>, uid: u32) -> Option<Seq<char>>
    decreases lines.len(),
{
    if lines.len() == 0 {
        None
    } else {
        match user_entry(lines.last()) {
            Some((u, name)) => if u == uid {
                Some(name)
            } else {
                user_name(lines.drop_last(), uid)
            },
            None => user_name(lines.drop_last(), uid),
        }
    }
}

/// A table holds the name of a user exactly where some lines give it.
pub open spec fn names_user(m: Map<u32, String>, lines: Seq<Seq<char>>, uid: u32) -> bool {
    match user_name(lines, uid) {
        Some(name) => m.dom().contains(uid) && m[uid]@ == name,
        None => !m.dom().contains(uid),
    }
}

/// A table holds the names of the users that some lines name.
pub open spec fn names_users(m: Map<u32, String>, lines: Seq<Seq<char>>) -> bool {
    forall|uid: u32| #[trigger] names_user(m, lines, uid)
}

/// Reads the names of the users.
pub fn build_uid_cache(s: &str) -> (m: HashMap<u32, String>)
    ensures
        names_users(m@, lines_of(s@)),
{
    let ls = text::lines(s);
    let ghost all = lines_of(s@);
    let mut m: HashMap<u32, String> = HashMap::new();
    for i in 0..ls.len()
        invariant
            texts(ls@) == all,
            names_users(m@, all.take(i as int)),
    {
        let ghost before = m@;
        let ghost next = all.take(i + 1);
        proof {
            assert(next.drop_last() =~= all.take(i as int));
            assert(next.last() == texts(ls@)[i as int]);
        }
        let p = text::split(ls[i].as_str(), ':');
        if p.len() >= 3 {
            assert(texts(p@)[2] == p@[2]@);
            assert(texts(p@)[0] == p@[0]@);
            if let Some(uid) = number::parse_u32(p[2].as_str()) {
                m.insert(uid, p[0].clone());
            }
        }
        assert forall|uid: u32| #[trigger] names_user(m@, next, uid) by {
            assert(names_user(before, all.take(i as int), uid));
        }
    }
    assert(all.take(all.len() as int) =~= all);
    m
}

/// Where a character stands first.
pub open spec fn first_of(s: Seq<char>, c: char) -> Option<int>
    decreases s.len(),
{
    if s.len() == 0 {
        None
    } else {
        match first_of(s.drop_last(), c) {
            Some(i) => Some(i),
            None => if s.last() == c {
                Some(s.len() - 1)
            } else {
                None
            },
        }
    }
}

/// Where a character stands last.
pub open spec fn last_of(s: Seq<char>, c: char) -> Option<int>
    decreases s.len(),
{
    if s.len() == 0 {
        None
    } else if s.last() == c {
        Some(s.len() - 1)
    } else {
        last_of(s.drop_last(), c)
    }
}

/// How many characters stand before a place that is given in bytes; none where
/// the place is inside a character or beyond the end.
pub open spec fn at_byte(s: Seq<char>, b: int) -> Option<int>
    decreases s.len(),
{
    if byte_len(s) == b {
        Some(s.len() as int)
    } else if s.len() == 0 {
        None
    } else {
        at_byte(s.drop_last(), b)
    }
}

/// The byte at which the name of a process begins in its status line: behind
/// the first opening bracket.
pub open spec fn name_start(s: Seq<char>) -> int {
    1 + match first_of(s, '(') {
        Some(i) => byte_len(s.take(i)) as int,
        None => 0,
    }
}

/// The byte at which the name of a process ends: at the last closing bracket.
pub open spec fn name_end(s: Seq<char>) -> int {
    match last_of(s, ')') {
        Some(i) => byte_len(s.take(i)) as int,
        None => name_start(s),
    }
}

/// A status line can be cut up: the name and what follows it stand at the
/// boundaries of characters.
pub open spec fn sliceable(s: Seq<char>) -> bool {
    &&& at_byte(s, name_start(s)) matches Some(a)
    &&& at_byte(s, name_end(s)) matches Some(b)
    &&& a <= b
    &&& at_byte(s, name_end(s) + 2) is Some
}

/// The name of the process in its status line.
pub open spec fn stat_name(s: Seq<char>) -> Seq<char> {
    s.subrange(at_byte(s, name_start(s))->0, at_byte(s, name_end(s))->0)
}

/// The fields that follow the name, one space behind the closing bracket.
pub open spec fn stat_fields(s: Seq<char>) -> Seq<Seq<char>> {
    words_of(s.skip(at_byte(s, name_end(s) + 2)->0))
}

fn find_first(v: &Vec<char>, c: char) -> (r: Option<usize>)
    ensures
        match r {
            Some(i) => i < v@.len() && first_of(v@, c) == Some(i as int),
            None => first_of(v@, c) is None,
        },
{
    let mut r: Option<usize> = None;
    for i in 0..v.len()
        invariant
            match r {
                Some(k) => k < i && first_of(v@.take(i as int), c) == Some(k as int),
                None => first_of(v@.take(i as int), c) is None,
            },
    {
        assert(v@.take(i + 1).drop_last() =~= v@.take(i as int));
        if r.is_none() && v[i] == c {
            r = Some(i);
        }
    }
    assert(v@.take(v@.len() as int) =~= v@);
    r
}

fn find_last(v: &Vec<char>, c: char) -> (r: Option<usize>)
    ensures
        match r {
            Some(i) => i < v@.len() && last_of(v@, c) == Some(i as int),
            None => last_of(v@, c) is None,
        },
{
    let mut r: Option<usize> = None;
    for i in 0..v.len()
        invariant
            match r {
                Some(k) => k < i && last_of(v@.take(i as int), c) == Some(k as int),
                None => last_of(v@.take(i as int), c) is None,
            },
    {
        assert(v@.take(i + 1).drop_last() =~= v@.take(i as int));
        if v[i] == c {
            r = Some(i);
        }
    }
    assert(v@.take(v@.len() as int) =~= v@);
    r
}

fn byte_offset(v: &Vec<char>, k: usize) -> (n: u128)
    requires
        k <= v@.len(),
    ensures
        n == byte_len(v@.take(k as int)),
        n <= 4 * k,
{
    let mut n: u128 = 0;
    for i in 0..k
        invariant
            k <= v@.len(),
            n == byte_len(v@.take(i as int)),
            n <= 4 * i,
    {
        assert(v@.take(i + 1).drop_last() =~= v@.take(i as int));
        n = n + text::char_width(v[i]);
    }
    n
}

fn find_byte(v: &Vec<char>, b: u128) -> (r: Option<usize>)
    ensures
        match r {
            Some(i) => i <= v@.len() && at_byte(v@, b as int) == Some(i as int),
            None => at_byte(v@, b as int) is None,
        },
{
    let mut k: usize = v.len();
    let mut n: u128 = byte_offset(v, k);
    assert(v@.take(v@.len() as int) =~= v@);
    while n != b && k > 0
        invariant
            k <= v@.len(),
            n == byte_len(v@.take(k as int)),
            at_byte(v@, b as int) == at_byte(v@.take(k as int), b as int),
        decreases k,
    {
        assert(v@.take(k as int).drop_last() =~= v@.take(k - 1));
        n = n - text::char_width(v[k - 1]);
        k = k - 1;
    }
    if n == b {
        Some(k)
    } else {
        None
    }
}

fn cuts(v: &Vec<char>) -> (r: Option<(usize, usize, usize)>)
    ensures
        r is Some <==> sliceable(v@),
        r matches Some(c) ==> {
            &&& c.0 <= c.1 <= v@.len()
            &&& c.2 <= v@.len()
            &&& at_byte(v@, name_start(v@)) == Some(c.0 as int)
            &&& at_byte(v@, name_end(v@)) == Some(c.1 as int)
            &&& at_byte(v@, name_end(v@) + 2) == Some(c.2 as int)
        },
{
    let ns: u128 = 1 + match find_first(v, '(') {
        Some(i) => byte_offset(v, i),
        None => 0,
    };
    let ne: u128 = match find_last(v, ')') {
        Some(i) => byte_offset(v, i),
        None => ns,
    };
    match (find_byte(v, ns), find_byte(v, ne), find_byte(v, ne + 2)) {
        (Some(a), Some(b), Some(c)) => if a <= b {
            Some((a, b, c))
        } else {
            None
        },
        _ => None,
    }
}

/// Tells whether a status line can be cut up.
pub fn readable_stat(s: &str) -> (r: bool)
    ensures
        r == sliceable(s@),
{
    let v = text::chars(s);
    cuts(&v).is_some()
}

/// What the status line of a process says.
pub struct Stat {
    pub name: String,
    pub state: char,
    pub ppid: u32,
    pub nice: i32,
    pub utime: u64,
    pub stime: u64,
    pub start: u64,
    pub threads: u32,
    pub virt_kb: u64,
}

/// The 32-bit number that a word denotes; zero where there is no such word or
/// it denotes none.
pub open spec fn small_number_at(ws: Seq<Seq<char>>, i: int) -> u32 {
    if 0 <= i < ws.len() {
        match number::unsigned_of(ws[i], u32::MAX as nat) {
            Some(n) => n as u32,
            None => 0,
        }
    } else {
        0
    }
}

/// The signed number that a word denotes; zero where it denotes none.
pub open spec fn signed_number_at(ws: Seq<Seq<char>>, i: int) -> i32 {
    match number::signed_of(ws[i]) {
        Some(n) => n as i32,
        None => 0,
    }
}

fn word_small_number(ws: &Vec<String>, i: usize) -> (n: u32)
    ensures
        n == small_number_at(texts(ws@), i as int),
{
    if i < ws.len() {
        assert(texts(ws@)[i as int] == ws@[i as int]@);
        match number::parse_u32(ws[i].as_str()) {
            Some(n) => n,
            None => 0,
        }
    } else {
        0
    }
}

fn word_signed_number(ws: &Vec<String>, i: usize) -> (n: i32)
    requires
        i < ws@.len(),
    ensures
        n == signed_number_at(texts(ws@), i as int),
{
    assert(texts(ws@)[i as int] == ws@[i as int]@);
    match number::parse_i32(ws[i].as_str()) {
        Some(n) => n,
        None => 0,
    }
}

impl Stat {
    /// The fields are those of a status line.
    pub open spec fn is_of(self, s: Seq<char>) -> bool {
        let f = stat_fields(s);
        &&& self.name@ == stat_name(s)
        &&& self.state == if f[0].len() > 0 {
            f[0][0]
        } else {
            '?'
        }
        &&& self.ppid == small_number_at(f, 1)
        &&& self.utime == number_at(f, 11)
        &&& self.stime == number_at(f, 12)
        &&& self.nice == signed_number_at(f, 16)
        &&& self.threads == small_number_at(f, 17)
        &&& self.start == number_at(f, 19)
        &&& self.virt_kb == number_at(f, 20) / 1024
    }

    /// The ticks of the clock that the process has run for, in its own code
    /// and in the kernel, where they can be counted in 64 bits.
    pub fn ticks(&self) -> (r: Option<u64>)
        ensures
            r == if self.utime + self.stime <= u64::MAX {
                Some((self.utime + self.stime) as u64)
            } else {
                None
            },
    {
        self.utime.checked_add(self.stime)
    }

    /// The second after the start of the system in which the process started,
    /// at a hundred ticks in a second.
    pub fn start_secs(&self) -> (n: u64)
        ensures
            n == self.start / 100,
    {
        self.start / 100
    }
}

/// Reads the status line of a process. A line with too few fields is passed
/// over.
pub fn parse_stat(s: &str) -> (r: Option<Stat>)
    requires
        sliceable(s@),
    ensures
        r is Some <==> stat_fields(s@).len() >= 22,
        r matches Some(st) ==> st.is_of(s@),
{
    let v = text::chars(s);
    match cuts(&v) {
        Some((a, b, c)) => {
            let name = text::string(&v, a, b);
            let rest = text::string(&v, c, v.len());
            assert(rest@ =~= s@.skip(c as int));
            let ws = text::words(rest.as_str());
            if ws.len() < 22 {
                assert(texts(ws@).len() == ws@.len());
                return None;
            }
            assert(texts(ws@)[0] == ws@[0]@);
            let first = text::chars(ws[0].as_str());
            let state: char = if first.len() > 0 {
                first[0]
            } else {
                '?'
            };
            let virt: u64 = word_number(&ws, 20);
            Some(
                Stat {
                    name,
                    state,
                    ppid: word_small_number(&ws, 1),
                    nice: word_signed_number(&ws, 16),
                    utime: word_number(&ws, 11),
                    stime: word_number(&ws, 12),
                    start: word_number(&ws, 19),
                    threads: word_small_number(&ws, 17),
                    virt_kb: virt / 1024,
                },
            )
        },
        None => None,
    }
}

/// The resident memory in the last line that begins with `VmRSS:`, or zero.
pub open spec fn resident_of(lines: Seq<Seq<char>>) -> u64
    decreases lines.len(),
{
    if lines.len() == 0 {
        0
    } else if has_prefix(lines.last(), "VmRSS:"@) {
        number_at(words_of(lines.last()), 1)
    } else {
        resident_of(lines.drop_last())
    }
}

/// The user in the last line that begins with `Uid:`, or the user zero.
pub open spec fn owner_of(lines: Seq<Seq<char>>) -> u32
    decreases lines.len(),
{
    if lines.len() == 0 {
        0
    } else if has_prefix(lines.last(), "Uid:"@) {
        small_number_at(words_of(lines.last()), 1)
    } else {
        owner_of(lines.drop_last())
    }
}

/// Reads the resident memory, in kibibytes, and the user of a process.
pub fn parse_status(s: &str) -> (r: (u64, u32))
    ensures
        r.0 == resident_of(lines_of(s@)),
        r.1 == owner_of(lines_of(s@)),
{
    let ls = text::lines(s);
    let ghost all = lines_of(s@);
    let mut mem_kb: u64 = 0;
    let mut uid: u32 = 0;
    for i in 0..ls.len()
        invariant
            texts(ls@) == all,
            mem_kb == resident_of(all.take(i as int)),
            uid == owner_of(all.take(i as int)),
    {
        proof {
            let next = all.take(i + 1);
            assert(next.drop_last() =~= all.take(i as int));
            assert(next.last() == texts(ls@)[i as int]);
        }
        let line = ls[i].as_str();
        if text::starts_with(line, "VmRSS:") {
            mem_kb = word_number(&text::words(line), 1);
        }
        if text::starts_with(line, "Uid:") {
            uid = word_small_number(&text::words(line), 1);
        }
    }
    assert(all.take(all.len() as int) =~= all);
    (mem_kb, uid)
}

/// A text with spaces in place of the zero characters.
pub open spec fn spaced(s: Seq<char>) -> Seq<char> {
    Seq::new(
        s.len(),
        |i: int|
            if s[i] == '\0' {
                ' '
            } else {
                s[i]
            },
    )
}

/// The longest command that is kept.
pub const CMD_LEN: usize = 120;

/// Reads a command line: its arguments, which zero characters end, with spaces
/// between them, and at most 120 characters.
pub fn parse_cmdline(s: &str) -> (r: String)
    ensures
        r@ == take_of(trim_of(spaced(s@)), CMD_LEN as int),
{
    let v = text::chars(s);
    let mut t: String = String::new();
    for i in 0..v.len()
        invariant
            v@ == s@,
            t@ == spaced(s@).take(i as int),
    {
        t.push(if v[i] == '\0' { ' ' } else { v[i] });
        assert(t@ =~= spaced(s@).take(i + 1));
    }
    assert(spaced(s@).take(s@.len() as int) =~= spaced(s@));
    text::take(text::trim(t.as_str()).as_str(), CMD_LEN)
}

/// The name of a user, or the number of one who has none.
pub open spec fn user_shown(users: Map<u32, String>, uid: u32) -> Seq<char> {
    if users.dom().contains(uid) {
        users[uid]@
    } else {
        number::decimal_of(uid as nat)
    }
}

/// A process as its files tell of it.
pub open spec fn is_told(
    p: Proc,
    pid: u32,
    st: Stat,
    cpu: Reading,
    status: Seq<char>,
    cmdline: Seq<char>,
    users: Map<u32, String>,
) -> bool {
    &&& p.pid == pid
    &&& p.ppid == st.ppid
    &&& p.name == st.name
    &&& p.user@ == user_shown(users, owner_of(lines_of(status)))
    &&& p.state == st.state
    &&& p.cpu == cpu
    &&& p.mem_kb == resident_of(lines_of(status))
    &&& p.threads == st.threads
    &&& p.cmd@ == take_of(trim_of(spaced(cmdline)), CMD_LEN as int)
    &&& p.nice == st.nice
    &&& p.virt_kb == st.virt_kb
    &&& p.children@.len() == 0
}

/// Puts together what is known of a process.
pub fn read_proc(
    pid: u32,
    st: Stat,
    cpu: Reading,
    status: &str,
    cmdline: &str,
    users: &HashMap<u32, String>,
) -> (p: Proc)
    ensures
        p.pid == pid,
        p.ppid == st.ppid,
        p.name == st.name,
        p.state == st.state,
        p.cpu == cpu,
        p.nice == st.nice,
        p.threads == st.threads,
        p.virt_kb == st.virt_kb,
        p.mem_kb == resident_of(lines_of(status@)),
        p.user@ == user_shown(users@, owner_of(lines_of(status@))),
        p.cmd@ == take_of(trim_of(spaced(cmdline@)), CMD_LEN as int),
        p.children@.len() == 0,
        is_told(p, pid, st, cpu, status@, cmdline@, users@),
{
    let (mem_kb, uid) = parse_status(status);
    let cmd = parse_cmdline(cmdline);
    let user = match users.get(&uid) {
        Some(name) => name.clone(),
        None => number::decimal(uid as u64),
    };
    Proc {
        pid,
        ppid: st.ppid,
        name: st.name,
        user,
        state: st.state,
        cpu,
        mem_kb,
        threads: st.threads,
        cmd,
        nice: st.nice,
        virt_kb: st.virt_kb,
        children: Vec::new(),
    }
}


/// A directory is that of a process where every character of its name is a
/// digit.
pub proof fn law_process_directories(s: Seq<char>)
    ensures
        is_pid_name(s) <==> forall|i: int| 0 <= i < s.len() ==> 48 <= (#[trigger] s[i]) as int <= 57,
{
    if forall|i: int| 0 <= i < s.len() ==> 48 <= (#[trigger] s[i]) as int <= 57 {
        assert forall|i: int| 0 <= i < s.len() implies number::is_digit(#[trigger] s[i]) by {}
    }
    if is_pid_name(s) {
        assert forall|i: int| 0 <= i < s.len() implies 48 <= (#[trigger] s[i]) as int <= 57 by {
            assert(number::is_digit(s[i]));
        }
    }
}

/// Every name that is made of digits counts as one process, and no other.
pub proof fn law_processes_are_counted(names: Seq<Seq<char>>, name: Seq<char>)
    ensures
        pid_names(seq![]) == 0,
        is_pid_name(name) ==> pid_names(names.push(name)) == pid_names(names) + 1,
        !is_pid_name(name) ==> pid_names(names.push(name)) == pid_names(names),
{
    assert(names.push(name).drop_last() =~= names);
}

/// A line about a user has the name in its first field and the number in its
/// third, between colons.
pub proof fn law_user_line(line: Seq<char>, f: Seq<Seq<char>>)
    requires
        f == pieces(line, ':'),
    ensures
        f.len() < 3 ==> user_entry(line) is None,
        f.len() >= 3 ==> match number::unsigned_of(f[2], u32::MAX as nat) {
            Some(uid) => user_entry(line) == Some((uid as u32, f[0])),
            None => user_entry(line) is None,
        },
{
}

/// A line gives the name of a user.
pub open spec fn gives_user(line: Seq<char>, uid: u32) -> bool {
    user_entry(line) matches Some((u, name)) && u == uid
}

/// A user has the name of the last line that gives the user's number, and none
/// where there is no such line.
pub proof fn law_last_user_line_counts(lines: Seq<Seq<char>>, uid: u32, i: int, name: Seq<char>)
    requires
        -1 <= i < lines.len(),
        i >= 0 ==> user_entry(lines[i]) == Some((uid, name)),
        forall|j: int|
            i < j < lines.len() ==> !gives_user(#[trigger] lines[j], uid),
    ensures
        i >= 0 ==> user_name(lines, uid) == Some(name),
        i == -1 ==> user_name(lines, uid) is None,
    decreases lines.len(),
{
    if lines.len() > 0 && i < lines.len() - 1 {
        let d = lines.drop_last();
        assert(!gives_user(lines[lines.len() - 1], uid));
        assert forall|j: int| i < j < d.len() implies !gives_user(#[trigger] d[j], uid) by {
            assert(d[j] == lines[j]);
        }
        if i >= 0 {
            assert(d[i] == lines[i]);
        }
        law_last_user_line_counts(d, uid, i, name);
    }
}

/// The place where a character stands first.
pub proof fn law_first_place(s: Seq<char>, c: char, i: int)
    requires
        0 <= i < s.len(),
        s[i] == c,
        forall|j: int| 0 <= j < i ==> #[trigger] s[j] != c,
    ensures
        first_of(s, c) == Some(i),
    decreases s.len(),
{
    let d = s.drop_last();
    if i < d.len() {
        assert forall|j: int| 0 <= j < i implies #[trigger] d[j] != c by {
            assert(s[j] != c);
        }
        law_first_place(d, c, i);
    } else {
        assert forall|j: int| 0 <= j < d.len() implies #[trigger] d[j] != c by {
            assert(s[j] != c);
        }
        lemma_no_place(d, c);
    }
}

proof fn lemma_no_place(s: Seq<char>, c: char)
    requires
        forall|j: int| 0 <= j < s.len() ==> #[trigger] s[j] != c,
    ensures
        first_of(s, c) is None,
    decreases s.len(),
{
    if s.len() > 0 {
        let d = s.drop_last();
        assert forall|j: int| 0 <= j < d.len() implies #[trigger] d[j] != c by {
            assert(s[j] != c);
        }
        lemma_no_place(d, c);
        assert(s[s.len() - 1] != c);
    }
}

/// The place where a character stands last.
pub proof fn law_last_place(s: Seq<char>, c: char, i: int)
    requires
        0 <= i < s.len(),
        s[i] == c,
        forall|j: int| i < j < s.len() ==> #[trigger] s[j] != c,
    ensures
        last_of(s, c) == Some(i),
    decreases s.len(),
{
    if i < s.len() - 1 {
        let d = s.drop_last();
        assert(s[s.len() - 1] != c);
        assert forall|j: int| i < j < d.len() implies #[trigger] d[j] != c by {
            assert(s[j] != c);
        }
        law_last_place(d, c, i);
    }
}

proof fn lemma_byte_len_grows(s: Seq<char>, k: int)
    requires
        0 <= k <= s.len(),
    ensures
        byte_len(s.take(k)) + (s.len() - k) <= byte_len(s),
    decreases s.len(),
{
    if k == s.len() {
        assert(s.take(k) =~= s);
    } else {
        lemma_byte_len_grows(s.drop_last(), k);
        assert(s.drop_last().take(k) =~= s.take(k));
    }
}

/// A place is found again from the bytes before it.
proof fn lemma_at_byte(s: Seq<char>, k: int)
    requires
        0 <= k <= s.len(),
    ensures
        at_byte(s, byte_len(s.take(k)) as int) == Some(k),
    decreases s.len(),
{
    if k == s.len() {
        assert(s.take(k) =~= s);
    } else {
        lemma_byte_len_grows(s, k);
        lemma_at_byte(s.drop_last(), k);
        assert(s.drop_last().take(k) =~= s.take(k));
    }
}

/// A status line is the number, the name in brackets, and further fields. The
/// name may hold brackets itself: it ends at the last closing one.
pub proof fn law_status_line_is_cut(a: Seq<char>, name: Seq<char>, b: Seq<char>)
    requires
        forall|i: int| 0 <= i < a.len() ==> #[trigger] a[i] != '(',
        forall|i: int| 0 <= i < b.len() ==> #[trigger] b[i] != ')',
    ensures
        ({
            let s = a + seq!['('] + name + seq![')', ' '] + b;
            &&& sliceable(s)
            &&& stat_name(s) == name
            &&& stat_fields(s) == words_of(b)
        }),
{
    let s = a + seq!['('] + name + seq![')', ' '] + b;
    let (i, j) = (a.len() as int, (a.len() + 1 + name.len()) as int);
    assert(s[i] == '(');
    assert(s[j] == ')');
    assert(s[j + 1] == ' ');
    assert forall|k: int| 0 <= k < i implies #[trigger] s[k] != '(' by {
        assert(s[k] == a[k]);
    }
    assert forall|k: int| j < k < s.len() implies #[trigger] s[k] != ')' by {
        if k > j + 1 {
            assert(s[k] == b[k - j - 2]);
        }
    }
    law_first_place(s, '(', i);
    law_last_place(s, ')', j);
    assert(s.take(i + 1).drop_last() =~= s.take(i));
    assert(byte_len(s.take(i + 1)) == byte_len(s.take(i)) + 1);
    assert(name_start(s) == byte_len(s.take(i + 1)));
    assert(name_end(s) == byte_len(s.take(j)));
    assert(s.take(j + 1).drop_last() =~= s.take(j));
    assert(s.take(j + 2).drop_last() =~= s.take(j + 1));
    assert(byte_len(s.take(j + 1)) == byte_len(s.take(j)) + 1);
    assert(byte_len(s.take(j + 2)) == byte_len(s.take(j)) + 2);
    lemma_at_byte(s, i + 1);
    lemma_at_byte(s, j);
    lemma_at_byte(s, j + 2);
    assert(s.subrange(i + 1, j) =~= name);
    assert(s.skip(j + 2) =~= b);
}

/// The fields behind the name give, counted from it, the state, the parent, and
/// as the twelfth and thirteenth the time run, as the seventeenth the priority,
/// as the eighteenth the threads, as the twentieth the start, and as the
/// twenty-first the virtual memory in bytes.
pub proof fn law_status_fields(st: Stat, s: Seq<char>, f: Seq<Seq<char>>, i: int, n: nat)
    requires
        st.is_of(s),
        f == stat_fields(s),
        f.len() >= 22,
        f[0].len() > 0,
        number::unsigned_of(f[i], u64::MAX as nat) == Some(n),
    ensures
        st.name@ == stat_name(s),
        st.state == f[0][0],
        i == 11 ==> st.utime == n,
        i == 12 ==> st.stime == n,
        i == 19 ==> st.start == n,
        i == 20 ==> 1024 * st.virt_kb <= n < 1024 * st.virt_kb + 1024,
        i == 1 && n <= u32::MAX ==> st.ppid == n,
        i == 17 && n <= u32::MAX ==> st.threads == n,
        number::signed_of(f[16]) matches Some(m) ==> st.nice == m,
        number::signed_of(f[16]) is None ==> st.nice == 0,
{
}

/// The resident memory is the number in the last line about it, and nothing
/// where there is no such line.
pub proof fn law_resident_memory(lines: Seq<Seq<char>>, i: int, kb: nat)
    requires
        -1 <= i < lines.len(),
        i >= 0 ==> has_prefix(lines[i], "VmRSS:"@) && words_of(lines[i]).len() >= 2
            && number::unsigned_of(words_of(lines[i])[1], u64::MAX as nat) == Some(kb),
        forall|j: int| i < j < lines.len() ==> !has_prefix(#[trigger] lines[j], "VmRSS:"@),
    ensures
        i >= 0 ==> resident_of(lines) == kb,
        i == -1 ==> resident_of(lines) == 0,
    decreases lines.len(),
{
    if lines.len() > 0 && i < lines.len() - 1 {
        let d = lines.drop_last();
        assert(!has_prefix(lines[lines.len() - 1], "VmRSS:"@));
        assert forall|j: int| i < j < d.len() implies !has_prefix(#[trigger] d[j], "VmRSS:"@) by {
            assert(d[j] == lines[j]);
        }
        if i >= 0 {
            assert(d[i] == lines[i]);
        }
        law_resident_memory(d, i, kb);
    }
}

/// The user is the first number in the last line about users, and the user zero
/// where there is no such line.
pub proof fn law_owner(lines: Seq<Seq<char>>, i: int, uid: nat)
    requires
        -1 <= i < lines.len(),
        i >= 0 ==> has_prefix(lines[i], "Uid:"@) && words_of(lines[i]).len() >= 2
            && number::unsigned_of(words_of(lines[i])[1], u32::MAX as nat) == Some(uid),
        forall|j: int| i < j < lines.len() ==> !has_prefix(#[trigger] lines[j], "Uid:"@),
    ensures
        i >= 0 ==> owner_of(lines) == uid,
        i == -1 ==> owner_of(lines) == 0,
    decreases lines.len(),
{
    if lines.len() > 0 && i < lines.len() - 1 {
        let d = lines.drop_last();
        assert(!has_prefix(lines[lines.len() - 1], "Uid:"@));
        assert forall|j: int| i < j < d.len() implies !has_prefix(#[trigger] d[j], "Uid:"@) by {
            assert(d[j] == lines[j]);
        }
        if i >= 0 {
            assert(d[i] == lines[i]);
        }
        law_owner(d, i, uid);
    }
}

/// In a command the arguments keep their characters and their places, and what
/// ends them becomes a space.
pub proof fn law_arguments_are_spaced(s: Seq<char>, i: int)
    requires
        0 <= i < s.len(),
    ensures
        spaced(s).len() == s.len(),
        s[i] as int == 0 ==> spaced(s)[i] == ' ',
        s[i] as int != 0 ==> spaced(s)[i] == s[i],
{
}

/// A user is shown by name where the name is known, and else by number.
pub proof fn law_users_are_shown(users: Map<u32, String>, uid: u32)
    ensures
        users.dom().contains(uid) ==> user_shown(users, uid) == users[uid]@,
        !users.dom().contains(uid) ==> user_shown(users, uid) == number::decimal_of(uid as nat),
{
}


/// A table of users has a user exactly where some line gives the user's number,
/// and the name is that of the last such line.
pub proof fn law_table_of_users(m: Map<u32, String>, lines: Seq<Seq<char>>, uid: u32)
    requires
        names_users(m, lines),
    ensures
        m.dom().contains(uid) <==> user_name(lines, uid) is Some,
        m.dom().contains(uid) ==> Some(m[uid]@) == user_name(lines, uid),
{
    assert(names_user(m, lines, uid));
}

/// A command is kept up to 120 characters.
pub proof fn law_commands_are_cut(s: Seq<char>, i: int)
    requires
        0 <= i < s.len(),
    ensures
        take_of(s, CMD_LEN as int).len() == (if s.len() < 120 { s.len() as int } else { 120 }),
        i < 120 ==> take_of(s, CMD_LEN as int)[i] == s[i],
{
}


/// What is known of a process comes from where it is told: number, name, state,
/// parent, priority, threads and virtual memory from its status line, memory and
/// user from its status, and the command from its command line.
pub proof fn law_where_a_process_is_told(
    p: Proc,
    pid: u32,
    st: Stat,
    cpu: Reading,
    status: Seq<char>,
    cmdline: Seq<char>,
    users: Map<u32, String>,
    uid: u32,
)
    requires
        is_told(p, pid, st, cpu, status, cmdline, users),
        uid == owner_of(lines_of(status)),
    ensures
        p.pid == pid,
        p.ppid == st.ppid,
        p.name == st.name,
        p.state == st.state,
        p.cpu == cpu,
        p.nice == st.nice,
        p.threads == st.threads,
        p.virt_kb == st.virt_kb,
        p.mem_kb == resident_of(lines_of(status)),
        users.dom().contains(uid) ==> p.user@ == users[uid]@,
        !users.dom().contains(uid) ==> p.user@ == number::decimal_of(uid as nat),
        p.cmd@.len() <= 120,
        trim_of(spaced(cmdline)).len() <= 120 ==> p.cmd@ == trim_of(spaced(cmdline)),
        p.children@.len() == 0,
{
}

} // verus!
