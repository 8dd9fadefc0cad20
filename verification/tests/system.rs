use std::collections::HashMap;

use sysmon::history::{nhist, ninth_tenth, push_h, sample, Histories, HIST};
use sysmon::procfs;
use sysmon::reading::Reading;
use sysmon::sensors;
use sysmon::sensors::GpuSource;
use sysmon::state;
use sysmon::stats;
use sysmon::stats::{Counters, CpuStat, DiskStat, MemInfo, NetStat};

const STAT: &str = "cpu  10 20 30 40 50 60 70 80 0 0
cpu0 1 2 3 4 5 6 7 8
cpu1 1 x 2 3 4 5 6 7
cpu2 1 2 3 4 5 6
intr 5 6 7 8 9 10 11 12
cpufreq 9 8 7 6 5 4 3
";

fn cpu(user: u64, nice: u64, system: u64, idle: u64, iowait: u64, irq: u64, softirq: u64) -> CpuStat {
    CpuStat { user, nice, system, idle, iowait, irq, softirq }
}

#[test]
fn processors_are_counted() {
    let v = stats::parse_cpu_stats(STAT);
    assert_eq!(
        v,
        vec![
            cpu(10, 20, 30, 40, 50, 60, 70),
            cpu(1, 2, 3, 4, 5, 6, 7),
            cpu(1, 2, 3, 4, 5, 6, 7),
            cpu(9, 8, 7, 6, 5, 4, 3),
        ]
    );
    assert_eq!(stats::parse_cpu_stats(""), vec![]);
    assert_eq!(v[0].total(), 280);
    assert_eq!(v[0].idle_total(), 90);
    assert!(v[0].countable());
    assert!(!cpu(u64::MAX, 1, 0, 0, 0, 0, 0).countable());
    assert!(cpu(u64::MAX, 0, 0, 0, 0, 0, 0).countable());
    assert_eq!(CpuStat::default().total(), 0);
}

#[test]
fn processor_time_passes() {
    let a = cpu(10, 0, 10, 70, 10, 0, 0);
    let b = cpu(30, 0, 20, 130, 20, 0, 0);
    assert_eq!(stats::cpu_delta(&a, &b), (100, 70));
    assert_eq!(stats::cpu_delta(&b, &a), (0, 0));
    assert_eq!(stats::cpu_delta(&a, &a), (0, 0));
}

#[test]
fn memory_is_read() {
    let m = stats::parse_meminfo(
        "MemTotal:       16000 kB\nMemFree: 5 kB\nMemAvailable:   9000 kB\nBuffers: 10 kB\nCached: 20 kB\nSwapCached: 1 kB\nSwapTotal: 300 kB\nSwapFree: 100 kB\n",
    );
    let want = MemInfo {
        total: 16000,
        available: 9000,
        swap_total: 300,
        swap_free: 100,
        buffers: 10,
        cached: 20,
    };
    assert_eq!(m, want);
    assert_eq!(state::mem_used(&m), 7000);
    assert_eq!(state::swap_used(&m), 200);
    let m = stats::parse_meminfo("MemAvailable: 7\nMemTotal: 3\nMemTotal: x\nBuffers:\n\nMemTotal");
    assert_eq!((m.total, m.available, m.buffers), (0, 7, 0));
    assert_eq!(state::mem_used(&m), 0);
    let m = stats::parse_meminfo("");
    assert_eq!((m.total, m.available), (1, 0));
}

const NET: &str = "Inter-|   Receive                                                |  Transmit
 face |bytes    packets errs drop fifo frame compressed multicast|bytes    packets errs
    lo: 1000 1 0 0 0 0 0 0 1000 1 0
  eth0: 500 2 0 0 0 0 0 0 70 3 0
 wlan0: 30 1 0 0 0 0 0 0 8 1 0
 short: 2
";

#[test]
fn network_bytes_are_added_up() {
    assert_eq!(stats::parse_net(NET), NetStat { rx: 532, tx: 78 });
    assert_eq!(stats::parse_net("a\nb\n"), NetStat::default());
    assert_eq!(stats::parse_net(""), NetStat::default());
    let glued = "h\nh\nlo:7 1 2 3 4 5 6 7 8 9\n";
    assert_eq!(stats::parse_net(glued), NetStat { rx: 1, tx: 9 });
}

#[test]
fn network_bytes_that_overflow_are_refused() {
    let big = format!("h\nh\na: {} 0 0 0 0 0 0 0 1\nb: 1 0 0 0 0 0 0 0 1\n", u64::MAX);
    assert_eq!(stats::checked_net(&big), None);
    let full = format!("h\nh\na: {} 0 0 0 0 0 0 0 {}\n", u64::MAX, u64::MAX);
    assert_eq!(stats::checked_net(&full), Some(NetStat { rx: u64::MAX, tx: u64::MAX }));
}

fn disk(name: &str, r: u64, w: u64) -> String {
    format!("8 0 {} 1 2 {} 4 5 6 {} 8 9 10 11\n", name, r, w)
}

#[test]
fn disk_sectors_are_added_up() {
    let mut s = String::new();
    for (name, r, w) in [
        ("sda", 1, 10),
        ("sda1", 1000, 1000),
        ("hdb", 2, 20),
        ("hdb12", 1000, 1000),
        ("loop0", 1000, 1000),
        ("dm-0", 1000, 1000),
        ("nvme0n1", 4, 40),
        ("nvme0n1p2", 1000, 1000),
        ("mmcblk0p1", 8, 80),
        ("sdé", 1000, 1000),
        ("é", 16, 160),
    ] {
        s.push_str(&disk(name, r, w));
    }
    s.push_str("8 0 sdz 1 2 1000 4 5 6 1000 8 9 10\n");
    assert_eq!(stats::parse_disk(&s), DiskStat { r: 31, w: 310 });
    assert_eq!(stats::parse_disk(""), DiskStat::default());
    let big = disk("sda", u64::MAX, 0) + &disk("sdb", 1, 0);
    assert_eq!(stats::checked_disk(&big), None);
}

#[test]
fn counters_tell_what_was_gained() {
    let one = cpu(10, 0, 0, 90, 0, 0, 0);
    let two = cpu(40, 0, 0, 160, 0, 0, 0);
    let mut c = Counters {
        cpu: vec![one, one, two],
        net: NetStat { rx: 100, tx: 50 },
        disk: DiskStat { r: 7, w: 9 },
    };
    let g = c.refresh(
        vec![two, two, two, one],
        NetStat { rx: 150, tx: 40 },
        DiskStat { r: 8, w: 9 },
    );
    assert_eq!(g.cores, Some(vec![(100, 70), (0, 0)]));
    assert_eq!((g.rx, g.tx, g.read, g.written), (50, 0, 1, 0));
    assert_eq!(c.cpu.len(), 4);
    assert_eq!(c.net, NetStat { rx: 150, tx: 40 });
    let g = c.refresh(vec![one], NetStat::default(), DiskStat::default());
    assert_eq!(g.cores, None);
    let g = c.refresh(vec![one, two], NetStat::default(), DiskStat::default());
    assert_eq!(g.cores, Some(vec![]));
    assert_eq!(stats::core_count(0), 1);
    assert_eq!(stats::core_count(1), 1);
    assert_eq!(stats::core_count(2), 1);
    assert_eq!(stats::core_count(9), 8);
}

#[test]
fn temperatures_must_be_plausible() {
    for v in 0..200_000u64 {
        let c = v as f64 / 1000.0;
        let want = if c > 1.0 && c < 120.0 { Some(v) } else { None };
        assert_eq!(sensors::plausible_temp(&v.to_string()), want);
    }
    assert_eq!(sensors::plausible_temp(" 45000\n"), Some(45000));
    assert_eq!(sensors::plausible_temp("warm"), None);
    let all = vec!["0".to_string(), "x".to_string(), "47500\n".to_string(), "50000".to_string()];
    assert_eq!(sensors::first_temp(&all), Some(47500));
    assert_eq!(sensors::first_temp(&vec![]), None);
}

#[test]
fn clock_rates_end_at_the_first_gap() {
    let all: Vec<String> = ["2400000\n", "1800999", "?", "3000000"].iter().map(|s| s.to_string()).collect();
    let f = sensors::parse_freqs(&all);
    assert_eq!(f, vec![2400, 1800]);
    assert_eq!(sensors::mean(&f), 2100);
    assert_eq!(sensors::mean(&vec![]), 0);
    assert_eq!(sensors::sum(&vec![u64::MAX, 1]), None);
    assert_eq!(sensors::sum(&vec![u64::MAX, 0]), Some(u64::MAX));
}

#[test]
fn graphics_processor_line_is_read() {
    let g = sensors::parse_gpu_line(" NVIDIA X, 37 , 1024, 8192, 61\n").unwrap();
    assert_eq!((g.name.as_str(), g.load.as_str(), g.temp.as_str()), ("NVIDIA X", "37", "61"));
    assert_eq!((g.mem_used, g.mem_total), (1024, 8192));
    let g = sensors::parse_gpu_line("A,b,c,,e,f").unwrap();
    assert_eq!((g.mem_used, g.mem_total), (0, 0));
    assert!(sensors::parse_gpu_line("").is_none());
    assert!(sensors::parse_gpu_line(",1,2,3,4").is_none());
    assert!(sensors::parse_gpu_line("a,1,2,3").is_none());
}

#[test]
fn graphics_card_files_are_read() {
    assert_eq!(sensors::mebibytes(Some("8589934592\n".to_string())), 8192);
    assert_eq!(sensors::mebibytes(Some("1048575".to_string())), 0);
    assert_eq!(sensors::mebibytes(Some("-".to_string())), 0);
    assert_eq!(sensors::mebibytes(None), 0);
    assert_eq!(sensors::card_name(Some(" Radeon \n".to_string()), 0), "Radeon");
    assert_eq!(sensors::card_name(None, 2), "AMD GPU (card2)");
}

#[test]
fn process_directories_are_counted() {
    let names: Vec<String> = ["1", "42", "self", "4a", "", "007"].iter().map(|s| s.to_string()).collect();
    assert_eq!(procfs::count_procs(&names), 4);
    assert!(procfs::pid_name("123"));
    assert!(!procfs::pid_name("12٣"));
}

#[test]
fn users_have_names() {
    let m = procfs::build_uid_cache(
        "root:x:0:0:root:/root:/bin/bash\nbroken\nann:x:1000:1000\nbob:x:abc:1\nzed:x:1000:5\n:x:7:\n",
    );
    assert_eq!(m.len(), 3);
    assert_eq!(m.get(&0).map(|s| s.as_str()), Some("root"));
    assert_eq!(m.get(&1000).map(|s| s.as_str()), Some("zed"));
    assert_eq!(m.get(&7).map(|s| s.as_str()), Some(""));
}

fn stat_line(name: &str) -> String {
    format!(
        "77 ({}) S 1 77 77 0 -1 4194560 100 0 0 0 250 50 0 0 20 -5 3 0 12345 2097152 300 18446744073709551615",
        name
    )
}

#[test]
fn status_lines_are_read() {
    for name in ["bash", "a) (b", "", "tmux: server", "naïve"] {
        let line = stat_line(name);
        assert!(procfs::readable_stat(&line));
        let st = procfs::parse_stat(&line).unwrap();
        assert_eq!(st.name, name);
        assert_eq!(st.state, 'S');
        assert_eq!((st.ppid, st.nice, st.threads), (1, -5, 3));
        assert_eq!((st.utime, st.stime, st.start, st.virt_kb), (250, 50, 12345, 2048));
        assert_eq!(st.ticks(), Some(300));
        assert_eq!(st.start_secs(), 123);
    }
}

#[test]
fn short_status_lines_are_passed_over() {
    assert!(procfs::parse_stat("1 (x) S 1 2 3").is_none());
    assert!(procfs::readable_stat("1 (x) S"));
}

#[test]
fn status_lines_that_cannot_be_cut_are_told() {
    assert!(!procfs::readable_stat(""));
    assert!(!procfs::readable_stat("1 (x)"));
    assert!(procfs::readable_stat("1 (x) "));
    assert!(!procfs::readable_stat(") ("));
    assert!(!procfs::readable_stat("é"));
    assert!(procfs::readable_stat("abc"));
    assert!(!procfs::readable_stat("(x)é"));
    assert!(procfs::readable_stat("(x)éa") == "(x)éa".is_char_boundary(4));
}

#[test]
fn processes_are_put_together() {
    let line = stat_line("bash");
    let mut users: HashMap<u32, String> = HashMap::new();
    users.insert(1000, "ann".to_string());
    let status = "Name:\tbash\nUid:\t1000\t1000\nVmRSS:\t  5120 kB\n";
    let cpu = Reading { bits: 1.5f64.to_bits(), text: "1.5".to_string() };
    let st = procfs::parse_stat(&line).unwrap();
    let p = procfs::read_proc(77, st, cpu, status, "bash\0-c\0run\0", &users);
    assert_eq!((p.pid, p.ppid, p.mem_kb, p.virt_kb), (77, 1, 5120, 2048));
    assert_eq!((p.name.as_str(), p.user.as_str(), p.cmd.as_str()), ("bash", "ann", "bash -c run"));
    assert_eq!((p.state, p.nice, p.threads), ('S', -5, 3));
    assert!(p.children.is_empty());
    let cpu = Reading { bits: 0, text: "0.0".to_string() };
    let st = procfs::parse_stat(&line).unwrap();
    let p = procfs::read_proc(8, st, cpu, "Uid: 33\nVmRSS: x\nUid: 44 44", &"a".repeat(300), &users);
    assert_eq!((p.mem_kb, p.user.as_str(), p.cmd.len()), (0, "44", 120));
    let cpu = Reading { bits: 0, text: "0.0".to_string() };
    let st = procfs::parse_stat(&line).unwrap();
    let p = procfs::read_proc(8, st, cpu, "", "", &users);
    assert_eq!((p.mem_kb, p.user.as_str(), p.cmd.as_str()), (0, "0", ""));
}

#[test]
fn ticks_that_overflow_are_told() {
    let line = format!("1 (x) R 1 2 3 4 5 6 7 8 9 10 {} 1 13 14 15 16 17 18 19 20 21 22", u64::MAX);
    assert_eq!(procfs::parse_stat(&line).unwrap().ticks(), None);
}

#[test]
fn history_keeps_the_newest() {
    let mut h = nhist(0u32);
    assert_eq!(h.len(), HIST);
    for i in 1..=450u32 {
        push_h(&mut h, i);
        assert_eq!(h.len(), HIST);
        assert_eq!(h.back(), Some(&i));
    }
    assert!(h.iter().cloned().eq(251..=450u32));
    let mut h = nhist(0.0f64);
    push_h(&mut h, 2.5);
    assert_eq!((h[0], h[HIST - 1]), (0.0, 2.5));
}

#[test]
fn graph_columns_sample_the_history() {
    for w in [1u16, 7, 28, 199, 200, 201, 1000] {
        for col in 0..w {
            assert_eq!(sample(col, w, 200), (col as usize * 200 / w as usize).min(199));
        }
    }
    assert_eq!(sample(3, 5, 0), 0);
    assert_eq!(ninth_tenth(200), 180);
    assert_eq!(ninth_tenth(1), 0);
    assert_eq!(ninth_tenth(0), 0);
}

#[test]
fn time_is_kept() {
    assert!(!state::procs_due(1_500_000_000));
    assert!(state::procs_due(1_500_000_001));
    assert_eq!(state::poll_wait(5, 5), None);
    assert_eq!(state::poll_wait(6, 5), None);
    assert_eq!(state::poll_wait(0, 1_000_000_000), Some(50_000_000));
    assert_eq!(state::poll_wait(970_000_000, 1_000_000_000), Some(30_000_000));
}

#[test]
fn gains_add_up() {
    let zero = NetStat::default();
    let mut c = Counters { cpu: vec![], net: zero, disk: DiskStat::default() };
    let mut sum = 0;
    for rx in [5, 5, 19, 100] {
        sum += c.refresh(vec![], NetStat { rx, tx: 0 }, DiskStat::default()).rx;
    }
    assert_eq!(sum, 100);
}

#[test]
fn histories_get_their_own_values() {
    let mut h = Histories::new(0);
    h.record(1, 2, 3, 4, 5, None);
    h.record(10, 20, 30, 40, 50, Some(60));
    let last = |v: &std::collections::VecDeque<i32>| (v.len(), v[HIST - 2], v[HIST - 1]);
    assert_eq!(last(&h.avg), (HIST, 1, 10));
    assert_eq!(last(&h.rx), (HIST, 2, 20));
    assert_eq!(last(&h.tx), (HIST, 3, 30));
    assert_eq!(last(&h.read), (HIST, 4, 40));
    assert_eq!(last(&h.written), (HIST, 5, 50));
    assert_eq!(last(&h.gpu), (HIST, 0, 60));
}

#[test]
fn only_counts_with_a_partner_are_compared() {
    let full = cpu(u64::MAX, 1, 0, 0, 0, 0, 0);
    let one = cpu(1, 0, 0, 1, 0, 0, 0);
    let two = cpu(2, 0, 0, 3, 0, 0, 0);
    let mut c = Counters { cpu: vec![full, one], net: NetStat::default(), disk: DiskStat::default() };
    assert!(!c.can_refresh(&vec![one, full]));
    assert!(c.can_refresh(&vec![full, two, full]));
    let g = c.refresh(vec![full, two, full], NetStat::default(), DiskStat::default());
    assert_eq!(g.cores, Some(vec![(3, 2)]));
    assert!(!c.can_refresh(&vec![one, two, one]));
    assert!(c.can_refresh(&vec![one, two]));
}

#[test]
fn graphics_processors_are_looked_for_in_order() {
    let none: Vec<Option<String>> = vec![None, None];
    let some = vec![None, Some("5".to_string()), Some("9".to_string())];
    assert_eq!(sensors::first_card(&none), None);
    assert_eq!(sensors::first_card(&vec![]), None);
    assert_eq!(sensors::first_card(&some), Some(1));
    let line = || Some("X, 1, 2, 3, 4".to_string());
    assert!(matches!(sensors::find_gpu(line(), &some), GpuSource::Driver(g) if g.name == "X"));
    assert!(matches!(sensors::find_gpu(line(), &none), GpuSource::Driver(_)));
    assert!(matches!(sensors::find_gpu(Some("no devices".to_string()), &some), GpuSource::Card(1)));
    assert!(matches!(sensors::find_gpu(None, &some), GpuSource::Card(1)));
    assert!(matches!(sensors::find_gpu(None, &none), GpuSource::Absent));
}
