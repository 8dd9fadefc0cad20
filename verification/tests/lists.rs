use sysmon::list;
use sysmon::process::{arrange, can_sort, Proc, SortCol};
use sysmon::reading::Reading;
use sysmon::tree::{build_tree, flatten_tree};

fn reading(v: f64) -> Reading {
    Reading { bits: v.to_bits(), text: format!("{:.1}", v) }
}

fn proc(pid: u32, ppid: u32, name: &str) -> Proc {
    Proc {
        pid,
        ppid,
        name: name.to_string(),
        user: "root".to_string(),
        state: 'S',
        cpu: reading(pid as f64 / 10.0),
        mem_kb: 1000 - pid as u64,
        threads: 1,
        cmd: format!("/bin/{}", name),
        nice: 0,
        virt_kb: 5,
        children: vec![],
    }
}

fn table() -> Vec<Proc> {
    vec![
        proc(30, 1, "Zsh"),
        proc(1, 0, "init"),
        proc(20, 1, "bash"),
        proc(25, 20, "vim"),
        proc(21, 20, "LESS"),
    ]
}

fn pids(procs: &Vec<Proc>, idx: &Vec<usize>) -> Vec<u32> {
    idx.iter().map(|&i| procs[i].pid).collect()
}

fn all(n: usize) -> Vec<usize> {
    (0..n).collect()
}

#[test]
fn columns_have_labels() {
    let v = [
        (SortCol::Cpu, "CPU"),
        (SortCol::Mem, "MEM"),
        (SortCol::Pid, "PID"),
        (SortCol::Name, "NAME"),
        (SortCol::User, "USER"),
        (SortCol::State, "ST"),
        (SortCol::Threads, "THR"),
        (SortCol::Virt, "VIRT"),
    ];
    for (c, l) in v {
        assert_eq!(c.label(), l);
    }
}

#[test]
fn children_are_found() {
    let mut v = table();
    v[0].children = vec![9, 9];
    build_tree(&mut v);
    assert_eq!(v[1].children, vec![30, 20]);
    assert_eq!(v[2].children, vec![25, 21]);
    assert!(v[0].children.is_empty() && v[3].children.is_empty() && v[4].children.is_empty());
}

#[test]
fn tree_lists_children_below_their_parents() {
    let mut v = table();
    build_tree(&mut v);
    let flat: Vec<(u32, usize)> = flatten_tree(&v).iter().map(|&(i, d)| (v[i].pid, d)).collect();
    assert_eq!(flat, vec![(1, 0), (20, 1), (21, 2), (25, 2), (30, 1)]);
}

#[test]
fn tree_lists_circles_and_orphans() {
    let mut v = vec![
        proc(5, 6, "a"),
        proc(6, 5, "b"),
        proc(9, 77, "orphan"),
        proc(4, 4, "own parent"),
        proc(7, 4, "child"),
    ];
    build_tree(&mut v);
    assert_eq!(v[3].children, vec![4, 7]);
    let flat: Vec<(u32, usize)> = flatten_tree(&v).iter().map(|&(i, d)| (v[i].pid, d)).collect();
    assert_eq!(flat, vec![(4, 0), (7, 1), (9, 0), (5, 0), (6, 0)]);
}

#[test]
fn tree_lists_every_process_once_under_twin_numbers() {
    let mut v = vec![proc(3, 0, "a"), proc(3, 0, "b"), proc(8, 3, "c")];
    build_tree(&mut v);
    assert!(v[0].children.is_empty());
    assert_eq!(v[1].children, vec![8]);
    assert_eq!(flatten_tree(&v), vec![(0, 0), (1, 0), (2, 1)]);
    assert_eq!(flatten_tree(&vec![]), vec![]);
}

#[test]
fn deep_trees_are_listed() {
    let mut v: Vec<Proc> = (1..=5000).map(|i| proc(i, i - 1, "x")).collect();
    build_tree(&mut v);
    let flat = flatten_tree(&v);
    assert_eq!(flat.len(), 5000);
    assert_eq!(flat[4999], (4999, 4999));
}

#[test]
fn every_column_sorts() {
    let mut v = table();
    v[0].user = "ann".to_string();
    v[3].state = 'R';
    v[4].threads = 7;
    v[2].virt_kb = 9;
    let cases = [
        (SortCol::Cpu, true, vec![1, 20, 21, 25, 30]),
        (SortCol::Cpu, false, vec![30, 25, 21, 20, 1]),
        (SortCol::Mem, true, vec![30, 25, 21, 20, 1]),
        (SortCol::Pid, true, vec![1, 20, 21, 25, 30]),
        (SortCol::Name, true, vec![21, 30, 20, 1, 25]),
        (SortCol::User, true, vec![30, 1, 20, 25, 21]),
        (SortCol::User, false, vec![1, 20, 25, 21, 30]),
        (SortCol::State, true, vec![25, 30, 1, 20, 21]),
        (SortCol::Threads, false, vec![21, 30, 1, 20, 25]),
        (SortCol::Virt, false, vec![20, 30, 1, 25, 21]),
    ];
    for (col, asc, want) in cases {
        assert_eq!(pids(&v, &arrange(&v, all(5), col, asc)), want, "{:?} {}", col, asc);
    }
}

#[test]
fn sorting_agrees_with_a_stable_sort() {
    let mut seed: u64 = 7;
    let mut v: Vec<Proc> = vec![];
    for i in 0..300 {
        seed = seed.wrapping_mul(6364136223846793005).wrapping_add(1442695040888963407);
        let mut p = proc(i, 0, "x");
        p.name = ["ä", "a", "b", "", "aa", "Z", "漢"][(seed >> 40) as usize % 7].to_string();
        p.cpu = reading(((seed >> 33) % 5) as f64 - 2.0);
        v.push(p);
    }
    for asc in [true, false] {
        let mut want = all(300);
        want.sort_by(|&a, &b| {
            let o = v[a].name.cmp(&v[b].name);
            if asc { o } else { o.reverse() }
        });
        assert_eq!(arrange(&v, all(300), SortCol::Name, asc), want);
        let mut want = all(300);
        want.sort_by(|&a, &b| {
            let x = f64::from_bits(v[a].cpu.bits);
            let y = f64::from_bits(v[b].cpu.bits);
            let o = x.partial_cmp(&y).unwrap();
            if asc { o } else { o.reverse() }
        });
        assert_eq!(arrange(&v, all(300), SortCol::Cpu, asc), want);
    }
}

#[test]
fn search_looks_into_name_user_number_and_command() {
    assert!(list::hit("bash", "root", 42, "/bin/bash -l", "ash"));
    assert!(list::hit("bash", "root", 42, "/bin/bash -l", "oo"));
    assert!(list::hit("bash", "root", 142, "/bin/bash -l", "42"));
    assert!(list::hit("bash", "root", 42, "/bin/bash -l", "-l"));
    assert!(list::hit("bash", "root", 42, "/bin/bash -l", ""));
    assert!(!list::hit("bash", "root", 42, "/bin/bash -l", "zsh"));
    assert!(!list::hit("Bash", "root", 42, "", "bash"));
}

#[test]
fn search_knows_no_case() {
    let v = table();
    assert_eq!(list::matching(&v, "less"), vec![false, false, false, false, true]);
    assert_eq!(list::matching(&v, "ZSH"), vec![true, false, false, false, false]);
    assert_eq!(list::matching(&v, "BIN/B"), vec![false, false, true, false, false]);
    assert_eq!(list::matching(&v, "2"), vec![false, false, true, true, true]);
    assert_eq!(list::matching(&v, ""), vec![true; 5]);
    let mut w = table();
    w[1].name = "ÉCRAN".to_string();
    assert_eq!(list::matching(&w, "éc"), vec![false, true, false, false, false]);
}

#[test]
fn lists_hold_what_is_kept() {
    let mut v = table();
    build_tree(&mut v);
    let keep = vec![true, true, false, true, true];
    let l = list::list(&v, &keep, true, SortCol::Cpu, false);
    assert_eq!(pids(&v, &l), vec![1, 21, 25, 30]);
    let l = list::list(&v, &keep, false, SortCol::Pid, true);
    assert_eq!(pids(&v, &l), vec![1, 21, 25, 30]);
    let l = list::list(&v, &keep, false, SortCol::Pid, false);
    assert_eq!(pids(&v, &l), vec![30, 25, 21, 1]);
    let l = list::list(&v, &vec![false; 5], false, SortCol::Name, false);
    assert!(l.is_empty());
}

#[test]
fn loads_that_are_no_numbers_have_no_order() {
    let mut v = table();
    assert!(can_sort(&v, SortCol::Cpu));
    v[2].cpu = reading(f64::NAN);
    assert!(!can_sort(&v, SortCol::Cpu));
    assert!(can_sort(&v, SortCol::Mem));
    v[2].cpu = reading(f64::INFINITY);
    assert!(can_sort(&v, SortCol::Cpu));
}

#[test]
fn reversed_order_turns_the_list_round() {
    let v = table();
    let keep = vec![true, true, true, false, true];
    for col in [SortCol::Pid, SortCol::Name, SortCol::Mem, SortCol::Cpu] {
        let up = list::list(&v, &keep, false, col, true);
        let mut down = list::list(&v, &keep, false, col, false);
        down.reverse();
        assert_eq!(up, down);
    }
}

#[test]
fn tree_can_be_built_again() {
    let mut v = table();
    build_tree(&mut v);
    let first: Vec<Vec<u32>> = v.iter().map(|p| p.children.clone()).collect();
    v[3].children = vec![30];
    build_tree(&mut v);
    let second: Vec<Vec<u32>> = v.iter().map(|p| p.children.clone()).collect();
    assert_eq!(first, second);
    let keep = vec![true; 5];
    let a = list::list(&v, &keep, true, SortCol::Cpu, false);
    let b = list::list(&v, &keep, true, SortCol::Name, true);
    assert_eq!(a, b);
}

#[test]
fn search_keeps_the_order() {
    let mut v = table();
    build_tree(&mut v);
    for in_tree in [false, true] {
        for col in [SortCol::Name, SortCol::User, SortCol::Cpu] {
            for q in ["", "bin", "2", "SH", "s", "none"] {
                let full = list::list(&v, &list::matching(&v, ""), in_tree, col, false);
                let keep = list::matching(&v, q);
                let want: Vec<usize> = full.iter().cloned().filter(|&i| keep[i]).collect();
                assert_eq!(list::list(&v, &keep, in_tree, col, false), want);
                assert_eq!(list::matching(&v, &q.to_uppercase()), list::matching(&v, &q.to_lowercase()));
            }
        }
    }
}

#[test]
fn tree_orders_roots_siblings_and_circles() {
    let mut v = vec![
        proc(90, 91, "circle"),
        proc(50, 10, "b"),
        proc(10, 0, "late root"),
        proc(91, 90, "circle"),
        proc(60, 50, "below b"),
        proc(40, 10, "a"),
        proc(2, 2, "early root"),
        proc(95, 90, "into the circle"),
        proc(45, 40, "below a"),
        proc(3, 2, "child"),
    ];
    build_tree(&mut v);
    let flat: Vec<(u32, usize)> = flatten_tree(&v).iter().map(|&(i, d)| (v[i].pid, d)).collect();
    assert_eq!(
        flat,
        vec![
            (2, 0),
            (3, 1),
            (10, 0),
            (40, 1),
            (45, 2),
            (50, 1),
            (60, 2),
            (90, 0),
            (91, 0),
            (95, 0),
        ]
    );
}

#[test]
fn empty_search_finds_every_process() {
    let v = table();
    for in_tree in [false, true] {
        let keep = list::matching(&v, "");
        assert_eq!(keep, vec![true; 5]);
        let mut l = list::list(&v, &keep, in_tree, SortCol::Mem, false);
        l.sort();
        assert_eq!(l, all(5));
    }
}
