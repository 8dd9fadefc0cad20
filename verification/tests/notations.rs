use sysmon::buffer::Color;
use sysmon::layout;
use sysmon::notation::{fmt_mem, fmt_up, state_col, state_lbl};
use sysmon::reading;

fn mem(kb: u64) -> String {
    if kb >= 1_048_576 {
        format!("{:.2}GB", kb as f64 / 1_048_576.0)
    } else if kb >= 1024 {
        format!("{:.0}MB", kb as f64 / 1024.0)
    } else {
        format!("{}KB", kb)
    }
}

#[test]
fn memory_is_rounded_as_floating_point_does() {
    for kb in 0..300_000u64 {
        assert_eq!(fmt_mem(kb), mem(kb), "{}", kb);
    }
    for i in 0..200_000u64 {
        let kb = 1_048_576 + i * 7919;
        assert_eq!(fmt_mem(kb), mem(kb), "{}", kb);
    }
    for i in 0..20_000u64 {
        let kb = i * 131_072;
        assert_eq!(fmt_mem(kb), mem(kb), "{}", kb);
    }
}

#[test]
fn large_memory_is_rounded_as_floating_point_does() {
    let mut n: u64 = 0x9e37_79b9_7f4a_7c15;
    for _ in 0..200_000 {
        n = n.wrapping_mul(6364136223846793005).wrapping_add(1442695040888963407);
        for shift in [0, 5, 11, 20, 40] {
            let kb = n >> shift;
            assert_eq!(fmt_mem(kb), mem(kb), "{}", kb);
        }
    }
    for e in 50..64 {
        for d in 0..40u64 {
            let kb = (1u64 << e) - 20 + d;
            assert_eq!(fmt_mem(kb), mem(kb), "{}", kb);
        }
    }
    for d in 0..5000u64 {
        assert_eq!(fmt_mem(u64::MAX - d), mem(u64::MAX - d));
    }
}

#[test]
fn memory_examples() {
    assert_eq!(fmt_mem(0), "0KB");
    assert_eq!(fmt_mem(1023), "1023KB");
    assert_eq!(fmt_mem(1024), "1MB");
    assert_eq!(fmt_mem(1536), "2MB");
    assert_eq!(fmt_mem(2560), "2MB");
    assert_eq!(fmt_mem(1_048_575), "1024MB");
    assert_eq!(fmt_mem(1_048_576), "1.00GB");
    assert_eq!(fmt_mem(1_048_576 + 131_072), "1.12GB");
    assert_eq!(fmt_mem(1_048_576 + 3 * 131_072), "1.38GB");
    assert_eq!(fmt_mem(16_384_000), "15.62GB");
}

#[test]
fn uptime_examples() {
    assert_eq!(fmt_up(0), "00:00:00");
    assert_eq!(fmt_up(61), "00:01:01");
    assert_eq!(fmt_up(86399), "23:59:59");
    assert_eq!(fmt_up(86400), "1d 00:00");
    assert_eq!(fmt_up(86400 * 12 + 3600 * 3 + 60 * 4 + 5), "12d 03:04");
    assert_eq!(fmt_up(u64::MAX), "213503982334601d 07:00");
}

#[test]
fn states_have_names_and_colours() {
    assert_eq!(state_lbl('R'), "RUN");
    assert_eq!(state_lbl('S'), "SLP");
    assert_eq!(state_lbl('D'), "DSK");
    assert_eq!(state_lbl('Z'), "ZMB");
    assert_eq!(state_lbl('T'), "STP");
    assert_eq!(state_lbl('I'), "???");
    assert_eq!(state_col('R'), Color::Green);
    assert_eq!(state_col('S'), Color::Cyan);
    assert_eq!(state_col('D'), Color::Yellow);
    assert_eq!(state_col('Z'), Color::Red);
    assert_eq!(state_col('T'), Color::DarkGrey);
}

#[test]
fn loads_have_colours() {
    let cases = [
        (0.0, Color::Green),
        (-0.0, Color::Green),
        (-5.0, Color::Green),
        (59.999, Color::Green),
        (60.0, Color::Yellow),
        (79.999, Color::Yellow),
        (80.0, Color::Red),
        (100.0, Color::Red),
        (f64::INFINITY, Color::Red),
        (f64::NEG_INFINITY, Color::Green),
        (f64::NAN, Color::Red),
    ];
    for (p, c) in cases {
        assert_eq!(reading::clr(f64::to_bits(p)), c, "{}", p);
    }
}

#[test]
fn readings_are_ordered_as_numbers() {
    let v = [
        f64::NEG_INFINITY, -1.5, -f64::MIN_POSITIVE, -5e-324, -0.0, 0.0, 5e-324, 0.1, 1.0, 99.9,
        f64::MAX, f64::INFINITY, f64::NAN, -f64::NAN,
    ];
    for a in v {
        for b in v {
            assert_eq!(reading::less_than(a.to_bits(), b.to_bits()), a < b, "{} {}", a, b);
        }
    }
}

fn heights(body: u16) -> (u16, u16) {
    let t = ((body as f32 * 0.40) as u16).max(12).min(body.saturating_sub(14));
    let m = ((body as f32 * 0.25) as u16).max(8).min(body.saturating_sub(t + 5));
    (t, m)
}

#[test]
fn layout_has_the_shares_of_the_screen() {
    for n in 0..=u16::MAX {
        let body = n.saturating_sub(2);
        let (t, m) = heights(body);
        let l = layout::layout(n, n, true, true, 8);
        assert_eq!((l.top_h, l.mid_h), (t, m), "{}", n);
        assert_eq!(l.cpu_w, (n as f32 * 0.60) as u16, "{}", n);
        assert_eq!(l.bot_h, body.saturating_sub(t + m));
        assert_eq!(layout::compute_vis(n, true), body.saturating_sub(t + m).saturating_sub(4) as usize);
        assert_eq!(layout::compute_vis(n, false), body.saturating_sub(4) as usize);
        let g = (n / 5).max(22).min(n / 3);
        assert_eq!((l.gpu_w, l.net_w, l.disk_w), (g, (n - g) / 2, n - (n - g) / 2 - g));
        assert_eq!(l.gpu_x, n - g);
    }
}

#[test]
fn layout_example() {
    let l = layout::layout(120, 40, true, false, 8);
    assert_eq!((l.top_h, l.mid_h, l.bot_h), (15, 9, 14));
    assert_eq!((l.mid_y, l.bot_y), (16, 25));
    assert_eq!((l.cpu_w, l.ram_w, l.net_w, l.disk_w, l.gpu_w, l.gpu_x), (72, 48, 60, 60, 0, 120));
    assert_eq!((l.core_w, l.core_bar_w, l.core_rows), (35, 23, 4));
    assert_eq!((l.avg_w, l.avg_h, l.mem_bar_w), (70, 8, 32));
    assert_eq!((l.flow_h, l.rx_w, l.tx_w, l.read_w, l.write_w), (6, 28, 28, 28, 28));
    assert_eq!(layout::compute_vis(40, true), 10);
    let l = layout::layout(120, 40, false, false, 8);
    assert_eq!((l.top_h, l.mid_h, l.bot_h, l.bot_y), (0, 0, 38, 1));
}
