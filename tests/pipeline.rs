use resource_monitor::history::History;
use resource_monitor::monitor::{ResourceMonitor, SystemIdentity, MAX_CPU_FREQ};
use resource_monitor::process::{merge_processes, process_table, ProcessBy, ProcessInfo};
use resource_monitor::sampler::{carry_forward, max_usage, mean_frequency, sample_cpu, CpuInfo, GpuInfo};
use resource_monitor::smooth::{ema_step, ANIMATION_DIVISOR, DISPLAY_DIVISOR};
use resource_monitor::text::{byte_to_mb, truncate};
use std::cmp::Ordering;

fn proc(name: &str, cpu: u32, mem: u64, pid: u32) -> ProcessInfo {
    ProcessInfo { name: name.as_bytes().to_vec(), cpu, mem, pid }
}

fn identity() -> SystemIdentity {
    SystemIdentity {
        cpu_name: "7950X".to_string(),
        architecture: "x86_64".to_string(),
        os_name: "Linux".to_string(),
        kernel_name: "6.1".to_string(),
        os_version: "12".to_string(),
    }
}

#[test]
fn cpu_max_is_largest_per_core_value() {
    assert_eq!(max_usage(&[1000, 5500, 3000]), 5500);
    assert_eq!(max_usage(&[]), 0);
    assert_eq!(max_usage(&[0, 0]), 0);
}

#[test]
fn cpu_freq_is_mean_rounded_down() {
    assert_eq!(mean_frequency(&[3000, 4000]), 3500);
    assert_eq!(mean_frequency(&[1, 2]), 1);
    assert_eq!(mean_frequency(&[]), 0);
    assert_eq!(mean_frequency(&[u64::MAX, u64::MAX]), u64::MAX);
}

#[test]
fn sample_cpu_keeps_counts() {
    let prev = CpuInfo { physical_cores: 4, cpu_count: 8, cpu_avg: 1, cpu_max: 2, cpu_freq: 3 };
    let c = sample_cpu(&prev, 4200, &[1000, 5500, 3000], &[2000, 3000, 4000]);
    assert_eq!(c, CpuInfo { physical_cores: 4, cpu_count: 8, cpu_avg: 4200, cpu_max: 5500, cpu_freq: 3000 });
}

#[test]
fn ema_step_exact_values() {
    assert_eq!(ema_step(0, 10000, DISPLAY_DIVISOR), 500);
    assert_eq!(ema_step(0, 10000, ANIMATION_DIVISOR), 100);
    assert_eq!(ema_step(100, 0, DISPLAY_DIVISOR), 95);
    // 9.5 is rounded toward the target.
    assert_eq!(ema_step(10, 0, DISPLAY_DIVISOR), 9);
    assert_eq!(ema_step(0, 1, DISPLAY_DIVISOR), 1);
    assert_eq!(ema_step(7, 7, DISPLAY_DIVISOR), 7);
}

#[test]
fn ema_converges_monotonically() {
    let target = 7300u64;
    let mut v = 0u64;
    for _ in 0..300 {
        let next = ema_step(v, target, DISPLAY_DIVISOR);
        assert!(next >= v && next <= target);
        v = next;
    }
    assert_eq!(v, target);
    let mut w = 10000u64;
    for _ in 0..300 {
        let next = ema_step(w, 0, DISPLAY_DIVISOR);
        assert!(next <= w);
        w = next;
    }
    assert_eq!(w, 0);
}

#[test]
fn merge_takes_maxima_not_sums() {
    let raw = vec![proc("x", 1000, 100, 7), proc("x", 4000, 50, 9)];
    let m = merge_processes(&raw);
    assert_eq!(m.len(), 1);
    assert_eq!(m[0].name, b"x".to_vec());
    assert_eq!(m[0].cpu, 4000);
    assert_eq!(m[0].mem, 100);
    assert_eq!(m[0].pid, 7);
}

#[test]
fn merge_keeps_first_seen_order() {
    let raw = vec![proc("b", 1, 1, 1), proc("a", 2, 2, 2), proc("b", 3, 3, 3), proc("c", 0, 0, 4)];
    let m = merge_processes(&raw);
    let names: Vec<Vec<u8>> = m.iter().map(|p| p.name.clone()).collect();
    assert_eq!(names, vec![b"b".to_vec(), b"a".to_vec(), b"c".to_vec()]);
    assert_eq!(m[0].cpu, 3);
    assert_eq!(m[0].pid, 1);
}

#[test]
fn merge_accepts_names_that_are_not_text() {
    let raw = vec![
        ProcessInfo { name: vec![0xff, 0xfe], cpu: 5, mem: 6, pid: 1 },
        ProcessInfo { name: vec![0xff, 0xfe], cpu: 1, mem: 60, pid: 2 },
    ];
    let m = merge_processes(&raw);
    assert_eq!(m.len(), 1);
    assert_eq!((m[0].cpu, m[0].mem), (5, 60));
}

#[test]
fn table_sorted_by_cpu_descending() {
    let raw = vec![proc("a", 500, 3, 1), proc("b", 9000, 2, 2), proc("c", 2000, 1, 3)];
    let t = process_table(&raw, ProcessBy::Cpu);
    let cpus: Vec<u32> = t.iter().map(|p| p.cpu).collect();
    assert_eq!(cpus, vec![9000, 2000, 500]);
}

#[test]
fn table_sorted_by_memory_descending() {
    let raw = vec![proc("a", 500, 3, 1), proc("b", 9000, 200, 2), proc("c", 2000, 10, 3)];
    let t = process_table(&raw, ProcessBy::Ram);
    let mems: Vec<u64> = t.iter().map(|p| p.mem).collect();
    assert_eq!(mems, vec![200, 10, 3]);
}

#[test]
fn table_ties_keep_first_seen_order_every_time() {
    let raw = vec![proc("p", 100, 1, 1), proc("q", 300, 1, 2), proc("r", 100, 1, 3), proc("s", 100, 1, 4)];
    let first = process_table(&raw, ProcessBy::Cpu);
    let names: Vec<Vec<u8>> = first.iter().map(|p| p.name.clone()).collect();
    assert_eq!(names, vec![b"q".to_vec(), b"p".to_vec(), b"r".to_vec(), b"s".to_vec()]);
    for _ in 0..5 {
        let again = process_table(&raw, ProcessBy::Cpu);
        let again_names: Vec<Vec<u8>> = again.iter().map(|p| p.name.clone()).collect();
        assert_eq!(again_names, names);
    }
}

#[test]
fn compare_orders_largest_first() {
    let a = proc("a", 10, 5, 1);
    let b = proc("b", 20, 1, 2);
    assert_eq!(ProcessBy::Cpu.compare(&a, &b), Ordering::Greater);
    assert_eq!(ProcessBy::Cpu.compare(&b, &a), Ordering::Less);
    assert_eq!(ProcessBy::Ram.compare(&a, &b), Ordering::Less);
    assert_eq!(ProcessBy::Ram.compare(&a, &a), Ordering::Equal);
}

#[test]
fn history_keeps_newest_first() {
    let mut h = History::new(3);
    assert_eq!(h.samples(), &[0, 0, 0]);
    for v in [1u32, 2, 3, 4] {
        h.push(v);
    }
    assert_eq!(h.samples(), &[4, 3, 2]);
}

#[test]
fn history_of_no_capacity_stays_empty() {
    let mut h = History::new(0);
    h.push(5);
    assert!(h.samples().is_empty());
}

#[test]
fn gpu_reading_carries_forward() {
    let last = GpuInfo { mem_used: 1, mem_total: 2, clock: 3, power: 4, util: 5 };
    let new = GpuInfo { mem_used: 6, mem_total: 7, clock: 8, power: 9, util: 10 };
    assert_eq!(carry_forward(last, Some(new)), new);
    assert_eq!(carry_forward(last, None), last);
}

#[test]
fn monitor_without_gpu_stays_blank() {
    let mut m = ResourceMonitor::new(identity(), None, 8, 16, 32_000_000_000);
    for _ in 0..50 {
        m.update_cpu_gpu_mem(4000, &[3000, 5000], &[3000, 4000], 1_000_000, None);
        m.update_visual();
    }
    assert_eq!(m.gpu_info(), GpuInfo::zeroed());
    let s = m.smoothed();
    assert_eq!((s.gpu_clock, s.gpu_power, s.gpu_util), (0, 0, 0));
    assert_eq!(m.gpu_name(), "");
    assert!(m.gpu_history().iter().all(|v| *v == 0));
    assert_eq!(m.cpu_info().cpu_max, 5000);
}

#[test]
fn monitor_tick_updates_figures_and_histories() {
    let mut m = ResourceMonitor::new(identity(), Some("GPU".to_string()), 8, 16, 32_000_000_000);
    let g = GpuInfo { mem_used: 10, mem_total: 20, clock: 1500, power: 90000, util: 7000 };
    m.update_cpu_gpu_mem(4000, &[1000, 5500, 3000], &[3000, 4000], 1_000_000, Some(g));
    assert_eq!(m.cpu_info().cpu_avg, 4000);
    assert_eq!(m.cpu_info().cpu_max, 5500);
    assert_eq!(m.cpu_info().cpu_freq, 3500);
    assert_eq!(m.ram_used(), 1_000_000);
    assert_eq!(m.gpu_info(), g);
    assert_eq!(m.cpu_history()[0], 4000);
    assert_eq!(m.gpu_history()[0], 7000);
    assert_eq!(m.cpu_history().len(), 28);
    // A failed GPU query keeps the last reading and repeats it in the history.
    m.update_cpu_gpu_mem(2000, &[2000], &[3000], 1_000_000, None);
    assert_eq!(m.gpu_info(), g);
    assert_eq!(&m.gpu_history()[..2], &[7000, 7000]);
    assert_eq!(&m.cpu_history()[..2], &[2000, 4000]);
    assert_eq!(m.gpu_name(), "GPU");
    assert_eq!(m.mem_total(), 32_000_000_000);
    assert_eq!(m.identity().cpu_name, "7950X");
}

#[test]
fn monitor_visual_tick_smooths_and_levels() {
    let mut m = ResourceMonitor::new(identity(), None, 1, 1, 0);
    m.update_cpu_gpu_mem(10000, &[10000], &[6000], 0, None);
    let a = m.update_visual();
    let s = m.smoothed();
    assert_eq!(s.cpu_avg, 500);
    assert_eq!(s.cpu_max, 500);
    assert_eq!(s.cpu_freq, 300);
    assert_eq!(s.cpu_avg_smooth, 100);
    assert_eq!(s.cpu_max_smooth, 100);
    assert_eq!(s.cpu_freq_smooth, 60);
    assert_eq!(a.cpu_avg, 100);
    assert_eq!(a.cpu_max, 100);
    assert_eq!(a.cpu_freq, (60 * 10000 / MAX_CPU_FREQ) as u32);
}

#[test]
fn monitor_frequency_level_saturates() {
    let mut m = ResourceMonitor::new(identity(), None, 1, 1, 0);
    for _ in 0..2000 {
        m.update_cpu_gpu_mem(0, &[0], &[9000], 0, None);
        m.update_visual();
    }
    let a = m.update_visual();
    assert_eq!(a.cpu_freq, 10000);
    assert_eq!(m.smoothed().cpu_freq, 9000);
}

#[test]
fn monitor_process_refresh_uses_sort_key() {
    let mut m = ResourceMonitor::new(identity(), None, 1, 1, 0);
    let raw = vec![proc("a", 500, 300, 1), proc("b", 9000, 2, 2), proc("a", 100, 1, 3)];
    m.update_processes(&raw);
    assert_eq!(m.processes().len(), 2);
    assert_eq!(m.processes()[0].name, b"b".to_vec());
    m.set_process_sorting(ProcessBy::Ram);
    assert_eq!(m.process_sorting(), ProcessBy::Ram);
    m.update_processes(&raw);
    assert_eq!(m.processes()[0].name, b"a".to_vec());
    assert_eq!(m.processes()[0].mem, 300);
}

#[test]
fn monitor_graphs_have_two_rows() {
    let mut m = ResourceMonitor::new(identity(), None, 1, 1, 0);
    m.update_cpu_gpu_mem(5000, &[5000], &[1], 0, None);
    let g = m.cpu_graph();
    assert_eq!(g.split('\n').count(), 2);
    assert_eq!(g.chars().count(), 2 * 28 + 1);
    let flat = m.gpu_graph();
    assert_eq!(flat.split('\n').nth(1).unwrap(), "\u{28C0}".repeat(28));
}

#[test]
fn truncate_counts_characters() {
    assert_eq!(truncate("hello", 3), "hel");
    assert_eq!(truncate("hi", 15), "hi");
    assert_eq!(truncate("h\u{e9}llo", 2), "h\u{e9}");
    assert_eq!(truncate("", 0), "");
}

#[test]
fn byte_to_mb_rounds_down() {
    assert_eq!(byte_to_mb(2_500_000), 2);
    assert_eq!(byte_to_mb(999_999), 0);
}
