use iostat::metrics::{device_metrics, Ratio};
use iostat::stats::{CpuStats, DiskStats};

fn as_f64(r: Ratio) -> f64 {
    r.num as f64 / r.den as f64
}

fn close(a: f64, b: f64) -> bool {
    (a - b).abs() < 1e-9
}

#[test]
fn cpu_percentages_match_the_since_boot_example() {
    let prev = CpuStats {
        user: 100,
        nice: 0,
        system: 50,
        idle: 800,
        iowait: 10,
        irq: 0,
        softirq: 0,
        steal: 0,
    };
    let curr = CpuStats {
        user: 150,
        nice: 0,
        system: 70,
        idle: 900,
        iowait: 15,
        irq: 0,
        softirq: 0,
        steal: 0,
    };
    let d = curr.delta(&prev);
    assert_eq!(d.total(), 175);
    let p = d.percentages();
    assert!(close(as_f64(p.user), 50.0 * 100.0 / 175.0));
    assert!((as_f64(p.user) - 28.57).abs() < 0.01);
    assert!(close(as_f64(p.system), 20.0 * 100.0 / 175.0));
    assert!(close(as_f64(p.iowait), 5.0 * 100.0 / 175.0));
    assert!((as_f64(p.iowait) - 2.86).abs() < 0.01);
    assert!(close(as_f64(p.idle), 100.0 * 100.0 / 175.0));
    assert!((as_f64(p.idle) - 57.14).abs() < 0.01);
    assert!(close(as_f64(p.steal), 0.0));
    assert!(close(as_f64(p.irq), 0.0));
}

#[test]
fn cpu_percentages_sum_to_one_hundred() {
    let d = CpuStats {
        user: 50,
        nice: 0,
        system: 20,
        idle: 100,
        iowait: 5,
        irq: 0,
        softirq: 0,
        steal: 0,
    };
    let p = d.percentages();
    let sum = as_f64(p.user) + as_f64(p.system) + as_f64(p.iowait) + as_f64(p.steal)
        + as_f64(p.idle) + as_f64(p.irq);
    assert!(close(sum, 100.0));
}

#[test]
fn cpu_percentages_are_zero_on_a_zero_total() {
    let d = CpuStats::default();
    let p = d.percentages();
    assert_eq!(as_f64(p.user), 0.0);
    assert_eq!(as_f64(p.system), 0.0);
    assert_eq!(as_f64(p.iowait), 0.0);
    assert_eq!(as_f64(p.steal), 0.0);
    assert_eq!(as_f64(p.idle), 0.0);
    assert_eq!(as_f64(p.irq), 0.0);
}

#[test]
fn throughput_and_rates_match_the_device_example() {
    // device delta over two seconds in kilobyte units
    let mut d = DiskStats::default();
    d.sectors_read = 2048;
    d.reads_completed = 10;
    let m = device_metrics(&d, 2000, 1);
    assert_eq!(as_f64(m.kb_read_per_sec), 512.0);
    assert_eq!(as_f64(m.reads_per_sec), 5.0);
    assert_eq!(as_f64(m.tps), 5.0);
    assert_eq!(as_f64(m.kb_written_per_sec), 0.0);
}

#[test]
fn megabyte_units_divide_throughput_by_1024() {
    let mut d = DiskStats::default();
    d.sectors_read = 4096;
    d.sectors_written = 2048;
    let m = device_metrics(&d, 1000, 1024);
    assert_eq!(as_f64(m.kb_read_per_sec), 2.0);
    assert_eq!(as_f64(m.kb_written_per_sec), 1.0);
}

#[test]
fn utilization_is_clamped_at_one_hundred() {
    // two seconds of busy time inside a one-second interval
    let mut d = DiskStats::default();
    d.io_time_ms = 2000;
    let m = device_metrics(&d, 1000, 1);
    assert_eq!(as_f64(m.util), 100.0);
}

#[test]
fn utilization_below_the_clamp_is_exact() {
    let mut d = DiskStats::default();
    d.io_time_ms = 250;
    let m = device_metrics(&d, 1000, 1);
    assert_eq!(as_f64(m.util), 25.0);
}

#[test]
fn averages_are_zero_without_completions() {
    let mut d = DiskStats::default();
    d.read_time_ms = 900;
    d.write_time_ms = 800;
    d.io_time_ms = 700;
    let m = device_metrics(&d, 1000, 1);
    assert_eq!(as_f64(m.await_ms), 0.0);
    assert_eq!(as_f64(m.svctm_ms), 0.0);
}

#[test]
fn averages_divide_by_completed_requests() {
    let mut d = DiskStats::default();
    d.reads_completed = 3;
    d.writes_completed = 1;
    d.read_time_ms = 30;
    d.write_time_ms = 10;
    d.io_time_ms = 20;
    let m = device_metrics(&d, 1000, 1);
    assert_eq!(as_f64(m.await_ms), 10.0);
    assert_eq!(as_f64(m.svctm_ms), 5.0);
}

#[test]
fn merge_rates_scale_by_elapsed_time() {
    let mut d = DiskStats::default();
    d.reads_merged = 6;
    d.writes_merged = 4;
    let m = device_metrics(&d, 2000, 1);
    assert_eq!(as_f64(m.rrqm_per_sec), 3.0);
    assert_eq!(as_f64(m.wrqm_per_sec), 2.0);
}
