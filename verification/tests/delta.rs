use iostat::stats::{CpuStats, DiskStats};

fn cpu(user: u64, nice: u64, system: u64, idle: u64, iowait: u64) -> CpuStats {
    CpuStats { user, nice, system, idle, iowait, irq: 0, softirq: 0, steal: 0 }
}

#[test]
fn cpu_delta_subtracts_per_field() {
    let prev = cpu(100, 1, 50, 800, 10);
    let curr = cpu(150, 3, 70, 900, 15);
    let d = curr.delta(&prev);
    assert_eq!(d.user, 50);
    assert_eq!(d.nice, 2);
    assert_eq!(d.system, 20);
    assert_eq!(d.idle, 100);
    assert_eq!(d.iowait, 5);
}

#[test]
fn cpu_counter_reset_yields_zero_delta() {
    // every cumulative field moved backwards, as after a reboot
    let prev = cpu(100, 5, 50, 800, 10);
    let curr = cpu(40, 1, 20, 300, 2);
    let d = curr.delta(&prev);
    assert_eq!(d, cpu(0, 0, 0, 0, 0));
}

#[test]
fn cpu_total_sums_all_eight_fields() {
    let s = CpuStats {
        user: 1,
        nice: 2,
        system: 3,
        idle: 4,
        iowait: 5,
        irq: 6,
        softirq: 7,
        steal: 8,
    };
    assert_eq!(s.total(), 36);
}

fn disk_all(v: u64) -> DiskStats {
    DiskStats {
        reads_completed: v,
        reads_merged: v,
        sectors_read: v,
        read_time_ms: v,
        writes_completed: v,
        writes_merged: v,
        sectors_written: v,
        write_time_ms: v,
        io_in_progress: v,
        io_time_ms: v,
        weighted_io_time_ms: v,
    }
}

#[test]
fn disk_delta_subtracts_cumulative_fields() {
    let prev = disk_all(10);
    let curr = disk_all(25);
    let d = curr.delta(&prev);
    assert_eq!(d.reads_completed, 15);
    assert_eq!(d.reads_merged, 15);
    assert_eq!(d.sectors_read, 15);
    assert_eq!(d.read_time_ms, 15);
    assert_eq!(d.writes_completed, 15);
    assert_eq!(d.writes_merged, 15);
    assert_eq!(d.sectors_written, 15);
    assert_eq!(d.write_time_ms, 15);
    assert_eq!(d.io_time_ms, 15);
    assert_eq!(d.weighted_io_time_ms, 15);
}

#[test]
fn disk_counter_reset_yields_zero_delta() {
    let prev = disk_all(100);
    let curr = disk_all(7);
    let d = curr.delta(&prev);
    assert_eq!(d.reads_completed, 0);
    assert_eq!(d.reads_merged, 0);
    assert_eq!(d.sectors_read, 0);
    assert_eq!(d.read_time_ms, 0);
    assert_eq!(d.writes_completed, 0);
    assert_eq!(d.writes_merged, 0);
    assert_eq!(d.sectors_written, 0);
    assert_eq!(d.write_time_ms, 0);
    assert_eq!(d.io_time_ms, 0);
    assert_eq!(d.weighted_io_time_ms, 0);
    // the gauge still carries the current value
    assert_eq!(d.io_in_progress, 7);
}

#[test]
fn gauge_passes_current_value_through() {
    let mut prev = disk_all(3);
    let mut curr = disk_all(9);
    prev.io_in_progress = 1000;
    curr.io_in_progress = 4;
    assert_eq!(curr.delta(&prev).io_in_progress, 4);
    prev.io_in_progress = 0;
    assert_eq!(curr.delta(&prev).io_in_progress, 4);
}

#[test]
fn delta_against_zero_baseline_is_the_reading_itself() {
    let reading = disk_all(42);
    assert_eq!(reading.delta(&DiskStats::default()), reading);
    let c = cpu(9, 8, 7, 6, 5);
    assert_eq!(c.delta(&CpuStats::default()), c);
}
