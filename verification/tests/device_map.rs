use iostat::cycle::{display_selection, unit_divisor, Cycle};
use iostat::devices::{
    dedup_keys, delta_disk_map, filter_partitions, lookup, since_boot_deltas, DeviceEntry,
};
use iostat::stats::{CpuStats, DiskStats};

fn entry(name: &str, reads_completed: u64) -> DeviceEntry {
    let mut stats = DiskStats::default();
    stats.reads_completed = reads_completed;
    stats.io_in_progress = reads_completed + 1;
    DeviceEntry { name: name.to_string(), stats }
}

#[test]
fn lookup_finds_a_stored_reading() {
    let prev = vec![entry("sda", 10), entry("sdb", 20)];
    assert_eq!(lookup(&prev, &"sdb".to_string()).unwrap().reads_completed, 20);
    assert!(lookup(&prev, &"sdc".to_string()).is_none());
}

#[test]
fn devices_in_both_maps_are_paired_in_current_order() {
    let prev = vec![entry("sda", 10), entry("sdb", 20)];
    let curr = vec![entry("sdb", 35), entry("sda", 14)];
    let d = delta_disk_map(&curr, &prev);
    assert_eq!(d.len(), 2);
    assert_eq!(d[0].name, "sdb");
    assert_eq!(d[0].stats.reads_completed, 15);
    assert_eq!(d[1].name, "sda");
    assert_eq!(d[1].stats.reads_completed, 4);
}

#[test]
fn devices_present_in_only_one_map_are_dropped() {
    let prev = vec![entry("sda", 10), entry("gone", 5)];
    let curr = vec![entry("sda", 12), entry("fresh", 3)];
    let d = delta_disk_map(&curr, &prev);
    assert_eq!(d.len(), 1);
    assert_eq!(d[0].name, "sda");
    assert_eq!(d[0].stats.reads_completed, 2);
}

#[test]
fn the_gauge_survives_map_pairing() {
    let prev = vec![entry("sda", 10)];
    let curr = vec![entry("sda", 12)];
    let d = delta_disk_map(&curr, &prev);
    // io_in_progress was seeded as reads_completed + 1
    assert_eq!(d[0].stats.io_in_progress, 13);
}

#[test]
fn partitions_are_filtered_out_of_a_map() {
    let read = vec![
        entry("sda", 1),
        entry("sda1", 2),
        entry("nvme0n1", 3),
        entry("nvme0n1p1", 4),
        entry("loop0", 5),
        entry("loop0p1", 6),
    ];
    let kept = filter_partitions(&read);
    let names: Vec<&str> = kept.iter().map(|e| e.name.as_str()).collect();
    assert_eq!(names, vec!["sda", "nvme0n1", "loop0"]);
    assert_eq!(kept[0].stats.reads_completed, 1);
}

#[test]
fn deduplication_keeps_the_last_reading_of_a_name() {
    let read = vec![entry("sda", 1), entry("sdb", 2), entry("sda", 9)];
    let unique = dedup_keys(&read);
    let names: Vec<&str> = unique.iter().map(|e| e.name.as_str()).collect();
    assert_eq!(names, vec!["sdb", "sda"]);
    assert_eq!(unique[1].stats.reads_completed, 9);
    // an already-unique map is unchanged
    let read = vec![entry("sda", 1), entry("sdb", 2)];
    let unique = dedup_keys(&read);
    assert_eq!(unique.len(), 2);
    assert_eq!(unique[0].name, "sda");
    assert_eq!(unique[1].name, "sdb");
}

#[test]
fn since_boot_deltas_reproduce_the_readings() {
    let read = vec![entry("sda", 9), entry("sdb", 11)];
    let first = since_boot_deltas(&read);
    assert_eq!(first.len(), 2);
    assert_eq!(first[0].name, "sda");
    assert_eq!(first[0].stats, read[0].stats);
    assert_eq!(first[1].stats, read[1].stats);
}

#[test]
fn selection_defaults_to_both_sections() {
    assert_eq!(display_selection(false, false), (true, true));
    assert_eq!(display_selection(true, false), (true, false));
    assert_eq!(display_selection(false, true), (false, true));
    assert_eq!(display_selection(true, true), (true, true));
}

#[test]
fn unit_divisor_selects_the_display_unit() {
    assert_eq!(unit_divisor(false), 1);
    assert_eq!(unit_divisor(true), 1024);
}

fn cpu(user: u64) -> CpuStats {
    let mut c = CpuStats::default();
    c.user = user;
    c
}

#[test]
fn a_zero_count_runs_unbounded() {
    let c = Cycle::new(cpu(0), vec![], 0);
    assert_eq!(c.remaining, u32::MAX);
    let c = Cycle::new(cpu(0), vec![], 7);
    assert_eq!(c.remaining, 7);
}

#[test]
fn the_first_report_shows_since_boot_values() {
    let cycle = Cycle::new(cpu(123), vec![entry("sda", 55)], 0);
    let (cpu_delta, disk_deltas) = cycle.first_report();
    assert_eq!(cpu_delta.user, 123);
    assert_eq!(disk_deltas.len(), 1);
    assert_eq!(disk_deltas[0].name, "sda");
    assert_eq!(disk_deltas[0].stats.reads_completed, 55);
}

#[test]
fn each_step_hands_the_current_snapshot_forward() {
    let mut cycle = Cycle::new(cpu(100), vec![entry("sda", 10)], 0);
    let (d1, m1) = cycle.step(cpu(130), vec![entry("sda", 25)]);
    assert_eq!(d1.user, 30);
    assert_eq!(m1[0].stats.reads_completed, 15);
    // the current snapshot of one iteration is the previous of the next
    let (d2, m2) = cycle.step(cpu(131), vec![entry("sda", 26)]);
    assert_eq!(d2.user, 1);
    assert_eq!(m2[0].stats.reads_completed, 1);
}

#[test]
fn the_report_count_terminates_the_cycle() {
    let mut cycle = Cycle::new(cpu(0), vec![], 2);
    assert!(!cycle.after_report());
    assert_eq!(cycle.remaining, 1);
    assert!(cycle.after_report());
    assert_eq!(cycle.remaining, 0);
    // the count saturates at zero
    assert!(cycle.after_report());
    assert_eq!(cycle.remaining, 0);
}
