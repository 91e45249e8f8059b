use iostat::classify::is_partition;

#[test]
fn whole_disk_scsi() {
    assert!(!is_partition("sda"));
    assert!(!is_partition("sdb"));
    assert!(!is_partition("hda"));
    assert!(!is_partition("vdb"));
}

#[test]
fn partition_scsi() {
    assert!(is_partition("sda1"));
    assert!(is_partition("sdb2"));
    assert!(is_partition("hda2"));
    assert!(is_partition("vdb10"));
}

#[test]
fn whole_disk_nvme() {
    assert!(!is_partition("nvme0n1"));
    assert!(!is_partition("nvme1n2"));
}

#[test]
fn partition_nvme() {
    assert!(is_partition("nvme0n1p1"));
    assert!(is_partition("nvme0n1p2"));
    assert!(is_partition("nvme1n1p10"));
}

#[test]
fn whole_disk_loop() {
    assert!(!is_partition("loop0"));
    assert!(!is_partition("loop12"));
}

#[test]
fn partition_loop() {
    assert!(is_partition("loop0p1"));
}

#[test]
fn unknown_families_report_as_whole_disks() {
    assert!(!is_partition("md0"));
    assert!(!is_partition("dm-0"));
    assert!(!is_partition("mmcblk0"));
    assert!(!is_partition("zram0"));
    assert!(!is_partition(""));
}

#[test]
fn digitless_or_empty_suffixes_are_whole_disks() {
    // an sd-family name of three characters has no partition suffix
    assert!(!is_partition("sd1"));
    // an nvme name ending in 'p' has an empty digit run
    assert!(!is_partition("nvme0n1p"));
    // a non-digit after the last 'p' is no partition suffix
    assert!(!is_partition("nvme0n1pX"));
}
