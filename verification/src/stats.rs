//! Counter snapshot model: CPU and per-device I/O counters, and the
//! delta engine that pairs two consecutive snapshots of the same entity.

use vstd::prelude::*;

verus! {

/// Saturating difference of two cumulative counter readings:
/// `max(curr - prev, 0)`. A counter-source reset (curr < prev) is
/// absorbed as a zero delta instead of wraparound garbage.
pub open spec fn sat_sub(curr: u64, prev: u64) -> u64 {
    if curr >= prev {
        (curr - prev) as u64
    } else {
        0
    }
}

/// One point-in-time reading of the eight cumulative CPU
/// time-accounting counters, all in the same tick unit.
#[derive(Clone, Copy, Debug, PartialEq, Eq, Structural)]
pub struct CpuStats {
    pub user: u64,
    pub nice: u64,
    pub system: u64,
    pub idle: u64,
    pub iowait: u64,
    pub irq: u64,
    pub softirq: u64,
    pub steal: u64,
}

/// Mathematical sum of the eight CPU counters; used as the divisor of
/// the CPU percentages, never stored.
pub open spec fn spec_cpu_total(s: CpuStats) -> int {
    s.user + s.nice + s.system + s.idle + s.iowait + s.irq + s.softirq + s.steal
}

/// The all-zero CPU reading, the baseline of the first report.
pub open spec fn spec_cpu_zero() -> CpuStats {
    CpuStats { user: 0, nice: 0, system: 0, idle: 0, iowait: 0, irq: 0, softirq: 0, steal: 0 }
}

impl CpuStats {
    /// Per-field saturating difference of two CPU readings. Every CPU
    /// field is cumulative; there is no gauge among them.
    pub open spec fn spec_delta(self, prev: CpuStats) -> CpuStats {
        CpuStats {
            user: sat_sub(self.user, prev.user),
            nice: sat_sub(self.nice, prev.nice),
            system: sat_sub(self.system, prev.system),
            idle: sat_sub(self.idle, prev.idle),
            iowait: sat_sub(self.iowait, prev.iowait),
            irq: sat_sub(self.irq, prev.irq),
            softirq: sat_sub(self.softirq, prev.softirq),
            steal: sat_sub(self.steal, prev.steal),
        }
    }

    /// Sum of the eight counters.
    pub fn total(&self) -> (r: u64)
        requires
            spec_cpu_total(*self) <= u64::MAX,
        ensures
            r == spec_cpu_total(*self),
    {
        self.user + self.nice + self.system + self.idle + self.iowait + self.irq + self.softirq
            + self.steal
    }

    /// Delta of `self` (the current reading) against `prev`: saturating
    /// subtraction on every field.
    pub fn delta(&self, prev: &CpuStats) -> (r: CpuStats)
        ensures
            r == self.spec_delta(*prev),
    {
        CpuStats {
            user: self.user.saturating_sub(prev.user),
            nice: self.nice.saturating_sub(prev.nice),
            system: self.system.saturating_sub(prev.system),
            idle: self.idle.saturating_sub(prev.idle),
            iowait: self.iowait.saturating_sub(prev.iowait),
            irq: self.irq.saturating_sub(prev.irq),
            softirq: self.softirq.saturating_sub(prev.softirq),
            steal: self.steal.saturating_sub(prev.steal),
        }
    }
}

impl Default for CpuStats {
    /// The all-zero reading.
    fn default() -> (r: CpuStats)
        ensures
            r == spec_cpu_zero(),
    {
        CpuStats { user: 0, nice: 0, system: 0, idle: 0, iowait: 0, irq: 0, softirq: 0, steal: 0 }
    }
}

/// One point-in-time reading of the per-device I/O counters: ten
/// cumulative-since-boot fields and one instantaneous gauge
/// (`io_in_progress`).
#[derive(Clone, Copy, Debug, PartialEq, Eq, Structural)]
pub struct DiskStats {
    pub reads_completed: u64,
    pub reads_merged: u64,
    pub sectors_read: u64,
    pub read_time_ms: u64,
    pub writes_completed: u64,
    pub writes_merged: u64,
    pub sectors_written: u64,
    pub write_time_ms: u64,
    pub io_in_progress: u64,
    pub io_time_ms: u64,
    pub weighted_io_time_ms: u64,
}

/// The all-zero device reading, the baseline of the first report.
pub open spec fn spec_disk_zero() -> DiskStats {
    DiskStats {
        reads_completed: 0,
        reads_merged: 0,
        sectors_read: 0,
        read_time_ms: 0,
        writes_completed: 0,
        writes_merged: 0,
        sectors_written: 0,
        write_time_ms: 0,
        io_in_progress: 0,
        io_time_ms: 0,
        weighted_io_time_ms: 0,
    }
}

impl DiskStats {
    /// Per-field delta of two device readings: saturating subtraction
    /// for the ten cumulative fields, and the current value carried
    /// forward verbatim for the `io_in_progress` gauge.
    pub open spec fn spec_delta(self, prev: DiskStats) -> DiskStats {
        DiskStats {
            reads_completed: sat_sub(self.reads_completed, prev.reads_completed),
            reads_merged: sat_sub(self.reads_merged, prev.reads_merged),
            sectors_read: sat_sub(self.sectors_read, prev.sectors_read),
            read_time_ms: sat_sub(self.read_time_ms, prev.read_time_ms),
            writes_completed: sat_sub(self.writes_completed, prev.writes_completed),
            writes_merged: sat_sub(self.writes_merged, prev.writes_merged),
            sectors_written: sat_sub(self.sectors_written, prev.sectors_written),
            write_time_ms: sat_sub(self.write_time_ms, prev.write_time_ms),
            io_in_progress: self.io_in_progress,
            io_time_ms: sat_sub(self.io_time_ms, prev.io_time_ms),
            weighted_io_time_ms: sat_sub(self.weighted_io_time_ms, prev.weighted_io_time_ms),
        }
    }

    /// Delta of `self` (the current reading) against `prev`.
    pub fn delta(&self, prev: &DiskStats) -> (r: DiskStats)
        ensures
            r == self.spec_delta(*prev),
    {
        DiskStats {
            reads_completed: self.reads_completed.saturating_sub(prev.reads_completed),
            reads_merged: self.reads_merged.saturating_sub(prev.reads_merged),
            sectors_read: self.sectors_read.saturating_sub(prev.sectors_read),
            read_time_ms: self.read_time_ms.saturating_sub(prev.read_time_ms),
            writes_completed: self.writes_completed.saturating_sub(prev.writes_completed),
            writes_merged: self.writes_merged.saturating_sub(prev.writes_merged),
            sectors_written: self.sectors_written.saturating_sub(prev.sectors_written),
            write_time_ms: self.write_time_ms.saturating_sub(prev.write_time_ms),
            io_in_progress: self.io_in_progress,
            io_time_ms: self.io_time_ms.saturating_sub(prev.io_time_ms),
            weighted_io_time_ms: self.weighted_io_time_ms.saturating_sub(
                prev.weighted_io_time_ms,
            ),
        }
    }
}

impl Default for DiskStats {
    /// The all-zero reading.
    fn default() -> (r: DiskStats)
        ensures
            r == spec_disk_zero(),
    {
        DiskStats {
            reads_completed: 0,
            reads_merged: 0,
            sectors_read: 0,
            read_time_ms: 0,
            writes_completed: 0,
            writes_merged: 0,
            sectors_written: 0,
            write_time_ms: 0,
            io_in_progress: 0,
            io_time_ms: 0,
            weighted_io_time_ms: 0,
        }
    }
}

/// A cumulative counter that moved backwards between two samples (a
/// counter-source reset) yields a delta of exactly zero for that field:
/// saturating subtraction never underflows or wraps.
pub proof fn lemma_cpu_reset_yields_zero(curr: CpuStats, prev: CpuStats)
    ensures
        curr.user < prev.user ==> curr.spec_delta(prev).user == 0,
        curr.nice < prev.nice ==> curr.spec_delta(prev).nice == 0,
        curr.system < prev.system ==> curr.spec_delta(prev).system == 0,
        curr.idle < prev.idle ==> curr.spec_delta(prev).idle == 0,
        curr.iowait < prev.iowait ==> curr.spec_delta(prev).iowait == 0,
        curr.irq < prev.irq ==> curr.spec_delta(prev).irq == 0,
        curr.softirq < prev.softirq ==> curr.spec_delta(prev).softirq == 0,
        curr.steal < prev.steal ==> curr.spec_delta(prev).steal == 0,
{
}

/// The device-counter analogue of `lemma_cpu_reset_yields_zero`, for
/// the ten cumulative device fields.
pub proof fn lemma_disk_reset_yields_zero(curr: DiskStats, prev: DiskStats)
    ensures
        curr.reads_completed < prev.reads_completed ==> curr.spec_delta(prev).reads_completed
            == 0,
        curr.reads_merged < prev.reads_merged ==> curr.spec_delta(prev).reads_merged == 0,
        curr.sectors_read < prev.sectors_read ==> curr.spec_delta(prev).sectors_read == 0,
        curr.read_time_ms < prev.read_time_ms ==> curr.spec_delta(prev).read_time_ms == 0,
        curr.writes_completed < prev.writes_completed ==> curr.spec_delta(prev).writes_completed
            == 0,
        curr.writes_merged < prev.writes_merged ==> curr.spec_delta(prev).writes_merged == 0,
        curr.sectors_written < prev.sectors_written ==> curr.spec_delta(prev).sectors_written
            == 0,
        curr.write_time_ms < prev.write_time_ms ==> curr.spec_delta(prev).write_time_ms == 0,
        curr.io_time_ms < prev.io_time_ms ==> curr.spec_delta(prev).io_time_ms == 0,
        curr.weighted_io_time_ms < prev.weighted_io_time_ms ==> curr.spec_delta(
            prev,
        ).weighted_io_time_ms == 0,
{
}

/// Delta against the all-zero baseline reproduces the CPU reading
/// itself, which is how the first report shows since-boot values.
pub proof fn lemma_cpu_delta_against_zero(s: CpuStats)
    ensures
        s.spec_delta(spec_cpu_zero()) == s,
{
}

/// Delta against the all-zero baseline reproduces the device reading
/// itself: the cumulative fields lose nothing against zero and the
/// gauge passes through.
pub proof fn lemma_disk_delta_against_zero(s: DiskStats)
    ensures
        s.spec_delta(spec_disk_zero()) == s,
{
}

/// The `io_in_progress` gauge is never subtracted: the delta carries
/// the current reading forward, whatever the previous reading held.
pub proof fn lemma_gauge_pass_through(curr: DiskStats, prev: DiskStats)
    ensures
        curr.spec_delta(prev).io_in_progress == curr.io_in_progress,
{
}

} // verus!
