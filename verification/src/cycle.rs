//! Report cycle controller: the configuration decisions and the
//! snapshot hand-off from one report iteration to the next. The
//! surrounding program performs the sleeping, reading and printing and
//! feeds each new snapshot pair in.

use crate::devices::{delta_disk_map, since_boot_deltas, spec_delta_map, views_of, DeviceEntry};
use crate::stats::{spec_cpu_zero, spec_disk_zero, CpuStats};
use vstd::prelude::*;

verus! {

/// Which report sections to show: CPU when its flag is set or neither
/// section flag is, devices when its flag is set or neither is.
pub fn display_selection(cpu: bool, device: bool) -> (r: (bool, bool))
    ensures
        r.0 == (cpu || (!cpu && !device)),
        r.1 == (device || (!cpu && !device)),
{
    (cpu || (!cpu && !device), device || (!cpu && !device))
}

/// The divisor applied to kilobyte throughput: 1024 displays
/// megabytes, 1 displays kilobytes.
pub fn unit_divisor(megabytes: bool) -> (r: u64)
    ensures
        r == if megabytes {
            1024u64
        } else {
            1u64
        },
{
    if megabytes {
        1024
    } else {
        1
    }
}

/// The report cycle state: the previous snapshot pair, owned here and
/// replaced wholesale each iteration, and the number of reports still
/// owed, with `u32::MAX` standing in for an unbounded run.
pub struct Cycle {
    pub prev_cpu: CpuStats,
    pub prev_disk: Vec<DeviceEntry>,
    pub remaining: u32,
}

impl Cycle {
    /// Starts a cycle from the first snapshot pair. A requested report
    /// count of zero means unbounded, recorded as the sentinel.
    pub fn new(cpu: CpuStats, disks: Vec<DeviceEntry>, count: u32) -> (r: Cycle)
        ensures
            r.prev_cpu == cpu,
            r.prev_disk == disks,
            r.remaining == if count == 0 {
                u32::MAX
            } else {
                count
            },
    {
        let remaining = if count == 0 {
            u32::MAX
        } else {
            count
        };
        Cycle { prev_cpu: cpu, prev_disk: disks, remaining }
    }

    /// The first report: the first snapshot delta-ed against an
    /// all-zero baseline with a conventional elapsed time of one
    /// second, so that the cumulative-since-boot values display once.
    pub fn first_report(&self) -> (r: (CpuStats, Vec<DeviceEntry>))
        ensures
            r.0 == self.prev_cpu.spec_delta(spec_cpu_zero()),
            r.1@.len() == self.prev_disk@.len(),
            forall|i: int|
                0 <= i < self.prev_disk@.len() ==> (#[trigger] r.1@[i])@.name
                    == self.prev_disk@[i]@.name && r.1@[i]@.stats
                    == self.prev_disk@[i]@.stats.spec_delta(spec_disk_zero()),
    {
        let zero = CpuStats::default();
        (self.prev_cpu.delta(&zero), since_boot_deltas(&self.prev_disk))
    }

    /// One steady-state iteration: the deltas of the new snapshot pair
    /// against the stored previous pair, after which the new pair
    /// replaces the old one — the "current" snapshot of this iteration
    /// becomes the "previous" snapshot of the next.
    pub fn step(&mut self, cpu: CpuStats, disks: Vec<DeviceEntry>) -> (r: (
        CpuStats,
        Vec<DeviceEntry>,
    ))
        ensures
            r.0 == cpu.spec_delta(old(self).prev_cpu),
            views_of(r.1@) == spec_delta_map(views_of(disks@), views_of(old(self).prev_disk@)),
            final(self).prev_cpu == cpu,
            final(self).prev_disk == disks,
            final(self).remaining == old(self).remaining,
    {
        let dc = cpu.delta(&self.prev_cpu);
        let dd = delta_disk_map(&disks, &self.prev_disk);
        self.prev_cpu = cpu;
        self.prev_disk = disks;
        (dc, dd)
    }

    /// Accounts one emitted report: the owed count falls by one,
    /// saturating at zero, and the cycle terminates exactly when the
    /// count reaches zero.
    pub fn after_report(&mut self) -> (done: bool)
        ensures
            final(self).remaining == if old(self).remaining >= 1 {
                (old(self).remaining - 1) as u32
            } else {
                0u32
            },
            done == (final(self).remaining == 0),
            final(self).prev_cpu == old(self).prev_cpu,
            final(self).prev_disk == old(self).prev_disk,
    {
        self.remaining = self.remaining.saturating_sub(1);
        self.remaining == 0
    }
}

} // verus!
