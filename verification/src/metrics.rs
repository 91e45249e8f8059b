//! Metric derivation: exact rational rates, percentages and averages
//! computed from a delta snapshot and an elapsed interval.
//!
//! Every reportable value is an exact non-negative rational
//! (`num / den`); the caller divides once at display time. The elapsed
//! wall-clock interval is given in whole milliseconds.

use crate::stats::{spec_cpu_total, CpuStats, DiskStats};
use vstd::prelude::*;

verus! {

/// An exact non-negative rational value `num / den`. Every constructor
/// in this crate keeps `den` positive.
#[derive(Clone, Copy, Debug, PartialEq, Eq, Structural)]
pub struct Ratio {
    pub num: u128,
    pub den: u128,
}

/// The rational zero, written `0 / 1`.
pub open spec fn spec_ratio_zero() -> Ratio {
    Ratio { num: 0, den: 1 }
}

/// The six CPU utilization fractions of one report line, each a
/// percentage of the delta total.
#[derive(Clone, Copy, Debug, PartialEq, Eq, Structural)]
pub struct CpuPercentages {
    pub user: Ratio,
    pub system: Ratio,
    pub iowait: Ratio,
    pub steal: Ratio,
    pub idle: Ratio,
    pub irq: Ratio,
}

/// The CPU percentages of a delta reading `d`: each group of fields as
/// a fraction of the delta total, times 100. All six are zero when the
/// total is zero, so that an idle interval never divides by zero.
pub open spec fn spec_cpu_percentages(d: CpuStats) -> CpuPercentages {
    let total = spec_cpu_total(d);
    if total == 0 {
        CpuPercentages {
            user: spec_ratio_zero(),
            system: spec_ratio_zero(),
            iowait: spec_ratio_zero(),
            steal: spec_ratio_zero(),
            idle: spec_ratio_zero(),
            irq: spec_ratio_zero(),
        }
    } else {
        CpuPercentages {
            user: Ratio { num: ((d.user + d.nice) * 100) as u128, den: total as u128 },
            system: Ratio { num: (d.system * 100) as u128, den: total as u128 },
            iowait: Ratio { num: (d.iowait * 100) as u128, den: total as u128 },
            steal: Ratio { num: (d.steal * 100) as u128, den: total as u128 },
            idle: Ratio { num: (d.idle * 100) as u128, den: total as u128 },
            irq: Ratio { num: ((d.irq + d.softirq) * 100) as u128, den: total as u128 },
        }
    }
}

impl CpuStats {
    /// The six CPU percentages of this delta reading:
    /// %user = (user + nice) / total, %system = system / total,
    /// %iowait = iowait / total, %steal = steal / total,
    /// %idle = idle / total, %irq = (irq + softirq) / total,
    /// each times 100, and all exactly zero when the total is zero.
    pub fn percentages(&self) -> (r: CpuPercentages)
        requires
            spec_cpu_total(*self) <= u64::MAX,
        ensures
            r == spec_cpu_percentages(*self),
    {
        let total = self.total();
        if total == 0 {
            let zero = Ratio { num: 0, den: 1 };
            CpuPercentages {
                user: zero,
                system: zero,
                iowait: zero,
                steal: zero,
                idle: zero,
                irq: zero,
            }
        } else {
            let den: u128 = total as u128;
            CpuPercentages {
                user: Ratio { num: (self.user as u128 + self.nice as u128) * 100, den },
                system: Ratio { num: (self.system as u128) * 100, den },
                iowait: Ratio { num: (self.iowait as u128) * 100, den },
                steal: Ratio { num: (self.steal as u128) * 100, den },
                idle: Ratio { num: (self.idle as u128) * 100, den },
                irq: Ratio { num: (self.irq as u128 + self.softirq as u128) * 100, den },
            }
        }
    }
}

/// Whenever the delta total is positive, the six CPU percentage
/// fractions sum to exactly 100: over their common denominator (the
/// delta total) the numerators add up to 100 times that denominator.
/// When the delta total is zero, all six fractions are exactly zero.
pub proof fn lemma_cpu_percentages_sum(d: CpuStats)
    ensures
        spec_cpu_total(d) > 0 ==> ({
            let p = spec_cpu_percentages(d);
            p.user.den == spec_cpu_total(d) && p.system.den == spec_cpu_total(d) && p.iowait.den
                == spec_cpu_total(d) && p.steal.den == spec_cpu_total(d) && p.idle.den
                == spec_cpu_total(d) && p.irq.den == spec_cpu_total(d) && p.user.num
                + p.system.num + p.iowait.num + p.steal.num + p.idle.num + p.irq.num == 100
                * spec_cpu_total(d)
        }),
        spec_cpu_total(d) == 0 ==> ({
            let p = spec_cpu_percentages(d);
            p.user == spec_ratio_zero() && p.system == spec_ratio_zero() && p.iowait
                == spec_ratio_zero() && p.steal == spec_ratio_zero() && p.idle
                == spec_ratio_zero() && p.irq == spec_ratio_zero()
        }),
{
}

/// The reportable rates and averages of one device line, derived from
/// one delta reading over one elapsed interval.
#[derive(Clone, Copy, Debug, PartialEq, Eq, Structural)]
pub struct DeviceMetrics {
    pub reads_per_sec: Ratio,
    pub writes_per_sec: Ratio,
    pub tps: Ratio,
    pub kb_read_per_sec: Ratio,
    pub kb_written_per_sec: Ratio,
    pub rrqm_per_sec: Ratio,
    pub wrqm_per_sec: Ratio,
    pub await_ms: Ratio,
    pub svctm_ms: Ratio,
    pub util: Ratio,
}

/// The device metrics of a delta reading `d` over `elapsed_ms`
/// milliseconds, with throughput divided by `unit_divisor` (1 for
/// kilobytes, 1024 for megabytes). Sectors are 512 bytes. The average
/// wait and service times are zero when no request completed, and the
/// utilization ratio is clamped at 100.
pub open spec fn spec_device_metrics(d: DiskStats, elapsed_ms: u64, unit_divisor: u64) -> DeviceMetrics {
    let ios = d.reads_completed + d.writes_completed;
    let throughput_den = (1024 * elapsed_ms * unit_divisor) as u128;
    DeviceMetrics {
        reads_per_sec: Ratio {
            num: (d.reads_completed * 1000) as u128,
            den: elapsed_ms as u128,
        },
        writes_per_sec: Ratio {
            num: (d.writes_completed * 1000) as u128,
            den: elapsed_ms as u128,
        },
        tps: Ratio { num: (ios * 1000) as u128, den: elapsed_ms as u128 },
        kb_read_per_sec: Ratio {
            num: (d.sectors_read * 512 * 1000) as u128,
            den: throughput_den,
        },
        kb_written_per_sec: Ratio {
            num: (d.sectors_written * 512 * 1000) as u128,
            den: throughput_den,
        },
        rrqm_per_sec: Ratio { num: (d.reads_merged * 1000) as u128, den: elapsed_ms as u128 },
        wrqm_per_sec: Ratio { num: (d.writes_merged * 1000) as u128, den: elapsed_ms as u128 },
        await_ms: if ios == 0 {
            spec_ratio_zero()
        } else {
            Ratio { num: (d.read_time_ms + d.write_time_ms) as u128, den: ios as u128 }
        },
        svctm_ms: if ios == 0 {
            spec_ratio_zero()
        } else {
            Ratio { num: d.io_time_ms as u128, den: ios as u128 }
        },
        util: if d.io_time_ms <= elapsed_ms {
            Ratio { num: (d.io_time_ms * 100) as u128, den: elapsed_ms as u128 }
        } else {
            Ratio { num: 100, den: 1 }
        },
    }
}

/// Derives every reportable device metric from one delta reading:
/// reads, writes, merges and transactions per second; throughput in
/// kilobyte (or megabyte) units; average wait and service time per
/// completed request; and the clamped utilization percentage.
pub fn device_metrics(d: &DiskStats, elapsed_ms: u64, unit_divisor: u64) -> (r: DeviceMetrics)
    requires
        elapsed_ms > 0,
        unit_divisor == 1 || unit_divisor == 1024,
    ensures
        r == spec_device_metrics(*d, elapsed_ms, unit_divisor),
        r.util.num <= 100 * r.util.den,
{
    let elapsed: u128 = elapsed_ms as u128;
    let throughput_den: u128 = if unit_divisor == 1 {
        1024u128 * elapsed
    } else {
        1048576u128 * elapsed
    };
    assert(throughput_den == 1024 * elapsed_ms * unit_divisor);
    let ios: u128 = d.reads_completed as u128 + d.writes_completed as u128;
    DeviceMetrics {
        reads_per_sec: Ratio { num: (d.reads_completed as u128) * 1000, den: elapsed },
        writes_per_sec: Ratio { num: (d.writes_completed as u128) * 1000, den: elapsed },
        tps: Ratio { num: ios * 1000, den: elapsed },
        kb_read_per_sec: Ratio {
            num: (d.sectors_read as u128) * 512 * 1000,
            den: throughput_den,
        },
        kb_written_per_sec: Ratio {
            num: (d.sectors_written as u128) * 512 * 1000,
            den: throughput_den,
        },
        rrqm_per_sec: Ratio { num: (d.reads_merged as u128) * 1000, den: elapsed },
        wrqm_per_sec: Ratio { num: (d.writes_merged as u128) * 1000, den: elapsed },
        await_ms: if ios == 0 {
            Ratio { num: 0, den: 1 }
        } else {
            Ratio { num: d.read_time_ms as u128 + d.write_time_ms as u128, den: ios }
        },
        svctm_ms: if ios == 0 {
            Ratio { num: 0, den: 1 }
        } else {
            Ratio { num: d.io_time_ms as u128, den: ios }
        },
        util: if d.io_time_ms <= elapsed_ms {
            Ratio { num: (d.io_time_ms as u128) * 100, den: elapsed }
        } else {
            Ratio { num: 100, den: 1 }
        },
    }
}

/// The utilization metric never exceeds 100 percent: a raw ratio above
/// 100 (more busy time than elapsed time) is clamped to exactly 100.
pub proof fn lemma_util_clamped(d: DiskStats, elapsed_ms: u64, unit_divisor: u64)
    requires
        elapsed_ms > 0,
    ensures
        ({
            let m = spec_device_metrics(d, elapsed_ms, unit_divisor);
            m.util.den > 0 && m.util.num <= 100 * m.util.den
        }),
        d.io_time_ms > elapsed_ms ==> spec_device_metrics(d, elapsed_ms, unit_divisor).util == (
        Ratio { num: 100, den: 1 }),
{
}

/// When no read or write completed over the interval, the average wait
/// and service times are exactly zero, whatever the time fields hold:
/// the per-request averages never divide by zero.
pub proof fn lemma_no_completions_zero_averages(d: DiskStats, elapsed_ms: u64, unit_divisor: u64)
    requires
        d.reads_completed + d.writes_completed == 0,
    ensures
        spec_device_metrics(d, elapsed_ms, unit_divisor).await_ms == spec_ratio_zero(),
        spec_device_metrics(d, elapsed_ms, unit_divisor).svctm_ms == spec_ratio_zero(),
{
}

} // verus!
