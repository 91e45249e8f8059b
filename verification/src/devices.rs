//! The device map: named per-device counter readings, the partition
//! filter applied at read time, and the delta pairing of two maps.

use crate::classify::{is_partition, is_partition_spec};
use crate::stats::{spec_disk_zero, DiskStats};
use vstd::prelude::*;

verus! {

/// One device-map entry: a device name beside its counter reading.
pub struct DeviceEntry {
    pub name: String,
    pub stats: DiskStats,
}

/// The mathematical value of one entry: the name as a character
/// sequence beside the counter reading.
pub struct DeviceView {
    pub name: Seq<char>,
    pub stats: DiskStats,
}

impl View for DeviceEntry {
    type V = DeviceView;

    open spec fn view(&self) -> DeviceView {
        DeviceView { name: self.name@, stats: self.stats }
    }
}

/// The values of a device list, entry by entry, in order.
pub open spec fn views_of(s: Seq<DeviceEntry>) -> Seq<DeviceView> {
    s.map_values(|e: DeviceEntry| e@)
}

/// The reading stored for `name`, scanning the map front to back.
pub open spec fn spec_lookup(prev: Seq<DeviceView>, name: Seq<char>) -> Option<DiskStats>
    decreases prev.len(),
{
    if prev.len() == 0 {
        None
    } else if prev[0].name == name {
        Some(prev[0].stats)
    } else {
        spec_lookup(prev.drop_first(), name)
    }
}

/// The delta engine applied across a device map: every device of the
/// current map that also stands in the previous map appears, in the
/// current map's order, paired with the per-field delta of its two
/// readings; a device present in only one of the maps is dropped for
/// this interval.
pub open spec fn spec_delta_map(curr: Seq<DeviceView>, prev: Seq<DeviceView>) -> Seq<DeviceView>
    decreases curr.len(),
{
    if curr.len() == 0 {
        Seq::empty()
    } else {
        let rest = spec_delta_map(curr.drop_last(), prev);
        match spec_lookup(prev, curr.last().name) {
            Some(p) => rest.push(
                DeviceView { name: curr.last().name, stats: curr.last().stats.spec_delta(p) },
            ),
            None => rest,
        }
    }
}

/// The reading stored for `name` in `prev`, if that device is present.
pub fn lookup(prev: &Vec<DeviceEntry>, name: &String) -> (r: Option<DiskStats>)
    ensures
        r == spec_lookup(views_of(prev@), name@),
{
    let n = prev.len();
    let mut i = 0usize;
    proof {
        assert(views_of(prev@).skip(0) =~= views_of(prev@));
    }
    while i < n
        invariant
            n == prev@.len(),
            i <= n,
            spec_lookup(views_of(prev@), name@) == spec_lookup(
                views_of(prev@).skip(i as int),
                name@,
            ),
        decreases n - i,
    {
        let e = &prev[i];
        proof {
            let v = views_of(prev@);
            assert(v.skip(i as int)[0] == v[i as int]);
            assert(v.skip(i as int).drop_first() =~= v.skip(i as int + 1));
        }
        if e.name == *name {
            return Some(e.stats);
        }
        i = i + 1;
    }
    proof {
        assert(views_of(prev@).skip(n as int) =~= Seq::<DeviceView>::empty());
    }
    None
}

/// Pairs two device maps and returns the per-device deltas: current
/// devices that the previous map also holds, in the current order,
/// each with the delta of its two readings; the rest are dropped.
pub fn delta_disk_map(curr: &Vec<DeviceEntry>, prev: &Vec<DeviceEntry>) -> (r: Vec<DeviceEntry>)
    ensures
        views_of(r@) == spec_delta_map(views_of(curr@), views_of(prev@)),
{
    let mut out: Vec<DeviceEntry> = Vec::new();
    let n = curr.len();
    let mut i = 0usize;
    while i < n
        invariant
            n == curr@.len(),
            i <= n,
            views_of(out@) == spec_delta_map(views_of(curr@).take(i as int), views_of(prev@)),
        decreases n - i,
    {
        let e = &curr[i];
        proof {
            let cv = views_of(curr@);
            assert(cv.take(i as int + 1).drop_last() =~= cv.take(i as int));
            assert(cv.take(i as int + 1).last() == cv[i as int]);
        }
        match lookup(prev, &e.name) {
            Some(p) => {
                let entry = DeviceEntry { name: e.name.clone(), stats: e.stats.delta(&p) };
                proof {
                    assert(views_of(out@.push(entry)) =~= views_of(out@).push(entry@));
                }
                out.push(entry);
            },
            None => {},
        }
        i = i + 1;
    }
    proof {
        assert(views_of(curr@).take(n as int) =~= views_of(curr@));
    }
    out
}

/// The reportable part of a freshly read device map: exactly its
/// whole-disk entries, in their original order; partitions are
/// suppressed so that no throughput is counted twice.
pub open spec fn spec_filter_disks(s: Seq<DeviceView>) -> Seq<DeviceView>
    decreases s.len(),
{
    if s.len() == 0 {
        Seq::empty()
    } else {
        let rest = spec_filter_disks(s.drop_last());
        if !is_partition_spec(s.last().name) {
            rest.push(s.last())
        } else {
            rest
        }
    }
}

/// Keeps the whole-disk entries of a device map, in order, and drops
/// every entry whose name the classifier marks as a partition.
pub fn filter_partitions(disks: &Vec<DeviceEntry>) -> (r: Vec<DeviceEntry>)
    ensures
        views_of(r@) == spec_filter_disks(views_of(disks@)),
{
    let mut out: Vec<DeviceEntry> = Vec::new();
    let n = disks.len();
    let mut i = 0usize;
    while i < n
        invariant
            n == disks@.len(),
            i <= n,
            views_of(out@) == spec_filter_disks(views_of(disks@).take(i as int)),
        decreases n - i,
    {
        let e = &disks[i];
        proof {
            let dv = views_of(disks@);
            assert(dv.take(i as int + 1).drop_last() =~= dv.take(i as int));
            assert(dv.take(i as int + 1).last() == dv[i as int]);
        }
        if !is_partition(e.name.as_str()) {
            let entry = DeviceEntry { name: e.name.clone(), stats: e.stats };
            proof {
                assert(views_of(out@.push(entry)) =~= views_of(out@).push(entry@));
            }
            out.push(entry);
        }
        i = i + 1;
    }
    proof {
        assert(views_of(disks@).take(n as int) =~= views_of(disks@));
    }
    out
}

/// Every element of `spec_filter_disks(s)` carries a whole-disk name:
/// the filter lets no partition entry through.
pub proof fn lemma_filter_disks_non_partition(s: Seq<DeviceView>)
    ensures
        forall|a: int|
            0 <= a < spec_filter_disks(s).len() ==> !is_partition_spec(
                (#[trigger] spec_filter_disks(s)[a]).name,
            ),
    decreases s.len(),
{
    if s.len() > 0 {
        lemma_filter_disks_non_partition(s.drop_last());
        let rest = spec_filter_disks(s.drop_last());
        let f = spec_filter_disks(s);
        assert forall|a: int| 0 <= a < f.len() implies !is_partition_spec(
            (#[trigger] f[a]).name,
        ) by {
            if a < rest.len() {
                assert(f[a] == rest[a]);
            } else {
                assert(f[a] == s.last());
            }
        };
    }
}

/// Some entry at or after position `i` carries the same name as the
/// entry at `i`.
pub open spec fn later_occurrence(s: Seq<DeviceView>, i: int) -> bool {
    exists|j: int| i < j < s.len() && (#[trigger] s[j]).name == s[i].name
}

/// `v` stands somewhere in `s`.
pub open spec fn is_entry_of(s: Seq<DeviceView>, v: DeviceView) -> bool {
    exists|k: int| 0 <= k < s.len() && (#[trigger] s[k]) == v
}

/// The entries of `s` from position `i` on whose names never recur
/// later: for each repeated name only the last reading survives, as a
/// map insert would keep it.
pub open spec fn spec_dedup_from(s: Seq<DeviceView>, i: int) -> Seq<DeviceView>
    decreases s.len() - i,
{
    if i < 0 || i >= s.len() {
        Seq::empty()
    } else if later_occurrence(s, i) {
        spec_dedup_from(s, i + 1)
    } else {
        seq![s[i]] + spec_dedup_from(s, i + 1)
    }
}

/// The device map distilled from a reading list: one entry per name,
/// the last reading of each name winning.
pub open spec fn spec_dedup_keys(s: Seq<DeviceView>) -> Seq<DeviceView> {
    spec_dedup_from(s, 0)
}

/// What survives deduplication: pairwise distinct names, and every
/// surviving entry stands in the input at or after `i`.
proof fn lemma_dedup_unique(s: Seq<DeviceView>, i: int)
    ensures
        forall|a: int, b: int|
            0 <= a < b < spec_dedup_from(s, i).len() ==> (#[trigger] spec_dedup_from(s, i)[a]).name
                != (#[trigger] spec_dedup_from(s, i)[b]).name,
        forall|a: int|
            0 <= a < spec_dedup_from(s, i).len() ==> is_entry_of(
                s,
                #[trigger] spec_dedup_from(s, i)[a],
            ),
        forall|a: int|
            0 <= a < spec_dedup_from(s, i).len() ==> exists|k: int|
                i <= k < s.len() && (#[trigger] s[k]) == (#[trigger] spec_dedup_from(s, i)[a]),
    decreases s.len() - i,
{
    if 0 <= i < s.len() {
        lemma_dedup_unique(s, i + 1);
        let d2 = spec_dedup_from(s, i + 1);
        if !later_occurrence(s, i) {
            let d = spec_dedup_from(s, i);
            assert forall|a: int, b: int| 0 <= a < b < d.len() implies (#[trigger] d[a]).name != (
            #[trigger] d[b]).name by {
                if a == 0 {
                    assert(d[b] == d2[b - 1]);
                    let k = choose|k: int| i + 1 <= k < s.len() && (#[trigger] s[k]) == d2[b - 1];
                    if d[a].name == d[b].name {
                        assert(i < k < s.len() && s[k].name == s[i].name);
                    }
                } else {
                    assert(d[a] == d2[a - 1] && d[b] == d2[b - 1]);
                }
            };
        }
    }
}

/// Whether a later entry of the list repeats the name at position `i`.
fn has_later_occurrence(entries: &Vec<DeviceEntry>, i: usize) -> (r: bool)
    requires
        i < entries@.len(),
    ensures
        r == later_occurrence(views_of(entries@), i as int),
{
    let n = entries.len();
    let mut j = i + 1;
    while j < n
        invariant
            i < j <= n,
            n == entries@.len(),
            forall|k: int|
                i < k < j ==> (#[trigger] views_of(entries@)[k]).name != views_of(entries@)[
                    i as int
                ].name,
        decreases n - j,
    {
        if entries[j].name == entries[i].name {
            assert(views_of(entries@)[j as int].name == views_of(entries@)[i as int].name);
            return true;
        }
        j = j + 1;
    }
    false
}

/// Collapses repeated device names to one entry each, the last reading
/// of a name winning, as the counter source's map semantics demand:
/// the result's names are pairwise distinct.
pub fn dedup_keys(entries: &Vec<DeviceEntry>) -> (r: Vec<DeviceEntry>)
    ensures
        views_of(r@) == spec_dedup_keys(views_of(entries@)),
        forall|a: int, b: int|
            0 <= a < b < r@.len() ==> (#[trigger] r@[a])@.name != (#[trigger] r@[b])@.name,
        forall|a: int| 0 <= a < r@.len() ==> is_entry_of(views_of(entries@), (#[trigger] r@[a])@),
{
    let ghost sv = views_of(entries@);
    let mut out: Vec<DeviceEntry> = Vec::new();
    let n = entries.len();
    let mut i = 0usize;
    proof {
        assert(views_of(out@) + spec_dedup_from(sv, 0) =~= spec_dedup_from(sv, 0));
    }
    while i < n
        invariant
            n == entries@.len(),
            i <= n,
            sv == views_of(entries@),
            views_of(out@) + spec_dedup_from(sv, i as int) == spec_dedup_keys(sv),
        decreases n - i,
    {
        if !has_later_occurrence(entries, i) {
            let e = &entries[i];
            let kept = DeviceEntry { name: e.name.clone(), stats: e.stats };
            proof {
                assert(kept@ == sv[i as int]);
                assert(views_of(out@.push(kept)) =~= views_of(out@).push(kept@));
                assert(views_of(out@).push(kept@) =~= views_of(out@) + seq![sv[i as int]]);
                assert((views_of(out@) + seq![sv[i as int]]) + spec_dedup_from(sv, i as int + 1)
                    =~= views_of(out@) + (seq![sv[i as int]] + spec_dedup_from(sv, i as int + 1)));
            }
            out.push(kept);
        }
        i = i + 1;
    }
    proof {
        assert(views_of(out@) + spec_dedup_from(sv, n as int) =~= views_of(out@));
        lemma_dedup_unique(sv, 0);
        assert forall|a: int, b: int| 0 <= a < b < out@.len() implies (#[trigger] out@[a])@.name
            != (#[trigger] out@[b])@.name by {
            assert(views_of(out@)[a] == out@[a]@);
            assert(views_of(out@)[b] == out@[b]@);
            assert(spec_dedup_from(sv, 0)[a].name != spec_dedup_from(sv, 0)[b].name);
        };
        assert forall|a: int| 0 <= a < out@.len() implies is_entry_of(sv, (#[trigger] out@[a])@) by {
            assert(views_of(out@)[a] == out@[a]@);
            assert(is_entry_of(sv, spec_dedup_from(sv, 0)[a]));
        };
    }
    out
}

/// The first "since boot" report line of each device: its reading
/// delta-ed against the all-zero baseline, which reproduces the
/// reading itself (cumulative fields lose nothing against zero, and
/// the gauge passes through).
pub fn since_boot_deltas(disks: &Vec<DeviceEntry>) -> (r: Vec<DeviceEntry>)
    ensures
        r@.len() == disks@.len(),
        forall|i: int|
            0 <= i < disks@.len() ==> (#[trigger] r@[i])@.name == disks@[i]@.name && r@[i]@.stats
                == disks@[i]@.stats.spec_delta(spec_disk_zero()),
{
    let mut out: Vec<DeviceEntry> = Vec::new();
    let n = disks.len();
    let mut i = 0usize;
    while i < n
        invariant
            n == disks@.len(),
            i <= n,
            out@.len() == i,
            forall|k: int|
                0 <= k < i ==> (#[trigger] out@[k])@.name == disks@[k]@.name && out@[k]@.stats
                    == disks@[k]@.stats.spec_delta(spec_disk_zero()),
        decreases n - i,
    {
        let e = &disks[i];
        let zero = DiskStats::default();
        let entry = DeviceEntry { name: e.name.clone(), stats: e.stats.delta(&zero) };
        out.push(entry);
        i = i + 1;
    }
    out
}

} // verus!
