//! Parsing of counter records: whitespace-split tokens of one source
//! line become a typed counter reading, with every missing or
//! malformed numeric field defaulting to zero rather than erroring.

use crate::classify::{is_digit, is_partition_spec};
use crate::devices::{
    dedup_keys, filter_partitions, is_entry_of, lemma_filter_disks_non_partition,
    spec_dedup_keys, spec_filter_disks, views_of, DeviceEntry, DeviceView,
};
use crate::stats::{spec_cpu_zero, CpuStats, DiskStats};
use crate::text::{spec_lines, spec_split_ws, split_lines, split_tokens};
use vstd::prelude::*;
use vstd::string::StrSliceExecFns;

verus! {

/// Every character of `s` is an ASCII digit.
pub open spec fn all_digit_chars(s: Seq<char>) -> bool {
    forall|i: int| 0 <= i < s.len() ==> is_digit(#[trigger] s[i])
}

/// The base-ten value of a digit string, most significant digit first.
pub open spec fn digits_val(s: Seq<char>) -> int
    decreases s.len(),
{
    if s.len() == 0 {
        0
    } else {
        digits_val(s.drop_last()) * 10 + (s.last() as u32 - 48)
    }
}

/// The value a counter token denotes: the base-ten value of its digits
/// (after an optional leading `'+'`) when the token is a well-formed
/// number in range, and zero for an empty, malformed or overflowing
/// token.
pub open spec fn parse_u64_spec(s: Seq<char>) -> u64 {
    let digits = if s.len() > 0 && s[0] == '+' {
        s.skip(1)
    } else {
        s
    };
    if digits.len() > 0 && all_digit_chars(digits) && digits_val(digits) <= u64::MAX {
        digits_val(digits) as u64
    } else {
        0
    }
}

/// A digit string denotes a non-negative value.
proof fn lemma_digits_val_nonneg(s: Seq<char>)
    requires
        all_digit_chars(s),
    ensures
        digits_val(s) >= 0,
    decreases s.len(),
{
    if s.len() > 0 {
        lemma_digits_val_nonneg(s.drop_last());
    }
}

/// Reading further digits never lowers the value: the whole digit
/// string denotes at least as much as any of its prefixes.
proof fn lemma_digits_val_monotone(s: Seq<char>, m: int)
    requires
        0 <= m <= s.len(),
        all_digit_chars(s),
    ensures
        digits_val(s) >= digits_val(s.take(m)),
    decreases s.len() - m,
{
    if m == s.len() {
        assert(s.take(m) =~= s);
    } else {
        assert(s.take(m + 1).drop_last() =~= s.take(m));
        assert(all_digit_chars(s.take(m)));
        lemma_digits_val_nonneg(s.take(m));
        lemma_digits_val_monotone(s, m + 1);
    }
}

/// Reads one counter token as the kernel sources are read: the decimal
/// value of the token, or zero when the token is not a number (or does
/// not fit), mirroring a per-field default instead of an error.
pub fn parse_u64(s: &str) -> (r: u64)
    ensures
        r == parse_u64_spec(s@),
{
    let n = s.unicode_len();
    let start: usize = if n > 0 && s.get_char(0) == '+' {
        1
    } else {
        0
    };
    let ghost digits = if start == 1 {
        s@.skip(1)
    } else {
        s@
    };
    if n <= start {
        return 0;
    }
    let mut acc: u64 = 0;
    let mut i = start;
    while i < n
        invariant
            start <= i <= n,
            start <= 1,
            (start == 1) == (s@.len() > 0 && s@[0] == '+'),
            n == s@.len(),
            n > start,
            digits == (if start == 1 {
                s@.skip(1)
            } else {
                s@
            }),
            digits.len() == n - start,
            forall|k: int| 0 <= k < digits.len() ==> #[trigger] digits[k] == s@[k + start],
            forall|k: int| start <= k < i ==> is_digit(#[trigger] s@[k]),
            acc == digits_val(digits.take(i - start)),
        decreases n - i,
    {
        let c = s.get_char(i);
        let v = c as u32;
        if !(48 <= v && v <= 57) {
            assert(!is_digit(digits[i as int - start as int]));
            return 0;
        }
        let d: u64 = (v - 48) as u64;
        let wide: u128 = (acc as u128) * 10 + (d as u128);
        proof {
            assert(digits.take(i - start + 1).drop_last() =~= digits.take(i - start));
            assert(digits.take(i - start + 1).last() == digits[i as int - start as int]);
        }
        if wide > u64::MAX as u128 {
            proof {
                if all_digit_chars(digits) {
                    lemma_digits_val_monotone(digits, i - start + 1);
                }
            }
            return 0;
        }
        acc = wide as u64;
        i = i + 1;
    }
    proof {
        assert(digits.take(n - start) =~= digits);
    }
    acc
}

/// The token views of a token list, in order.
pub open spec fn token_views(toks: Seq<String>) -> Seq<Seq<char>> {
    toks.map_values(|t: String| t@)
}

/// The line begins with the literal four characters `cpu` and a
/// space, which marks the aggregate CPU line of the counter source
/// (per-core lines continue with a digit instead).
pub open spec fn starts_cpu_space(line: Seq<char>) -> bool {
    line.len() >= 4 && line[0] == 'c' && line[1] == 'p' && line[2] == 'u' && line[3] == ' '
}

/// The CPU reading a source line denotes: the literal `cpu ` prefix
/// followed by at least eight numeric fields, in the order user, nice,
/// system, idle, iowait, irq, softirq, steal; any other line denotes
/// nothing.
pub open spec fn spec_parse_cpu_line(line: Seq<char>) -> Option<CpuStats> {
    let toks = spec_split_ws(line);
    if starts_cpu_space(line) && toks.len() >= 9 {
        Some(
            CpuStats {
                user: parse_u64_spec(toks[1]),
                nice: parse_u64_spec(toks[2]),
                system: parse_u64_spec(toks[3]),
                idle: parse_u64_spec(toks[4]),
                iowait: parse_u64_spec(toks[5]),
                irq: parse_u64_spec(toks[6]),
                softirq: parse_u64_spec(toks[7]),
                steal: parse_u64_spec(toks[8]),
            },
        )
    } else {
        None
    }
}

/// Reads one source line as an aggregate CPU reading, if the line is
/// the aggregate CPU line.
pub fn parse_cpu_line(line: &str) -> (r: Option<CpuStats>)
    ensures
        r == spec_parse_cpu_line(line@),
{
    let n = line.unicode_len();
    if !(n >= 4 && line.get_char(0) == 'c' && line.get_char(1) == 'p' && line.get_char(2) == 'u'
        && line.get_char(3) == ' ') {
        return None;
    }
    let tokens = split_tokens(line);
    if tokens.len() < 9 {
        return None;
    }
    Some(
        CpuStats {
            user: parse_u64(tokens[1].as_str()),
            nice: parse_u64(tokens[2].as_str()),
            system: parse_u64(tokens[3].as_str()),
            idle: parse_u64(tokens[4].as_str()),
            iowait: parse_u64(tokens[5].as_str()),
            irq: parse_u64(tokens[6].as_str()),
            softirq: parse_u64(tokens[7].as_str()),
            steal: parse_u64(tokens[8].as_str()),
        },
    )
}

/// The value of the field at position `i` of a tokenized record, or
/// zero where the record is too short to hold it: a short record is
/// recovered field by field, never discarded.
pub open spec fn field_val(toks: Seq<Seq<char>>, i: int) -> u64 {
    if 0 <= i < toks.len() {
        parse_u64_spec(toks[i])
    } else {
        0
    }
}

/// The device reading a tokenized source line denotes: any line whose
/// third field (the device name) is present carries its eleven
/// counters in the fourth through fourteenth fields, each defaulting
/// to zero where missing or malformed; a line without a name denotes
/// nothing.
pub open spec fn spec_parse_disk_line(toks: Seq<Seq<char>>) -> Option<DeviceView> {
    if toks.len() >= 3 {
        Some(
            DeviceView {
                name: toks[2],
                stats: DiskStats {
                    reads_completed: field_val(toks, 3),
                    reads_merged: field_val(toks, 4),
                    sectors_read: field_val(toks, 5),
                    read_time_ms: field_val(toks, 6),
                    writes_completed: field_val(toks, 7),
                    writes_merged: field_val(toks, 8),
                    sectors_written: field_val(toks, 9),
                    write_time_ms: field_val(toks, 10),
                    io_in_progress: field_val(toks, 11),
                    io_time_ms: field_val(toks, 12),
                    weighted_io_time_ms: field_val(toks, 13),
                },
            },
        )
    } else {
        None
    }
}

/// The counter field at position `i`, or zero where the record ends
/// before it.
fn field_or_zero(tokens: &Vec<String>, i: usize) -> (r: u64)
    ensures
        r == field_val(token_views(tokens@), i as int),
{
    if i < tokens.len() {
        parse_u64(tokens[i].as_str())
    } else {
        0
    }
}

/// Reads the tokens of one source line as a named device reading:
/// a record with its name present is recovered even when short, its
/// missing numeric fields defaulting to zero.
pub fn parse_disk_line(tokens: &Vec<String>) -> (r: Option<DeviceEntry>)
    ensures
        ({
            let s = spec_parse_disk_line(token_views(tokens@));
            match r {
                Some(e) => s == Some(e@),
                None => s is None,
            }
        }),
{
    if tokens.len() < 3 {
        return None;
    }
    Some(
        DeviceEntry {
            name: tokens[2].clone(),
            stats: DiskStats {
                reads_completed: field_or_zero(tokens, 3),
                reads_merged: field_or_zero(tokens, 4),
                sectors_read: field_or_zero(tokens, 5),
                read_time_ms: field_or_zero(tokens, 6),
                writes_completed: field_or_zero(tokens, 7),
                writes_merged: field_or_zero(tokens, 8),
                sectors_written: field_or_zero(tokens, 9),
                write_time_ms: field_or_zero(tokens, 10),
                io_in_progress: field_or_zero(tokens, 11),
                io_time_ms: field_or_zero(tokens, 12),
                weighted_io_time_ms: field_or_zero(tokens, 13),
            },
        },
    )
}

/// The CPU reading a whole counter source text denotes: that of its
/// first line that parses as the aggregate CPU line, or the all-zero
/// reading when no line does.
pub open spec fn spec_first_cpu(lines: Seq<Seq<char>>) -> CpuStats
    decreases lines.len(),
{
    if lines.len() == 0 {
        spec_cpu_zero()
    } else {
        match spec_parse_cpu_line(lines[0]) {
            Some(c) => c,
            None => spec_first_cpu(lines.drop_first()),
        }
    }
}

/// Reads a whole CPU counter source text: the first line that parses
/// as the aggregate CPU line wins, and a source without one defaults
/// to the all-zero reading.
pub fn parse_cpu_content(content: &str) -> (r: CpuStats)
    ensures
        r == spec_first_cpu(spec_lines(content@)),
{
    let lines = split_lines(content);
    let n = lines.len();
    let mut i = 0usize;
    proof {
        assert(token_views(lines@).skip(0) =~= token_views(lines@));
    }
    while i < n
        invariant
            n == lines@.len(),
            token_views(lines@) == spec_lines(content@),
            i <= n,
            spec_first_cpu(token_views(lines@).skip(i as int)) == spec_first_cpu(
                token_views(lines@),
            ),
        decreases n - i,
    {
        proof {
            let lv = token_views(lines@);
            assert(lv.skip(i as int)[0] == lv[i as int]);
            assert(lv.skip(i as int).drop_first() =~= lv.skip(i as int + 1));
        }
        match parse_cpu_line(lines[i].as_str()) {
            Some(c) => {
                return c;
            },
            None => {},
        }
        i = i + 1;
    }
    proof {
        assert(token_views(lines@).skip(n as int) =~= Seq::<Seq<char>>::empty());
    }
    CpuStats::default()
}

/// The device readings a whole counter source text denotes: every
/// line with enough fields contributes one, in order.
pub open spec fn spec_collect_disks(lines: Seq<Seq<char>>) -> Seq<DeviceView>
    decreases lines.len(),
{
    if lines.len() == 0 {
        Seq::empty()
    } else {
        let rest = spec_collect_disks(lines.drop_last());
        match spec_parse_disk_line(spec_split_ws(lines.last())) {
            Some(v) => rest.push(v),
            None => rest,
        }
    }
}

/// Reads a whole device counter source text into the reportable
/// device map: every named line becomes an entry, partition entries
/// are filtered out, and repeated names collapse to their last
/// reading, so the map's keys are unique and name whole disks only.
pub fn parse_disk_content(content: &str) -> (r: Vec<DeviceEntry>)
    ensures
        views_of(r@) == spec_dedup_keys(
            spec_filter_disks(spec_collect_disks(spec_lines(content@))),
        ),
        forall|a: int, b: int|
            0 <= a < b < r@.len() ==> (#[trigger] r@[a])@.name != (#[trigger] r@[b])@.name,
        forall|a: int| 0 <= a < r@.len() ==> !is_partition_spec((#[trigger] r@[a])@.name),
{
    let lines = split_lines(content);
    let mut entries: Vec<DeviceEntry> = Vec::new();
    let n = lines.len();
    let mut i = 0usize;
    proof {
        assert(views_of(entries@) =~= Seq::<DeviceView>::empty());
    }
    while i < n
        invariant
            n == lines@.len(),
            token_views(lines@) == spec_lines(content@),
            i <= n,
            views_of(entries@) == spec_collect_disks(token_views(lines@).take(i as int)),
        decreases n - i,
    {
        let toks = split_tokens(lines[i].as_str());
        proof {
            let lv = token_views(lines@);
            assert(lv.take(i as int + 1).drop_last() =~= lv.take(i as int));
            assert(lv.take(i as int + 1).last() == lv[i as int]);
        }
        match parse_disk_line(&toks) {
            Some(e) => {
                proof {
                    assert(views_of(entries@.push(e)) =~= views_of(entries@).push(e@));
                }
                entries.push(e);
            },
            None => {},
        }
        i = i + 1;
    }
    proof {
        assert(token_views(lines@).take(n as int) =~= token_views(lines@));
    }
    let kept = filter_partitions(&entries);
    let deduped = dedup_keys(&kept);
    proof {
        let s = views_of(entries@);
        lemma_filter_disks_non_partition(s);
        assert forall|a: int| 0 <= a < deduped@.len() implies !is_partition_spec(
            (#[trigger] deduped@[a])@.name,
        ) by {
            assert(is_entry_of(views_of(kept@), deduped@[a]@));
            let k = choose|k: int|
                0 <= k < views_of(kept@).len() && (#[trigger] views_of(kept@)[k]) == deduped@[a]@;
            assert(views_of(kept@)[k] == spec_filter_disks(s)[k]);
            assert(!is_partition_spec(spec_filter_disks(s)[k].name));
        };
    }
    deduped
}

} // verus!
