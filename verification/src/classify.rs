//! Device classifier: decides whether a block-device name denotes a
//! partition (suppressed from reports) or a whole disk (reported).

use vstd::prelude::*;
use vstd::string::StrSliceExecFns;

verus! {

/// An ASCII decimal digit, `'0'` through `'9'`.
pub open spec fn is_digit(c: char) -> bool {
    48 <= c as u32 && c as u32 <= 57
}

/// Some occurrence of `c` in `s` at an index of at least `from`.
pub open spec fn contains_char_from(s: Seq<char>, from: int, c: char) -> bool {
    exists|i: int| from <= i < s.len() && (#[trigger] s[i]) == c
}

/// The four characters of `"nvme"` stand in `s` starting at index `i`.
pub open spec fn nvme_at(s: Seq<char>, i: int) -> bool {
    0 <= i && i + 4 <= s.len() && s[i] == 'n' && s[i + 1] == 'v' && s[i + 2] == 'm' && s[i + 3]
        == 'e'
}

/// `s` contains the substring `"nvme"` somewhere.
pub open spec fn contains_nvme(s: Seq<char>) -> bool {
    exists|i: int| #[trigger] nvme_at(s, i)
}

/// Every character of `s` strictly after index `j` is an ASCII digit.
pub open spec fn digits_after(s: Seq<char>, j: int) -> bool {
    forall|k: int| j < k < s.len() ==> is_digit(#[trigger] s[k])
}

/// An NVMe-style partition name: some `'p'` is followed by a non-empty
/// run of digits reaching the end of the name. Because a digit is
/// never `'p'`, such a `'p'` is necessarily the last one in the name.
pub open spec fn nvme_partition(s: Seq<char>) -> bool {
    exists|j: int| 0 <= j && j + 1 < s.len() && (#[trigger] s[j]) == 'p' && digits_after(s, j)
}

/// The name begins with one of the two-letter device-family prefixes
/// `sd`, `hd` or `vd`.
pub open spec fn sd_family(s: Seq<char>) -> bool {
    s.len() >= 2 && (s[0] == 's' || s[0] == 'h' || s[0] == 'v') && s[1] == 'd'
}

/// The name begins with the loop-device prefix `loop`.
pub open spec fn loop_prefixed(s: Seq<char>) -> bool {
    s.len() >= 4 && s[0] == 'l' && s[1] == 'o' && s[2] == 'o' && s[3] == 'p'
}

/// Partition classification of a device name, first matching rule
/// wins:
/// 1. a name containing `"nvme"` and a `'p'` is a partition exactly
///    when a non-empty all-digit run follows the last `'p'`;
/// 2. a name of the `sd`/`hd`/`vd` family is a partition exactly when
///    a non-empty all-digit run follows its first three characters;
/// 3. a name with the `loop` prefix is a partition exactly when a
///    `'p'` occurs after that prefix;
/// 4. every other name is a whole disk.
pub open spec fn is_partition_spec(s: Seq<char>) -> bool {
    if contains_nvme(s) && contains_char_from(s, 0, 'p') {
        nvme_partition(s)
    } else if sd_family(s) {
        s.len() > 3 && digits_after(s, 2)
    } else if loop_prefixed(s) {
        contains_char_from(s, 4, 'p')
    } else {
        false
    }
}

/// A name whose last `'p'` stands at `j` and is not followed by a
/// non-empty all-digit run is no NVMe-style partition.
proof fn lemma_not_nvme_partition(s: Seq<char>, j: int)
    requires
        0 <= j < s.len(),
        s[j] == 'p',
        forall|k: int| j < k < s.len() ==> (#[trigger] s[k]) != 'p',
        j + 1 < s.len() ==> !digits_after(s, j),
    ensures
        !nvme_partition(s),
{
    assert forall|j2: int|
        !(0 <= j2 && j2 + 1 < s.len() && (#[trigger] s[j2]) == 'p' && digits_after(s, j2)) by {
        if 0 <= j2 && j2 + 1 < s.len() && s[j2] == 'p' && digits_after(s, j2) {
            if j2 < j {
                // the run after j2 would have to include the 'p' at j
                assert(is_digit(s[j]));
            } else if j2 > j {
                assert(s[j2] != 'p');
            }
        }
    };
}

/// The index of the last `'p'` in the name, if any.
fn find_last_p(name: &str) -> (r: Option<usize>)
    ensures
        match r {
            Some(j) => j < name@.len() && name@[j as int] == 'p' && (forall|k: int|
                j < k < name@.len() ==> (#[trigger] name@[k]) != 'p'),
            None => forall|k: int| 0 <= k < name@.len() ==> (#[trigger] name@[k]) != 'p',
        },
{
    let n = name.unicode_len();
    let mut j = n;
    while j > 0
        invariant
            j <= n,
            n == name@.len(),
            forall|k: int| j <= k < n ==> (#[trigger] name@[k]) != 'p',
        decreases j,
    {
        if name.get_char(j - 1) == 'p' {
            return Some(j - 1);
        }
        j = j - 1;
    }
    None
}

/// Whether `c` occurs in the name at an index of at least `from`.
fn contains_from(name: &str, from: usize, c: char) -> (r: bool)
    ensures
        r == contains_char_from(name@, from as int, c),
{
    let n = name.unicode_len();
    let mut i = from;
    while i < n
        invariant
            from <= i,
            n == name@.len(),
            forall|k: int| from <= k < i ==> (#[trigger] name@[k]) != c,
        decreases n - i,
    {
        if name.get_char(i) == c {
            return true;
        }
        i = i + 1;
    }
    false
}

/// Whether the name contains the substring `"nvme"`.
fn contains_nvme_str(name: &str) -> (r: bool)
    ensures
        r == contains_nvme(name@),
{
    let n = name.unicode_len();
    if n < 4 {
        return false;
    }
    let mut i = 0usize;
    while i <= n - 4
        invariant
            4 <= n == name@.len(),
            i <= n,
            forall|k: int| 0 <= k < i ==> !#[trigger] nvme_at(name@, k),
        decreases n - i,
    {
        if name.get_char(i) == 'n' && name.get_char(i + 1) == 'v' && name.get_char(i + 2) == 'm'
            && name.get_char(i + 3) == 'e' {
            assert(nvme_at(name@, i as int));
            return true;
        }
        i = i + 1;
    }
    false
}

/// Whether every character of the name from index `from` to the end is
/// an ASCII digit (vacuously true for an empty range).
fn digits_from(name: &str, from: usize) -> (r: bool)
    requires
        from <= name@.len(),
    ensures
        r == (forall|k: int| from <= k < name@.len() ==> is_digit(#[trigger] name@[k])),
{
    let n = name.unicode_len();
    let mut i = from;
    while i < n
        invariant
            from <= i <= n,
            n == name@.len(),
            forall|k: int| from <= k < i ==> is_digit(#[trigger] name@[k]),
        decreases n - i,
    {
        let v = name.get_char(i) as u32;
        if !(48 <= v && v <= 57) {
            return false;
        }
        i = i + 1;
    }
    true
}

/// Classifies a device name: `true` for a partition (suppressed from
/// reports), `false` for a whole disk (reported). Total on every name;
/// a name matching no known family is reported as a whole disk.
pub fn is_partition(name: &str) -> (r: bool)
    ensures
        r == is_partition_spec(name@),
{
    let n = name.unicode_len();
    let has_nvme = contains_nvme_str(name);
    let has_p = contains_from(name, 0, 'p');
    if has_nvme && has_p {
        match find_last_p(name) {
            Some(j) => {
                if j + 1 < n {
                    let all = digits_from(name, j + 1);
                    proof {
                        if !all {
                            lemma_not_nvme_partition(name@, j as int);
                        }
                    }
                    return all;
                } else {
                    proof {
                        lemma_not_nvme_partition(name@, j as int);
                    }
                    return false;
                }
            },
            None => {
                proof {
                    assert(false);
                }
                return false;
            },
        }
    }
    if n >= 2 {
        let c0 = name.get_char(0);
        let c1 = name.get_char(1);
        if (c0 == 's' || c0 == 'h' || c0 == 'v') && c1 == 'd' {
            if n > 3 {
                return digits_from(name, 3);
            } else {
                return false;
            }
        }
    }
    if n >= 4 {
        if name.get_char(0) == 'l' && name.get_char(1) == 'o' && name.get_char(2) == 'o'
            && name.get_char(3) == 'p' {
            return contains_from(name, 4, 'p');
        }
    }
    false
}

} // verus!
