//! Splitting of raw counter-source text: lines, and the
//! whitespace-separated tokens of one line.

use crate::parse::token_views;
use vstd::prelude::*;
use vstd::string::StrSliceExecFns;

verus! {

/// The ASCII characters of the Unicode white-space class (space, tab,
/// line feed, vertical tab, form feed, carriage return): the
/// separators between the fields of a counter source line.
pub open spec fn is_space(c: char) -> bool {
    c == ' ' || c == '\t' || c == '\n' || c == '\u{000B}' || c == '\u{000C}' || c == '\r'
}

/// The tokens of `s` from position `i` on, with `cur` the partial
/// token read so far: whitespace ends a token (dropping empty ones),
/// and a non-empty final token is kept.
pub open spec fn spec_split_ws_acc(s: Seq<char>, i: int, cur: Seq<char>) -> Seq<Seq<char>>
    decreases s.len() - i,
{
    if i < 0 || i >= s.len() {
        if cur.len() > 0 {
            seq![cur]
        } else {
            Seq::empty()
        }
    } else if is_space(s[i]) {
        if cur.len() > 0 {
            seq![cur] + spec_split_ws_acc(s, i + 1, Seq::empty())
        } else {
            spec_split_ws_acc(s, i + 1, Seq::empty())
        }
    } else {
        spec_split_ws_acc(s, i + 1, cur.push(s[i]))
    }
}

/// The whitespace-separated tokens of `s`: its maximal runs of
/// non-whitespace characters, in order.
pub open spec fn spec_split_ws(s: Seq<char>) -> Seq<Seq<char>> {
    spec_split_ws_acc(s, 0, Seq::empty())
}

/// Reading a run of non-whitespace characters extends the partial
/// token and splits nothing.
proof fn lemma_split_ws_run(s: Seq<char>, a: int, b: int, cur: Seq<char>)
    requires
        0 <= a <= b <= s.len(),
        forall|k: int| a <= k < b ==> !is_space(#[trigger] s[k]),
    ensures
        spec_split_ws_acc(s, a, cur) == spec_split_ws_acc(s, b, cur + s.subrange(a, b)),
    decreases b - a,
{
    if a == b {
        assert(cur + s.subrange(a, b) =~= cur);
    } else {
        assert(cur.push(s[a]) =~= cur + s.subrange(a, a + 1));
        lemma_split_ws_run(s, a + 1, b, cur.push(s[a]));
        assert(cur.push(s[a]) + s.subrange(a + 1, b) =~= cur + s.subrange(a, b));
    }
}

/// The first position at or after `from` holding whitespace, or the
/// end of the string.
fn run_end(s: &str, from: usize) -> (r: usize)
    requires
        from <= s@.len(),
    ensures
        from <= r <= s@.len(),
        forall|k: int| from <= k < r ==> !is_space(#[trigger] s@[k]),
        r < s@.len() ==> is_space(s@[r as int]),
{
    let n = s.unicode_len();
    let mut j = from;
    while j < n
        invariant
            from <= j <= n,
            n == s@.len(),
            forall|k: int| from <= k < j ==> !is_space(#[trigger] s@[k]),
        decreases n - j,
    {
        let c = s.get_char(j);
        if c == ' ' || c == '\t' || c == '\n' || c == '\u{000B}' || c == '\u{000C}' || c == '\r' {
            return j;
        }
        j = j + 1;
    }
    j
}

/// Splits one source line into its whitespace-separated tokens.
pub fn split_tokens(s: &str) -> (r: Vec<String>)
    ensures
        token_views(r@) == spec_split_ws(s@),
{
    let n = s.unicode_len();
    let mut out: Vec<String> = Vec::new();
    let mut i = 0usize;
    while i < n
        invariant
            i <= n,
            n == s@.len(),
            token_views(out@) + spec_split_ws_acc(s@, i as int, Seq::empty()) == spec_split_ws(
                s@,
            ),
        decreases n - i,
    {
        let c = s.get_char(i);
        if c == ' ' || c == '\t' || c == '\n' || c == '\u{000B}' || c == '\u{000C}' || c == '\r' {
            i = i + 1;
        } else {
            let j = run_end(s, i);
            let token = s.substring_char(i, j).to_owned();
            proof {
                let ghost sub = s@.subrange(i as int, j as int);
                lemma_split_ws_run(s@, i as int, j as int, Seq::empty());
                assert(Seq::empty() + sub =~= sub);
                assert(token_views(out@.push(token)) =~= token_views(out@).push(token@));
                assert(token_views(out@).push(token@) =~= token_views(out@) + seq![sub]);
                if j < n {
                    assert((token_views(out@) + seq![sub]) + spec_split_ws_acc(
                        s@,
                        j as int + 1,
                        Seq::empty(),
                    ) =~= token_views(out@) + (seq![sub] + spec_split_ws_acc(
                        s@,
                        j as int + 1,
                        Seq::empty(),
                    )));
                } else {
                    assert((token_views(out@) + seq![sub]) + spec_split_ws_acc(
                        s@,
                        j as int,
                        Seq::empty(),
                    ) =~= token_views(out@) + seq![sub]);
                }
            }
            out.push(token);
            i = j;
        }
    }
    proof {
        assert(token_views(out@) + spec_split_ws_acc(s@, n as int, Seq::empty()) =~= token_views(
            out@,
        ));
    }
    out
}

/// A line as emitted by the line splitter: the collected characters,
/// less a carriage return directly before the line feed.
pub open spec fn strip_cr(cur: Seq<char>) -> Seq<char> {
    if cur.len() > 0 && cur.last() == '\r' {
        cur.drop_last()
    } else {
        cur
    }
}

/// The lines of `s` from position `i` on, with `cur` the partial line
/// read so far: a line feed ends a line (also an empty one), a
/// carriage return directly before it is dropped, and a non-empty
/// final line without a line feed is kept as it stands.
pub open spec fn spec_lines_acc(s: Seq<char>, i: int, cur: Seq<char>) -> Seq<Seq<char>>
    decreases s.len() - i,
{
    if i < 0 || i >= s.len() {
        if cur.len() > 0 {
            seq![cur]
        } else {
            Seq::empty()
        }
    } else if s[i] == '\n' {
        seq![strip_cr(cur)] + spec_lines_acc(s, i + 1, Seq::empty())
    } else {
        spec_lines_acc(s, i + 1, cur.push(s[i]))
    }
}

/// The lines of a counter source text, in order.
pub open spec fn spec_lines(s: Seq<char>) -> Seq<Seq<char>> {
    spec_lines_acc(s, 0, Seq::empty())
}

/// Reading a run without line feeds extends the partial line and
/// splits nothing.
proof fn lemma_lines_run(s: Seq<char>, a: int, b: int, cur: Seq<char>)
    requires
        0 <= a <= b <= s.len(),
        forall|k: int| a <= k < b ==> (#[trigger] s[k]) != '\n',
    ensures
        spec_lines_acc(s, a, cur) == spec_lines_acc(s, b, cur + s.subrange(a, b)),
    decreases b - a,
{
    if a == b {
        assert(cur + s.subrange(a, b) =~= cur);
    } else {
        assert(cur.push(s[a]) =~= cur + s.subrange(a, a + 1));
        lemma_lines_run(s, a + 1, b, cur.push(s[a]));
        assert(cur.push(s[a]) + s.subrange(a + 1, b) =~= cur + s.subrange(a, b));
    }
}

/// The first position at or after `from` holding a line feed, or the
/// end of the string.
fn line_end(s: &str, from: usize) -> (r: usize)
    requires
        from <= s@.len(),
    ensures
        from <= r <= s@.len(),
        forall|k: int| from <= k < r ==> (#[trigger] s@[k]) != '\n',
        r < s@.len() ==> s@[r as int] == '\n',
{
    let n = s.unicode_len();
    let mut j = from;
    while j < n
        invariant
            from <= j <= n,
            n == s@.len(),
            forall|k: int| from <= k < j ==> (#[trigger] s@[k]) != '\n',
        decreases n - j,
    {
        if s.get_char(j) == '\n' {
            return j;
        }
        j = j + 1;
    }
    j
}

/// Splits a counter source text into its lines.
pub fn split_lines(s: &str) -> (r: Vec<String>)
    ensures
        token_views(r@) == spec_lines(s@),
{
    let n = s.unicode_len();
    let mut out: Vec<String> = Vec::new();
    let mut i = 0usize;
    while i < n
        invariant
            i <= n,
            n == s@.len(),
            token_views(out@) + spec_lines_acc(s@, i as int, Seq::empty()) == spec_lines(s@),
        decreases n - i,
    {
        let j = line_end(s, i);
        let stripped = if j < n && j > i && s.get_char(j - 1) == '\r' {
            j - 1
        } else {
            j
        };
        let line = s.substring_char(i, stripped).to_owned();
        proof {
            let ghost sub = s@.subrange(i as int, j as int);
            let ghost subst = s@.subrange(i as int, stripped as int);
            lemma_lines_run(s@, i as int, j as int, Seq::empty());
            assert(Seq::empty() + sub =~= sub);
            if j < n {
                if stripped < j {
                    assert(sub.last() == '\r');
                    assert(strip_cr(sub) =~= subst);
                } else {
                    assert(strip_cr(sub) =~= subst);
                }
            } else {
                assert(sub =~= subst);
            }
            assert(token_views(out@.push(line)) =~= token_views(out@).push(line@));
            assert(token_views(out@).push(line@) =~= token_views(out@) + seq![subst]);
            if j < n {
                assert((token_views(out@) + seq![subst]) + spec_lines_acc(
                    s@,
                    j as int + 1,
                    Seq::empty(),
                ) =~= token_views(out@) + (seq![subst] + spec_lines_acc(
                    s@,
                    j as int + 1,
                    Seq::empty(),
                )));
            } else {
                assert((token_views(out@) + seq![subst]) + spec_lines_acc(
                    s@,
                    j as int,
                    Seq::empty(),
                ) =~= token_views(out@) + seq![subst]);
            }
        }
        out.push(line);
        if j < n {
            i = j + 1;
        } else {
            i = n;
        }
    }
    proof {
        assert(token_views(out@) + spec_lines_acc(s@, n as int, Seq::empty()) =~= token_views(
            out@,
        ));
    }
    out
}

} // verus!
