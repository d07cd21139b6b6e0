//! System figures reported in heartbeats. Reading `/proc/meminfo`,
//! `/proc/stat` and the output of `df -Pk /` is the caller's work; the
//! library parses what was read.
use crate::text::{
    chars_of, find, find_char, first_word, first_word_of, has_prefix, is_ws, lines,
    parse_u64, parse_u64_spec, skip_non_whitespace, skip_whitespace, skip_word, skip_ws,
    slice_chars, split_lines, starts_with,
};
use vstd::prelude::*;

verus! {

/// The value of a `/proc/meminfo` line that starts with `key` (which ends
/// with a colon): the first word after the key, up to the next colon,
/// read as an unsigned number.
pub open spec fn field_value(line: Seq<char>, key: Seq<char>) -> Option<u64> {
    if has_prefix(line, key) {
        let rest = line.subrange(key.len() as int, line.len() as int);
        let segment = rest.take(find_char(rest, ':', 0));
        match first_word(segment) {
            Some(w) => parse_u64_spec(w),
            None => None,
        }
    } else {
        None
    }
}

/// The value of the last line of `ls` that carries `key` with a readable
/// value, or `default` when there is none.
pub open spec fn last_value(ls: Seq<Seq<char>>, key: Seq<char>, default: u64) -> u64
    decreases ls.len(),
{
    if ls.len() == 0 {
        default
    } else {
        match field_value(ls.last(), key) {
            Some(v) => v,
            None => last_value(ls.drop_last(), key, default),
        }
    }
}

/// Memory in use in MB from the text of `/proc/meminfo`: total minus
/// available, in kB divided by 1024, or 0 when available is not below
/// total. Available defaults to 0 and total to 8 GB.
pub open spec fn memory_used_spec(meminfo: Seq<char>) -> u64 {
    let available = last_value(lines(meminfo), "MemAvailable:"@, 0);
    let total = last_value(lines(meminfo), "MemTotal:"@, 8388608u64);
    if total > available {
        ((total - available) / 1024) as u64
    } else {
        0
    }
}

/// The value of `line` under `key`.
fn line_field(line: &Vec<char>, key: &Vec<char>) -> (r: Option<u64>)
    ensures
        r == field_value(line@, key@),
{
    if !starts_with(line, key) {
        return None;
    }
    let rest = slice_chars(line, key.len(), line.len());
    let colon = find(&rest, ':', 0);
    let segment = slice_chars(&rest, 0, colon);
    assert(segment@ =~= rest@.take(colon as int));
    match first_word_of(&segment) {
        Some(w) => parse_u64(&w),
        None => None,
    }
}

/// The value under `key` of the last line of `ls` that has one.
fn last_field(ls: &Vec<Vec<char>>, key: &Vec<char>, default: u64) -> (r: u64)
    ensures
        r == last_value(ls@.map_values(|l: Vec<char>| l@), key@, default),
{
    let ghost all = ls@.map_values(|l: Vec<char>| l@);
    let mut i = ls.len();
    assert(all.take(ls.len() as int) =~= all);
    while i > 0
        invariant
            i <= ls.len(),
            all == ls@.map_values(|l: Vec<char>| l@),
            last_value(all, key@, default) == last_value(all.take(i as int), key@, default),
        decreases i,
    {
        let ghost q = all.take(i as int);
        assert(q.drop_last() =~= all.take(i - 1));
        assert(q.last() == ls@[i - 1]@);
        match line_field(&ls[i - 1], key) {
            Some(v) => {
                return v;
            },
            None => {},
        }
        i -= 1;
    }
    default
}

/// Memory in use in MB, computed from the text of `/proc/meminfo`.
pub fn memory_used_mb(meminfo: &str) -> (r: u64)
    ensures
        r == memory_used_spec(meminfo@),
{
    let v = chars_of(meminfo);
    let ls = split_lines(&v);
    let ghost views_of = ls@.map_values(|l: Vec<char>| l@);
    assert(views_of =~= lines(meminfo@));
    let available_key = chars_of("MemAvailable:");
    let total_key = chars_of("MemTotal:");
    let available = last_field(&ls, &available_key, 0);
    let total = last_field(&ls, &total_key, 8192 * 1024);
    if total > available {
        (total - available) / 1024
    } else {
        0
    }
}

/// Total memory in MB from the text of `/proc/meminfo`: `MemTotal` in kB
/// divided by 1024, or 8 GB when it cannot be read.
pub open spec fn memory_total_spec(meminfo: Seq<char>) -> u64 {
    (last_value(lines(meminfo), "MemTotal:"@, 8388608u64) / 1024) as u64
}

/// Total memory in MB, computed from the text of `/proc/meminfo`.
pub fn get_memory_total_mb(meminfo: &str) -> (r: u64)
    ensures
        r == memory_total_spec(meminfo@),
{
    let v = chars_of(meminfo);
    let ls = split_lines(&v);
    let ghost views_of = ls@.map_values(|l: Vec<char>| l@);
    assert(views_of =~= lines(meminfo@));
    let total_key = chars_of("MemTotal:");
    let total = last_field(&ls, &total_key, 8192 * 1024);
    total / 1024
}

/// The memory in use never exceeds the total memory read from the same
/// `/proc/meminfo` text.
pub proof fn lemma_memory_used_within_total(meminfo: Seq<char>)
    ensures
        memory_used_spec(meminfo) <= memory_total_spec(meminfo),
{
    let available = last_value(lines(meminfo), "MemAvailable:"@, 0);
    let total = last_value(lines(meminfo), "MemTotal:"@, 8388608u64);
    if total > available {
        let t = total as int;
        let a = available as int;
        assert((t - a) / 1024 <= t / 1024) by (nonlinear_arith)
            requires
                0 <= a < t,
        ;
    }
}

/// The whitespace-separated words of `s` from position `i` on.
pub open spec fn words_from(s: Seq<char>, i: int) -> Seq<Seq<char>>
    decreases s.len() + 1 - i,
    via words_from_decreases
{
    if i < 0 || i >= s.len() {
        Seq::empty()
    } else {
        let start = skip_ws(s, i);
        if start >= s.len() {
            Seq::empty()
        } else {
            seq![s.subrange(start, skip_word(s, start))] + words_from(s, skip_word(s, start))
        }
    }
}

pub proof fn lemma_skip_bounds(s: Seq<char>, i: int)
    requires
        0 <= i <= s.len(),
    ensures
        i <= skip_ws(s, i) <= s.len(),
        i <= skip_word(s, i) <= s.len(),
        skip_ws(s, i) < s.len() ==> !is_ws(s[skip_ws(s, i)]),
        i < s.len() && !is_ws(s[i]) ==> skip_word(s, i) > i,
    decreases s.len() - i,
{
    if i < s.len() {
        lemma_skip_bounds(s, i + 1);
    }
}

#[via_fn]
proof fn words_from_decreases(s: Seq<char>, i: int) {
    if !(i < 0 || i >= s.len()) {
        lemma_skip_bounds(s, i);
        let start = skip_ws(s, i);
        if start < s.len() {
            lemma_skip_bounds(s, start);
        }
    }
}

/// The whitespace-separated words of `s`.
pub open spec fn words(s: Seq<char>) -> Seq<Seq<char>> {
    words_from(s, 0)
}

/// The numbers among `ws`, in order; words that are not numbers are dropped.
pub open spec fn numbers(ws: Seq<Seq<char>>) -> Seq<u64>
    decreases ws.len(),
{
    if ws.len() == 0 {
        Seq::empty()
    } else {
        match parse_u64_spec(ws.last()) {
            Some(v) => numbers(ws.drop_last()).push(v),
            None => numbers(ws.drop_last()),
        }
    }
}

/// Sum of `v`.
pub open spec fn sum(v: Seq<u64>) -> int
    decreases v.len(),
{
    if v.len() == 0 {
        0
    } else {
        sum(v.drop_last()) + v.last()
    }
}

/// The counters of the first line of `/proc/stat`, after its label: the
/// idle counter (the fourth) and the sum of all, when there are at least four.
pub open spec fn cpu_counters_spec(stat: Seq<char>) -> Option<(u64, int)> {
    if lines(stat).len() == 0 {
        None
    } else {
        let ws = words(lines(stat)[0]);
        let parts = numbers(if ws.len() == 0 {
            ws
        } else {
            ws.drop_first()
        });
        if parts.len() >= 4 {
            Some((parts[3], sum(parts)))
        } else {
            None
        }
    }
}

/// The words of `v`.
pub(crate) fn split_words(v: &Vec<char>) -> (ws: Vec<Vec<char>>)
    ensures
        ws@.map_values(|w: Vec<char>| w@) == words(v@),
{
    let mut ws: Vec<Vec<char>> = Vec::new();
    let mut i: usize = 0;
    while i < v.len()
        invariant
            i <= v.len(),
            ws@.map_values(|w: Vec<char>| w@) + words_from(v@, i as int) == words(v@),
        decreases v.len() - i,
    {
        proof {
            lemma_skip_bounds(v@, i as int);
        }
        let start = skip_whitespace(v, i);
        if start >= v.len() {
            assert(words_from(v@, i as int) == Seq::<Seq<char>>::empty());
            assert(ws@.map_values(|w: Vec<char>| w@) + words_from(v@, v.len() as int) =~= ws@.map_values(|w: Vec<char>| w@) + words_from(v@, i as int));
            i = v.len();
        } else {
            proof {
                lemma_skip_bounds(v@, start as int);
            }
            let end = skip_non_whitespace(v, start);
            let w = slice_chars(v, start, end);
            let ghost before = ws@.map_values(|w: Vec<char>| w@);
            ws.push(w);
            assert(ws@.map_values(|w: Vec<char>| w@) =~= before.push(v@.subrange(start as int, end as int)));
            assert(words_from(v@, i as int) == seq![v@.subrange(start as int, end as int)] + words_from(v@, end as int));
            assert(ws@.map_values(|w: Vec<char>| w@) + words_from(v@, end as int) =~= before + words_from(v@, i as int));
            i = end;
        }
    }
    assert(words_from(v@, i as int) == Seq::<Seq<char>>::empty());
    assert(ws@.map_values(|w: Vec<char>| w@) =~= ws@.map_values(|w: Vec<char>| w@) + words_from(v@, i as int));
    ws
}

/// The idle counter and the sum of all counters of the first line of
/// `/proc/stat`, when it has at least four counters.
pub fn cpu_counters(stat: &str) -> (r: Option<(u64, u128)>)
    ensures
        match r {
            Some((idle, total)) => cpu_counters_spec(stat@) == Some((idle, total as int)),
            None => cpu_counters_spec(stat@) is None,
        },
{
    let v = chars_of(stat);
    let ls = split_lines(&v);
    if ls.len() == 0 {
        return None;
    }
    let ws = split_words(&ls[0]);
    let ghost all = ws@.map_values(|w: Vec<char>| w@);
    let ghost tail = if all.len() == 0 {
        all
    } else {
        all.drop_first()
    };
    let mut parts: Vec<u64> = Vec::new();
    let mut total: u128 = 0;
    let mut i: usize = if ws.len() == 0 {
        0
    } else {
        1
    };
    let start = i;
    assert(tail =~= all.subrange(start as int, all.len() as int));
    assert(all.subrange(start as int, start as int) =~= Seq::<Seq<char>>::empty());
    while i < ws.len()
        invariant
            start <= i <= ws.len(),
            start <= 1,
            all == ws@.map_values(|w: Vec<char>| w@),
            tail =~= all.subrange(start as int, all.len() as int),
            parts@ == numbers(all.subrange(start as int, i as int)),
            total == sum(parts@),
            parts.len() <= i,
            total <= parts.len() * (u64::MAX as int),
        decreases ws.len() - i,
    {
        let ghost prev = all.subrange(start as int, i as int);
        assert(all.subrange(start as int, i + 1) =~= prev.push(all[i as int]));
        assert(all.subrange(start as int, i + 1).drop_last() =~= prev);
        match parse_u64(&ws[i]) {
            Some(n) => {
                let ghost old_parts = parts@;
                proof {
                    assert(total + n <= (parts.len() + 1) * (u64::MAX as int)) by (nonlinear_arith)
                        requires
                            total <= parts.len() * (u64::MAX as int),
                            n <= u64::MAX,
                    ;
                    assert((parts.len() + 1) * (u64::MAX as int) <= u128::MAX) by (nonlinear_arith)
                        requires
                            parts.len() + 1 <= usize::MAX + 1,
                            usize::MAX <= u64::MAX,
                    ;
                }
                parts.push(n);
                total = total + n as u128;
                proof {
                    assert(parts@.drop_last() =~= old_parts);
                }
            },
            None => {},
        }
        i += 1;
    }
    assert(all.subrange(start as int, ws.len() as int) =~= tail);
    if parts.len() >= 4 {
        Some((parts[3], total))
    } else {
        None
    }
}

/// The number in column `col` of the second line of `df -Pk` output (the
/// line of the file system asked about), when it is there and readable.
pub open spec fn df_column(df: Seq<char>, col: int) -> Option<u64> {
    if lines(df).len() >= 2 && words(lines(df)[1]).len() > col {
        parse_u64_spec(words(lines(df)[1])[col])
    } else {
        None
    }
}

/// kB in a GB.
pub open spec fn kb_per_gb() -> u64 {
    1048576
}

/// Disk space in GB from a column of `df -Pk` output, 0 when unreadable.
pub open spec fn disk_gb_spec(df: Seq<char>, col: int) -> u64 {
    match df_column(df, col) {
        Some(kb) => (kb / kb_per_gb()) as u64,
        None => 0,
    }
}

/// Column `col` of the second line of `df -Pk` output, in GB.
fn df_gb(df: &str, col: usize) -> (r: u64)
    ensures
        r == disk_gb_spec(df@, col as int),
{
    let v = chars_of(df);
    let ls = split_lines(&v);
    assert(ls@.map_values(|l: Vec<char>| l@) =~= lines(df@));
    if ls.len() < 2 {
        return 0;
    }
    assert(ls@[1]@ == lines(df@)[1]);
    let ws = split_words(&ls[1]);
    if ws.len() <= col {
        return 0;
    }
    assert(ws@[col as int]@ == words(lines(df@)[1])[col as int]);
    match parse_u64(&ws[col]) {
        Some(kb) => kb / 1048576,
        None => 0,
    }
}

/// Disk space in use in GB, from the output of `df -Pk /` (the "Used"
/// column, in kB), or 0 when it cannot be read.
pub fn get_disk_used_gb(df_output: &str) -> (r: u64)
    ensures
        r == disk_gb_spec(df_output@, 2),
{
    df_gb(df_output, 2)
}

/// Total disk space in GB, from the output of `df -Pk /` (the size column,
/// in kB), or 0 when it cannot be read.
pub fn get_disk_total_gb(df_output: &str) -> (r: u64)
    ensures
        r == disk_gb_spec(df_output@, 1),
{
    df_gb(df_output, 1)
}

} // verus!
