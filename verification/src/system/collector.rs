//! Parsing of `/proc/<pid>/stat` into raw process records.
use vstd::prelude::*;
use crate::text::{find_char, find_in, parse_u32_at, parse_u32_spec, parse_u64_at, parse_u64_spec, rfind_char, rfind_in, string_of, to_chars, word_ranges, words};

verus! {

/// One process as `/proc/<pid>/stat` describes it.
#[derive(Debug, Clone)]
pub struct RawProcess {
    pub pid: u32,
    pub ppid: u32,
    pub name: String,
    /// User plus system time, in clock ticks.
    pub cpu_time: u64,
    /// Resident set size in kilobytes.
    pub memory_kb: u64,
}

/// The process name of a stat line, between its first `(` and its last `)`,
/// and the words that follow the last `)`; `None` where either bracket is
/// missing or the `(` does not come first.
pub open spec fn stat_fields(s: Seq<char>) -> Option<(Seq<char>, Seq<Seq<char>>)> {
    match (find_char(s, '('), rfind_char(s, ')')) {
        (Some(o), Some(c)) => if o < c {
            Some((s.subrange(o + 1, c), words(s.subrange(c + 1, s.len() as int))))
        } else {
            None
        },
        _ => None,
    }
}

/// What a stat line yields: `(ppid, name, utime + stime, rss * page_size_kb)`.
/// After the last `)`, word 1 is the parent pid, words 11 and 12 are the
/// user and system times and word 21 is the resident set size in pages. It is
/// `None` where a word is missing or does not parse, and where the sum or the
/// product does not fit in a `u64`.
pub open spec fn stat_record(s: Seq<char>, page_size_kb: u64) -> Option<(u32, Seq<char>, u64, u64)> {
    match stat_fields(s) {
        None => None,
        Some((name, w)) => if w.len() > 21 {
            match (
                parse_u32_spec(w[1]),
                parse_u64_spec(w[11]),
                parse_u64_spec(w[12]),
                parse_u64_spec(w[21]),
            ) {
                (Some(ppid), Some(utime), Some(stime), Some(rss)) => if utime + stime <= u64::MAX
                    && rss * page_size_kb <= u64::MAX {
                    Some((ppid, name, (utime + stime) as u64, (rss * page_size_kb) as u64))
                } else {
                    None
                },
                _ => None,
            }
        } else {
            None
        },
    }
}

/// Parses the content of `/proc/<pid>/stat` for process `pid`, with pages of
/// `page_size_kb` kilobytes.
pub fn parse_stat_content(content: &str, pid: u32, page_size_kb: u64) -> (r: Option<RawProcess>)
    ensures
        match stat_record(content@, page_size_kb) {
            Some((ppid, name, cpu_time, memory_kb)) => r matches Some(p) && p.pid == pid && p.ppid
                == ppid && p.name@ == name && p.cpu_time == cpu_time && p.memory_kb == memory_kb,
            None => r is None,
        },
{
    let s = to_chars(content);
    let n = s.len();
    assert(s@.subrange(0, n as int) =~= s@);
    let open = match find_in(&s, 0, n, '(') {
        Some(i) => i,
        None => return None,
    };
    let close = match rfind_in(&s, 0, n, ')') {
        Some(i) => i,
        None => return None,
    };
    assert(find_char(content@, '(') == Some(open as int));
    assert(rfind_char(content@, ')') == Some(close as int));
    if open >= close {
        assert(stat_fields(content@) is None);
        return None;
    }
    assert(stat_fields(content@) == Some((content@.subrange(open + 1, close as int), words(content@.subrange(close + 1, n as int)))));
    let name = string_of(&s, open + 1, close);
    let w = word_ranges(&s, close + 1, n);
    let ghost ws = words(s@.subrange(close + 1, n as int));
    if w.len() <= 21 {
        return None;
    }
    let ppid = match parse_u32_at(&s, w[1].0, w[1].1) {
        Some(v) => v,
        None => return None,
    };
    let utime = match parse_u64_at(&s, w[11].0, w[11].1) {
        Some(v) => v,
        None => return None,
    };
    let stime = match parse_u64_at(&s, w[12].0, w[12].1) {
        Some(v) => v,
        None => return None,
    };
    let rss = match parse_u64_at(&s, w[21].0, w[21].1) {
        Some(v) => v,
        None => return None,
    };
    let cpu_time = match utime.checked_add(stime) {
        Some(v) => v,
        None => return None,
    };
    let memory_kb = match rss.checked_mul(page_size_kb) {
        Some(v) => v,
        None => return None,
    };
    Some(RawProcess { pid, ppid, name, cpu_time, memory_kb })
}

/// Kilobytes per memory page, from the value that `sysconf(_SC_PAGESIZE)`
/// returned: the page size in bytes divided by 1024 where it is positive,
/// and 4 otherwise.
pub fn page_size_kb(sysconf_page_size: i64) -> (r: u64)
    ensures
        sysconf_page_size > 0 ==> r == sysconf_page_size / 1024,
        sysconf_page_size <= 0 ==> r == 4,
{
    if sysconf_page_size > 0 {
        (sysconf_page_size as u64) / 1024
    } else {
        4
    }
}

} // verus!
