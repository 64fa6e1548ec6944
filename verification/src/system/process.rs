//! Parsing of the per-process files `/proc/<pid>/comm`, `/proc/<pid>/status`
//! and `/proc/<pid>/stat`.
use vstd::prelude::*;
use crate::system::collector::{stat_fields, stat_record};
use crate::text::{
    find_in, join_spaced, join_words_from, line_ranges, lines, nth_u32_or_zero, parse_u64_at,
    parse_u64_spec, rfind_in, skip_words, starts_with, starts_with_at, string_of, to_chars,
    trim, trim_range, word_ranges, words,
};

verus! {

/// The name in a `comm` file: its content without surrounding whitespace.
pub fn parse_comm(content: &str) -> (r: String)
    ensures
        r@ == trim(content@),
{
    let s = to_chars(content);
    assert(s@.subrange(0, s.len() as int) =~= s@);
    let (a, b) = trim_range(&s, 0, s.len());
    string_of(&s, a, b)
}

/// The resident set size that the first `VmRSS:` line of a status file
/// gives, in kilobytes: its second word as a number. `None` where no line
/// begins with `VmRSS:`, or where the first such line has no second word or
/// one that does not parse.
pub open spec fn vm_rss(ls: Seq<Seq<char>>) -> Option<u64>
    decreases ls.len(),
{
    if ls.len() == 0 {
        None
    } else if starts_with(ls[0], "VmRSS:"@) {
        let w = words(ls[0]);
        if w.len() > 1 {
            parse_u64_spec(w[1])
        } else {
            None
        }
    } else {
        vm_rss(ls.drop_first())
    }
}

/// Reads `VmRSS` from the content of `/proc/<pid>/status`.
pub fn parse_vm_rss(content: &str) -> (r: Option<u64>)
    ensures
        r == vm_rss(lines(content@)),
{
    let s = to_chars(content);
    let key = to_chars("VmRSS:");
    let ls = line_ranges(&s);
    let ghost all = lines(s@);
    assert(all.skip(0) =~= all);
    let mut k: usize = 0;
    while k < ls.len()
        invariant
            k <= ls@.len(),
            s@ == content@,
            key@ == "VmRSS:"@,
            all == lines(s@),
            ls@.len() == all.len(),
            forall|j: int|
                0 <= j < ls@.len() ==> {
                    &&& (#[trigger] ls@[j]).0 <= ls@[j].1 <= s@.len()
                    &&& s@.subrange(ls@[j].0 as int, ls@[j].1 as int) == all[j]
                },
            vm_rss(all) == vm_rss(all.skip(k as int)),
        decreases ls@.len() - k,
    {
        let (a, b) = ls[k];
        assert(all.skip(k as int)[0] == all[k as int]);
        assert(all.skip(k as int).drop_first() =~= all.skip(k + 1));
        if starts_with_at(&s, a, b, &key) {
            let w = word_ranges(&s, a, b);
            if w.len() > 1 {
                return parse_u64_at(&s, w[1].0, w[1].1);
            }
            return None;
        }
        k += 1;
    }
    None
}

/// User plus system time in a stat line: words 11 and 12 after the last `)`.
/// `None` where the brackets are malformed, a word is missing or does not
/// parse, or the sum does not fit in a `u64`.
pub open spec fn stat_cpu_time(s: Seq<char>) -> Option<u64> {
    match stat_fields(s) {
        None => None,
        Some((_name, w)) => if w.len() > 12 {
            match (parse_u64_spec(w[11]), parse_u64_spec(w[12])) {
                (Some(u), Some(t)) => if u + t <= u64::MAX {
                    Some((u + t) as u64)
                } else {
                    None
                },
                _ => None,
            }
        } else {
            None
        },
    }
}

/// Reads the CPU time of a process from the content of `/proc/<pid>/stat`.
pub fn parse_process_cpu_time(content: &str) -> (r: Option<u64>)
    ensures
        r == stat_cpu_time(content@),
{
    let s = to_chars(content);
    let n = s.len();
    assert(s@.subrange(0, n as int) =~= s@);
    let open = match find_in(&s, 0, n, '(') {
        Some(i) => i,
        None => return None,
    };
    let close = match rfind_in(&s, 0, n, ')') {
        Some(i) => i,
        None => return None,
    };
    if open >= close {
        return None;
    }
    let w = word_ranges(&s, close + 1, n);
    if w.len() <= 12 {
        return None;
    }
    let utime = match parse_u64_at(&s, w[11].0, w[11].1) {
        Some(v) => v,
        None => return None,
    };
    let stime = match parse_u64_at(&s, w[12].0, w[12].1) {
        Some(v) => v,
        None => return None,
    };
    utime.checked_add(stime)
}

/// The parent pid, thread count and state that a status file gives, read
/// line by line from `(0, 0, "Unknown")`: a line beginning with `PPid:` sets
/// the parent pid and one beginning with `Threads:` the thread count, each
/// to its second word as a number or 0; one beginning with `State:` sets the
/// state to its words after the first, joined by single spaces. A later line
/// overrides an earlier one.
pub open spec fn status_info(ls: Seq<Seq<char>>) -> (u32, u32, Seq<char>)
    decreases ls.len(),
{
    if ls.len() == 0 {
        (0, 0, "Unknown"@)
    } else {
        let (ppid, threads, state) = status_info(ls.drop_last());
        let l = ls.last();
        let w = words(l);
        if starts_with(l, "PPid:"@) {
            (nth_u32_or_zero(w, 1), threads, state)
        } else if starts_with(l, "Threads:"@) {
            (ppid, nth_u32_or_zero(w, 1), state)
        } else if starts_with(l, "State:"@) {
            (ppid, threads, join_spaced(skip_words(w, 1)))
        } else {
            (ppid, threads, state)
        }
    }
}

fn nth_u32_or_zero_at(s: &Vec<char>, lo: usize, hi: usize, n: usize) -> (r: u32)
    requires
        lo <= hi <= s.len(),
    ensures
        r == nth_u32_or_zero(words(s@.subrange(lo as int, hi as int)), n as int),
{
    let w = word_ranges(s, lo, hi);
    if n < w.len() {
        match crate::text::parse_u32_at(s, w[n].0, w[n].1) {
            Some(v) => v,
            None => 0,
        }
    } else {
        0
    }
}

/// Reads the parent pid, thread count and state from the content of
/// `/proc/<pid>/status`.
pub fn parse_status_extra_info(content: &str) -> (r: (u32, u32, String))
    ensures
        (r.0, r.1, r.2@) == status_info(lines(content@)),
{
    let s = to_chars(content);
    let k_ppid = to_chars("PPid:");
    let k_threads = to_chars("Threads:");
    let k_state = to_chars("State:");
    let mut ppid: u32 = 0;
    let mut threads: u32 = 0;
    let mut state = String::from_str("Unknown");
    let ls = line_ranges(&s);
    let ghost all = lines(s@);
    let mut k: usize = 0;
    while k < ls.len()
        invariant
            k <= ls@.len(),
            s@ == content@,
            k_ppid@ == "PPid:"@,
            k_threads@ == "Threads:"@,
            k_state@ == "State:"@,
            all == lines(s@),
            ls@.len() == all.len(),
            forall|j: int|
                0 <= j < ls@.len() ==> {
                    &&& (#[trigger] ls@[j]).0 <= ls@[j].1 <= s@.len()
                    &&& s@.subrange(ls@[j].0 as int, ls@[j].1 as int) == all[j]
                },
            (ppid, threads, state@) == status_info(all.take(k as int)),
        decreases ls@.len() - k,
    {
        let (a, b) = ls[k];
        assert(all.take(k + 1).drop_last() =~= all.take(k as int));
        assert(all.take(k + 1).last() == all[k as int]);
        if starts_with_at(&s, a, b, &k_ppid) {
            ppid = nth_u32_or_zero_at(&s, a, b, 1);
        } else if starts_with_at(&s, a, b, &k_threads) {
            threads = nth_u32_or_zero_at(&s, a, b, 1);
        } else if starts_with_at(&s, a, b, &k_state) {
            state = join_words_from(&s, a, b, 1);
        }
        k += 1;
    }
    assert(all.take(ls@.len() as int) =~= all);
    (ppid, threads, state)
}


/// Both readers of a stat line agree on the CPU time: where the full record
/// parses, its CPU time is what the CPU-time reader reports.
pub proof fn lemma_stat_record_cpu_time(s: Seq<char>, page_size_kb: u64)
    ensures
        stat_record(s, page_size_kb) matches Some(r) ==> stat_cpu_time(s) == Some(r.2),
{
}

} // verus!
