//! The aggregate CPU time of `/proc/stat`.
use vstd::prelude::*;
use crate::text::{line_ranges, lines, parse_u64_at, parse_u64_or_zero, to_chars, word_ranges, words};

verus! {

/// The aggregate CPU time at one instant, in clock ticks.
pub struct CpuSnapshot {
    pub total_time: u64,
}

/// The first line of `s`, or the empty line where `s` has none.
pub open spec fn first_line(s: Seq<char>) -> Seq<char> {
    let ls = lines(s);
    if ls.len() > 0 {
        ls[0]
    } else {
        seq![]
    }
}

/// The sum of the words parsed as `u64`, each word that does not parse
/// counting 0.
pub open spec fn sum_parsed(ws: Seq<Seq<char>>) -> nat
    decreases ws.len(),
{
    if ws.len() == 0 {
        0
    } else {
        sum_parsed(ws.drop_last()) + (parse_u64_or_zero(ws.last()) as nat)
    }
}

pub open spec fn min_int(a: int, b: int) -> int {
    if a <= b {
        a
    } else {
        b
    }
}

/// The total CPU time of the first line of `/proc/stat`: the sum of its
/// words 1 to 7 (user, nice, system, idle, iowait, irq, softirq), those that
/// are missing or do not parse counting 0.
pub open spec fn cpu_total(s: Seq<char>) -> nat {
    let w = words(first_line(s));
    sum_parsed(w.subrange(min_int(1, w.len() as int), min_int(8, w.len() as int)))
}

/// The total CPU time of `/proc/stat` content, or `None` where it does not fit
/// in a `u64`.
pub fn checked_total_cpu_time(contents: &str) -> (r: Option<u64>)
    ensures
        match r {
            Some(v) => v == cpu_total(contents@),
            None => cpu_total(contents@) > u64::MAX,
        },
{
    let s = to_chars(contents);
    let ls = line_ranges(&s);
    let (a, b) = if ls.len() > 0 {
        ls[0]
    } else {
        (0, 0)
    };
    assert(s@.subrange(a as int, b as int) == first_line(contents@));
    let w = word_ranges(&s, a, b);
    assert(s@.subrange(a as int, b as int) =~= first_line(contents@));
    let ghost ws = words(first_line(contents@));
    let lo: usize = if w.len() >= 1 { 1 } else { 0 };
    let hi: usize = if w.len() >= 8 { 8 } else { w.len() };
    let mut total: u64 = 0;
    let mut k = lo;
    while k < hi
        invariant
            lo <= k <= hi <= w@.len(),
            s@ == contents@,
            ws == words(first_line(contents@)),
            lo == min_int(1, ws.len() as int),
            hi == min_int(8, ws.len() as int),
            w@.len() == ws.len(),
            forall|j: int|
                0 <= j < w@.len() ==> {
                    &&& (#[trigger] w@[j]).0 <= w@[j].1 <= s@.len()
                    &&& s@.subrange(w@[j].0 as int, w@[j].1 as int) == ws[j]
                },
            total as nat == sum_parsed(ws.subrange(lo as int, k as int)),
        decreases hi - k,
    {
        let v = match parse_u64_at(&s, w[k].0, w[k].1) {
            Some(v) => v,
            None => 0,
        };
        assert(ws.subrange(lo as int, k + 1).drop_last() =~= ws.subrange(lo as int, k as int));
        match total.checked_add(v) {
            Some(t) => {
                total = t;
            },
            None => {
                proof {
                    lemma_sum_parsed_prefix(ws.subrange(lo as int, hi as int), k + 1 - lo);
                    assert(ws.subrange(lo as int, hi as int).take(k + 1 - lo) =~= ws.subrange(
                        lo as int,
                        k + 1,
                    ));
                }
                return None;
            },
        }
        k += 1;
    }
    assert(ws.subrange(lo as int, hi as int) == ws.subrange(min_int(1, ws.len() as int), min_int(8, ws.len() as int)));
    Some(total)
}

proof fn lemma_sum_parsed_prefix(ws: Seq<Seq<char>>, i: int)
    requires
        0 <= i <= ws.len(),
    ensures
        sum_parsed(ws.take(i)) <= sum_parsed(ws),
    decreases ws.len(),
{
    if i < ws.len() {
        assert(ws.drop_last().take(i) =~= ws.take(i));
        lemma_sum_parsed_prefix(ws.drop_last(), i);
    } else {
        assert(ws.take(i) =~= ws);
    }
}

/// The total CPU time of `/proc/stat` content (see [`cpu_total`]).
pub fn parse_total_cpu_time(contents: &str) -> (r: u64)
    requires
        cpu_total(contents@) <= u64::MAX,
    ensures
        r == cpu_total(contents@),
{
    match checked_total_cpu_time(contents) {
        Some(v) => v,
        None => 0,
    }
}

} // verus!
