//! Memory totals of `/proc/meminfo`.
use vstd::prelude::*;
use crate::system::model::Share;
use crate::text::{line_ranges, lines, nth_u64_or_zero, parse_u64_at, starts_with, starts_with_at, to_chars, word_ranges, words};

verus! {

/// The `(MemTotal, MemAvailable)` of meminfo lines, read line by line from
/// `(0, 0)`: a line beginning with `MemTotal` sets the total and one
/// beginning with `MemAvailable` the available amount, each to the line's
/// second word as a number, or 0 where it is missing or does not parse. A
/// later line overrides an earlier one.
pub open spec fn meminfo(ls: Seq<Seq<char>>) -> (u64, u64)
    decreases ls.len(),
{
    if ls.len() == 0 {
        (0, 0)
    } else {
        let (total, available) = meminfo(ls.drop_last());
        let l = ls.last();
        let total2 = if starts_with(l, "MemTotal"@) {
            nth_u64_or_zero(words(l), 1)
        } else {
            total
        };
        let available2 = if starts_with(l, "MemAvailable"@) {
            nth_u64_or_zero(words(l), 1)
        } else {
            available
        };
        (total2, available2)
    }
}

fn nth_u64_or_zero_at(s: &Vec<char>, lo: usize, hi: usize, n: usize) -> (r: u64)
    requires
        lo <= hi <= s.len(),
    ensures
        r == nth_u64_or_zero(words(s@.subrange(lo as int, hi as int)), n as int),
{
    let w = word_ranges(s, lo, hi);
    if n < w.len() {
        match parse_u64_at(s, w[n].0, w[n].1) {
            Some(v) => v,
            None => 0,
        }
    } else {
        0
    }
}

/// Reads `(MemTotal, MemAvailable)` in kilobytes from the content of
/// `/proc/meminfo`.
pub fn parse_meminfo(contents: &str) -> (r: (u64, u64))
    ensures
        r == meminfo(lines(contents@)),
{
    let s = to_chars(contents);
    let k_total = to_chars("MemTotal");
    let k_avail = to_chars("MemAvailable");
    let mut total: u64 = 0;
    let mut available: u64 = 0;
    let ls = line_ranges(&s);
    let ghost all = lines(s@);
    let mut k: usize = 0;
    while k < ls.len()
        invariant
            k <= ls@.len(),
            s@ == contents@,
            k_total@ == "MemTotal"@,
            k_avail@ == "MemAvailable"@,
            all == lines(s@),
            ls@.len() == all.len(),
            forall|j: int|
                0 <= j < ls@.len() ==> {
                    &&& (#[trigger] ls@[j]).0 <= ls@[j].1 <= s@.len()
                    &&& s@.subrange(ls@[j].0 as int, ls@[j].1 as int) == all[j]
                },
            (total, available) == meminfo(all.take(k as int)),
        decreases ls@.len() - k,
    {
        let (a, b) = ls[k];
        assert(all.take(k + 1).drop_last() =~= all.take(k as int));
        assert(all.take(k + 1).last() == all[k as int]);
        if starts_with_at(&s, a, b, &k_total) {
            total = nth_u64_or_zero_at(&s, a, b, 1);
        }
        if starts_with_at(&s, a, b, &k_avail) {
            available = nth_u64_or_zero_at(&s, a, b, 1);
        }
        k += 1;
    }
    assert(all.take(ls@.len() as int) =~= all);
    (total, available)
}

/// The memory in use out of the total: `total - available` (0 where the
/// available amount exceeds the total) over `total`. Its percentage is 0
/// where the total is 0.
pub fn memory_usage(total: u64, available: u64) -> (r: Share)
    ensures
        r.whole == total,
        r.part == if available <= total {
            total - available
        } else {
            0
        },
        r.part <= r.whole,
{
    Share::new(total.saturating_sub(available), total)
}

/// `10000 * part / whole` rounded to the nearest whole number, halves up:
/// a percentage to the hundredth, as two decimals show it. 0 where `whole`
/// is 0.
pub open spec fn rounded_basis_points(part: nat, whole: nat) -> nat {
    if whole == 0 {
        0
    } else {
        (20000 * part + whole) / (2 * whole)
    }
}

proof fn lemma_rounded_at_most_full(part: nat, whole: nat)
    requires
        part <= whole,
        whole > 0,
    ensures
        rounded_basis_points(part, whole) <= 10000,
{
    assert(20000 * part + whole < 10001 * (2 * whole)) by (nonlinear_arith)
        requires
            part <= whole,
            whole > 0,
    ;
    assert((20000 * part + whole) / (2 * whole) < 10001) by (nonlinear_arith)
        requires
            20000 * part + whole < 10001 * (2 * whole),
            whole > 0,
    ;
}

/// The memory in use as a percentage of the total, in hundredths of a
/// percent rounded to the nearest (see [`memory_usage`] and
/// [`rounded_basis_points`]): 6000 for 60%, 1300 for 12.996%, 0 where the
/// total is 0, and never above 10000.
pub fn memory_usage_percent(total: u64, available: u64) -> (r: u64)
    ensures
        r == rounded_basis_points(
            if available <= total {
                (total - available) as nat
            } else {
                0
            },
            total as nat,
        ),
        r <= 10000,
{
    let s = memory_usage(total, available);
    if s.whole == 0 {
        return 0;
    }
    proof {
        lemma_rounded_at_most_full(s.part as nat, s.whole as nat);
    }
    let num: u128 = 20000 * (s.part as u128) + (s.whole as u128);
    let den: u128 = 2 * (s.whole as u128);
    let r = num / den;
    r as u64
}

/// The rounded percentage is within half a hundredth of a percent of
/// `10000 * part / whole`, halves going up.
pub proof fn lemma_rounded_basis_points(part: nat, whole: nat)
    requires
        whole > 0,
    ensures
        2 * rounded_basis_points(part, whole) * whole <= 20000 * part + whole,
        20000 * part + whole < 2 * (rounded_basis_points(part, whole) + 1) * whole,
{
    let n = 20000 * part + whole;
    let d = 2 * whole;
    let q = n / d;
    assert(q * d <= n && n < (q + 1) * d) by (nonlinear_arith)
        requires
            d > 0,
            q == n / d,
    ;
    assert(2 * q * whole == q * d && 2 * (q + 1) * whole == (q + 1) * d) by (nonlinear_arith)
        requires
            d == 2 * whole,
    ;
}

} // verus!
