//! What the interface shows of its numbers: byte counts in binary units,
//! the branches of the process tree, and how loud a row is.
use vstd::prelude::*;
use std::collections::HashMap;
use crate::text::{all_digits, digits_value, is_digit, parse_u32_spec, parse_u64_spec, push_char, unsigned_digits};

verus! {

broadcast use vstd::std_specs::hash::group_hash_axioms;

/// The character of the decimal digit `d`.
pub open spec fn digit_char(d: nat) -> char {
    if d == 0 {
        '0'
    } else if d == 1 {
        '1'
    } else if d == 2 {
        '2'
    } else if d == 3 {
        '3'
    } else if d == 4 {
        '4'
    } else if d == 5 {
        '5'
    } else if d == 6 {
        '6'
    } else if d == 7 {
        '7'
    } else if d == 8 {
        '8'
    } else {
        '9'
    }
}

/// `n` in decimal, without leading zeros.
pub open spec fn decimal(n: nat) -> Seq<char>
    decreases n,
{
    if n < 10 {
        seq![digit_char(n)]
    } else {
        decimal(n / 10).push(digit_char(n % 10))
    }
}

fn digit(d: u128) -> (c: char)
    requires
        d < 10,
    ensures
        c == digit_char(d as nat),
{
    if d == 0 {
        '0'
    } else if d == 1 {
        '1'
    } else if d == 2 {
        '2'
    } else if d == 3 {
        '3'
    } else if d == 4 {
        '4'
    } else if d == 5 {
        '5'
    } else if d == 6 {
        '6'
    } else if d == 7 {
        '7'
    } else if d == 8 {
        '8'
    } else {
        '9'
    }
}

fn push_decimal(s: &mut String, n: u128)
    ensures
        final(s)@ == old(s)@ + decimal(n as nat),
    decreases n,
{
    if n >= 10 {
        push_decimal(s, n / 10);
    }
    let ghost mid = s@;
    push_char(s, digit(n % 10));
    proof {
        if n >= 10 {
            assert(s@ =~= old(s)@ + decimal(n as nat));
        } else {
            assert(s@ =~= old(s)@ + decimal(n as nat));
        }
    }
}

fn push_str_chars(s: &mut String, t: &str)
    ensures
        final(s)@ == old(s)@ + t@,
{
    let ghost start = s@;
    for c in it: t.chars()
        invariant
            it.seq() == t@,
            s@ == start + t@.take(it.index() as int),
    {
        push_char(s, c);
        proof {
            assert(t@.take(it.index() + 1) =~= t@.take(it.index() as int).push(c));
            assert(s@ =~= start + t@.take(it.index() + 1));
        }
    }
    assert(t@.take(t@.len() as int) =~= t@);
}

/// The binary unit a byte count is shown in, and its size in bytes: GiB
/// above one GiB, MiB above one MiB, KiB below.
pub open spec fn byte_unit(bytes: u64) -> (Seq<char>, nat) {
    if bytes > 1024 * 1024 * 1024 {
        ("GiB"@, 1024 * 1024 * 1024)
    } else if bytes > 1024 * 1024 {
        ("MiB"@, 1024 * 1024)
    } else {
        ("KiB"@, 1024)
    }
}

/// `100 * n / d` rounded to the nearest whole number, ties to even.
pub open spec fn hundredths(n: nat, d: nat) -> nat {
    let q = (100 * n) / d;
    let r = (100 * n) % d;
    if 2 * r > d || (2 * r == d && q % 2 == 1) {
        q + 1
    } else {
        q
    }
}

/// `n` hundredths with two decimals, such as `3.05` for 305.
pub open spec fn two_decimals(h: nat) -> Seq<char> {
    decimal(h / 100) + seq!['.', digit_char((h % 100) / 10), digit_char(h % 10)]
}

/// A byte count in its binary unit with two decimals, such as `1.50 KiB`
/// for 1536 bytes.
pub open spec fn bytes_text(bytes: u64) -> Seq<char> {
    let (name, size) = byte_unit(bytes);
    two_decimals(hundredths(bytes as nat, size)) + seq![' '] + name
}

/// Shows a byte count in its binary unit with two decimals (see
/// [`bytes_text`]).
pub fn format_bytes(bytes: u64) -> (r: String)
    ensures
        r@ == bytes_text(bytes),
{
    let (name, size): (&str, u128) = if bytes > 1024 * 1024 * 1024 {
        ("GiB", 1024 * 1024 * 1024)
    } else if bytes > 1024 * 1024 {
        ("MiB", 1024 * 1024)
    } else {
        ("KiB", 1024)
    };
    proof {
        reveal_strlit("GiB");
        reveal_strlit("MiB");
        reveal_strlit("KiB");
    }
    assert(name@ == byte_unit(bytes).0 && size as nat == byte_unit(bytes).1);
    let scaled: u128 = (bytes as u128) * 100;
    let q = scaled / size;
    let rem = scaled % size;
    let h: u128 = if 2 * rem > size || (2 * rem == size && q % 2 == 1) {
        q + 1
    } else {
        q
    };
    assert(h as nat == hundredths(bytes as nat, size as nat));
    let mut out = String::new();
    push_decimal(&mut out, h / 100);
    push_char(&mut out, '.');
    push_char(&mut out, digit((h % 100) / 10));
    push_char(&mut out, digit(h % 10));
    push_char(&mut out, ' ');
    push_str_chars(&mut out, name);
    assert(out@ =~= bytes_text(bytes));
    out
}

/// The depth of `pid` in the tree, 0 where it has none.
pub open spec fn depth_of(depths: Map<u32, usize>, pid: u32) -> nat {
    if depths.contains_key(pid) {
        depths[pid] as nat
    } else {
        0
    }
}

/// Whether a row at `depth` follows from position `from` on before any
/// row shallower than `depth`.
pub open spec fn sibling_from(pids: Seq<u32>, depths: Map<u32, usize>, from: int, depth: nat) -> bool
    decreases pids.len() - from,
{
    if from < 0 || from >= pids.len() {
        false
    } else if depth_of(depths, pids[from]) == depth {
        true
    } else if depth_of(depths, pids[from]) < depth {
        false
    } else {
        sibling_from(pids, depths, from + 1, depth)
    }
}

/// Whether the row at `idx` of the tree has a later sibling at `depth`:
/// whether a row at that depth follows before the next shallower one. The
/// tree draws `├─` or `│` for such a row, `└─` or a blank otherwise.
pub fn has_more_siblings(idx: usize, depth: usize, sorted_pids: &[u32], process_depths: &HashMap<u32, usize>) -> (r: bool)
    ensures
        r == sibling_from(sorted_pids@, process_depths@, idx + 1, depth as nat),
{
    if idx >= sorted_pids.len() {
        return false;
    }
    let mut j = idx + 1;
    while j < sorted_pids.len()
        invariant
            idx < j <= sorted_pids@.len(),
            sibling_from(sorted_pids@, process_depths@, idx + 1, depth as nat) == sibling_from(
                sorted_pids@,
                process_depths@,
                j as int,
                depth as nat,
            ),
        decreases sorted_pids@.len() - j,
    {
        let next_depth: usize = match process_depths.get(&sorted_pids[j]) {
            Some(d) => *d,
            None => 0,
        };
        if next_depth == depth {
            return true;
        }
        if next_depth < depth {
            return false;
        }
        j += 1;
    }
    false
}

/// How loudly a row of the process table is drawn.
#[derive(Debug, Clone, Copy, PartialEq, Eq, Structural)]
pub enum Severity {
    Normal,
    Warning,
    Critical,
}

/// Critical above 70% of the CPU or 1,000,000 KB of memory, a warning above
/// 30% or 500,000 KB, normal otherwise; the CPU share is `cpu_usage` of
/// `cpu_total`, and 0 where `cpu_total` is 0.
pub open spec fn severity_of(cpu_usage: u64, cpu_total: u64, memory_kb: u64) -> Severity {
    let pct100 = 100 * (cpu_usage as int);
    if (cpu_total > 0 && pct100 > 70 * (cpu_total as int)) || memory_kb > 1_000_000 {
        Severity::Critical
    } else if (cpu_total > 0 && pct100 > 30 * (cpu_total as int)) || memory_kb > 500_000 {
        Severity::Warning
    } else {
        Severity::Normal
    }
}

/// How loudly the row of a process is drawn (see [`severity_of`]).
pub fn row_severity(cpu_usage: u64, cpu_total: u64, memory_kb: u64) -> (r: Severity)
    ensures
        r == severity_of(cpu_usage, cpu_total, memory_kb),
{
    let pct100: u128 = 100 * (cpu_usage as u128);
    let total: u128 = cpu_total as u128;
    if (cpu_total > 0 && pct100 > 70 * total) || memory_kb > 1_000_000 {
        Severity::Critical
    } else if (cpu_total > 0 && pct100 > 30 * total) || memory_kb > 500_000 {
        Severity::Warning
    } else {
        Severity::Normal
    }
}

/// An interface is shown as up where its state is `up` or `unknown`.
pub open spec fn link_up(operstate: Seq<char>) -> bool {
    operstate == "up"@ || operstate == "unknown"@
}

/// Whether an interface is shown as up (see [`link_up`]).
pub fn is_link_up(operstate: &str) -> (r: bool)
    ensures
        r == link_up(operstate@),
{
    let up = "up";
    let unknown = "unknown";
    let a = crate::text::to_chars(operstate);
    let b = crate::text::to_chars(up);
    let c = crate::text::to_chars(unknown);
    let r = chars_equal(&a, &b) || chars_equal(&a, &c);
    r
}

fn chars_equal(a: &Vec<char>, b: &Vec<char>) -> (r: bool)
    ensures
        r == (a@ == b@),
{
    if a.len() != b.len() {
        return false;
    }
    let mut i: usize = 0;
    while i < a.len()
        invariant
            i <= a@.len() == b@.len(),
            forall|k: int| 0 <= k < i ==> a@[k] == b@[k],
        decreases a@.len() - i,
    {
        if a[i] != b[i] {
            return false;
        }
        i += 1;
    }
    assert(a@ =~= b@);
    true
}

/// Decimal text reads back as the number it shows: all digits, without a
/// leading zero (but for 0 itself), and denoting `n`.
pub proof fn lemma_decimal_reads_back(n: nat)
    ensures
        all_digits(decimal(n)),
        digits_value(decimal(n)) == n,
        decimal(n).len() > 0,
        decimal(n).len() > 1 ==> decimal(n)[0] != '0',
        n >= 10 <==> decimal(n).len() > 1,
    decreases n,
{
    if n >= 10 {
        lemma_decimal_reads_back(n / 10);
        lemma_digit_char(n % 10);
        let d = decimal(n / 10);
        assert(decimal(n).drop_last() =~= d);
        assert(decimal(n)[0] == d[0]);
        assert(decimal(n).last() == digit_char(n % 10));
        assert(digits_value(decimal(n)) == digits_value(d) * 10 + ((decimal(n).last() as int - '0' as int) as nat));
        assert((n / 10) * 10 + n % 10 == n);
        if d.len() == 1 {
            lemma_digit_char(n / 10);
        }
        assert forall|i: int| 0 <= i < decimal(n).len() implies is_digit(#[trigger] decimal(n)[i]) by {
            if i < d.len() {
                assert(decimal(n)[i] == d[i]);
            }
        }
    } else {
        lemma_digit_char(n);
        assert(decimal(n).drop_last() =~= Seq::<char>::empty());
        assert(digits_value(Seq::<char>::empty()) == 0);
        assert(digits_value(decimal(n)) == digits_value(decimal(n).drop_last()) * 10 + ((decimal(n).last() as int
            - '0' as int) as nat));
    }
}

proof fn lemma_digit_char(d: nat)
    requires
        d < 10,
    ensures
        digit_char(d) as int == '0' as int + d,
        is_digit(digit_char(d)),
{
    assert('0' as int == 48 && '1' as int == 49 && '2' as int == 50 && '3' as int == 51 && '4' as int == 52);
    assert('5' as int == 53 && '6' as int == 54 && '7' as int == 55 && '8' as int == 56 && '9' as int == 57);
}

/// Byte counts show in KiB up to one MiB, in MiB above that up to one GiB,
/// and in GiB above; the hundredths are `100 * bytes / unit` to within half
/// a hundredth.
pub proof fn lemma_byte_units(bytes: u64)
    ensures
        bytes <= 1024 * 1024 ==> byte_unit(bytes) == ("KiB"@, 1024nat),
        1024 * 1024 < bytes <= 1024 * 1024 * 1024 ==> byte_unit(bytes) == ("MiB"@, 1048576nat),
        bytes > 1024 * 1024 * 1024 ==> byte_unit(bytes) == ("GiB"@, 1073741824nat),
        forall|d: nat| d > 0 ==> {
            let h = #[trigger] hundredths(bytes as nat, d);
            &&& 2 * (h * d) <= 2 * (100 * bytes) + d
            &&& 2 * (100 * bytes) <= 2 * (h * d) + d
        },
{
    assert forall|d: nat| d > 0 implies {
        let h = #[trigger] hundredths(bytes as nat, d);
        &&& 2 * (h * d) <= 2 * (100 * bytes) + d
        &&& 2 * (100 * bytes) <= 2 * (h * d) + d
    } by {
        let n = 100 * (bytes as nat);
        let q = n / d;
        let r = n % d;
        assert(n == q * d + r && 0 <= r < d) by (nonlinear_arith)
            requires
                d > 0,
                q == n / d,
                r == n % d,
        ;
        assert((q + 1) * d == q * d + d) by (nonlinear_arith);
    }
}

/// A row is critical above 70% of the CPU or 1,000,000 KB, a warning above
/// 30% or 500,000 KB, and normal otherwise; more CPU or memory never makes
/// it quieter.
pub proof fn lemma_severity(cpu: u64, total: u64, mem: u64, cpu2: u64, mem2: u64)
    ensures
        total > 0 && 100 * cpu > 70 * total ==> severity_of(cpu, total, mem) == Severity::Critical,
        mem > 1_000_000 ==> severity_of(cpu, total, mem) == Severity::Critical,
        (total == 0 || 100 * cpu <= 30 * total) && mem <= 500_000 ==> severity_of(cpu, total, mem)
            == Severity::Normal,
        total > 0 && 100 * cpu > 30 * total && 100 * cpu <= 70 * total && mem <= 1_000_000
            ==> severity_of(cpu, total, mem) == Severity::Warning,
        cpu <= cpu2 && mem <= mem2 && severity_of(cpu, total, mem) == Severity::Critical ==> severity_of(
            cpu2,
            total,
            mem2,
        ) == Severity::Critical,
        cpu <= cpu2 && mem <= mem2 && severity_of(cpu, total, mem) == Severity::Warning ==> severity_of(
            cpu2,
            total,
            mem2,
        ) != Severity::Normal,
{
}

/// There is a later sibling at `depth` after position `from - 1` exactly
/// where some row `j` at or after `from` is at `depth` and every row
/// between is deeper.
pub proof fn lemma_sibling_from(pids: Seq<u32>, depths: Map<u32, usize>, from: int, depth: nat)
    requires
        0 <= from,
    ensures
        sibling_from(pids, depths, from, depth) <==> exists|j: int|
            from <= j < pids.len() && depth_of(depths, #[trigger] pids[j]) == depth && forall|m: int|
                from <= m < j ==> depth_of(depths, #[trigger] pids[m]) > depth,
    decreases pids.len() - from,
{
    if from < pids.len() {
        lemma_sibling_from(pids, depths, from + 1, depth);
        if sibling_from(pids, depths, from, depth) {
            if depth_of(depths, pids[from]) != depth {
                let j = choose|j: int|
                    from + 1 <= j < pids.len() && depth_of(depths, #[trigger] pids[j]) == depth && forall|m: int|
                        from + 1 <= m < j ==> depth_of(depths, #[trigger] pids[m]) > depth;
                assert forall|m: int| from <= m < j implies depth_of(depths, #[trigger] pids[m]) > depth by {
                    if m > from {
                    }
                }
            }
        } else {
            if exists|j: int|
                from <= j < pids.len() && depth_of(depths, #[trigger] pids[j]) == depth && forall|m: int|
                    from <= m < j ==> depth_of(depths, #[trigger] pids[m]) > depth {
                let j = choose|j: int|
                    from <= j < pids.len() && depth_of(depths, #[trigger] pids[j]) == depth && forall|m: int|
                        from <= m < j ==> depth_of(depths, #[trigger] pids[m]) > depth;
                if j > from {
                    assert(depth_of(depths, pids[from]) > depth);
                    assert(forall|m: int| from + 1 <= m < j ==> depth_of(depths, #[trigger] pids[m]) > depth);
                }
            }
        }
    }
}

/// The states `up` and `unknown` show as up, and `down` does not.
pub proof fn lemma_link_states()
    ensures
        link_up("up"@),
        link_up("unknown"@),
        !link_up("down"@),
{
    reveal_strlit("up");
    reveal_strlit("unknown");
    reveal_strlit("down");
    assert("down"@.len() == 4 && "up"@.len() == 2 && "unknown"@.len() == 7);
}

/// Two-decimal text shows the whole part in decimal, then a point, then the
/// tenths and hundredths digits of `h` hundredths.
pub proof fn lemma_two_decimals(h: nat)
    ensures
        two_decimals(h).len() == decimal(h / 100).len() + 3,
        two_decimals(h).take(decimal(h / 100).len() as int) == decimal(h / 100),
        digits_value(two_decimals(h).take(decimal(h / 100).len() as int)) == h / 100,
        two_decimals(h)[decimal(h / 100).len() as int] == '.',
        two_decimals(h)[decimal(h / 100).len() as int + 1] as int - '0' as int == (h % 100) / 10,
        two_decimals(h)[decimal(h / 100).len() as int + 2] as int - '0' as int == h % 10,
        (h / 100) * 100 + ((h % 100) / 10) * 10 + h % 10 == h,
{
    let d = decimal(h / 100);
    lemma_decimal_reads_back(h / 100);
    lemma_digit_char((h % 100) / 10);
    lemma_digit_char(h % 10);
    assert(two_decimals(h).take(d.len() as int) =~= d);
}

/// Numbers shown in decimal parse back as themselves.
pub proof fn lemma_decimal_parses_back(n: u64)
    ensures
        parse_u64_spec(decimal(n as nat)) == Some(n),
        n <= u32::MAX ==> parse_u32_spec(decimal(n as nat)) == Some(n as u32),
{
    lemma_decimal_reads_back(n as nat);
    lemma_digit_char((n as nat) % 10);
    let d = decimal(n as nat);
    assert(is_digit(d[0]));
    assert(d[0] != '+');
    assert(unsigned_digits(d) == d);
}

} // verus!
