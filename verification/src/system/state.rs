//! Per-tick process state and the CPU shares derived from two ticks.
use vstd::prelude::*;
use std::collections::HashMap;
use vstd::std_specs::hash::spec_hash_map_iter;
use vstd::std_specs::iter::IteratorSpec;
use crate::system::collector::RawProcess;
use crate::system::model::{InterfaceSnapshot, NetworkStats};
use crate::text::{
    lemma_lines_append,
    find_char, find_in, trim, trim_range, string_of, line_ranges, lines, nth_u64_or_zero, parse_u64_at, parse_u64_spec, skip_words, starts_with,
    starts_with_at, to_chars, word_ranges, words,
};

verus! {

broadcast use vstd::std_specs::hash::group_hash_axioms;

/// What the state keeps of one process between ticks.
#[derive(Clone, Debug, PartialEq)]
pub struct ProcessSnapshot {
    pub ppid: u32,
    pub name: String,
    /// Cumulative user plus system time, in clock ticks.
    pub cpu_time: u64,
    pub memory_kb: u64,
}

/// The processes of the previous and the current tick, and the system CPU
/// time that elapsed between them.
#[derive(Clone)]
pub struct SystemState {
    pub prev: HashMap<u32, ProcessSnapshot>,
    pub curr: HashMap<u32, ProcessSnapshot>,
    pub total_cpu_delta: u64,
}

/// The snapshot kept of a raw process.
pub open spec fn snapshot_of(p: RawProcess) -> ProcessSnapshot {
    ProcessSnapshot { ppid: p.ppid, name: p.name, cpu_time: p.cpu_time, memory_kb: p.memory_kb }
}

/// The raw processes keyed by pid; where a pid occurs twice, the later
/// process wins.
pub open spec fn index_by_pid(raw: Seq<RawProcess>) -> Map<u32, ProcessSnapshot>
    decreases raw.len(),
{
    if raw.len() == 0 {
        Map::empty()
    } else {
        index_by_pid(raw.drop_last()).insert(raw.last().pid, snapshot_of(raw.last()))
    }
}

/// Builds the state of a tick from the previous tick's processes, the raw
/// processes now collected, and the CPU time elapsed in between.
pub fn build_state(
    prev: HashMap<u32, ProcessSnapshot>,
    curr: Vec<RawProcess>,
    total_cpu_delta: u64,
) -> (r: SystemState)
    ensures
        r.prev@ == prev@,
        r.curr@ == index_by_pid(curr@),
        r.total_cpu_delta == total_cpu_delta,
{
    let mut curr_map: HashMap<u32, ProcessSnapshot> = HashMap::new();
    let ghost raw = curr@;
    for p in it: curr.into_iter()
        invariant
            it.seq() == raw,
            curr_map@ == index_by_pid(raw.take(it.index() as int)),
    {
        proof {
            assert(raw.take(it.index() + 1).drop_last() =~= raw.take(it.index() as int));
        }
        let pid = p.pid;
        curr_map.insert(
            pid,
            ProcessSnapshot { ppid: p.ppid, name: p.name, cpu_time: p.cpu_time, memory_kb: p.memory_kb },
        );
    }
    assert(raw.take(raw.len() as int) =~= raw);
    SystemState { prev, curr: curr_map, total_cpu_delta }
}

/// The CPU time each process used between the two ticks, for the processes
/// present in both whose time grew, provided that some system CPU time
/// elapsed. A process's share of the CPU is this value over
/// `total_cpu_delta`, its percentage `100 * value / total_cpu_delta`.
pub open spec fn cpu_deltas(
    prev: Map<u32, ProcessSnapshot>,
    curr: Map<u32, ProcessSnapshot>,
    total_cpu_delta: u64,
) -> Map<u32, u64> {
    Map::new(
        |pid: u32|
            total_cpu_delta > 0 && curr.contains_key(pid) && prev.contains_key(pid)
                && curr[pid].cpu_time > prev[pid].cpu_time,
        |pid: u32| (curr[pid].cpu_time - prev[pid].cpu_time) as u64,
    )
}

/// The CPU time each process used between the two ticks of `state` (see
/// [`cpu_deltas`]).
pub fn compute_cpu(state: &SystemState) -> (r: HashMap<u32, u64>)
    ensures
        r@ == cpu_deltas(state.prev@, state.curr@, state.total_cpu_delta),
{
    let mut usage: HashMap<u32, u64> = HashMap::new();
    if state.total_cpu_delta == 0 {
        assert(usage@ =~= cpu_deltas(state.prev@, state.curr@, state.total_cpu_delta));
        return usage;
    }
    let ghost target = cpu_deltas(state.prev@, state.curr@, state.total_cpu_delta);
    let ghost entries = spec_hash_map_iter(&state.curr).remaining();
    for kv in it: state.curr.iter()
        invariant
            state.total_cpu_delta > 0,
            it.seq() == entries,
            entries == spec_hash_map_iter(&state.curr).remaining(),
            target == cpu_deltas(state.prev@, state.curr@, state.total_cpu_delta),
            forall|pid: u32|
                #[trigger] usage@.contains_key(pid) ==> target.contains_key(pid) && usage@[pid]
                    == target[pid],
            forall|pid: u32|
                #[trigger] target.contains_key(pid) ==> (usage@.contains_key(pid) <==> exists|j: int|
                    0 <= j < it.index() && *entries[j].0 == pid),
    {
        let (pid, c) = kv;
        match state.prev.get(pid) {
            Some(p) => {
                if c.cpu_time > p.cpu_time {
                    usage.insert(*pid, c.cpu_time - p.cpu_time);
                }
            },
            None => {},
        }
        proof {
            assert forall|q: u32| #[trigger] target.contains_key(q) implies (usage@.contains_key(q)
                <==> exists|j: int| 0 <= j < it.index() + 1 && *entries[j].0 == q) by {
                if q == *pid {
                    assert(*entries[it.index() as int].0 == q);
                }
            }
        }
    }
    proof {
        assert forall|pid: u32| #[trigger] target.contains_key(pid) implies usage@.contains_key(pid) by {
            assert(state.curr@.contains_key(pid));
            let c = state.curr@[pid];
            assert(entries.contains((&pid, &c)));
            let j = choose|j: int| 0 <= j < entries.len() && entries[j] == (&pid, &c);
            assert(*entries[j].0 == pid);
        }
    }
    assert(usage@ =~= target);
    usage
}

/// Aggregate CPU jiffies of the `cpu ` line of `/proc/stat`.
#[derive(Clone, Copy, Debug, PartialEq)]
pub struct CpuJiffies {
    pub total: u64,
    pub idle: u64,
}

/// The words that parse as `u64`, as numbers, in order (the others are left
/// out).
pub open spec fn parsed_values(ws: Seq<Seq<char>>) -> Seq<u64>
    decreases ws.len(),
{
    if ws.len() == 0 {
        seq![]
    } else {
        let p = parsed_values(ws.drop_last());
        match parse_u64_spec(ws.last()) {
            Some(v) => p.push(v),
            None => p,
        }
    }
}

pub open spec fn sum_u64s(vs: Seq<u64>) -> nat
    decreases vs.len(),
{
    if vs.len() == 0 {
        0
    } else {
        sum_u64s(vs.drop_last()) + (vs.last() as nat)
    }
}

/// What the aggregate line of `/proc/stat` gives: for a line beginning with
/// `cpu ` whose words after the first include at least 4 numbers, the sum of
/// all those numbers as the total, and the 4th (idle) plus the 5th (iowait,
/// 0 where there is none) as the idle time. `None` otherwise, and where
/// either sum does not fit in a `u64`.
pub open spec fn global_jiffies(line: Seq<char>) -> Option<CpuJiffies> {
    if starts_with(line, "cpu "@) {
        let vs = parsed_values(skip_words(words(line), 1));
        if vs.len() >= 4 {
            let idle = vs[3] + (if vs.len() > 4 {
                vs[4]
            } else {
                0
            });
            let total = sum_u64s(vs);
            if idle <= u64::MAX && total <= u64::MAX {
                Some(CpuJiffies { total: total as u64, idle: idle as u64 })
            } else {
                None
            }
        } else {
            None
        }
    } else {
        None
    }
}

proof fn lemma_sum_u64s_prefix(vs: Seq<u64>, i: int)
    requires
        0 <= i <= vs.len(),
    ensures
        sum_u64s(vs.take(i)) <= sum_u64s(vs),
    decreases vs.len(),
{
    if i < vs.len() {
        assert(vs.drop_last().take(i) =~= vs.take(i));
        lemma_sum_u64s_prefix(vs.drop_last(), i);
    } else {
        assert(vs.take(i) =~= vs);
    }
}

/// Parses the aggregate `cpu ` line of `/proc/stat`.
pub fn parse_global_jiffies(line: &str) -> (r: Option<CpuJiffies>)
    ensures
        r == global_jiffies(line@),
{
    let s = to_chars(line);
    let key = to_chars("cpu ");
    let n = s.len();
    assert(s@.subrange(0, n as int) =~= s@);
    if !starts_with_at(&s, 0, n, &key) {
        return None;
    }
    let w = word_ranges(&s, 0, n);
    let ghost ws = words(s@);
    let ghost rest = skip_words(ws, 1);
    let mut vals: Vec<u64> = Vec::new();
    let mut k: usize = 1;
    while k < w.len()
        invariant
            1 <= k <= w@.len() || w@.len() == 0,
            k >= 1,
            ws == words(s@),
            w@.len() == ws.len(),
            forall|j: int|
                0 <= j < w@.len() ==> {
                    &&& (#[trigger] w@[j]).0 <= w@[j].1 <= s@.len()
                    &&& s@.subrange(w@[j].0 as int, w@[j].1 as int) == ws[j]
                },
            k <= w@.len() ==> vals@ == parsed_values(ws.subrange(1, k as int)),
            w@.len() == 0 ==> vals@.len() == 0,
        decreases w@.len() - k,
    {
        assert(ws.subrange(1, k + 1).drop_last() =~= ws.subrange(1, k as int));
        match parse_u64_at(&s, w[k].0, w[k].1) {
            Some(v) => vals.push(v),
            None => {},
        }
        k += 1;
    }
    proof {
        if ws.len() > 1 {
            assert(ws.subrange(1, ws.len() as int) =~= rest);
        } else {
            assert(rest =~= seq![]);
            if ws.len() == 1 {
                assert(ws.subrange(1, 1) =~= seq![]);
            }
        }
        assert(vals@ == parsed_values(rest));
        assert(s@ == line@);
    }
    if vals.len() < 4 {
        return None;
    }
    let extra = if vals.len() > 4 {
        vals[4]
    } else {
        0
    };
    let idle = match vals[3].checked_add(extra) {
        Some(v) => v,
        None => return None,
    };
    let mut total: u64 = 0;
    let mut i: usize = 0;
    while i < vals.len()
        invariant
            i <= vals@.len(),
            vals@.len() >= 4,
            vals@ == parsed_values(skip_words(words(line@), 1)),
            starts_with(line@, "cpu "@),
            total as nat == sum_u64s(vals@.take(i as int)),
        decreases vals@.len() - i,
    {
        assert(vals@.take(i + 1).drop_last() =~= vals@.take(i as int));
        match total.checked_add(vals[i]) {
            Some(t) => {
                total = t;
            },
            None => {
                proof {
                    lemma_sum_u64s_prefix(vals@, i + 1);
                }
                return None;
            },
        }
        i += 1;
    }
    assert(vals@.take(vals@.len() as int) =~= vals@);
    Some(CpuJiffies { total, idle })
}

/// The sectors that one line of `/proc/diskstats` adds as `(read, written)`:
/// words 5 and 9 (each 0 where missing or not a number), or nothing where the
/// line has fewer than 3 words or its device name (word 2) begins with
/// `loop`, `ram` or `zram`.
pub open spec fn disk_line(l: Seq<char>) -> (u64, u64) {
    let w = words(l);
    if w.len() < 3 {
        (0, 0)
    } else if starts_with(w[2], "loop"@) || starts_with(w[2], "ram"@) || starts_with(w[2], "zram"@) {
        (0, 0)
    } else {
        (nth_u64_or_zero(w, 5), nth_u64_or_zero(w, 9))
    }
}

/// The sectors read and written over all the lines.
pub open spec fn disk_totals(ls: Seq<Seq<char>>) -> (nat, nat)
    decreases ls.len(),
{
    if ls.len() == 0 {
        (0, 0)
    } else {
        let (r, w) = disk_totals(ls.drop_last());
        let (a, b) = disk_line(ls.last());
        (r + (a as nat), w + (b as nat))
    }
}

proof fn lemma_disk_totals_append(x: Seq<Seq<char>>, y: Seq<Seq<char>>)
    ensures
        disk_totals(x + y).0 == disk_totals(x).0 + disk_totals(y).0,
        disk_totals(x + y).1 == disk_totals(x).1 + disk_totals(y).1,
    decreases y.len(),
{
    if y.len() == 0 {
        assert(x + y =~= x);
    } else {
        assert((x + y).drop_last() =~= x + y.drop_last());
        assert((x + y).last() == y.last());
        lemma_disk_totals_append(x, y.drop_last());
    }
}

/// The sectors of `/proc/diskstats` content add up over its parts: where
/// `a` is empty or ends in a newline, the totals of `a` followed by `b` are
/// the totals of `a` plus those of `b`. So appending lines that add nothing
/// (of `loop`, `ram` or `zram` devices, or too short) leaves the totals as
/// they were.
pub proof fn lemma_diskstats_additive(a: Seq<char>, b: Seq<char>)
    requires
        a.len() == 0 || a.last() == '\n',
    ensures
        disk_totals(lines(a + b)).0 == disk_totals(lines(a)).0 + disk_totals(lines(b)).0,
        disk_totals(lines(a + b)).1 == disk_totals(lines(a)).1 + disk_totals(lines(b)).1,
        disk_totals(lines(b)) == (0nat, 0nat) ==> disk_totals(lines(a + b)) == disk_totals(lines(a)),
{
    lemma_lines_append(a, b);
    lemma_disk_totals_append(lines(a), lines(b));
}

proof fn lemma_disk_totals_prefix(ls: Seq<Seq<char>>, i: int)
    requires
        0 <= i <= ls.len(),
    ensures
        disk_totals(ls.take(i)).0 <= disk_totals(ls).0,
        disk_totals(ls.take(i)).1 <= disk_totals(ls).1,
    decreases ls.len(),
{
    if i < ls.len() {
        assert(ls.drop_last().take(i) =~= ls.take(i));
        lemma_disk_totals_prefix(ls.drop_last(), i);
    } else {
        assert(ls.take(i) =~= ls);
    }
}

fn nth_u64_at(s: &Vec<char>, w: &Vec<(usize, usize)>, n: usize, ws: Ghost<Seq<Seq<char>>>) -> (r: u64)
    requires
        w@.len() == ws@.len(),
        forall|j: int|
            0 <= j < w@.len() ==> {
                &&& (#[trigger] w@[j]).0 <= w@[j].1 <= s@.len()
                &&& s@.subrange(w@[j].0 as int, w@[j].1 as int) == ws@[j]
            },
    ensures
        r == nth_u64_or_zero(ws@, n as int),
{
    if n < w.len() {
        match parse_u64_at(s, w[n].0, w[n].1) {
            Some(v) => v,
            None => 0,
        }
    } else {
        0
    }
}

/// Sums the sectors read and written over the physical devices of the
/// content of `/proc/diskstats` (see [`disk_line`]). `None` exactly where a
/// sum does not fit in a `u64`.
pub fn parse_diskstats(content: &str) -> (r: Option<(u64, u64)>)
    ensures
        match r {
            Some((rd, wr)) => rd as nat == disk_totals(lines(content@)).0 && wr as nat
                == disk_totals(lines(content@)).1,
            None => disk_totals(lines(content@)).0 > u64::MAX || disk_totals(lines(content@)).1
                > u64::MAX,
        },
{
    let s = to_chars(content);
    let k_loop = to_chars("loop");
    let k_ram = to_chars("ram");
    let k_zram = to_chars("zram");
    let mut total_read: u64 = 0;
    let mut total_written: u64 = 0;
    let ls = line_ranges(&s);
    let ghost all = lines(s@);
    let mut k: usize = 0;
    while k < ls.len()
        invariant
            k <= ls@.len(),
            s@ == content@,
            k_loop@ == "loop"@,
            k_ram@ == "ram"@,
            k_zram@ == "zram"@,
            all == lines(s@),
            ls@.len() == all.len(),
            forall|j: int|
                0 <= j < ls@.len() ==> {
                    &&& (#[trigger] ls@[j]).0 <= ls@[j].1 <= s@.len()
                    &&& s@.subrange(ls@[j].0 as int, ls@[j].1 as int) == all[j]
                },
            (total_read as nat, total_written as nat) == disk_totals(all.take(k as int)),
        decreases ls@.len() - k,
    {
        let (a, b) = ls[k];
        assert(all.take(k + 1).drop_last() =~= all.take(k as int));
        assert(all.take(k + 1).last() == all[k as int]);
        let w = word_ranges(&s, a, b);
        let ghost ws = words(all[k as int]);
        let mut add_r: u64 = 0;
        let mut add_w: u64 = 0;
        if w.len() >= 3 {
            let (na, nb) = w[2];
            if !starts_with_at(&s, na, nb, &k_loop) && !starts_with_at(&s, na, nb, &k_ram)
                && !starts_with_at(&s, na, nb, &k_zram) {
                add_r = nth_u64_at(&s, &w, 5, Ghost(ws));
                add_w = nth_u64_at(&s, &w, 9, Ghost(ws));
            }
        }
        assert((add_r, add_w) == disk_line(all[k as int]));
        let nr = total_read.checked_add(add_r);
        let nw = total_written.checked_add(add_w);
        if nr.is_none() || nw.is_none() {
            proof {
                lemma_disk_totals_prefix(all, k + 1);
            }
            return None;
        }
        total_read = nr.unwrap();
        total_written = nw.unwrap();
        k += 1;
    }
    assert(all.take(ls@.len() as int) =~= all);
    Some((total_read, total_written))
}

/// One interface line of `/proc/net/dev`: its name and its received and
/// transmitted byte counts.
#[derive(Clone, Debug, PartialEq)]
pub struct NetDevEntry {
    pub name: String,
    pub rx_bytes: u64,
    pub tx_bytes: u64,
}

/// What one line after the headers of `/proc/net/dev` gives. The line is
/// trimmed; an empty line, or one without `:`, gives nothing. The name is
/// what precedes the first `:`, trimmed; the received bytes are the first
/// word after it and the transmitted bytes the ninth (each 0 where missing
/// or not a number). Only an interface that moved some bytes, or the
/// loopback `lo`, is kept.
pub open spec fn net_line(l: Seq<char>) -> Option<(Seq<char>, u64, u64)> {
    let t = trim(l);
    if t.len() == 0 {
        None
    } else {
        match find_char(t, ':') {
            None => None,
            Some(i) => {
                let name = trim(t.subrange(0, i));
                let m = words(t.subrange(i + 1, t.len() as int));
                let rx = nth_u64_or_zero(m, 0);
                let tx = nth_u64_or_zero(m, 8);
                if rx > 0 || tx > 0 || name == "lo"@ {
                    Some((name, rx, tx))
                } else {
                    None
                }
            },
        }
    }
}

/// The interfaces that the lines give, in order.
pub open spec fn net_entries(ls: Seq<Seq<char>>) -> Seq<(Seq<char>, u64, u64)>
    decreases ls.len(),
{
    if ls.len() == 0 {
        seq![]
    } else {
        let p = net_entries(ls.drop_last());
        match net_line(ls.last()) {
            Some(e) => p.push(e),
            None => p,
        }
    }
}

/// The interfaces of `/proc/net/dev` content: the lines after the two header
/// lines, each read as [`net_line`] says.
pub open spec fn network_dev(s: Seq<char>) -> Seq<(Seq<char>, u64, u64)> {
    let ls = lines(s);
    if ls.len() <= 2 {
        seq![]
    } else {
        net_entries(ls.skip(2))
    }
}

/// The spec triple of an entry.
pub open spec fn entry_view(e: NetDevEntry) -> (Seq<char>, u64, u64) {
    (e.name@, e.rx_bytes, e.tx_bytes)
}

fn equals_at(s: &Vec<char>, lo: usize, hi: usize, p: &Vec<char>) -> (b: bool)
    requires
        lo <= hi <= s.len(),
    ensures
        b == (s@.subrange(lo as int, hi as int) == p@),
{
    if hi - lo != p.len() {
        assert(s@.subrange(lo as int, hi as int).len() != p@.len());
        return false;
    }
    let b = starts_with_at(s, lo, hi, p);
    assert(s@.subrange(lo as int, hi as int).subrange(0, p@.len() as int) =~= s@.subrange(
        lo as int,
        hi as int,
    ));
    b
}

/// Reads the interfaces of `/proc/net/dev` content (see [`network_dev`]).
pub fn parse_network_dev(content: &str) -> (r: Vec<NetDevEntry>)
    ensures
        r@.map_values(|e: NetDevEntry| entry_view(e)) == network_dev(content@),
{
    let s = to_chars(content);
    let lo_name = to_chars("lo");
    let ls = line_ranges(&s);
    let ghost all = lines(s@);
    let mut out: Vec<NetDevEntry> = Vec::new();
    if ls.len() <= 2 {
        assert(out@.map_values(|e: NetDevEntry| entry_view(e)) =~= network_dev(content@));
        return out;
    }
    let ghost rest = all.skip(2);
    let mut k: usize = 2;
    while k < ls.len()
        invariant
            2 <= k <= ls@.len(),
            s@ == content@,
            lo_name@ == "lo"@,
            all == lines(s@),
            rest == all.skip(2),
            ls@.len() == all.len(),
            forall|j: int|
                0 <= j < ls@.len() ==> {
                    &&& (#[trigger] ls@[j]).0 <= ls@[j].1 <= s@.len()
                    &&& s@.subrange(ls@[j].0 as int, ls@[j].1 as int) == all[j]
                },
            out@.map_values(|e: NetDevEntry| entry_view(e)) == net_entries(rest.take(k - 2)),
        decreases ls@.len() - k,
    {
        let (a, b) = ls[k];
        let ghost line = all[k as int];
        assert(rest.take(k + 1 - 2).drop_last() =~= rest.take(k - 2));
        assert(rest.take(k + 1 - 2).last() == line);
        let (ta, tb) = trim_range(&s, a, b);
        let ghost t = trim(line);
        assert(s@.subrange(ta as int, tb as int) == t);
        if ta < tb {
            match find_in(&s, ta, tb, ':') {
                None => {},
                Some(c) => {
                    proof {
                        assert(s@.subrange(ta as int, c as int) =~= t.subrange(0, c - ta));
                        assert(s@.subrange(c + 1, tb as int) =~= t.subrange(c + 1 - ta, t.len() as int));
                    }
                    let (na, nb) = trim_range(&s, ta, c);
                    let w = word_ranges(&s, c + 1, tb);
                    let ghost m = words(s@.subrange(c + 1, tb as int));
                    let rx = nth_u64_at(&s, &w, 0, Ghost(m));
                    let tx = nth_u64_at(&s, &w, 8, Ghost(m));
                    if rx > 0 || tx > 0 || equals_at(&s, na, nb, &lo_name) {
                        let name = string_of(&s, na, nb);
                        let ghost before = out@;
                        out.push(NetDevEntry { name, rx_bytes: rx, tx_bytes: tx });
                        assert(out@.map_values(|e: NetDevEntry| entry_view(e)) =~= before.map_values(
                            |e: NetDevEntry| entry_view(e),
                        ).push(entry_view(out@.last())));
                    }
                },
            }
        }
        k += 1;
    }
    assert(rest.take(ls@.len() - 2) =~= rest);
    out
}


/// Each pid of the raw processes is indexed once, under the last process
/// with that pid, and no other pid is: so there are at most as many entries
/// as raw processes.
pub proof fn lemma_index_by_pid(raw: Seq<RawProcess>)
    ensures
        forall|pid: u32| #[trigger] index_by_pid(raw).contains_key(pid) <==> exists|i: int|
            0 <= i < raw.len() && (#[trigger] raw[i]).pid == pid,
        forall|i: int|
            0 <= i < raw.len() && (forall|j: int| i < j < raw.len() ==> (#[trigger] raw[j]).pid != raw[i].pid)
                ==> index_by_pid(raw)[(#[trigger] raw[i]).pid] == snapshot_of(raw[i]),
        index_by_pid(raw).dom().finite(),
        index_by_pid(raw).dom().len() <= raw.len(),
    decreases raw.len(),
{
    if raw.len() > 0 {
        let init = raw.drop_last();
        lemma_index_by_pid(init);
        let m = index_by_pid(init);
        assert forall|pid: u32| #[trigger] index_by_pid(raw).contains_key(pid) <==> exists|i: int|
            0 <= i < raw.len() && (#[trigger] raw[i]).pid == pid by {
            if m.contains_key(pid) {
                let i = choose|i: int| 0 <= i < init.len() && (#[trigger] init[i]).pid == pid;
                assert(raw[i].pid == pid);
            }
            if exists|i: int| 0 <= i < raw.len() && (#[trigger] raw[i]).pid == pid {
                let i = choose|i: int| 0 <= i < raw.len() && (#[trigger] raw[i]).pid == pid;
                if i < raw.len() - 1 {
                    assert(init[i].pid == pid);
                }
            }
        }
        assert forall|i: int|
            0 <= i < raw.len() && (forall|j: int| i < j < raw.len() ==> (#[trigger] raw[j]).pid != raw[i].pid)
                implies index_by_pid(raw)[(#[trigger] raw[i]).pid] == snapshot_of(raw[i]) by {
            if i < raw.len() - 1 {
                assert(raw[raw.len() - 1].pid != raw[i].pid);
                assert forall|j: int| i < j < init.len() implies (#[trigger] init[j]).pid != init[i].pid by {
                    assert(init[j] == raw[j]);
                }
                assert(init[i] == raw[i]);
            }
        }
        if m.contains_key(raw.last().pid) {
            assert(index_by_pid(raw).dom() =~= m.dom());
        } else {
            assert(index_by_pid(raw).dom() =~= m.dom().insert(raw.last().pid));
        }
    } else {
        assert(index_by_pid(raw).dom() =~= Set::<u32>::empty());
    }
}

/// A process gets a CPU entry only where it is present on both ticks, its
/// CPU time grew, and some system CPU time elapsed; the entry is that
/// growth, which is positive and at most the current CPU time. There are at
/// most as many entries as current processes.
pub proof fn lemma_cpu_deltas_bounds(
    prev: Map<u32, ProcessSnapshot>,
    curr: Map<u32, ProcessSnapshot>,
    total_cpu_delta: u64,
)
    requires
        curr.dom().finite(),
    ensures
        forall|pid: u32| #[trigger] cpu_deltas(prev, curr, total_cpu_delta).contains_key(pid) ==> {
            &&& total_cpu_delta > 0
            &&& curr.contains_key(pid)
            &&& prev.contains_key(pid)
            &&& 0 < cpu_deltas(prev, curr, total_cpu_delta)[pid] <= curr[pid].cpu_time
            &&& cpu_deltas(prev, curr, total_cpu_delta)[pid] + prev[pid].cpu_time == curr[pid].cpu_time
        },
        forall|pid: u32|
            total_cpu_delta > 0 && curr.contains_key(pid) && prev.contains_key(pid) && curr[pid].cpu_time
                > prev[pid].cpu_time ==> #[trigger] cpu_deltas(prev, curr, total_cpu_delta).contains_key(pid),
        cpu_deltas(prev, curr, total_cpu_delta).dom().finite(),
        cpu_deltas(prev, curr, total_cpu_delta).dom().len() <= curr.dom().len(),
{
    let d = cpu_deltas(prev, curr, total_cpu_delta);
    assert(d.dom().subset_of(curr.dom()));
    vstd::set_lib::lemma_len_subset(d.dom(), curr.dom());
}

/// The interfaces keyed by name, each with its state and receive errors
/// from `links` at the same position; where a name occurs twice the later
/// entry wins.
pub open spec fn stats_of(entries: Seq<NetDevEntry>, links: Seq<(String, u64)>) -> Map<Seq<char>, InterfaceSnapshot>
    decreases entries.len(),
{
    if entries.len() == 0 || links.len() != entries.len() {
        Map::empty()
    } else {
        let e = entries.last();
        let l = links.last();
        stats_of(entries.drop_last(), links.drop_last()).insert(
            e.name@,
            InterfaceSnapshot { rx_bytes: e.rx_bytes, tx_bytes: e.tx_bytes, operstate: l.0, rx_errors: l.1 },
        )
    }
}

/// The network statistics of the interfaces of `/proc/net/dev`, given for
/// each its state and its count of receive errors (`links[i]` for
/// `entries[i]`).
pub fn build_network_stats(entries: Vec<NetDevEntry>, links: Vec<(String, u64)>) -> (r: NetworkStats)
    requires
        entries@.len() == links@.len(),
    ensures
        r.wf(),
        r@ == stats_of(entries@, links@),
{
    let mut stats = NetworkStats::new();
    let ghost es = entries@;
    let ghost ls = links@;
    let mut i: usize = 0;
    while i < entries.len()
        invariant
            i <= es.len(),
            es == entries@,
            ls == links@,
            es.len() == ls.len(),
            stats.wf(),
            stats@ == stats_of(es.take(i as int), ls.take(i as int)),
        decreases es.len() - i,
    {
        proof {
            assert(es.take(i + 1).drop_last() =~= es.take(i as int));
            assert(ls.take(i + 1).drop_last() =~= ls.take(i as int));
        }
        let e = &entries[i];
        let l = &links[i];
        stats.insert(
            e.name.clone(),
            InterfaceSnapshot { rx_bytes: e.rx_bytes, tx_bytes: e.tx_bytes, operstate: l.0.clone(), rx_errors: l.1 },
        );
        i += 1;
    }
    assert(es.take(es.len() as int) =~= es);
    assert(ls.take(ls.len() as int) =~= ls);
    stats
}

/// The network statistics hold an interface exactly where some entry names
/// it, with the last such entry's counters and the state and receive
/// errors given beside that entry.
pub proof fn lemma_stats_of(entries: Seq<NetDevEntry>, links: Seq<(String, u64)>)
    requires
        entries.len() == links.len(),
    ensures
        forall|n: Seq<char>| #[trigger] stats_of(entries, links).contains_key(n) <==> exists|i: int|
            0 <= i < entries.len() && (#[trigger] entries[i]).name@ == n,
        forall|i: int|
            0 <= i < entries.len() && (forall|j: int| i < j < entries.len() ==> (#[trigger] entries[j]).name@ != entries[i].name@)
                ==> stats_of(entries, links)[(#[trigger] entries[i]).name@] == (InterfaceSnapshot {
                rx_bytes: entries[i].rx_bytes,
                tx_bytes: entries[i].tx_bytes,
                operstate: links[i].0,
                rx_errors: links[i].1,
            }),
    decreases entries.len(),
{
    if entries.len() > 0 {
        let ie = entries.drop_last();
        let il = links.drop_last();
        lemma_stats_of(ie, il);
        assert forall|n: Seq<char>| #[trigger] stats_of(entries, links).contains_key(n) <==> exists|i: int|
            0 <= i < entries.len() && (#[trigger] entries[i]).name@ == n by {
            if stats_of(ie, il).contains_key(n) {
                let i = choose|i: int| 0 <= i < ie.len() && (#[trigger] ie[i]).name@ == n;
                assert(entries[i].name@ == n);
            }
            if exists|i: int| 0 <= i < entries.len() && (#[trigger] entries[i]).name@ == n {
                let i = choose|i: int| 0 <= i < entries.len() && (#[trigger] entries[i]).name@ == n;
                if i < entries.len() - 1 {
                    assert(ie[i].name@ == n);
                }
            }
        }
        assert forall|i: int|
            0 <= i < entries.len() && (forall|j: int| i < j < entries.len() ==> (#[trigger] entries[j]).name@ != entries[i].name@)
                implies stats_of(entries, links)[(#[trigger] entries[i]).name@] == (InterfaceSnapshot {
                rx_bytes: entries[i].rx_bytes,
                tx_bytes: entries[i].tx_bytes,
                operstate: links[i].0,
                rx_errors: links[i].1,
            }) by {
            if i < entries.len() - 1 {
                assert(entries[entries.len() - 1].name@ != entries[i].name@);
                assert forall|j: int| i < j < ie.len() implies (#[trigger] ie[j]).name@ != ie[i].name@ by {
                    assert(ie[j] == entries[j]);
                }
                assert(ie[i] == entries[i] && il[i] == links[i]);
            }
        }
    }
}

} // verus!
