//! The data that flows from the collectors to the interface.
use vstd::prelude::*;
use std::collections::HashMap;
use crate::common::TraceEvent;

verus! {

/// A proportion `part / whole`, kept exact; its percentage is
/// `100 * part / whole`, and 0 where `whole` is 0.
#[derive(Debug, Clone, Copy, PartialEq, Eq)]
pub struct Share {
    pub part: u64,
    pub whole: u64,
}

impl Share {
    /// The share `part / whole`.
    pub fn new(part: u64, whole: u64) -> (r: Share)
        ensures
            r.part == part,
            r.whole == whole,
    {
        Share { part, whole }
    }

    /// The share that stands for 0%.
    pub fn zero() -> (r: Share)
        ensures
            r.part == 0,
            r.whole == 0,
    {
        Share { part: 0, whole: 0 }
    }

    /// The percentage in hundredths of a percent, rounded down: 6000 for
    /// 60%, and 0 where `whole` is 0.
    pub fn basis_points(&self) -> (r: u128)
        ensures
            r == basis_points_of(*self),
    {
        if self.whole == 0 {
            0
        } else {
            (self.part as u128) * 10000 / (self.whole as u128)
        }
    }
}

/// `10000 * part / whole` rounded down, and 0 where `whole` is 0.
pub open spec fn basis_points_of(s: Share) -> nat {
    if s.whole == 0 {
        0
    } else {
        (s.part as nat * 10000) / (s.whole as nat)
    }
}

/// A share whose part does not exceed its whole is at most 100%.
pub proof fn lemma_basis_points_at_most_full(s: Share)
    requires
        s.part <= s.whole,
    ensures
        basis_points_of(s) <= 10000,
{
    if s.whole > 0 {
        let p = s.part as nat;
        let w = s.whole as nat;
        assert(p * 10000 <= w * 10000) by (nonlinear_arith)
            requires
                p <= w,
        ;
        assert((p * 10000) / w <= (w * 10000) / w) by (nonlinear_arith)
            requires
                p * 10000 <= w * 10000,
                w > 0,
        ;
        assert((w * 10000) / w == 10000) by (nonlinear_arith)
            requires
                w > 0,
        ;
    }
}

/// Counters of one network interface.
#[derive(Clone, Debug, PartialEq)]
pub struct InterfaceSnapshot {
    pub rx_bytes: u64,
    pub tx_bytes: u64,
    pub operstate: String,
    pub rx_errors: u64,
}

/// The interfaces of `/proc/net/dev`, each under its name. No name occurs
/// twice (see [`NetworkStats::wf`]).
#[derive(Clone, Debug)]
pub struct NetworkStats {
    pub interfaces: Vec<(String, InterfaceSnapshot)>,
}

/// The interfaces keyed by name; where a name occurs twice, the later entry
/// wins.
pub open spec fn entries_map(s: Seq<(String, InterfaceSnapshot)>) -> Map<Seq<char>, InterfaceSnapshot>
    decreases s.len(),
{
    if s.len() == 0 {
        Map::empty()
    } else {
        entries_map(s.drop_last()).insert(s.last().0@, s.last().1)
    }
}

/// No name occurs twice.
pub open spec fn distinct_names(s: Seq<(String, InterfaceSnapshot)>) -> bool {
    forall|i: int, j: int| 0 <= i < j < s.len() ==> (#[trigger] s[i]).0@ != (#[trigger] s[j]).0@
}

pub proof fn lemma_entries_map_dom(s: Seq<(String, InterfaceSnapshot)>, n: Seq<char>)
    ensures
        entries_map(s).contains_key(n) <==> exists|i: int| 0 <= i < s.len() && (#[trigger] s[i]).0@ == n,
    decreases s.len(),
{
    if s.len() > 0 {
        lemma_entries_map_dom(s.drop_last(), n);
        if entries_map(s.drop_last()).contains_key(n) {
            let i = choose|i: int| 0 <= i < s.drop_last().len() && (#[trigger] s.drop_last()[i]).0@ == n;
            assert(s[i].0@ == n);
        }
        if exists|i: int| 0 <= i < s.len() && (#[trigger] s[i]).0@ == n {
            let i = choose|i: int| 0 <= i < s.len() && (#[trigger] s[i]).0@ == n;
            if i < s.len() - 1 {
                assert(s.drop_last()[i].0@ == n);
            }
        }
    }
}

pub proof fn lemma_entries_map_value(s: Seq<(String, InterfaceSnapshot)>, i: int)
    requires
        distinct_names(s),
        0 <= i < s.len(),
    ensures
        entries_map(s).contains_key(s[i].0@),
        entries_map(s)[s[i].0@] == s[i].1,
    decreases s.len(),
{
    if i < s.len() - 1 {
        assert(s.drop_last()[i] == s[i]);
        lemma_entries_map_value(s.drop_last(), i);
        assert(s[i].0@ != s[s.len() - 1].0@);
    }
}

pub proof fn lemma_entries_map_update(s: Seq<(String, InterfaceSnapshot)>, i: int, e: (String, InterfaceSnapshot))
    requires
        distinct_names(s),
        0 <= i < s.len(),
        s[i].0@ == e.0@,
    ensures
        entries_map(s.update(i, e)) == entries_map(s).insert(e.0@, e.1),
        distinct_names(s.update(i, e)),
    decreases s.len(),
{
    let t = s.update(i, e);
    if i == s.len() - 1 {
        assert(t.drop_last() =~= s.drop_last());
        lemma_entries_map_dom(s.drop_last(), e.0@);
        assert(entries_map(s.drop_last()).insert(e.0@, e.1) =~= entries_map(s.drop_last()).insert(
            s.last().0@,
            s.last().1,
        ).insert(e.0@, e.1));
    } else {
        assert(t.drop_last() =~= s.drop_last().update(i, e));
        lemma_entries_map_update(s.drop_last(), i, e);
        assert(s.last().0@ != e.0@);
        assert(entries_map(t) =~= entries_map(s).insert(e.0@, e.1));
    }
}

impl View for NetworkStats {
    type V = Map<Seq<char>, InterfaceSnapshot>;

    open spec fn view(&self) -> Map<Seq<char>, InterfaceSnapshot> {
        entries_map(self.interfaces@)
    }
}

impl NetworkStats {
    /// No interface name occurs twice.
    pub open spec fn wf(&self) -> bool {
        distinct_names(self.interfaces@)
    }

    /// No interfaces.
    pub fn new() -> (r: NetworkStats)
        ensures
            r.wf(),
            r@ == Map::<Seq<char>, InterfaceSnapshot>::empty(),
            r.interfaces@.len() == 0,
    {
        NetworkStats { interfaces: Vec::new() }
    }

    /// The position of the interface called `name`.
    pub fn position(&self, name: &String) -> (r: Option<usize>)
        requires
            self.wf(),
        ensures
            match r {
                Some(i) => i < self.interfaces@.len() && self.interfaces@[i as int].0@ == name@,
                None => !self@.contains_key(name@),
            },
    {
        let mut i: usize = 0;
        while i < self.interfaces.len()
            invariant
                i <= self.interfaces@.len(),
                forall|j: int| 0 <= j < i ==> (#[trigger] self.interfaces@[j]).0@ != name@,
            decreases self.interfaces@.len() - i,
        {
            if self.interfaces[i].0 == *name {
                return Some(i);
            }
            i += 1;
        }
        proof {
            lemma_entries_map_dom(self.interfaces@, name@);
        }
        None
    }

    /// The counters of the interface called `name`.
    pub fn get(&self, name: &String) -> (r: Option<&InterfaceSnapshot>)
        requires
            self.wf(),
        ensures
            match r {
                Some(v) => self@.contains_key(name@) && *v == self@[name@],
                None => !self@.contains_key(name@),
            },
    {
        match self.position(name) {
            Some(i) => {
                proof {
                    lemma_entries_map_value(self.interfaces@, i as int);
                }
                Some(&self.interfaces[i].1)
            },
            None => None,
        }
    }

    /// Records the counters of the interface called `name`, replacing any
    /// earlier ones.
    pub fn insert(&mut self, name: String, snap: InterfaceSnapshot)
        requires
            old(self).wf(),
        ensures
            final(self).wf(),
            final(self)@ == old(self)@.insert(name@, snap),
    {
        match self.position(&name) {
            Some(i) => {
                proof {
                    lemma_entries_map_update(self.interfaces@, i as int, (name, snap));
                }
                self.interfaces.set(i, (name, snap));
            },
            None => {
                proof {
                    lemma_entries_map_dom(self.interfaces@, name@);
                    assert(self.interfaces@.push((name, snap)).drop_last() =~= self.interfaces@);
                }
                self.interfaces.push((name, snap));
            },
        }
    }
}

impl Default for NetworkStats {
    fn default() -> (r: NetworkStats)
        ensures
            r.wf(),
            r@ == Map::<Seq<char>, InterfaceSnapshot>::empty(),
    {
        NetworkStats::new()
    }
}

/// A process as the interface shows it.
#[derive(Debug, Clone, PartialEq)]
pub struct ProcessSnapshot {
    pub pid: u32,
    pub ppid: u32,
    pub name: String,
    /// CPU time used since the previous tick, in clock ticks: the process's
    /// share of the CPU time that the system used in that interval.
    pub cpu_usage: u64,
    /// Resident set size in kilobytes.
    pub memory_kb: u64,
    /// The container the process runs in, where it is known.
    pub container_id: Option<String>,
}

/// What the collector hands the interface on each tick.
#[derive(Clone, Debug)]
pub struct TelemetryFrame {
    pub processes: HashMap<u32, crate::system::state::ProcessSnapshot>,
    /// CPU time each process used since the previous tick; absent for those
    /// that used none.
    pub cpu_map: HashMap<u32, u64>,
    /// System CPU time elapsed since the previous tick: the whole of which
    /// each value of `cpu_map` is a part.
    pub cpu_total: u64,
    pub global_cpu_utilization: Share,
    pub global_mem_utilization: Share,
    pub network: NetworkStats,
    pub disk_sectors_read: u64,
    pub disk_sectors_written: u64,
}

/// An event on the bus from the collectors to the interface.
#[derive(Debug, Clone)]
pub enum SystemEvent {
    Trace(TraceEvent),
    Tick(TelemetryFrame),
}

/// How the process list is arranged.
#[derive(Debug, Clone, Copy, PartialEq, Eq, Structural)]
pub enum ViewMode {
    /// One sortable list of all processes.
    Flat,
    /// The processes grouped by container.
    Container,
}

/// The order of the process list.
#[derive(Debug, Clone, Copy, PartialEq, Eq, Structural)]
pub enum SortMode {
    /// By CPU use, highest first.
    Cpu,
    /// By resident memory, highest first.
    Memory,
}

impl Default for ViewMode {
    fn default() -> (r: ViewMode)
        ensures
            r == ViewMode::Flat,
    {
        ViewMode::Flat
    }
}

impl Default for SortMode {
    fn default() -> (r: SortMode)
        ensures
            r == SortMode::Cpu,
    {
        SortMode::Cpu
    }
}

/// One line of the process view.
#[derive(Debug, Clone)]
pub enum ViewRow {
    /// The header of a container's group.
    ContainerHeader {
        id: String,
        /// The summed CPU use of the group's processes, in clock ticks.
        aggregated_cpu: u128,
        /// The summed resident memory of the group's processes, in kilobytes.
        aggregated_mem_kb: u128,
    },
    /// A process.
    Process { pid: u32, indent_level: u8 },
}

/// What a view row holds, with the container id as characters.
pub enum RowSpec {
    Header(Seq<char>, u128, u128),
    Process(u32, u8),
}

impl View for ViewRow {
    type V = RowSpec;

    open spec fn view(&self) -> RowSpec {
        match self {
            ViewRow::ContainerHeader { id, aggregated_cpu, aggregated_mem_kb } => RowSpec::Header(
                id@,
                *aggregated_cpu,
                *aggregated_mem_kb,
            ),
            ViewRow::Process { pid, indent_level } => RowSpec::Process(*pid, *indent_level),
        }
    }
}


/// Reading an interface back after inserting it gives what was inserted,
/// and leaves the other interfaces as they were.
pub proof fn lemma_read_after_insert(
    before: Map<Seq<char>, InterfaceSnapshot>,
    after: Map<Seq<char>, InterfaceSnapshot>,
    name: Seq<char>,
    snap: InterfaceSnapshot,
    other: Seq<char>,
)
    requires
        after == before.insert(name, snap),
    ensures
        after.contains_key(name),
        after[name] == snap,
        other != name ==> (after.contains_key(other) == before.contains_key(other)),
        other != name && before.contains_key(other) ==> after[other] == before[other],
{
}

/// The percentage in hundredths is `10000 * part / whole` rounded down: the
/// largest number of hundredths whose share does not exceed `part / whole`.
pub proof fn lemma_basis_points_rounds_down(s: Share)
    requires
        s.whole > 0,
    ensures
        basis_points_of(s) * (s.whole as nat) <= (s.part as nat) * 10000,
        (s.part as nat) * 10000 < (basis_points_of(s) + 1) * (s.whole as nat),
{
    let n = (s.part as nat) * 10000;
    let w = s.whole as nat;
    let q = n / w;
    assert(q * w <= n && n < (q + 1) * w) by (nonlinear_arith)
        requires
            w > 0,
            q == n / w,
    ;
}

} // verus!
