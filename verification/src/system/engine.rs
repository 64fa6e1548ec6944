//! The collector's per-tick accounting: what it keeps between ticks and what
//! it reports on each.
use vstd::prelude::*;
use std::collections::HashMap;
use crate::system::collector::RawProcess;
use crate::system::model::Share;
use crate::system::snapshot::sat_sub;
use crate::system::state::{
    build_state, compute_cpu, cpu_deltas, index_by_pid, CpuJiffies, ProcessSnapshot,
};

verus! {

broadcast use vstd::std_specs::hash::group_hash_axioms;

/// The collector between ticks: the processes and the system CPU time of
/// the last tick.
pub struct Engine {
    prev_processes: HashMap<u32, ProcessSnapshot>,
    prev_total_cpu: u64,
}

/// What one tick reports: the current processes, the CPU time each used since
/// the last tick (see [`cpu_deltas`]), and the system CPU time elapsed, over
/// which those values are shares.
pub struct Tick {
    pub processes: HashMap<u32, ProcessSnapshot>,
    pub cpu_map: HashMap<u32, u64>,
    pub total_cpu_delta: u64,
}

impl Engine {
    /// The processes of the last tick.
    pub closed spec fn prev_processes_view(&self) -> Map<u32, ProcessSnapshot> {
        self.prev_processes@
    }

    /// The system CPU time of the last tick.
    pub closed spec fn prev_total_cpu_view(&self) -> u64 {
        self.prev_total_cpu
    }

    /// A collector that has seen no process yet, with the system CPU time now
    /// being `initial_total_cpu`.
    pub fn new(initial_total_cpu: u64) -> (r: Engine)
        ensures
            r.prev_processes_view() == Map::<u32, ProcessSnapshot>::empty(),
            r.prev_total_cpu_view() == initial_total_cpu,
    {
        Engine { prev_processes: HashMap::new(), prev_total_cpu: initial_total_cpu }
    }

    /// One tick, given the system CPU time now and the raw processes now
    /// collected: the system CPU time elapsed is the growth since the last
    /// tick (0 where it went down), each process's CPU time is measured
    /// against the last tick, and this tick becomes the last one.
    pub fn tick(&mut self, curr_total_cpu: u64, raw: Vec<RawProcess>) -> (r: Tick)
        ensures
            r.total_cpu_delta == sat_sub(curr_total_cpu, old(self).prev_total_cpu_view()),
            r.processes@ == index_by_pid(raw@),
            r.cpu_map@ == cpu_deltas(old(self).prev_processes_view(), r.processes@, r.total_cpu_delta),
            final(self).prev_processes_view() == r.processes@,
            final(self).prev_total_cpu_view() == curr_total_cpu,
    {
        let total_delta = curr_total_cpu.saturating_sub(self.prev_total_cpu);
        let prev = self.prev_processes.clone();
        let state = build_state(prev, raw, total_delta);
        let cpu_map = compute_cpu(&state);
        self.prev_processes = state.curr.clone();
        self.prev_total_cpu = curr_total_cpu;
        Tick { processes: state.curr, cpu_map, total_cpu_delta: total_delta }
    }
}

/// The system-wide CPU utilisation between two readings of the aggregate
/// jiffies: the non-idle part of the elapsed jiffies over the elapsed jiffies
/// (each counter's growth, 0 where it went down). Where no jiffies elapsed
/// the share is 0 over 0 (0%), whatever the idle counter did.
pub fn global_cpu_share(prev: CpuJiffies, curr: CpuJiffies) -> (r: Share)
    requires
        sat_sub(curr.total, prev.total) > 0 ==> sat_sub(curr.idle, prev.idle) <= sat_sub(
            curr.total,
            prev.total,
        ),
    ensures
        sat_sub(curr.total, prev.total) > 0 ==> r.whole == sat_sub(curr.total, prev.total) && r.part
            == sat_sub(curr.total, prev.total) - sat_sub(curr.idle, prev.idle),
        sat_sub(curr.total, prev.total) == 0 ==> r.part == 0 && r.whole == 0,
        r.part <= r.whole,
{
    let total_d = curr.total.saturating_sub(prev.total);
    let idle_d = curr.idle.saturating_sub(prev.idle);
    if total_d > 0 {
        Share::new(total_d - idle_d, total_d)
    } else {
        Share::zero()
    }
}

} // verus!
