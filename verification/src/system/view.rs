//! A flat table of processes, busiest first.
use vstd::prelude::*;
use std::collections::HashMap;
use crate::system::model::SortMode;
use crate::system::state::ProcessSnapshot;
use crate::tui::app::{frame_snapshots, snapshots_from_frame};
use crate::tui::projection::listing;

verus! {

broadcast use vstd::std_specs::hash::group_hash_axioms;

/// One process of the table.
#[derive(Debug, Clone)]
pub struct ProcessView {
    pub pid: u32,
    pub name: String,
    /// CPU time used in the last interval, in clock ticks.
    pub cpu_usage: u64,
    pub memory_kb: u64,
}

/// The CPU use of `pid` in the map, 0 where it has none.
pub open spec fn cpu_or_zero(cpu: Map<u32, u64>, pid: u32) -> u64 {
    if cpu.contains_key(pid) {
        cpu[pid]
    } else {
        0
    }
}

/// The row of `pid` in the table.
pub open spec fn view_of(procs: Map<u32, ProcessSnapshot>, cpu: Map<u32, u64>, pid: u32) -> ProcessView {
    ProcessView {
        pid,
        name: procs[pid].name,
        cpu_usage: cpu_or_zero(cpu, pid),
        memory_kb: procs[pid].memory_kb,
    }
}

/// `out` holds the row of every process exactly once, in order of
/// non-increasing CPU use.
pub open spec fn is_view_table(
    procs: Map<u32, ProcessSnapshot>,
    cpu: Map<u32, u64>,
    out: Seq<ProcessView>,
) -> bool {
    &&& forall|i: int, j: int| 0 <= i < j < out.len() ==> (#[trigger] out[i]).pid != (#[trigger] out[j]).pid
    &&& forall|i: int| 0 <= i < out.len() ==> procs.contains_key((#[trigger] out[i]).pid) && out[i] == view_of(procs, cpu, out[i].pid)
    &&& forall|pid: u32| #[trigger] procs.contains_key(pid) ==> exists|i: int| 0 <= i < out.len() && (#[trigger] out[i]).pid == pid
    &&& forall|i: int, j: int| 0 <= i < j < out.len() ==> (#[trigger] out[i]).cpu_usage >= (#[trigger] out[j]).cpu_usage
}

/// The table of the processes, with their CPU use from `cpu_map` (0 where
/// a process has none), busiest first.
pub fn build_view(processes: &HashMap<u32, ProcessSnapshot>, cpu_map: &HashMap<u32, u64>) -> (r: Vec<ProcessView>)
    ensures
        is_view_table(processes@, cpu_map@, r@),
{
    let snaps = snapshots_from_frame(processes, cpu_map);
    let ghost fs = frame_snapshots(processes@, cpu_map@);
    let (order, _) = listing(&snaps, &SortMode::Cpu, None);
    let mut out: Vec<ProcessView> = Vec::new();
    let mut i: usize = 0;
    while i < order.len()
        invariant
            i <= order@.len(),
            snaps@ == fs,
            fs == frame_snapshots(processes@, cpu_map@),
            order@.no_duplicates(),
            forall|k: u32| #[trigger] order@.contains(k) <==> snaps@.contains_key(k),
            forall|a: int, b: int| 0 <= a < b < order@.len() ==> snaps@[#[trigger] order@[a]].cpu_usage >= snaps@[#[trigger] order@[b]].cpu_usage,
            out@.len() == i,
            forall|a: int| 0 <= a < i ==> (#[trigger] out@[a]) == view_of(processes@, cpu_map@, order@[a]),
        decreases order@.len() - i,
    {
        let k = order[i];
        assert(order@.contains(k));
        let s = snaps.get(&k).unwrap();
        out.push(ProcessView { pid: k, name: s.name.clone(), cpu_usage: s.cpu_usage, memory_kb: s.memory_kb });
        i += 1;
    }
    proof {
        assert forall|pid: u32| #[trigger] processes@.contains_key(pid) implies exists|a: int| 0 <= a < out@.len() && (#[trigger] out@[a]).pid == pid by {
            assert(snaps@.contains_key(pid));
            assert(order@.contains(pid));
            let a = choose|a: int| 0 <= a < order@.len() && order@[a] == pid;
            assert(out@[a].pid == pid);
        }
        assert forall|a: int, b: int| 0 <= a < b < out@.len() implies (#[trigger] out@[a]).pid != (#[trigger] out@[b]).pid by {
            assert(out@[a].pid == order@[a] && out@[b].pid == order@[b]);
        }
        assert forall|a: int, b: int| 0 <= a < b < out@.len() implies (#[trigger] out@[a]).cpu_usage >= (#[trigger] out@[b]).cpu_usage by {
            assert(order@.contains(order@[a]) && order@.contains(order@[b]));
            assert(out@[a].cpu_usage == snaps@[order@[a]].cpu_usage);
            assert(out@[b].cpu_usage == snaps@[order@[b]].cpu_usage);
        }
        assert forall|a: int| 0 <= a < out@.len() implies processes@.contains_key((#[trigger] out@[a]).pid) && out@[a] == view_of(processes@, cpu_map@, out@[a].pid) by {
            assert(order@.contains(order@[a]));
        }
    }
    out
}

} // verus!
