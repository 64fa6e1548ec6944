//! CPU accounting between two samples of per-process CPU times.
use vstd::prelude::*;
use std::collections::HashMap;
use vstd::std_specs::hash::spec_hash_map_iter;
use vstd::std_specs::iter::IteratorSpec;

verus! {

broadcast use vstd::std_specs::hash::group_hash_axioms;

/// The system CPU time and the CPU time of each process at one instant.
pub struct SystemSnapshot {
    pub total_cpu: u64,
    pub processes: HashMap<u32, u64>,
}

/// `a - b`, or 0 where `b` exceeds `a` (`u64::saturating_sub`).
pub open spec fn sat_sub(a: u64, b: u64) -> u64 {
    if a >= b {
        (a - b) as u64
    } else {
        0
    }
}

/// The CPU time each process used between the samples, for every process
/// present in both (0 where its time went down), provided that the system
/// CPU time grew. A process's share is this value over the growth of the
/// system CPU time, `sat_sub(curr.total_cpu, prev.total_cpu)`.
pub open spec fn usage_deltas(prev: Map<u32, u64>, prev_total: u64, curr: Map<u32, u64>, curr_total: u64) -> Map<u32, u64> {
    Map::new(
        |pid: u32| sat_sub(curr_total, prev_total) > 0 && curr.contains_key(pid) && prev.contains_key(pid),
        |pid: u32| sat_sub(curr[pid], prev[pid]),
    )
}

/// The CPU time each process used between two samples (see
/// [`usage_deltas`]).
pub fn compute_cpu_usage(prev: &SystemSnapshot, curr: &SystemSnapshot) -> (r: HashMap<u32, u64>)
    ensures
        r@ == usage_deltas(prev.processes@, prev.total_cpu, curr.processes@, curr.total_cpu),
{
    let mut usage: HashMap<u32, u64> = HashMap::new();
    let ghost target = usage_deltas(prev.processes@, prev.total_cpu, curr.processes@, curr.total_cpu);
    let total_delta = curr.total_cpu.saturating_sub(prev.total_cpu);
    if total_delta == 0 {
        assert(usage@ =~= target);
        return usage;
    }
    let ghost entries = spec_hash_map_iter(&curr.processes).remaining();
    for kv in it: curr.processes.iter()
        invariant
            total_delta > 0,
            total_delta == sat_sub(curr.total_cpu, prev.total_cpu),
            it.seq() == entries,
            entries == spec_hash_map_iter(&curr.processes).remaining(),
            target == usage_deltas(prev.processes@, prev.total_cpu, curr.processes@, curr.total_cpu),
            forall|pid: u32|
                #[trigger] usage@.contains_key(pid) ==> target.contains_key(pid) && usage@[pid]
                    == target[pid],
            forall|pid: u32|
                #[trigger] target.contains_key(pid) ==> (usage@.contains_key(pid) <==> exists|j: int|
                    0 <= j < it.index() && *entries[j].0 == pid),
    {
        let (pid, t) = kv;
        match prev.processes.get(pid) {
            Some(p) => {
                usage.insert(*pid, t.saturating_sub(*p));
            },
            None => {},
        }
        proof {
            assert forall|q: u32| #[trigger] target.contains_key(q) implies (usage@.contains_key(q)
                <==> exists|j: int| 0 <= j < it.index() + 1 && *entries[j].0 == q) by {
                if q == *pid {
                    assert(*entries[it.index() as int].0 == q);
                }
            }
        }
    }
    proof {
        assert forall|pid: u32| #[trigger] target.contains_key(pid) implies usage@.contains_key(pid) by {
            let c = curr.processes@[pid];
            assert(entries.contains((&pid, &c)));
            let j = choose|j: int| 0 <= j < entries.len() && entries[j] == (&pid, &c);
            assert(*entries[j].0 == pid);
        }
    }
    assert(usage@ =~= target);
    usage
}

/// `sat_sub(a, b)` is the amount by which `a` exceeds `b`, and 0 where it
/// does not.
pub proof fn lemma_sat_sub(a: u64, b: u64)
    ensures
        a >= b ==> sat_sub(a, b) + b == a,
        a < b ==> sat_sub(a, b) == 0,
{
}

/// A process gets a CPU entry exactly where it is present in both samples
/// and the system CPU time grew; the entry is the growth of its CPU time,
/// or 0 where its time went down.
pub proof fn lemma_usage_deltas(prev: Map<u32, u64>, prev_total: u64, curr: Map<u32, u64>, curr_total: u64, pid: u32)
    ensures
        usage_deltas(prev, prev_total, curr, curr_total).contains_key(pid) <==> (curr_total > prev_total
            && curr.contains_key(pid) && prev.contains_key(pid)),
        usage_deltas(prev, prev_total, curr, curr_total).contains_key(pid) && curr[pid] >= prev[pid] ==> usage_deltas(
            prev,
            prev_total,
            curr,
            curr_total,
        )[pid] + prev[pid] == curr[pid],
        usage_deltas(prev, prev_total, curr, curr_total).contains_key(pid) && curr[pid] < prev[pid] ==> usage_deltas(
            prev,
            prev_total,
            curr,
            curr_total,
        )[pid] == 0,
{
}

} // verus!
