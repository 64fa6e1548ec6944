//! The interface's state and how ticks, traces and input change it.
use vstd::prelude::*;
use std::collections::{HashMap, VecDeque};
use crate::common::{TraceEvent, EVENT_EXEC, trim_nul_bytes, utf8_lossy};
use crate::system::model::{
    distinct_names, entries_map, lemma_entries_map_dom, lemma_entries_map_value, NetworkStats,
    ProcessSnapshot, RowSpec, Share, SortMode, TelemetryFrame, ViewMode, ViewRow,
};
use crate::system::snapshot::sat_sub;
use crate::system::state;
use crate::tui::projection::{container_rows, flat_rows, is_group_order, is_listing, project_view, projection_of, query_view, rows_view};
use crate::text::{lemma_lex_asymmetric, lemma_lex_irreflexive, lemma_lex_total, lemma_lex_transitive, lex_less, lex_lt, to_chars};
use vstd::std_specs::hash::spec_hash_map_iter;
use vstd::std_specs::iter::IteratorSpec;

verus! {

broadcast use {vstd::std_specs::hash::group_hash_axioms, vstd::std_specs::vecdeque::group_vec_dequeue_axioms};

/// Points kept of each telemetry history.
pub const MAX_HISTORY_POINTS: usize = 200;

/// Trace events kept in the trace log.
pub const TRACE_LOG_CAPACITY: usize = 500;

/// The lenses of the interface.
#[derive(Clone, Copy, PartialEq, Eq, Debug, Structural)]
pub enum Tab {
    Fleet,
    Ekg,
    Sentinel,
    Trace,
}

/// What typed characters do.
#[derive(Clone, Copy, PartialEq, Eq, Debug, Structural)]
pub enum InputMode {
    Normal,
    Filter,
    Confirm,
}

/// Whether a traced process started or ended.
#[derive(Clone, Copy, PartialEq, Eq, Debug, Structural)]
pub enum TraceEventKind {
    Exec,
    Exit,
}

/// A trace event as the trace lens shows it.
#[derive(Clone, Debug)]
pub struct TraceEventView {
    pub pid: u32,
    pub kind: TraceEventKind,
    pub comm: String,
}

/// The kind of an event type: `EVENT_EXEC` is an exec, anything else an exit.
pub open spec fn kind_of(event_type: u32) -> TraceEventKind {
    if event_type == EVENT_EXEC {
        TraceEventKind::Exec
    } else {
        TraceEventKind::Exit
    }
}

impl TraceEventView {
    /// The view of an event: its pid, its kind, and its command name without
    /// trailing NULs, decoded as UTF-8 with invalid sequences replaced.
    pub fn from(event: TraceEvent) -> (r: TraceEventView)
        ensures
            r.pid == event.pid,
            r.kind == kind_of(event.event_type),
            r.comm@ == utf8_lossy(trim_nul_bytes(event.comm@)),
    {
        let kind = if event.event_type == EVENT_EXEC {
            TraceEventKind::Exec
        } else {
            TraceEventKind::Exit
        };
        TraceEventView { pid: event.pid, kind, comm: event.comm_lossy() }
    }
}

/// `h` after pushing `x` onto a window of `cap` points: the oldest point
/// leaves where the window is full.
pub open spec fn window_push<T>(h: Seq<T>, x: T, cap: nat) -> Seq<T> {
    if h.len() >= cap {
        h.drop_first().push(x)
    } else {
        h.push(x)
    }
}

/// Pushes `x` onto the window `h` of `cap` points.
pub fn push_bounded<T>(h: &mut VecDeque<T>, x: T, cap: usize)
    requires
        cap > 0,
    ensures
        final(h)@ == window_push(old(h)@, x, cap as nat),
        final(h)@.len() == if old(h)@.len() >= cap { old(h)@.len() } else { old(h)@.len() + 1 },
        final(h)@ == old(h)@.push(x).subrange(
            old(h)@.len() + 1 - final(h)@.len(),
            (old(h)@.len() + 1) as int,
        ),
{
    if h.len() >= cap {
        h.pop_front();
    }
    h.push_back(x);
}

/// The filter applies exactly when the query is not empty, and is then the
/// query itself.
pub proof fn lemma_query_of(q: Seq<char>)
    ensures
        q.len() == 0 ==> query_of(q) is None,
        q.len() > 0 ==> query_of(q) == Some(q),
{
}

/// Pushing onto a window of at most `cap` points keeps the newest
/// `min(cap, len + 1)` points of the window followed by the new point: the
/// oldest point leaves a full window, and the others keep their order.
pub proof fn lemma_window_push_keeps_newest<T>(h: Seq<T>, x: T, cap: nat)
    requires
        cap > 0,
        h.len() <= cap,
    ensures
        window_push(h, x, cap).len() == if h.len() + 1 <= cap { h.len() + 1 } else { cap },
        forall|i: int|
            0 <= i < window_push(h, x, cap).len() ==> #[trigger] window_push(h, x, cap)[i] == h.push(x)[h.len()
                + 1 - window_push(h, x, cap).len() + i],
{
    let r = window_push(h, x, cap);
    if h.len() >= cap {
        assert forall|i: int| 0 <= i < r.len() implies #[trigger] r[i] == h.push(x)[h.len() + 1 - r.len() + i] by {
            if i < r.len() - 1 {
                assert(r[i] == h[i + 1]);
            }
        }
    }
}

/// A window that holds at most `cap` points keeps doing so, and holds the
/// last point pushed.
pub proof fn lemma_window_push_bounded<T>(h: Seq<T>, x: T, cap: nat)
    requires
        cap > 0,
        h.len() <= cap,
    ensures
        window_push(h, x, cap).len() <= cap,
        window_push(h, x, cap).last() == x,
        h.len() < cap ==> window_push(h, x, cap) == h.push(x),
{
}

/// The interface's state.
pub struct AppState {
    /// The processes of the last tick, keyed by pid.
    pub snapshots: HashMap<u32, ProcessSnapshot>,
    /// System CPU time of the last tick's interval: the whole of which each
    /// snapshot's `cpu_usage` is a part.
    pub cpu_total: u64,
    /// The rows of the process view.
    pub view_pipeline: Vec<ViewRow>,
    pub view_mode: ViewMode,
    pub sort_mode: SortMode,
    /// The selected row.
    pub selected: Option<usize>,
    pub active_tab: Tab,
    pub input_mode: InputMode,
    /// Ticks and traces are ignored while paused.
    pub paused: bool,
    pub show_help: bool,
    pub filter_query: String,
    /// The process that the selected row shows.
    pub target_pid: Option<u32>,
    /// The last signal failure to report.
    pub error_message: Option<String>,
    pub global_cpu_history: VecDeque<Share>,
    pub global_mem_history: VecDeque<Share>,
    /// Sectors read and written per tick, once a previous total is known.
    pub disk_read_history: VecDeque<u64>,
    pub disk_write_history: VecDeque<u64>,
    pub prev_network: NetworkStats,
    pub prev_disk_read: u64,
    pub prev_disk_write: u64,
    /// For each interface present on the last two ticks, in name order: the
    /// bytes received and transmitted between them.
    pub current_speeds: Vec<(String, u64, u64)>,
    /// The latest trace events, oldest first.
    pub trace_log: VecDeque<TraceEventView>,
}

/// The histories hold at most [`MAX_HISTORY_POINTS`] points and the trace
/// log at most [`TRACE_LOG_CAPACITY`] events.
pub open spec fn buffers_bounded(s: AppState) -> bool {
    &&& s.global_cpu_history@.len() <= MAX_HISTORY_POINTS
    &&& s.global_mem_history@.len() <= MAX_HISTORY_POINTS
    &&& s.disk_read_history@.len() <= MAX_HISTORY_POINTS
    &&& s.disk_write_history@.len() <= MAX_HISTORY_POINTS
    &&& s.trace_log@.len() <= TRACE_LOG_CAPACITY
}

/// The filter that the query gives: none where it is empty.
pub open spec fn query_of(q: Seq<char>) -> Option<Seq<char>> {
    if q.len() == 0 {
        None
    } else {
        Some(q)
    }
}

/// The selection after the rows change: cleared where there are no rows,
/// moved to the last row where it is past it, and set to the first row where
/// there was none.
pub open spec fn clamp_selection(sel: Option<usize>, len: nat) -> Option<usize> {
    match sel {
        Some(s) => if len == 0 {
            None
        } else if s >= len {
            Some((len - 1) as usize)
        } else {
            Some(s)
        },
        None => if len > 0 {
            Some(0)
        } else {
            None
        },
    }
}

/// The rows of the state are the process view of its snapshots.
pub open spec fn pipeline_fresh(s: AppState) -> bool {
    projection_of(s.snapshots@, s.view_mode, s.sort_mode, query_of(s.filter_query@), s.view_pipeline@)
}

/// Everything but the view, the selection and the controls is the same.
pub open spec fn same_data(a: AppState, b: AppState) -> bool {
    &&& a.snapshots == b.snapshots
    &&& a.cpu_total == b.cpu_total
    &&& a.global_cpu_history == b.global_cpu_history
    &&& a.global_mem_history == b.global_mem_history
    &&& a.disk_read_history == b.disk_read_history
    &&& a.disk_write_history == b.disk_write_history
    &&& a.prev_network == b.prev_network
    &&& a.prev_disk_read == b.prev_disk_read
    &&& a.prev_disk_write == b.prev_disk_write
    &&& a.current_speeds == b.current_speeds
    &&& a.trace_log == b.trace_log
}

/// The controls are the same.
pub open spec fn same_controls(a: AppState, b: AppState) -> bool {
    &&& a.view_mode == b.view_mode
    &&& a.sort_mode == b.sort_mode
    &&& a.active_tab == b.active_tab
    &&& a.input_mode == b.input_mode
    &&& a.paused == b.paused
    &&& a.show_help == b.show_help
    &&& a.filter_query == b.filter_query
    &&& a.target_pid == b.target_pid
    &&& a.error_message == b.error_message
}

/// With no processes, no rows are the process view, whatever the mode.
proof fn lemma_nothing_projects_to_no_rows()
    ensures
        forall|m: ViewMode|
            projection_of(Map::<u32, ProcessSnapshot>::empty(), m, SortMode::Cpu, None, Seq::<ViewRow>::empty()),
{
    let snaps = Map::<u32, ProcessSnapshot>::empty();
    let order = Seq::<u32>::empty();
    let gids = Seq::<Seq<char>>::empty();
    assert(is_listing(snaps, None, SortMode::Cpu, order));
    assert(rows_view(Seq::<ViewRow>::empty()) =~= flat_rows(snaps, order));
    assert(is_group_order(snaps, SortMode::Cpu, order, gids));
    assert(rows_view(Seq::<ViewRow>::empty()) =~= container_rows(snaps, order, gids));
}

/// The interface's snapshots of a tick's processes: each keeps its pid, parent,
/// name and memory, takes its CPU use from the tick's CPU map (0 where
/// absent), and has no container.
pub open spec fn frame_snapshots(
    procs: Map<u32, state::ProcessSnapshot>,
    cpu: Map<u32, u64>,
) -> Map<u32, ProcessSnapshot> {
    Map::new(
        |pid: u32| procs.contains_key(pid),
        |pid: u32|
            ProcessSnapshot {
                pid,
                ppid: procs[pid].ppid,
                name: procs[pid].name,
                cpu_usage: if cpu.contains_key(pid) {
                    cpu[pid]
                } else {
                    0
                },
                memory_kb: procs[pid].memory_kb,
                container_id: None,
            },
    )
}

/// The speeds list the interfaces present on both ticks, each once, in
/// name order, with the growth of their byte counters (0 where a counter
/// went down).
pub open spec fn speeds_of(
    curr: Map<Seq<char>, crate::system::model::InterfaceSnapshot>,
    prev: Map<Seq<char>, crate::system::model::InterfaceSnapshot>,
    speeds: Seq<(String, u64, u64)>,
) -> bool {
    &&& forall|i: int, j: int| 0 <= i < j < speeds.len() ==> lex_lt((#[trigger] speeds[i]).0@, (#[trigger] speeds[j]).0@)
    &&& forall|i: int|
        0 <= i < speeds.len() ==> {
            let n = (#[trigger] speeds[i]).0@;
            &&& curr.contains_key(n)
            &&& prev.contains_key(n)
            &&& speeds[i].1 == sat_sub(curr[n].rx_bytes, prev[n].rx_bytes)
            &&& speeds[i].2 == sat_sub(curr[n].tx_bytes, prev[n].tx_bytes)
        }
    &&& forall|n: Seq<char>|
        #[trigger] curr.contains_key(n) && prev.contains_key(n) ==> exists|i: int|
            0 <= i < speeds.len() && (#[trigger] speeds[i]).0@ == n
}

pub(crate) fn snapshots_from_frame(
    procs: &HashMap<u32, state::ProcessSnapshot>,
    cpu: &HashMap<u32, u64>,
) -> (r: HashMap<u32, ProcessSnapshot>)
    ensures
        r@ == frame_snapshots(procs@, cpu@),
{
    let mut out: HashMap<u32, ProcessSnapshot> = HashMap::new();
    let ghost target = frame_snapshots(procs@, cpu@);
    let ghost entries = spec_hash_map_iter(procs).remaining();
    for kv in it: procs.iter()
        invariant
            it.seq() == entries,
            entries == spec_hash_map_iter(procs).remaining(),
            target == frame_snapshots(procs@, cpu@),
            forall|pid: u32|
                #[trigger] out@.contains_key(pid) ==> target.contains_key(pid) && out@[pid] == target[pid],
            forall|pid: u32|
                #[trigger] target.contains_key(pid) ==> (out@.contains_key(pid) <==> exists|j: int|
                    0 <= j < it.index() && *entries[j].0 == pid),
    {
        let (pid, p) = kv;
        let c = match cpu.get(pid) {
            Some(v) => *v,
            None => 0,
        };
        out.insert(
            *pid,
            ProcessSnapshot {
                pid: *pid,
                ppid: p.ppid,
                name: p.name.clone(),
                cpu_usage: c,
                memory_kb: p.memory_kb,
                container_id: None,
            },
        );
        proof {
            assert forall|q: u32| #[trigger] target.contains_key(q) implies (out@.contains_key(q)
                <==> exists|j: int| 0 <= j < it.index() + 1 && *entries[j].0 == q) by {
                if q == *pid {
                    assert(*entries[it.index() as int].0 == q);
                }
            }
        }
    }
    proof {
        assert forall|pid: u32| #[trigger] target.contains_key(pid) implies out@.contains_key(pid) by {
            let c = procs@[pid];
            assert(entries.contains((&pid, &c)));
            let j = choose|j: int| 0 <= j < entries.len() && entries[j] == (&pid, &c);
            assert(*entries[j].0 == pid);
        }
    }
    assert(out@ =~= target);
    out
}

/// The names are in strictly increasing order.
pub open spec fn sorted_names(s: Seq<(String, u64, u64)>) -> bool {
    forall|i: int, j: int| 0 <= i < j < s.len() ==> lex_lt((#[trigger] s[i]).0@, (#[trigger] s[j]).0@)
}

fn insert_named(out: &mut Vec<(String, u64, u64)>, e: (String, u64, u64)) -> (pos: usize)
    requires
        sorted_names(old(out)@),
        forall|i: int| 0 <= i < old(out)@.len() ==> (#[trigger] old(out)@[i]).0@ != e.0@,
    ensures
        pos <= old(out)@.len(),
        final(out)@ == old(out)@.insert(pos as int, e),
        sorted_names(final(out)@),
{
    let nchars = to_chars(e.0.as_str());
    let mut pos: usize = 0;
    while pos < out.len() && !lex_less(&nchars, &to_chars(out[pos].0.as_str()))
        invariant
            pos <= out@.len(),
            nchars@ == e.0@,
            forall|i: int| 0 <= i < pos ==> !lex_lt(e.0@, (#[trigger] out@[i]).0@),
        decreases out@.len() - pos,
    {
        pos += 1;
    }
    let ghost old_out = out@;
    proof {
        assert forall|i: int| 0 <= i < pos implies lex_lt((#[trigger] old_out[i]).0@, e.0@) by {
            lemma_lex_total(old_out[i].0@, e.0@);
        }
        if pos < old_out.len() {
            assert(lex_lt(e.0@, old_out[pos as int].0@));
            assert forall|i: int| pos <= i < old_out.len() implies lex_lt(e.0@, (#[trigger] old_out[i]).0@) by {
                if i > pos {
                    lemma_lex_transitive(e.0@, old_out[pos as int].0@, old_out[i].0@);
                }
            }
        }
    }
    out.insert(pos, e);
    proof {
        old_out.insert_ensures(pos as int, e);
        assert forall|i: int, j: int| 0 <= i < j < out@.len() implies lex_lt((#[trigger] out@[i]).0@, (#[trigger] out@[j]).0@) by {
            if i != pos && j != pos {
                let oi = if i < pos { i } else { i - 1 };
                let oj = if j < pos { j } else { j - 1 };
                assert(out@[i] == old_out[oi] && out@[j] == old_out[oj]);
                if i < pos && j > pos {
                    lemma_lex_transitive(old_out[oi].0@, e.0@, old_out[oj].0@);
                }
            } else if i == pos {
                assert(out@[j] == old_out[j - 1]);
            } else {
                assert(out@[i] == old_out[i]);
            }
        }
    }
    pos
}

/// The entry of interface `e.0` is right: it is present on both ticks and
/// carries the growth of its counters.
pub open spec fn speed_entry_ok(
    curr: Map<Seq<char>, crate::system::model::InterfaceSnapshot>,
    prev: Map<Seq<char>, crate::system::model::InterfaceSnapshot>,
    e: (String, u64, u64),
) -> bool {
    &&& curr.contains_key(e.0@)
    &&& prev.contains_key(e.0@)
    &&& e.1 == sat_sub(curr[e.0@].rx_bytes, prev[e.0@].rx_bytes)
    &&& e.2 == sat_sub(curr[e.0@].tx_bytes, prev[e.0@].tx_bytes)
}

/// The speeds of the first `t` interfaces of `ifs`: right, named after one of
/// them, and one for each that is present on the previous tick.
pub open spec fn speeds_upto(
    curr: Map<Seq<char>, crate::system::model::InterfaceSnapshot>,
    prev: Map<Seq<char>, crate::system::model::InterfaceSnapshot>,
    ifs: Seq<(String, crate::system::model::InterfaceSnapshot)>,
    t: int,
    out: Seq<(String, u64, u64)>,
) -> bool {
    &&& sorted_names(out)
    &&& forall|i: int| 0 <= i < out.len() ==> speed_entry_ok(curr, prev, #[trigger] out[i])
    &&& forall|i: int| 0 <= i < out.len() ==> exists|j: int| 0 <= j < t && (#[trigger] ifs[j]).0@ == (#[trigger] out[i]).0@
    &&& forall|j: int| 0 <= j < t && prev.contains_key((#[trigger] ifs[j]).0@) ==> exists|i: int|
        0 <= i < out.len() && (#[trigger] out[i]).0@ == ifs[j].0@
}

proof fn lemma_speed_fresh_name(
    curr: Map<Seq<char>, crate::system::model::InterfaceSnapshot>,
    prev: Map<Seq<char>, crate::system::model::InterfaceSnapshot>,
    ifs: Seq<(String, crate::system::model::InterfaceSnapshot)>,
    t: int,
    out: Seq<(String, u64, u64)>,
)
    requires
        0 <= t < ifs.len(),
        distinct_names(ifs),
        speeds_upto(curr, prev, ifs, t, out),
    ensures
        forall|i: int| 0 <= i < out.len() ==> (#[trigger] out[i]).0@ != ifs[t].0@,
{
    assert forall|i: int| 0 <= i < out.len() implies (#[trigger] out[i]).0@ != ifs[t].0@ by {
        let j = choose|j: int| 0 <= j < t && (#[trigger] ifs[j]).0@ == out[i].0@;
        assert(ifs[j].0@ != ifs[t].0@);
    }
}

proof fn lemma_speed_step(
    curr: Map<Seq<char>, crate::system::model::InterfaceSnapshot>,
    prev: Map<Seq<char>, crate::system::model::InterfaceSnapshot>,
    ifs: Seq<(String, crate::system::model::InterfaceSnapshot)>,
    t: int,
    old_out: Seq<(String, u64, u64)>,
    pos: int,
    e: (String, u64, u64),
    out: Seq<(String, u64, u64)>,
)
    requires
        0 <= t < ifs.len(),
        speeds_upto(curr, prev, ifs, t, old_out),
        0 <= pos <= old_out.len(),
        out == old_out.insert(pos, e),
        sorted_names(out),
        e.0@ == ifs[t].0@,
        speed_entry_ok(curr, prev, e),
    ensures
        speeds_upto(curr, prev, ifs, t + 1, out),
{
    old_out.insert_ensures(pos, e);
    assert forall|i: int| 0 <= i < out.len() implies speed_entry_ok(curr, prev, #[trigger] out[i]) by {
        if i != pos {
            let oi = if i < pos { i } else { i - 1 };
            assert(out[i] == old_out[oi]);
        }
    }
    assert forall|i: int| 0 <= i < out.len() implies exists|j: int| 0 <= j < t + 1 && (#[trigger] ifs[j]).0@ == (#[trigger] out[i]).0@ by {
        if i == pos {
            assert(ifs[t].0@ == out[i].0@);
        } else {
            let oi = if i < pos { i } else { i - 1 };
            assert(out[i] == old_out[oi]);
            let j = choose|j: int| 0 <= j < t && (#[trigger] ifs[j]).0@ == old_out[oi].0@;
            assert(ifs[j].0@ == out[i].0@);
        }
    }
    assert forall|j: int| 0 <= j < t + 1 && prev.contains_key((#[trigger] ifs[j]).0@) implies exists|i: int|
        0 <= i < out.len() && (#[trigger] out[i]).0@ == ifs[j].0@ by {
        if j == t {
            assert(out[pos].0@ == ifs[j].0@);
        } else {
            let i = choose|i: int| 0 <= i < old_out.len() && (#[trigger] old_out[i]).0@ == ifs[j].0@;
            if i < pos {
                assert(out[i] == old_out[i]);
            } else {
                assert(out[i + 1] == old_out[i]);
            }
        }
    }
}

proof fn lemma_speed_skip(
    curr: Map<Seq<char>, crate::system::model::InterfaceSnapshot>,
    prev: Map<Seq<char>, crate::system::model::InterfaceSnapshot>,
    ifs: Seq<(String, crate::system::model::InterfaceSnapshot)>,
    t: int,
    out: Seq<(String, u64, u64)>,
)
    requires
        0 <= t < ifs.len(),
        speeds_upto(curr, prev, ifs, t, out),
        !prev.contains_key(ifs[t].0@),
    ensures
        speeds_upto(curr, prev, ifs, t + 1, out),
{
    assert forall|i: int| 0 <= i < out.len() implies exists|j: int| 0 <= j < t + 1 && (#[trigger] ifs[j]).0@ == (#[trigger] out[i]).0@ by {
        let j = choose|j: int| 0 <= j < t && (#[trigger] ifs[j]).0@ == out[i].0@;
        assert(ifs[j].0@ == out[i].0@);
    }
}

proof fn lemma_speeds_done(
    curr: &NetworkStats,
    prev: Map<Seq<char>, crate::system::model::InterfaceSnapshot>,
    out: Seq<(String, u64, u64)>,
)
    requires
        speeds_upto(curr@, prev, curr.interfaces@, curr.interfaces@.len() as int, out),
    ensures
        speeds_of(curr@, prev, out),
{
    let ifs = curr.interfaces@;
    assert forall|i: int| 0 <= i < out.len() implies {
        let n = (#[trigger] out[i]).0@;
        &&& curr@.contains_key(n)
        &&& prev.contains_key(n)
        &&& out[i].1 == sat_sub(curr@[n].rx_bytes, prev[n].rx_bytes)
        &&& out[i].2 == sat_sub(curr@[n].tx_bytes, prev[n].tx_bytes)
    } by {
        assert(speed_entry_ok(curr@, prev, out[i]));
    }
    assert forall|n: Seq<char>| #[trigger] curr@.contains_key(n) && prev.contains_key(n) implies exists|i: int|
        0 <= i < out.len() && (#[trigger] out[i]).0@ == n by {
        lemma_entries_map_dom(ifs, n);
        let j = choose|j: int| 0 <= j < ifs.len() && (#[trigger] ifs[j]).0@ == n;
    }
}

fn interface_speeds(curr: &NetworkStats, prev: &NetworkStats) -> (r: Vec<(String, u64, u64)>)
    requires
        curr.wf(),
        prev.wf(),
    ensures
        speeds_of(curr@, prev@, r@),
{
    let mut out: Vec<(String, u64, u64)> = Vec::new();
    let ghost ifs = curr.interfaces@;
    let mut t: usize = 0;
    while t < curr.interfaces.len()
        invariant
            t <= ifs.len(),
            ifs == curr.interfaces@,
            curr.wf(),
            prev.wf(),
            speeds_upto(curr@, prev@, ifs, t as int, out@),
        decreases ifs.len() - t,
    {
        let name = &curr.interfaces[t].0;
        let snap = &curr.interfaces[t].1;
        proof {
            lemma_entries_map_value(ifs, t as int);
        }
        match prev.get(name) {
            Some(p) => {
                let rx = snap.rx_bytes.saturating_sub(p.rx_bytes);
                let tx = snap.tx_bytes.saturating_sub(p.tx_bytes);
                let ghost old_out = out@;
                proof {
                    lemma_speed_fresh_name(curr@, prev@, ifs, t as int, old_out);
                }
                let e = (name.clone(), rx, tx);
                let ghost ge = e;
                let pos = insert_named(&mut out, e);
                proof {
                    lemma_speed_step(curr@, prev@, ifs, t as int, old_out, pos as int, ge, out@);
                }
            },
            None => {
                proof {
                    lemma_speed_skip(curr@, prev@, ifs, t as int, out@);
                }
            },
        }
        t += 1;
    }
    proof {
        lemma_speeds_done(curr, prev@, out@);
    }
    out
}

impl AppState {
    /// The state at start: no processes, flat view by CPU, the Fleet tab,
    /// the first row selected, and empty histories.
    pub fn new() -> (r: AppState)
        ensures
            r.snapshots@ == Map::<u32, ProcessSnapshot>::empty(),
            r.view_pipeline@.len() == 0,
            r.view_mode == ViewMode::Flat,
            r.sort_mode == SortMode::Cpu,
            r.selected == Some(0usize),
            r.active_tab == Tab::Fleet,
            r.input_mode == InputMode::Normal,
            !r.paused,
            !r.show_help,
            r.filter_query@.len() == 0,
            r.target_pid is None,
            r.error_message is None,
            r.global_cpu_history@.len() == 0,
            r.global_mem_history@.len() == 0,
            r.disk_read_history@.len() == 0,
            r.disk_write_history@.len() == 0,
            r.prev_network.wf(),
            r.prev_network@ == Map::<Seq<char>, crate::system::model::InterfaceSnapshot>::empty(),
            r.prev_disk_read == 0,
            r.prev_disk_write == 0,
            r.current_speeds@.len() == 0,
            r.trace_log@.len() == 0,
            buffers_bounded(r),
            pipeline_fresh(r),
    {
        proof {
            lemma_nothing_projects_to_no_rows();
        }
        AppState {
            snapshots: HashMap::new(),
            cpu_total: 0,
            view_pipeline: Vec::new(),
            view_mode: ViewMode::Flat,
            sort_mode: SortMode::Cpu,
            selected: Some(0),
            active_tab: Tab::Fleet,
            input_mode: InputMode::Normal,
            paused: false,
            show_help: false,
            filter_query: String::new(),
            target_pid: None,
            error_message: None,
            global_cpu_history: VecDeque::new(),
            global_mem_history: VecDeque::new(),
            disk_read_history: VecDeque::new(),
            disk_write_history: VecDeque::new(),
            prev_network: NetworkStats::new(),
            prev_disk_read: 0,
            prev_disk_write: 0,
            current_speeds: Vec::new(),
            trace_log: VecDeque::new(),
        }
    }

    /// Records a trace event, the oldest leaving once [`TRACE_LOG_CAPACITY`]
    /// are held; ignored while paused.
    pub fn apply_trace(&mut self, event: TraceEvent)
        ensures
            old(self).paused ==> *final(self) == *old(self),
            !old(self).paused ==> {
                &&& *final(self) == (AppState { trace_log: final(self).trace_log, ..*old(self) })
                &&& final(self).trace_log@.drop_last() == if old(self).trace_log@.len() >= TRACE_LOG_CAPACITY {
                    old(self).trace_log@.drop_first()
                } else {
                    old(self).trace_log@
                }
                &&& final(self).trace_log@.len() > 0
                &&& final(self).trace_log@.last().pid == event.pid
                &&& final(self).trace_log@.last().kind == kind_of(event.event_type)
                &&& final(self).trace_log@.last().comm@ == utf8_lossy(trim_nul_bytes(event.comm@))
            },
            buffers_bounded(*old(self)) ==> buffers_bounded(*final(self)),
            pipeline_fresh(*old(self)) ==> pipeline_fresh(*final(self)),
    {
        if self.paused {
            return;
        }
        let v = TraceEventView::from(event);
        let ghost old_log = self.trace_log@;
        push_bounded(&mut self.trace_log, v, TRACE_LOG_CAPACITY);
        proof {
            if old_log.len() <= TRACE_LOG_CAPACITY {
                lemma_window_push_bounded(old_log, v, TRACE_LOG_CAPACITY as nat);
            }
        }
        assert(self.trace_log@.drop_last() =~= if old_log.len() >= TRACE_LOG_CAPACITY {
            old_log.drop_first()
        } else {
            old_log
        });
    }
}

impl AppState {
    /// Projects the snapshots again into the rows of the process view and
    /// keeps the selection on a row (see [`clamp_selection`]).
    pub fn refresh_pipeline(&mut self)
        ensures
            same_data(*final(self), *old(self)),
            same_controls(*final(self), *old(self)),
            pipeline_fresh(*final(self)),
            final(self).selected == clamp_selection(old(self).selected, final(self).view_pipeline@.len()),
            final(self).selected is Some <==> final(self).view_pipeline@.len() > 0,
            final(self).selected matches Some(s) ==> s < final(self).view_pipeline@.len(),
            final(self).filter_query@.len() > 0 ==> projection_of(
                final(self).snapshots@,
                final(self).view_mode,
                final(self).sort_mode,
                Some(final(self).filter_query@),
                final(self).view_pipeline@,
            ),
            final(self).filter_query@.len() == 0 ==> projection_of(
                final(self).snapshots@,
                final(self).view_mode,
                final(self).sort_mode,
                None,
                final(self).view_pipeline@,
            ),
    {
        let rows = if self.filter_query.as_str().is_empty() {
            project_view(&self.snapshots, &self.view_mode, &self.sort_mode, None)
        } else {
            project_view(&self.snapshots, &self.view_mode, &self.sort_mode, Some(self.filter_query.as_str()))
        };
        self.view_pipeline = rows;
        let len = self.view_pipeline.len();
        match self.selected {
            Some(sel) => {
                if len == 0 {
                    self.selected = None;
                } else if sel >= len {
                    self.selected = Some(len - 1);
                }
            },
            None => {
                if len > 0 {
                    self.selected = Some(0);
                }
            },
        }
    }

    /// Takes in a tick's telemetry; ignored while paused. The snapshots become
    /// the tick's processes with their CPU use; the CPU and memory histories
    /// take the tick's utilisation; the disk histories take the sectors read
    /// and written since the last tick, once a previous total is known; the
    /// speeds become the byte counts moved since the last tick by the
    /// interfaces present on both; then the view is projected again.
    pub fn apply_tick(&mut self, frame: TelemetryFrame)
        requires
            old(self).prev_network.wf(),
            frame.network.wf(),
        ensures
            old(self).paused ==> *final(self) == *old(self),
            !old(self).paused ==> {
                &&& final(self).snapshots@ == frame_snapshots(frame.processes@, frame.cpu_map@)
                &&& final(self).cpu_total == frame.cpu_total
                &&& final(self).global_cpu_history@ == window_push(
                    old(self).global_cpu_history@,
                    frame.global_cpu_utilization,
                    MAX_HISTORY_POINTS as nat,
                )
                &&& final(self).global_mem_history@ == window_push(
                    old(self).global_mem_history@,
                    frame.global_mem_utilization,
                    MAX_HISTORY_POINTS as nat,
                )
                &&& (old(self).prev_disk_read > 0 || old(self).prev_disk_write > 0) ==> {
                    &&& final(self).disk_read_history@ == window_push(
                        old(self).disk_read_history@,
                        sat_sub(frame.disk_sectors_read, old(self).prev_disk_read),
                        MAX_HISTORY_POINTS as nat,
                    )
                    &&& final(self).disk_write_history@ == window_push(
                        old(self).disk_write_history@,
                        sat_sub(frame.disk_sectors_written, old(self).prev_disk_write),
                        MAX_HISTORY_POINTS as nat,
                    )
                }
                &&& !(old(self).prev_disk_read > 0 || old(self).prev_disk_write > 0) ==> {
                    &&& final(self).disk_read_history == old(self).disk_read_history
                    &&& final(self).disk_write_history == old(self).disk_write_history
                }
                &&& final(self).prev_disk_read == frame.disk_sectors_read
                &&& final(self).prev_disk_write == frame.disk_sectors_written
                &&& speeds_of(frame.network@, old(self).prev_network@, final(self).current_speeds@)
                &&& final(self).prev_network == frame.network
                &&& final(self).prev_network.wf()
                &&& final(self).trace_log == old(self).trace_log
                &&& same_controls(*final(self), *old(self))
                &&& pipeline_fresh(*final(self))
                &&& final(self).selected == clamp_selection(old(self).selected, final(self).view_pipeline@.len())
            },
            buffers_bounded(*old(self)) ==> buffers_bounded(*final(self)),
            pipeline_fresh(*old(self)) ==> pipeline_fresh(*final(self)),
    {
        if self.paused {
            return;
        }
        let ghost bounded_before = buffers_bounded(*self);
        self.snapshots = snapshots_from_frame(&frame.processes, &frame.cpu_map);
        self.cpu_total = frame.cpu_total;
        proof {
            if bounded_before {
                lemma_window_push_bounded(self.global_cpu_history@, frame.global_cpu_utilization, MAX_HISTORY_POINTS as nat);
                lemma_window_push_bounded(self.global_mem_history@, frame.global_mem_utilization, MAX_HISTORY_POINTS as nat);
            }
        }
        push_bounded(&mut self.global_cpu_history, frame.global_cpu_utilization, MAX_HISTORY_POINTS);
        push_bounded(&mut self.global_mem_history, frame.global_mem_utilization, MAX_HISTORY_POINTS);
        if self.prev_disk_read > 0 || self.prev_disk_write > 0 {
            let r_delta = frame.disk_sectors_read.saturating_sub(self.prev_disk_read);
            let w_delta = frame.disk_sectors_written.saturating_sub(self.prev_disk_write);
            proof {
                if bounded_before {
                    lemma_window_push_bounded(self.disk_read_history@, r_delta, MAX_HISTORY_POINTS as nat);
                    lemma_window_push_bounded(self.disk_write_history@, w_delta, MAX_HISTORY_POINTS as nat);
                }
            }
            push_bounded(&mut self.disk_read_history, r_delta, MAX_HISTORY_POINTS);
            push_bounded(&mut self.disk_write_history, w_delta, MAX_HISTORY_POINTS);
        }
        self.prev_disk_read = frame.disk_sectors_read;
        self.prev_disk_write = frame.disk_sectors_written;
        self.current_speeds = interface_speeds(&frame.network, &self.prev_network);
        self.prev_network = frame.network;
        self.refresh_pipeline();
    }

    /// The process that the selected row shows, where it shows one; the
    /// target is kept where nothing is selected.
    pub fn sync_target(&mut self)
        ensures
            *final(self) == (AppState { target_pid: final(self).target_pid, ..*old(self) }),
            final(self).target_pid == target_after(*old(self)),
            forall|i: usize, pid: u32, lvl: u8|
                old(self).selected == Some(i) && i < old(self).view_pipeline@.len()
                    && old(self).view_pipeline@[i as int] == (ViewRow::Process { pid: pid, indent_level: lvl })
                    ==> final(self).target_pid == Some(pid),
            forall|i: usize|
                old(self).selected == Some(i) && (i >= old(self).view_pipeline@.len()
                    || old(self).view_pipeline@[i as int] is ContainerHeader) ==> final(self).target_pid is None,
            old(self).selected is None ==> final(self).target_pid == old(self).target_pid,
    {
        if let Some(idx) = self.selected {
            if idx < self.view_pipeline.len() {
                match &self.view_pipeline[idx] {
                    ViewRow::Process { pid, .. } => {
                        self.target_pid = Some(*pid);
                    },
                    _ => {
                        self.target_pid = None;
                    },
                }
            } else {
                self.target_pid = None;
            }
        }
    }
}

/// States with the same data agree on the processes, the histories, the
/// network and disk counters, the speeds and the trace log.
pub proof fn lemma_same_data(a: AppState, b: AppState)
    requires
        same_data(a, b),
    ensures
        a.snapshots@ == b.snapshots@,
        a.cpu_total == b.cpu_total,
        a.global_cpu_history@ == b.global_cpu_history@,
        a.global_mem_history@ == b.global_mem_history@,
        a.disk_read_history@ == b.disk_read_history@,
        a.disk_write_history@ == b.disk_write_history@,
        a.prev_network@ == b.prev_network@,
        a.prev_disk_read == b.prev_disk_read,
        a.prev_disk_write == b.prev_disk_write,
        a.current_speeds@ == b.current_speeds@,
        a.trace_log@ == b.trace_log@,
{
}

/// Exec events are shown as exec, every other event type as an exit.
pub proof fn lemma_kind_of(event_type: u32)
    ensures
        event_type == EVENT_EXEC ==> kind_of(event_type) == TraceEventKind::Exec,
        event_type != EVENT_EXEC ==> kind_of(event_type) == TraceEventKind::Exit,
{
}

/// The snapshots of a tick are its processes, each under its own pid, with
/// its parent, name and memory, the CPU use the tick's map gives it (0 where
/// it gives none) and no container.
pub proof fn lemma_frame_snapshots(procs: Map<u32, state::ProcessSnapshot>, cpu: Map<u32, u64>, pid: u32)
    ensures
        frame_snapshots(procs, cpu).contains_key(pid) <==> procs.contains_key(pid),
        procs.contains_key(pid) ==> {
            let p = frame_snapshots(procs, cpu)[pid];
            &&& p.pid == pid
            &&& p.ppid == procs[pid].ppid
            &&& p.name == procs[pid].name
            &&& p.memory_kb == procs[pid].memory_kb
            &&& p.container_id is None
            &&& cpu.contains_key(pid) ==> p.cpu_usage == cpu[pid]
            &&& !cpu.contains_key(pid) ==> p.cpu_usage == 0
        },
{
}

/// Each speed is the growth of the interface's byte counters between the
/// ticks (received first, then transmitted; 0 where a counter went down),
/// the names come in strictly increasing order, and every interface present
/// on both ticks has its speed.
pub proof fn lemma_speeds(
    curr: Map<Seq<char>, crate::system::model::InterfaceSnapshot>,
    prev: Map<Seq<char>, crate::system::model::InterfaceSnapshot>,
    speeds: Seq<(String, u64, u64)>,
)
    requires
        speeds_of(curr, prev, speeds),
    ensures
        forall|i: int|
            0 <= i < speeds.len() ==> {
                let n = (#[trigger] speeds[i]).0@;
                &&& curr.contains_key(n) && prev.contains_key(n)
                &&& curr[n].rx_bytes >= prev[n].rx_bytes ==> speeds[i].1 + prev[n].rx_bytes == curr[n].rx_bytes
                &&& curr[n].rx_bytes < prev[n].rx_bytes ==> speeds[i].1 == 0
                &&& curr[n].tx_bytes >= prev[n].tx_bytes ==> speeds[i].2 + prev[n].tx_bytes == curr[n].tx_bytes
                &&& curr[n].tx_bytes < prev[n].tx_bytes ==> speeds[i].2 == 0
            },
        forall|i: int, j: int| 0 <= i < j < speeds.len() ==> (#[trigger] speeds[i]).0@ != (#[trigger] speeds[j]).0@,
        forall|n: Seq<char>|
            #[trigger] curr.contains_key(n) && prev.contains_key(n) ==> exists|i: int|
                0 <= i < speeds.len() && (#[trigger] speeds[i]).0@ == n,
{
    assert forall|i: int, j: int| 0 <= i < j < speeds.len() implies (#[trigger] speeds[i]).0@ != (#[trigger] speeds[j]).0@ by {
        lemma_lex_irreflexive(speeds[i].0@);
    }
}

/// The target follows a selected process row whatever its indent level,
/// is cleared on a header row or past the rows, and stays where nothing is
/// selected.
pub proof fn lemma_target_after(s: AppState)
    ensures
        forall|i: usize, pid: u32, lvl: u8|
            s.selected == Some(i) && i < s.view_pipeline@.len() && s.view_pipeline@[i as int] == (ViewRow::Process {
                pid: pid,
                indent_level: lvl,
            }) ==> target_after(s) == Some(pid),
        forall|i: usize|
            s.selected == Some(i) && (i >= s.view_pipeline@.len() || s.view_pipeline@[i as int] is ContainerHeader)
                ==> target_after(s) is None,
        s.selected is None ==> target_after(s) == s.target_pid,
{
}

/// The target once the selection has settled: the pid of the selected row
/// where it is a process row, none where it is a header or past the end, and
/// unchanged where nothing is selected.
pub open spec fn target_after(s: AppState) -> Option<u32> {
    match s.selected {
        Some(idx) => if idx < s.view_pipeline@.len() {
            match s.view_pipeline@[idx as int] {
                ViewRow::Process { pid, .. } => Some(pid),
                _ => None,
            }
        } else {
            None
        },
        None => s.target_pid,
    }
}

} // verus!
